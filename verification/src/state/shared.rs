//! Fixed-capacity arrays that can be split into disjoint segments, handed
//! out for independent processing, and joined back in order.
//!
//! A segment remembers the half-open range `start..end` of the parent
//! array it covers, so joining checks that the segments are adjacent and
//! reassembles them in positional order.  [`SArray`] holds copyable
//! values; [`SRefArray`] holds arbitrary values and hands them out by
//! reference.

use vstd::prelude::*;

use crate::threads::{lemma_piece_start_ordered, lemma_piece_start_step, lemma_piece_start_total, piece_start};

verus! {

/// A segment of a fixed-capacity array of `N` copyable values, covering
/// positions `start..end` of the full array.
#[derive(Debug)]
pub struct SArray<T, const N: usize> {
    pub data: Vec<T>,
    pub start: usize,
    pub end: usize,
}

impl<T: Copy, const N: usize> SArray<T, N> {
    /// The segment holds one value per covered position.
    pub open spec fn wf(&self) -> bool {
        &&& self.start <= self.end <= N
        &&& self.data@.len() == self.end - self.start
    }

    /// A full array with every position holding `v`.
    pub fn full(v: T) -> (s: Self)
        ensures
            s.wf(),
            s.start == 0,
            s.end == N,
            s.data@ == Seq::new(N as nat, |i: int| v),
    {
        let mut data: Vec<T> = Vec::new();
        let mut i: usize = 0;
        while i < N
            invariant
                i <= N,
                data@.len() == i,
                forall|q: int| 0 <= q < i ==> #[trigger] data@[q] == v,
            decreases N - i,
        {
            data.push(v);
            i += 1;
        }
        proof {
            assert(data@ =~= Seq::new(N as nat, |i: int| v));
        }
        SArray { data, start: 0, end: N }
    }

    /// The number of positions this segment covers.
    pub fn len(&self) -> (n: usize)
        requires
            self.wf(),
        ensures
            n == self.data@.len(),
    {
        self.end - self.start
    }

    /// The value at position `n` of the segment.
    pub fn get(&self, n: usize) -> (v: T)
        requires
            self.wf(),
            n < self.data@.len(),
        ensures
            v == self.data@[n as int],
    {
        self.data[n]
    }

    /// Replaces the value at position `n` of the segment.
    pub fn set(&mut self, n: usize, value: T)
        requires
            old(self).wf(),
            n < old(self).data@.len(),
        ensures
            final(self).wf(),
            final(self).start == old(self).start,
            final(self).end == old(self).end,
            final(self).data@ == old(self).data@.update(n as int, value),
    {
        self.data[n] = value;
    }
}

/// A segment of a fixed-capacity array of `N` values of any type,
/// covering positions `start..end` of the full array.
#[derive(Debug)]
pub struct SRefArray<T, const N: usize> {
    pub data: Vec<T>,
    pub start: usize,
    pub end: usize,
}

impl<T, const N: usize> SRefArray<T, N> {
    /// The segment holds one value per covered position.
    pub open spec fn wf(&self) -> bool {
        &&& self.start <= self.end <= N
        &&& self.data@.len() == self.end - self.start
    }

    /// A full array with every position holding a copy of `v`.
    pub fn full(v: T) -> (s: Self) where T: Copy
        ensures
            s.wf(),
            s.start == 0,
            s.end == N,
            s.data@ == Seq::new(N as nat, |i: int| v),
    {
        let mut data: Vec<T> = Vec::new();
        let mut i: usize = 0;
        while i < N
            invariant
                i <= N,
                data@.len() == i,
                forall|q: int| 0 <= q < i ==> #[trigger] data@[q] == v,
            decreases N - i,
        {
            data.push(v);
            i += 1;
        }
        proof {
            assert(data@ =~= Seq::new(N as nat, |i: int| v));
        }
        SRefArray { data, start: 0, end: N }
    }

    /// A reference to the value at position `n` of the segment.
    pub fn borrow(&self, n: usize) -> (r: &T)
        requires
            self.wf(),
            n < self.data@.len(),
        ensures
            *r == self.data@[n as int],
    {
        &self.data[n]
    }

    /// The value at position `n` of the segment, by clone.
    pub fn get(&self, n: usize) -> (v: T) where T: Copy
        requires
            self.wf(),
            n < self.data@.len(),
        ensures
            v == self.data@[n as int],
    {
        self.data[n]
    }

    /// Replaces the value at position `n` of the segment.
    pub fn set(&mut self, n: usize, v: T)
        requires
            old(self).wf(),
            n < old(self).data@.len(),
        ensures
            final(self).wf(),
            final(self).start == old(self).start,
            final(self).end == old(self).end,
            final(self).data@ == old(self).data@.update(n as int, v),
    {
        self.data[n] = v;
    }

    /// Puts `v` at position `n` and hands back the value that was there.
    pub fn replace(&mut self, n: usize, v: T) -> (prev: T)
        requires
            old(self).wf(),
            n < old(self).data@.len(),
        ensures
            final(self).wf(),
            final(self).start == old(self).start,
            final(self).end == old(self).end,
            prev == old(self).data@[n as int],
            final(self).data@ == old(self).data@.update(n as int, v),
    {
        let ghost before = self.data@;
        self.data.push(v);
        let prev = self.data.swap_remove(n);
        proof {
            assert(self.data@ =~= before.update(n as int, v));
        }
        prev
    }

    /// Exchanges the values at positions `n1` and `n2`.
    pub fn swap(&mut self, n1: usize, n2: usize)
        requires
            old(self).wf(),
            n1 < old(self).data@.len(),
            n2 < old(self).data@.len(),
        ensures
            final(self).wf(),
            final(self).start == old(self).start,
            final(self).end == old(self).end,
            final(self).data@ == old(self).data@.update(
                n1 as int,
                old(self).data@[n2 as int],
            ).update(n2 as int, old(self).data@[n1 as int]),
    {
        let ghost before = self.data@;
        if n1 == n2 {
            proof {
                assert(before.update(n1 as int, before[n2 as int]).update(
                    n2 as int,
                    before[n1 as int],
                ) =~= before);
            }
            return ;
        }
        let (lo, hi) = if n1 < n2 {
            (n1, n2)
        } else {
            (n2, n1)
        };
        let a = self.data.remove(lo);
        let b = self.data.remove(hi - 1);
        self.data.insert(lo, b);
        self.data.insert(hi, a);
        proof {
            assert(self.data@ =~= before.update(lo as int, before[hi as int]).update(
                hi as int,
                before[lo as int],
            ));
            assert(self.data@ =~= before.update(n1 as int, before[n2 as int]).update(
                n2 as int,
                before[n1 as int],
            ));
        }
    }
}

/// Length queries shared by the segment arrays.
pub trait SArrayLen {
    /// How many positions the segment covers.
    spec fn seg_len(&self) -> nat;

    /// Whether the segment covers no position.
    fn is_empty(&self) -> (b: bool)
        ensures
            b <==> self.seg_len() == 0,
    ;
}

impl<T: Copy, const N: usize> SArrayLen for SArray<T, N> {
    open spec fn seg_len(&self) -> nat {
        self.data@.len()
    }

    fn is_empty(&self) -> (b: bool) {
        self.data.len() == 0
    }
}

impl<T, const N: usize> SArrayLen for SRefArray<T, N> {
    open spec fn seg_len(&self) -> nat {
        self.data@.len()
    }

    fn is_empty(&self) -> (b: bool) {
        self.data.len() == 0
    }
}

/// Splitting a segment into adjacent sub-segments and joining them again:
/// the sub-segments partition the covered range in order, sizes differing
/// by at most one, and joining adjacent segments restores the original.
pub trait SArraySplit: Sized {
    /// First position the segment covers.
    spec fn seg_start(&self) -> int;

    /// One past the last position the segment covers.
    spec fn seg_end(&self) -> int;

    /// The segment is internally consistent.
    spec fn seg_ok(&self) -> bool;

    /// Cuts the segment into `n` adjacent sub-segments, in order.
    fn split(self, n: usize) -> (parts: Vec<Self>)
        requires
            self.seg_ok(),
            n >= 1,
        ensures
            parts@.len() == n,
            forall|i: int|
                0 <= i < n ==> (#[trigger] parts@[i]).seg_ok() && parts@[i].seg_start()
                    == self.seg_start() + piece_start(
                    self.seg_end() - self.seg_start(),
                    n as int,
                    i,
                ) && parts@[i].seg_end() == self.seg_start() + piece_start(
                    self.seg_end() - self.seg_start(),
                    n as int,
                    i + 1,
                ),
    ;

    /// Reassembles adjacent sub-segments, in order.
    fn join(v: Vec<Self>) -> (joined: Self)
        requires
            v@.len() >= 1,
            forall|i: int| 0 <= i < v@.len() ==> (#[trigger] v@[i]).seg_ok(),
            forall|i: int| 0 < i < v@.len() ==> (#[trigger] v@[i]).seg_start() == v@[i
                - 1].seg_end(),
        ensures
            joined.seg_ok(),
            joined.seg_start() == v@[0].seg_start(),
            joined.seg_end() == v@[v@.len() - 1].seg_end(),
    ;
}

impl<T: Copy, const N: usize> SArraySplit for SArray<T, N> {
    open spec fn seg_start(&self) -> int {
        self.start as int
    }

    open spec fn seg_end(&self) -> int {
        self.end as int
    }

    open spec fn seg_ok(&self) -> bool {
        self.wf()
    }

    /// Besides the boundary layout promised by the trait, the values of
    /// part `i` are exactly the corresponding slice of this segment; see
    /// [`SArray::split_values`].
    fn split(self, n: usize) -> (parts: Vec<Self>) {
        let ghost orig = self.data@;
        let ghost sstart = self.start as int;
        let start = self.start;
        let len = self.data.len();
        let mut rest = self.data;
        let mut parts: Vec<SArray<T, N>> = Vec::new();
        let mut k: usize = 0;
        let mut offset: usize = start;
        proof {
            assert(piece_start(len as int, n as int, 0) == 0) by {
                vstd::arithmetic::mul::lemma_mul_basics(len as int / (n as int));
                vstd::arithmetic::div_mod::lemma_mod_bound(len as int, n as int);
            }
            assert(rest@ =~= orig.subrange(0, len as int));
        }
        while k < n
            invariant
                n >= 1,
                k <= n,
                orig.len() == len,
                start + len <= N,
                offset == start + piece_start(len as int, n as int, k as int),
                rest@ == orig.subrange(piece_start(len as int, n as int, k as int), len as int),
                parts@.len() == k,
                forall|i: int|
                    0 <= i < k ==> (#[trigger] parts@[i]).wf() && parts@[i].start == start
                        + piece_start(len as int, n as int, i) && parts@[i].end == start
                        + piece_start(len as int, n as int, i + 1) && parts@[i].data@
                        == orig.subrange(
                        piece_start(len as int, n as int, i),
                        piece_start(len as int, n as int, i + 1),
                    ),
            decreases n - k,
        {
            proof {
                lemma_piece_start_ordered(len as int, n as int, 0, k as int);
                lemma_piece_start_ordered(len as int, n as int, k as int, k as int + 1);
                lemma_piece_start_ordered(len as int, n as int, k as int + 1, n as int);
                lemma_piece_start_step(len as int, n as int, k as int);
            }
            let ghost lo = piece_start(len as int, n as int, k as int);
            let ghost hi = piece_start(len as int, n as int, k as int + 1);
            let ghost rv0 = rest@;
            let psize = {
                let q = len / n;
                let r = len % n;
                if k < r {
                    q + 1
                } else {
                    q
                }
            };
            proof {
                assert(psize == hi - lo);
            }
            let tail = rest.split_off(psize);
            proof {
                assert(rest@ =~= orig.subrange(lo, hi));
                assert(tail@ =~= orig.subrange(hi, len as int));
            }
            let part = SArray { data: rest, start: offset, end: offset + psize };
            parts.push(part);
            rest = tail;
            offset += psize;
            k += 1;
        }
        proof {
            lemma_piece_start_total(len as int, n as int);
        }
        parts
    }

    /// Besides the boundary layout promised by the trait, the joined
    /// values are the concatenation of the parts' values; see
    /// [`SArray::join_values`].
    fn join(v: Vec<Self>) -> (joined: Self) {
        let ghost sv = v@;
        let mut v = v;
        let total = v.len();
        let first = v.remove(0);
        let start = first.start;
        let mut end = first.end;
        let mut data = first.data;
        let mut i: usize = 1;
        while i < total
            invariant
                total == sv.len(),
                1 <= i <= total,
                forall|q: int| 0 <= q < sv.len() ==> (#[trigger] sv[q]).wf(),
                forall|q: int| 0 < q < sv.len() ==> (#[trigger] sv[q]).start == sv[q - 1].end,
                v@.len() == total - i,
                forall|q: int| 0 <= q < total - i ==> v@[q] == sv[q + i],
                start == sv[0].start,
                end == sv[i - 1].end,
                start <= end <= N,
                data@.len() == end - start,
            decreases total - i,
        {
            let part = v.remove(0);
            proof {
                assert(part == sv[i as int]);
            }
            end = part.end;
            let mut pdata = part.data;
            data.append(&mut pdata);
            i += 1;
        }
        SArray { data, start, end }
    }
}

impl<T: Copy, const N: usize> SArray<T, N> {
    /// The value slices produced by [`SArraySplit::split`] on a segment
    /// with these values: part `i` of `n` holds slice `i` of the piece
    /// partition.
    pub open spec fn split_values(values: Seq<T>, n: int, i: int) -> Seq<T> {
        values.subrange(
            piece_start(values.len() as int, n, i),
            piece_start(values.len() as int, n, i + 1),
        )
    }

    /// The values produced by [`SArraySplit::join`]: the concatenation of
    /// the parts' values in order.
    pub open spec fn join_values(parts: Seq<Seq<T>>) -> Seq<T> {
        parts.flatten()
    }
}

} // verus!
