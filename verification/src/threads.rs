//! Generic work partitioning and recombination.
//!
//! A splittable value is cut into `n` contiguous parts whose sizes differ by
//! at most one ([`RangeSplitter`]); each part is tagged with its position
//! ([`SplitPart`]) so that results computed in any order can be reassembled
//! deterministically ([`SplitPart::join`]).  A [`WorkerPool`] bundles `n`
//! interchangeable processors with this split/tag/join cycle; it states the
//! exact value of its combined result, so pools compose with each other and
//! with plain processors.  Thread dispatch itself is left to the embedding
//! program: the pool here fixes what every schedule must produce.

use vstd::prelude::*;
use vstd::seq_lib::lemma_flatten_concat;

verus! {

/// Size of the `i`-th of `n` parts of a range of length `len`: the first
/// `len % n` parts get one extra element.
pub open spec fn piece_size(len: int, n: int, i: int) -> int {
    len / n + if i < len % n {
        1int
    } else {
        0int
    }
}

/// Offset at which the `i`-th of `n` parts of a range of length `len` starts.
pub open spec fn piece_start(len: int, n: int, i: int) -> int {
    i * (len / n) + if i < len % n {
        i
    } else {
        len % n
    }
}

/// Consecutive pieces are adjacent: each part starts where the previous ends.
pub proof fn lemma_piece_start_step(len: int, n: int, i: int)
    requires
        n >= 1,
        len >= 0,
        0 <= i,
    ensures
        piece_start(len, n, i + 1) == piece_start(len, n, i) + piece_size(len, n, i),
{
    assert((i + 1) * (len / n) == i * (len / n) + len / n) by (nonlinear_arith);
}

/// The pieces of a length-`len` range cover it exactly: the `n`-th start is `len`.
pub proof fn lemma_piece_start_total(len: int, n: int)
    requires
        n >= 1,
        len >= 0,
    ensures
        piece_start(len, n, n) == len,
{
    vstd::arithmetic::div_mod::lemma_fundamental_div_mod(len, n);
    assert(n * (len / n) == (len / n) * n) by (nonlinear_arith);
    assert(len % n < n) by {
        vstd::arithmetic::div_mod::lemma_mod_bound(len, n);
    }
}

/// Piece starts grow with the index and never pass `len`.
pub proof fn lemma_piece_start_ordered(len: int, n: int, i: int, j: int)
    requires
        n >= 1,
        len >= 0,
        0 <= i <= j <= n,
    ensures
        0 <= piece_start(len, n, i) <= piece_start(len, n, j) <= len,
{
    vstd::arithmetic::div_mod::lemma_div_is_ordered(0, len, n);
    vstd::arithmetic::mul::lemma_mul_inequality(i, j, len / n);
    vstd::arithmetic::mul::lemma_mul_is_commutative(i, len / n);
    vstd::arithmetic::mul::lemma_mul_is_commutative(j, len / n);
    lemma_piece_start_total(len, n);
    vstd::arithmetic::mul::lemma_mul_inequality(j, n, len / n);
    vstd::arithmetic::mul::lemma_mul_is_commutative(n, len / n);
    vstd::arithmetic::div_mod::lemma_mod_bound(len, n);
}

/// The `n` contiguous pieces of a sequence, in order.
pub open spec fn seq_pieces<A>(v: Seq<A>, n: int) -> Seq<Seq<A>> {
    Seq::new(n as nat, |i: int| v.subrange(piece_start(v.len() as int, n, i), piece_start(v.len() as int, n, i + 1)))
}

/// Concatenating the first `k` pieces of `v` yields the prefix of `v` up to
/// the `k`-th piece boundary.
proof fn lemma_seq_pieces_prefix<A>(v: Seq<A>, n: int, k: int)
    requires
        n >= 1,
        0 <= k <= n,
    ensures
        seq_pieces(v, n).subrange(0, k).flatten() == v.subrange(0, piece_start(v.len() as int, n, k)),
    decreases k,
{
    let len = v.len() as int;
    if k == 0 {
        assert(seq_pieces(v, n).subrange(0, 0) =~= Seq::<Seq<A>>::empty());
        assert(v.subrange(0, 0) =~= Seq::<A>::empty());
    } else {
        lemma_seq_pieces_prefix(v, n, k - 1);
        lemma_piece_start_ordered(len, n, 0, k - 1);
        lemma_piece_start_ordered(len, n, k - 1, k);
        lemma_piece_start_ordered(len, n, k, n);
        let pieces = seq_pieces(v, n);
        let single = seq![pieces[k - 1]];
        assert(pieces.subrange(0, k) =~= pieces.subrange(0, k - 1) + single);
        lemma_flatten_concat(pieces.subrange(0, k - 1), single);
        single.lemma_flatten_one_element();
        assert(pieces.subrange(0, k).flatten() == pieces.subrange(0, k - 1).flatten()
            + pieces[k - 1]);
        lemma_piece_start_step(len, n, k - 1);
        assert(v.subrange(0, piece_start(len, n, k - 1)) + v.subrange(
            piece_start(len, n, k - 1),
            piece_start(len, n, k),
        ) =~= v.subrange(0, piece_start(len, n, k)));
    }
}

/// Splitting a sequence into `n` pieces and concatenating them again gives
/// back the original sequence.
pub proof fn lemma_seq_pieces_flatten<A>(v: Seq<A>, n: int)
    requires
        n >= 1,
    ensures
        seq_pieces(v, n).flatten() == v,
{
    let len = v.len() as int;
    lemma_seq_pieces_prefix(v, n, n);
    lemma_piece_start_total(len, n);
    assert(seq_pieces(v, n).subrange(0, n) =~= seq_pieces(v, n));
    assert(v.subrange(0, len) =~= v);
}

/// Enumerates the `n` contiguous subranges of `start..end` whose sizes are
/// `(end - start) / n`, with the remainder spread one each over the first
/// parts.
pub struct RangeSplitter {
    pub i: usize,
    pub n: usize,
    pub offset: usize,
    pub length: usize,
    pub size: usize,
    pub plus_ones: usize,
    pub bounds: Ghost<(int, int)>,
}

impl RangeSplitter {
    pub open spec fn inv(&self) -> bool {
        let start = self.bounds@.0;
        let end = self.bounds@.1;
        let len = end - start;
        &&& 0 <= start <= end <= usize::MAX
        &&& 1 <= self.n
        &&& 0 <= self.i <= self.n
        &&& self.offset == start + piece_start(len, self.n as int, self.i as int)
        &&& self.size == len / (self.n as int)
        &&& self.plus_ones == if self.i < len % (self.n as int) {
            len % (self.n as int) - self.i
        } else {
            0int
        }
        &&& self.length == len - piece_start(len, self.n as int, self.i as int)
    }

    /// Prepares to cut `start..end` into `n` parts.
    pub fn split(start: usize, end: usize, n: usize) -> (s: Self)
        requires
            start <= end,
            n >= 1,
        ensures
            s.inv(),
            s.i == 0,
            s.n == n,
            s.bounds@ == (start as int, end as int),
    {
        let s = Self {
            i: 0,
            n,
            offset: start,
            length: end - start,
            size: (end - start) / n,
            plus_ones: (end - start) % n,
            bounds: Ghost((start as int, end as int)),
        };
        proof {
            let len = end - start;
            vstd::arithmetic::div_mod::lemma_mod_bound(len as int, n as int);
        }
        s
    }

    /// Hands out the ranges one by one, in order.
    fn next_range(&mut self) -> (r: (usize, usize))
        requires
            old(self).inv(),
            old(self).i < old(self).n,
        ensures
            final(self).inv(),
            final(self).i == old(self).i + 1,
            final(self).n == old(self).n,
            final(self).bounds == old(self).bounds,
            r.0 == old(self).bounds@.0 + piece_start(
                old(self).bounds@.1 - old(self).bounds@.0,
                old(self).n as int,
                old(self).i as int,
            ),
            r.1 == old(self).bounds@.0 + piece_start(
                old(self).bounds@.1 - old(self).bounds@.0,
                old(self).n as int,
                old(self).i as int + 1,
            ),
    {
        proof {
            let start = self.bounds@.0;
            let end = self.bounds@.1;
            let len = end - start;
            lemma_piece_start_step(len, self.n as int, self.i as int);
            lemma_piece_start_ordered(len, self.n as int, 0, self.i as int);
            lemma_piece_start_ordered(len, self.n as int, self.i as int + 1, self.n as int);
        }
        self.i += 1;
        let mut size = self.size;
        if self.plus_ones > 0 {
            size += 1;
            self.plus_ones -= 1;
        }
        let range = (self.offset, self.offset + size);
        self.offset += size;
        self.length -= size;
        range
    }

    /// Collects all `n` ranges into a vector.
    pub fn ranges(self) -> (rs: Vec<(usize, usize)>)
        requires
            self.inv(),
            self.i == 0,
        ensures
            rs.len() == self.n,
            forall|k: int|
                0 <= k < self.n ==> #[trigger] rs@[k] == (
                    (self.bounds@.0 + piece_start(self.bounds@.1 - self.bounds@.0, self.n as int, k)) as usize,
                    (self.bounds@.0 + piece_start(self.bounds@.1 - self.bounds@.0, self.n as int, k + 1)) as usize,
                ),
    {
        let ghost start = self.bounds@.0;
        let ghost end = self.bounds@.1;
        let mut s = self;
        let mut rs: Vec<(usize, usize)> = Vec::new();
        let n = s.n;
        while s.i < n
            invariant
                s.inv(),
                s.n == n,
                s.bounds@ == (start, end),
                rs.len() == s.i,
                forall|k: int|
                    0 <= k < s.i ==> #[trigger] rs@[k] == (
                        (start + piece_start(end - start, n as int, k)) as usize,
                        (start + piece_start(end - start, n as int, k + 1)) as usize,
                    ),
            decreases n - s.i,
        {
            let r = s.next_range();
            rs.push(r);
        }
        rs
    }
}

/// Connects a vector's element-wise view to the views of its elements.
pub proof fn vec_deep_facts<T: DeepView>(v: &Vec<T>)
    ensures
        v.deep_view().len() == v@.len(),
        forall|i: int| 0 <= i < v@.len() ==> #[trigger] v.deep_view()[i] == v@[i].deep_view(),
{
    assert(v.deep_view() =~= Seq::new(v@.len(), |i: int| v@[i].deep_view()));
}

/// A value that can be cut into `n` ordered parts.
///
/// The two spec functions fix, at the level of the mathematical views, which
/// splits are allowed and exactly what the parts hold; `split_to_vec` is then
/// pinned to that description.
pub trait Split: DeepView + Sized {
    /// Whether the value described by `v` may be cut into `n` parts.
    spec fn split_pre(v: Self::V, n: int) -> bool;

    /// The views of the `n` parts, in order.
    spec fn split_view(v: Self::V, n: int) -> Seq<Self::V>;

    /// Cuts `self` into exactly `n` parts.
    fn split_to_vec(self, n: usize) -> (parts: Vec<Self>)
        requires
            n >= 1,
            Self::split_pre(self.deep_view(), n as int),
        ensures
            parts.deep_view().len() == n,
            parts.deep_view() == Self::split_view(self.deep_view(), n as int),
    ;

    /// Cuts `self` into `n` parts, each tagged with its position.
    fn to_parts(self, n: usize) -> (parts: Vec<SplitPart<Self>>)
        requires
            n >= 1,
            Self::split_pre(self.deep_view(), n as int),
        ensures
            parts.deep_view().len() == n,
            forall|i: int|
                0 <= i < n ==> #[trigger] parts.deep_view()[i] == (
                    i,
                    Self::split_view(self.deep_view(), n as int)[i],
                ),
    {
        let ghost v = self.deep_view();
        let pieces = self.split_to_vec(n);
        let mut tagged: Vec<SplitPart<Self>> = Vec::new();
        let mut pieces = pieces;
        let mut i: usize = 0;
        proof {
            vec_deep_facts(&pieces);
            vec_deep_facts(&tagged);
        }
        while i < n
            invariant
                pieces.deep_view().len() == n - i,
                forall|j: int|
                    0 <= j < n - i ==> pieces.deep_view()[j] == Self::split_view(v, n as int)[j
                        + i],
                tagged.deep_view().len() == i,
                i <= n,
                forall|j: int|
                    0 <= j < i ==> #[trigger] tagged.deep_view()[j] == (
                        j,
                        Self::split_view(v, n as int)[j],
                    ),
            decreases n - i,
        {
            let ghost pdeep0 = pieces.deep_view();
            let ghost pview0 = pieces@;
            let ghost tview0 = tagged@;
            let ghost tdeep0 = tagged.deep_view();
            proof {
                vec_deep_facts(&pieces);
                assert(pdeep0[0] == pview0[0].deep_view());
            }
            let piece = pieces.remove(0);
            let tag = SplitPart::new(piece, i);
            tagged.push(tag);
            let ghost iold = i as int;
            i += 1;
            proof {
                vec_deep_facts(&pieces);
                vec_deep_facts(&tagged);
                assert forall|j: int| 0 <= j < n - i implies pieces.deep_view()[j]
                    == Self::split_view(v, n as int)[j + i] by {
                    assert(pieces@[j] == pview0[j + 1]);
                    assert(pdeep0[j + 1] == pview0[j + 1].deep_view());
                }
                assert forall|j: int| 0 <= j < i implies #[trigger] tagged.deep_view()[j] == (
                    j,
                    Self::split_view(v, n as int)[j],
                ) by {
                    if j < iold {
                        assert(tagged@[j] == tview0[j]);
                        assert(tdeep0[j] == tview0[j].deep_view());
                    } else {
                        assert(tagged@[j] == tag);
                        assert(piece.deep_view() == pdeep0[0]);
                    }
                }
            }
        }
        tagged
    }
}

/// A value that can be reassembled from ordered parts.
pub trait Join: DeepView + Sized {
    /// Whether the parts described by `parts` fit together.
    spec fn joinable(parts: Seq<Self::V>) -> bool;

    /// The view of the reassembled value.
    spec fn join_view(parts: Seq<Self::V>) -> Self::V;

    /// Concatenates the parts, in the order given.
    fn join_vec(parts: Vec<Self>) -> (joined: Self)
        requires
            parts.deep_view().len() >= 1,
            Self::joinable(parts.deep_view()),
        ensures
            joined.deep_view() == Self::join_view(parts.deep_view()),
    ;
}

impl<T: DeepView> Split for Vec<T> {
    open spec fn split_pre(v: Seq<T::V>, n: int) -> bool {
        true
    }

    open spec fn split_view(v: Seq<T::V>, n: int) -> Seq<Seq<T::V>> {
        seq_pieces(v, n)
    }

    fn split_to_vec(self, n: usize) -> (parts: Vec<Self>) {
        let ghost orig = self.deep_view();
        let ghost olen = orig.len() as int;
        let len = self.len();
        let rs = RangeSplitter::split(0, len, n).ranges();
        let mut parts: Vec<Vec<T>> = Vec::new();
        let mut rest = self;
        let mut k: usize = 0;
        proof {
            vec_deep_facts(&rest);
            assert(piece_start(olen, n as int, 0) == 0);
            assert(orig.subrange(0, olen) =~= orig);
        }
        while k < n
            invariant
                n >= 1,
                k <= n,
                olen == orig.len(),
                olen <= usize::MAX,
                rs.len() == n,
                forall|i: int|
                    0 <= i < n ==> #[trigger] rs@[i] == (
                        piece_start(olen, n as int, i) as usize,
                        piece_start(olen, n as int, i + 1) as usize,
                    ),
                parts.deep_view().len() == k,
                0 <= piece_start(olen, n as int, k as int) <= olen,
                forall|i: int|
                    0 <= i < k ==> #[trigger] parts.deep_view()[i] == seq_pieces(orig, n as int)[i],
                rest.deep_view() == orig.subrange(piece_start(olen, n as int, k as int), olen),
            decreases n - k,
        {
            proof {
                lemma_piece_start_ordered(olen, n as int, 0, k as int);
                lemma_piece_start_ordered(olen, n as int, k as int, k as int + 1);
                lemma_piece_start_ordered(olen, n as int, k as int + 1, n as int);
            }
            let (a, b) = rs[k];
            let ghost ps_k = piece_start(olen, n as int, k as int);
            let ghost ps_k1 = piece_start(olen, n as int, k as int + 1);
            let ghost rdeep0 = rest.deep_view();
            let ghost rview0 = rest@;
            let ghost parts_deep0 = parts.deep_view();
            let ghost parts_view0 = parts@;
            proof {
                vec_deep_facts(&rest);
                assert(a as int == ps_k);
                assert(b as int == ps_k1);
                assert(rdeep0.len() == olen - ps_k);
                assert(rest@.len() == olen - ps_k);
            }
            let size = b - a;
            let tail = rest.split_off(size);
            let ghost rdeep = rest.deep_view();
            proof {
                vec_deep_facts(&rest);
                vec_deep_facts(&tail);
                assert forall|j: int| 0 <= j < size implies rdeep[j] == orig[ps_k + j] by {
                    assert(rest@[j] == rview0[j]);
                    assert(rdeep0[j] == rview0[j].deep_view());
                    assert(rdeep0[j] == orig.subrange(ps_k, olen)[j]);
                }
                assert(rdeep =~= orig.subrange(ps_k, ps_k1));
                assert(rdeep == seq_pieces(orig, n as int)[k as int]);
                assert forall|j: int| 0 <= j < olen - ps_k1 implies tail.deep_view()[j] == orig[
                    ps_k1 + j] by {
                    assert(tail@[j] == rview0[j + size]);
                    assert(rdeep0[j + size] == rview0[j + size].deep_view());
                    assert(rdeep0[j + size] == orig.subrange(ps_k, olen)[j + size]);
                }
                assert(tail.deep_view() =~= orig.subrange(ps_k1, olen));
            }
            parts.push(rest);
            rest = tail;
            k += 1;
            proof {
                vec_deep_facts(&parts);
                assert forall|i: int| 0 <= i < k implies #[trigger] parts.deep_view()[i]
                    == seq_pieces(orig, n as int)[i] by {
                    if i + 1 == k {
                        assert(parts.deep_view()[i] == parts@[i].deep_view());
                        assert(parts@[i].deep_view() == rdeep);
                    } else {
                        assert(parts@[i] == parts_view0[i]);
                        assert(parts_deep0[i] == parts_view0[i].deep_view());
                    }
                }
            }
        }
        proof {
            assert(parts.deep_view() =~= seq_pieces(orig, n as int));
        }
        parts
    }
}

impl<T: DeepView> Join for Vec<T> {
    open spec fn joinable(parts: Seq<Seq<T::V>>) -> bool {
        true
    }

    open spec fn join_view(parts: Seq<Seq<T::V>>) -> Seq<T::V> {
        parts.flatten()
    }

    fn join_vec(parts: Vec<Self>) -> (joined: Self) {
        let ghost sv = parts.deep_view();
        let mut parts = parts;
        let mut v: Vec<T> = Vec::new();
        let total_count = parts.len();
        let ghost total = total_count as int;
        proof {
            vec_deep_facts(&parts);
        }
        let mut i: usize = 0;
        while parts.len() > 0
            invariant
                total == sv.len(),
                total <= usize::MAX,
                i <= total,
                parts.deep_view().len() == total - i,
                forall|j: int| 0 <= j < total - i ==> parts.deep_view()[j] == sv[j + i],
                v.deep_view() == sv.subrange(0, i as int).flatten(),
            decreases parts.len(),
        {
            let ghost pdeep0 = parts.deep_view();
            let ghost pview0 = parts@;
            let ghost vdeep0 = v.deep_view();
            proof {
                vec_deep_facts(&parts);
                assert(parts.deep_view().len() > 0);
                assert(i < total);
                assert(pdeep0[0] == pview0[0].deep_view());
            }
            let mut p = parts.remove(0);
            let ghost iold = i as int;
            proof {
                vec_deep_facts(&parts);
                assert(p.deep_view() == sv[i as int]);
                let pre = sv.subrange(0, iold);
                let nxt = sv.subrange(0, iold + 1);
                assert(nxt =~= pre + seq![sv[iold]]);
                lemma_flatten_concat(pre, seq![sv[iold]]);
                seq![sv[iold]].lemma_flatten_one_element();
            }
            let ghost vview0 = v@;
            let ghost pd = p.deep_view();
            let ghost pv = p@;
            proof {
                vec_deep_facts(&v);
                vec_deep_facts(&p);
            }
            v.append(&mut p);
            i += 1;
            proof {
                vec_deep_facts(&v);
                assert forall|j: int| 0 <= j < total - i implies parts.deep_view()[j] == sv[j
                    + i] by {
                    assert(parts@[j] == pview0[j + 1]);
                    assert(pdeep0[j + 1] == pview0[j + 1].deep_view());
                }
                assert forall|j: int| 0 <= j < v@.len() implies v.deep_view()[j] == (vdeep0
                    + pd)[j] by {
                    if j < vview0.len() {
                        assert(v@[j] == vview0[j]);
                        assert(vdeep0[j] == vview0[j].deep_view());
                    } else {
                        assert(v@[j] == pv[j - vview0.len()]);
                        assert(pd[j - vview0.len()] == pv[j - vview0.len()].deep_view());
                    }
                }
                assert(v.deep_view() =~= vdeep0 + pd);
                assert(v.deep_view() =~= sv.subrange(0, i as int).flatten());
            }
        }
        proof {
            assert(sv.subrange(0, total) =~= sv);
        }
        v
    }
}

/// Marks a failed reassembly: the tags handed to [`SplitPart::join`] were
/// not exactly the positions `0..n`.
#[derive(Debug, Clone)]
pub struct JoinError;

/// One part of a split value, tagged with its position `n` in the original
/// order.
#[derive(Debug)]
pub struct SplitPart<T> {
    pub n: usize,
    pub part: T,
}

impl<T: DeepView> DeepView for SplitPart<T> {
    type V = (int, T::V);

    open spec fn deep_view(&self) -> (int, T::V) {
        (self.n as int, self.part.deep_view())
    }
}

/// Whether a batch of tagged parts carries each tag `0..len` exactly once.
pub open spec fn tags_valid<V>(sv: Seq<(int, V)>) -> bool {
    &&& sv.len() >= 1
    &&& forall|j: int| 0 <= j < sv.len() ==> 0 <= (#[trigger] sv[j]).0 < sv.len()
    &&& forall|j1: int, j2: int|
        0 <= j1 < j2 < sv.len() ==> (#[trigger] sv[j1]).0 != (#[trigger] sv[j2]).0
}

/// The part carrying tag `k`.
pub open spec fn part_with_tag<V>(sv: Seq<(int, V)>, k: int) -> V {
    sv[choose|j: int| 0 <= j < sv.len() && sv[j].0 == k].1
}

/// The parts rearranged into tag order.
pub open spec fn ordered_parts<V>(sv: Seq<(int, V)>) -> Seq<V> {
    Seq::new(sv.len(), |k: int| part_with_tag(sv, k))
}

/// Valid tags hit every position: each `k` below `len` is some part's tag.
proof fn lemma_tags_cover<V>(sv: Seq<(int, V)>, k: int)
    requires
        tags_valid(sv),
        0 <= k < sv.len(),
    ensures
        exists|j: int| 0 <= j < sv.len() && (#[trigger] sv[j]).0 == k,
{
    broadcast use vstd::set::group_set_axioms;

    let n = sv.len() as int;
    let tags = Seq::new(sv.len(), |j: int| sv[j].0);
    assert(tags.no_duplicates());
    tags.unique_seq_to_set();
    if !(exists|j: int| 0 <= j < sv.len() && (#[trigger] sv[j]).0 == k) {
        let small = vstd::set_lib::set_int_range(0, n).remove(k);
        assert forall|t: int| tags.to_set().contains(t) implies small.contains(t) by {
            let j = choose|j: int| 0 <= j < tags.len() && tags[j] == t;
            assert(sv[j].0 == t);
        }
        vstd::set_lib::lemma_int_range(0, n);
        vstd::set_lib::lemma_len_subset(tags.to_set(), small);
        assert(small.len() == n - 1);
        assert(false);
    }
}

impl<T: DeepView> SplitPart<T> {
    /// Wraps a part with its position tag.
    pub fn new(part: T, n: usize) -> (s: Self)
        ensures
            s.deep_view() == (n as int, part.deep_view()),
    {
        Self { part, n }
    }
}

impl<T: DeepView + Join> SplitPart<T> {
    /// Reassembles tagged parts, in tag order, regardless of the order in
    /// which they arrive.  Fails exactly when the tags are not a permutation
    /// of the positions `0..len`.
    pub fn join(splits: Vec<SplitPart<T>>) -> (r: Result<T, JoinError>)
        requires
            tags_valid(splits.deep_view()) ==> T::joinable(ordered_parts(splits.deep_view())),
        ensures
            match r {
                Ok(t) => tags_valid(splits.deep_view()) && t.deep_view() == T::join_view(
                    ordered_parts(splits.deep_view()),
                ),
                Err(_) => !tags_valid(splits.deep_view()),
            },
    {
        let ghost sv = splits.deep_view();
        let n = splits.len();
        if n == 0 {
            return Err(JoinError);
        }
        let mut remaining = splits;
        let mut slots: Vec<Option<T>> = Vec::new();
        let mut f: usize = 0;
        while f < n
            invariant
                slots.len() == f,
                f <= n,
                forall|q: int| 0 <= q < f ==> slots@[q] is None,
            decreases n - f,
        {
            slots.push(None);
            f += 1;
        }
        proof {
            vec_deep_facts(&remaining);
        }
        while remaining.len() > 0
            invariant
                n == sv.len(),
                slots.len() == n,
                sv == splits.deep_view(),
                remaining@.len() == remaining.deep_view().len(),
                remaining.deep_view().len() <= n,
                forall|j: int|
                    0 <= j < remaining.deep_view().len() ==> remaining.deep_view()[j] == sv[j],
                forall|j: int|
                    remaining.deep_view().len() <= j < n ==> 0 <= (#[trigger] sv[j]).0 < n,
                forall|j1: int, j2: int|
                    remaining.deep_view().len() <= j1 < j2 < n ==> (#[trigger] sv[j1]).0 != (
                    #[trigger] sv[j2]).0,
                forall|k: int|
                    0 <= k < n ==> ((slots@[k] is Some) <==> exists|j: int|
                        remaining.deep_view().len() <= j < n && (#[trigger] sv[j]).0 == k),
                forall|k: int|
                    0 <= k < n && slots@[k] is Some ==> exists|j: int|
                        remaining.deep_view().len() <= j < n && #[trigger] sv[j] == (
                            k,
                            slots@[k]->Some_0.deep_view(),
                        ),
            decreases remaining.len(),
        {
            let ghost m = remaining.deep_view().len() as int - 1;
            let ghost sdeep0 = remaining.deep_view();
            let ghost sview0 = remaining@;
            proof {
                vec_deep_facts(&remaining);
                assert(sdeep0[m] == sview0[m].deep_view());
            }
            let sp = match remaining.pop() {
                Some(sp) => sp,
                None => unreached(),
            };
            proof {
                vec_deep_facts(&remaining);
                assert(sp.deep_view() == sv[m]);
                assert(sv[m] == (sp.n as int, sp.part.deep_view()));
                assert forall|j: int| 0 <= j < m implies remaining.deep_view()[j] == sv[j] by {
                    assert(remaining@[j] == sview0[j]);
                    assert(sdeep0[j] == sview0[j].deep_view());
                }
            }
            if sp.n >= n {
                proof {
                    assert(sv[m].0 == sp.n as int);
                    assert(!(0 <= sv[m].0 < sv.len()));
                    assert(!tags_valid(sv));
                }
                return Err(JoinError);
            }
            let taken = slots[sp.n].is_some();
            if taken {
                proof {
                    assert(exists|j: int| m + 1 <= j < n && (#[trigger] sv[j]).0 == sp.n as int);
                    let j2 = choose|j: int| m + 1 <= j < n && (#[trigger] sv[j]).0 == sp.n as int;
                    assert(sv[m].0 == sp.n as int);
                    assert(sv[m].0 == sv[j2].0 && m < j2);
                    assert(!tags_valid(sv));
                }
                return Err(JoinError);
            }
            proof {
                assert forall|j2: int| m < j2 < n implies (#[trigger] sv[j2]).0 != sv[m].0 by {
                    if sv[j2].0 == sp.n as int {
                        assert(exists|j: int|
                            m + 1 <= j < n && (#[trigger] sv[j]).0 == sp.n as int);
                        assert(slots@[sp.n as int] is Some);
                    }
                }
            }
            slots[sp.n] = Some(sp.part);
            proof {
                assert forall|k: int|
                    0 <= k < n implies ((slots@[k] is Some) <==> exists|j: int|
                        m <= j < n && (#[trigger] sv[j]).0 == k) by {
                    if k == sp.n as int {
                        assert(sv[m].0 == k);
                    }
                }
            }
        }
        proof {
            assert(tags_valid(sv));
            assert forall|k: int| 0 <= k < n implies slots@[k] is Some by {
                lemma_tags_cover(sv, k);
            }
        }
        let mut out: Vec<T> = Vec::new();
        let mut slots = slots;
        let mut k: usize = 0;
        proof {
            vec_deep_facts(&out);
        }
        while k < n
            invariant
                sv == splits.deep_view(),
                n == sv.len(),
                tags_valid(sv),
                k <= n,
                slots.len() == n - k,
                forall|q: int|
                    0 <= q < n - k ==> ((#[trigger] slots@[q]) is Some && exists|j: int|
                        0 <= j < n && #[trigger] sv[j] == (q + k, slots@[q]->Some_0.deep_view())),
                out.deep_view().len() == k,
                forall|q: int|
                    0 <= q < k ==> #[trigger] out.deep_view()[q] == ordered_parts(sv)[q],
            decreases n - k,
        {
            let ghost slots_view0 = slots@;
            let ghost odeep0 = out.deep_view();
            let ghost oview0 = out@;
            let slot = slots.remove(0);
            let item = match slot {
                Some(t) => t,
                None => unreached(),
            };
            proof {
                assert(slot == slots_view0[0]);
                assert(exists|j: int|
                    0 <= j < n && #[trigger] sv[j] == (k as int, item.deep_view()));
                let j = choose|j: int|
                    0 <= j < n && #[trigger] sv[j] == (k as int, item.deep_view());
                let jc = choose|j: int| 0 <= j < sv.len() && sv[j].0 == k as int;
                if j != jc {
                    assert(sv[j].0 == sv[jc].0);
                    assert(false);
                }
                assert(part_with_tag(sv, k as int) == item.deep_view());
            }
            out.push(item);
            k += 1;
            proof {
                vec_deep_facts(&out);
                assert forall|q: int| 0 <= q < k implies #[trigger] out.deep_view()[q]
                    == ordered_parts(sv)[q] by {
                    if q + 1 == k {
                        assert(out@[q] == item);
                    } else {
                        assert(out@[q] == oview0[q]);
                        assert(odeep0[q] == oview0[q].deep_view());
                    }
                }
                assert forall|q: int|
                    0 <= q < n - k implies ((#[trigger] slots@[q]) is Some && exists|j: int|
                        0 <= j < n && #[trigger] sv[j] == (
                            q + k,
                            slots@[q]->Some_0.deep_view(),
                        )) by {
                    assert(slots@[q] == slots_view0[q + 1]);
                }
            }
        }
        proof {
            assert(out.deep_view() =~= ordered_parts(sv));
        }
        Ok(T::join_vec(out))
    }
}

/// A processor from `T` to `U` whose behaviour is fixed by a function on
/// the views: which inputs it accepts, and exactly what it returns.
pub trait Call<T: DeepView, U: DeepView> {
    /// Inputs this processor accepts, described by their views.
    spec fn call_pre(&self, t: T::V) -> bool;

    /// The view of the result, as a function of the input's view.
    spec fn call_view(&self, t: T::V) -> U::V;

    /// Processes one input.
    fn call(&self, t: T) -> (u: U)
        requires
            self.call_pre(t.deep_view()),
        ensures
            u.deep_view() == self.call_view(t.deep_view()),
    ;
}

/// A per-item processor lifted to whole vectors, one item at a time; built
/// by [`vectorize`].
pub struct Vectorized<C> {
    pub f: C,
}

/// Lifts `f` to a processor that maps a vector elementwise.
pub fn vectorize<T: DeepView, U: DeepView, C: Call<T, U>>(f: C) -> (v: Vectorized<C>)
    ensures
        v.f == f,
{
    Vectorized { f }
}

impl<T: DeepView, U: DeepView, C: Call<T, U>> Call<Vec<T>, Vec<U>> for Vectorized<C> {
    open spec fn call_pre(&self, ts: Seq<T::V>) -> bool {
        forall|i: int| 0 <= i < ts.len() ==> self.f.call_pre(#[trigger] ts[i])
    }

    open spec fn call_view(&self, ts: Seq<T::V>) -> Seq<U::V> {
        Seq::new(ts.len(), |i: int| self.f.call_view(ts[i]))
    }

    fn call(&self, t: Vec<T>) -> (u: Vec<U>) {
        let ghost tv = t.deep_view();
        let total_count = t.len();
        let ghost total = total_count as int;
        let mut items = t;
        let mut out: Vec<U> = Vec::new();
        let mut i: usize = 0;
        proof {
            vec_deep_facts(&items);
            vec_deep_facts(&out);
        }
        while items.len() > 0
            invariant
                tv == t.deep_view(),
                total == tv.len(),
                total <= usize::MAX,
                i <= total,
                items.deep_view().len() == total - i,
                forall|j: int| 0 <= j < total - i ==> items.deep_view()[j] == tv[j + i],
                out.deep_view().len() == i,
                forall|j: int|
                    0 <= j < i ==> #[trigger] out.deep_view()[j] == self.f.call_view(tv[j]),
                forall|j: int| 0 <= j < tv.len() ==> self.f.call_pre(#[trigger] tv[j]),
            decreases items.len(),
        {
            let ghost ideep0 = items.deep_view();
            let ghost iview0 = items@;
            let ghost odeep0 = out.deep_view();
            let ghost oview0 = out@;
            proof {
                vec_deep_facts(&items);
                assert(ideep0[0] == iview0[0].deep_view());
            }
            let item = items.remove(0);
            let res = self.f.call(item);
            out.push(res);
            i += 1;
            proof {
                vec_deep_facts(&items);
                vec_deep_facts(&out);
                assert forall|j: int| 0 <= j < total - i implies items.deep_view()[j] == tv[j
                    + i] by {
                    assert(items@[j] == iview0[j + 1]);
                    assert(ideep0[j + 1] == iview0[j + 1].deep_view());
                }
                assert forall|j: int| 0 <= j < i implies #[trigger] out.deep_view()[j]
                    == self.f.call_view(tv[j]) by {
                    if j + 1 == i {
                        assert(out@[j] == res);
                    } else {
                        assert(out@[j] == oview0[j]);
                        assert(odeep0[j] == oview0[j].deep_view());
                    }
                }
            }
        }
        proof {
            assert(out.deep_view() =~= self.call_view(tv));
        }
        out
    }
}

/// A fixed team of interchangeable processors together with the
/// split/tag/join cycle: input is cut into one part per processor, parts are
/// processed and tagged, and the tagged results are reassembled in order.
///
/// The combined result is stated exactly, so the order in which parts are
/// actually processed cannot matter; an embedding program may hand the parts
/// to persistent worker threads and feed the tagged results back through
/// [`SplitPart::join`] to the same effect.  A pool is itself a processor, so
/// pools nest.
pub struct WorkerPool<T, U, F> where T: DeepView, U: DeepView, F: Call<T, U> {
    pub workers: Vec<F>,
    pub io: core::marker::PhantomData<(T, U)>,
}

impl<T, U, F> WorkerPool<T, U, F> where
    T: DeepView + Split,
    U: DeepView + Join,
    F: Call<T, U>,
 {
    /// The parts of `t` that the workers would each process.
    pub open spec fn parts_view(&self, t: T::V) -> Seq<T::V> {
        T::split_view(t, self.workers@.len() as int)
    }

    /// The views of the workers' results, in part order.
    pub open spec fn results_view(&self, t: T::V) -> Seq<U::V> {
        Seq::new(self.workers@.len(), |i: int| self.workers@[i].call_view(self.parts_view(t)[i]))
    }

    /// Builds a pool whose workers all come from calls of `factory`.
    pub fn with<G: Fn() -> F>(n: usize, factory: G) -> (pool: Self)
        requires
            n >= 1,
            call_requires(factory, ()),
        ensures
            pool.workers@.len() == n,
            forall|i: int|
                0 <= i < n ==> call_ensures(factory, (), #[trigger] pool.workers@[i]),
    {
        let mut workers: Vec<F> = Vec::new();
        let mut i: usize = 0;
        while i < n
            invariant
                i <= n,
                workers@.len() == i,
                call_requires(factory, ()),
                forall|j: int| 0 <= j < i ==> call_ensures(factory, (), #[trigger] workers@[j]),
            decreases n - i,
        {
            let w = factory();
            workers.push(w);
            i += 1;
        }
        WorkerPool { workers, io: core::marker::PhantomData }
    }

    /// Builds a pool of `n` copies of one processor.
    pub fn with_cloned(n: usize, f: &F) -> (pool: Self) where F: Copy
        requires
            n >= 1,
        ensures
            pool.workers@.len() == n,
            forall|i: int| 0 <= i < n ==> #[trigger] pool.workers@[i] == *f,
    {
        let mut workers: Vec<F> = Vec::new();
        let mut i: usize = 0;
        while i < n
            invariant
                i <= n,
                workers@.len() == i,
                forall|j: int| 0 <= j < i ==> #[trigger] workers@[j] == *f,
            decreases n - i,
        {
            workers.push(*f);
            i += 1;
        }
        WorkerPool { workers, io: core::marker::PhantomData }
    }

    /// Builds a pool from an explicit team of workers.
    pub fn from_workers(workers: Vec<F>) -> (pool: Self)
        requires
            workers@.len() >= 1,
        ensures
            pool.workers == workers,
    {
        WorkerPool { workers, io: core::marker::PhantomData }
    }
}

impl<T, U, F> Call<T, U> for WorkerPool<T, U, F> where
    T: DeepView + Split,
    U: DeepView + Join,
    F: Call<T, U>,
 {
    open spec fn call_pre(&self, t: T::V) -> bool {
        let n = self.workers@.len() as int;
        &&& n >= 1
        &&& T::split_pre(t, n)
        &&& forall|i: int|
            0 <= i < n ==> (#[trigger] self.workers@[i]).call_pre(self.parts_view(t)[i])
        &&& U::joinable(self.results_view(t))
    }

    open spec fn call_view(&self, t: T::V) -> U::V {
        U::join_view(self.results_view(t))
    }

    fn call(&self, t: T) -> (u: U) {
        let ghost tv = t.deep_view();
        let n = self.workers.len();
        let parts = t.to_parts(n);
        let mut parts = parts;
        let mut results: Vec<SplitPart<U>> = Vec::new();
        let mut i: usize = 0;
        proof {
            vec_deep_facts(&parts);
            vec_deep_facts(&results);
        }
        while i < n
            invariant
                tv == t.deep_view(),
                n == self.workers@.len(),
                self.call_pre(tv),
                i <= n,
                parts.deep_view().len() == n - i,
                forall|j: int|
                    0 <= j < n - i ==> parts.deep_view()[j] == (j + i, self.parts_view(tv)[j + i]),
                results.deep_view().len() == i,
                forall|j: int|
                    0 <= j < i ==> #[trigger] results.deep_view()[j] == (
                        j,
                        self.results_view(tv)[j],
                    ),
            decreases n - i,
        {
            let ghost pdeep0 = parts.deep_view();
            let ghost pview0 = parts@;
            let ghost rdeep0 = results.deep_view();
            let ghost rview0 = results@;
            proof {
                vec_deep_facts(&parts);
                assert(pdeep0[0] == pview0[0].deep_view());
            }
            let sp = parts.remove(0);
            let worker = &self.workers[i];
            proof {
                assert(sp.part.deep_view() == self.parts_view(tv)[i as int]);
                assert(worker.call_pre(sp.part.deep_view()));
            }
            let res = worker.call(sp.part);
            let tagged = SplitPart::new(res, i);
            results.push(tagged);
            i += 1;
            proof {
                vec_deep_facts(&parts);
                vec_deep_facts(&results);
                assert forall|j: int| 0 <= j < n - i implies parts.deep_view()[j] == (
                    j + i,
                    self.parts_view(tv)[j + i],
                ) by {
                    assert(parts@[j] == pview0[j + 1]);
                    assert(pdeep0[j + 1] == pview0[j + 1].deep_view());
                }
                assert forall|j: int| 0 <= j < i implies #[trigger] results.deep_view()[j] == (
                    j,
                    self.results_view(tv)[j],
                ) by {
                    if j + 1 == i {
                        assert(results@[j] == tagged);
                    } else {
                        assert(results@[j] == rview0[j]);
                        assert(rdeep0[j] == rview0[j].deep_view());
                    }
                }
            }
        }
        proof {
            let rv = results.deep_view();
            assert(tags_valid(rv));
            assert(ordered_parts(rv) =~= self.results_view(tv)) by {
                assert forall|k: int| 0 <= k < n implies ordered_parts(rv)[k]
                    == self.results_view(tv)[k] by {
                    assert(rv[k] == (k, self.results_view(tv)[k]));
                    let jc = choose|j: int| 0 <= j < rv.len() && rv[j].0 == k;
                    assert(rv[jc].0 == k && rv[k].0 == k);
                    if jc != k {
                        assert(rv[jc] == (jc, self.results_view(tv)[jc]));
                        assert(false);
                    }
                }
            }
        }
        let joined = match SplitPart::join(results) {
            Ok(u) => u,
            Err(_) => unreached(),
        };
        joined
    }
}

/// A processor that can be replicated into a pool of a chosen size.
pub trait Threaded<T, U>: Call<T, U> + Sized where T: DeepView + Split, U: DeepView + Join {
    /// Builds a pool of `n` copies of `self`.
    fn threadpool(&self, n: usize) -> (pool: WorkerPool<T, U, Self>)
        requires
            n >= 1,
        ensures
            pool.workers@.len() == n,
            forall|i: int| 0 <= i < n ==> #[trigger] pool.workers@[i] == *self,
    ;
}

impl<T, U, F> Threaded<T, U> for F where
    T: DeepView + Split,
    U: DeepView + Join,
    F: Call<T, U> + Copy,
 {
    fn threadpool(&self, n: usize) -> (pool: WorkerPool<T, U, Self>) {
        WorkerPool::with_cloned(n, self)
    }
}

} // verus!
