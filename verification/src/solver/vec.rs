//! Scalar escape-time backend: one flat vector of cells, solved one cell
//! at a time.  This is the reference representation.

use vstd::prelude::*;

use crate::complex::{cpx_norm_sqr, cpx_step, Cpx};
use crate::coord::Coords;
use crate::fixed::{fx_mul, fx_mul_spec, SCALE_ONE};
use crate::solver::{
    cell_solve, init_view, lemma_cell_solve_snoc, lemma_row_major_index, lemma_state_split_parts,
    solve_view, state_join_view, state_split_view, states_joinable, MbState, RowState, Solver,
    StateView, VecCell, I_UNSET,
};
use crate::threads::{lemma_piece_start_ordered, piece_start, vec_deep_facts, Join, Split};
use vstd::pervasive::unreached;

verus! {

/// Escape-time state held as one flat row-major vector of cells.
#[derive(Clone, Debug)]
pub struct VecState {
    pub width: usize,
    pub height: usize,
    pub iteration: i16,
    pub state: Vec<VecCell>,
}

impl DeepView for VecState {
    type V = StateView;

    open spec fn deep_view(&self) -> StateView {
        StateView {
            width: self.width as nat,
            height: self.height as nat,
            iteration: self.iteration as int,
            cells: self.state.deep_view(),
        }
    }
}

impl MbState for VecState {
    open spec fn init_pre(cs: Seq<Cpx>) -> bool {
        true
    }

    fn width(&self) -> (w: usize) {
        self.width
    }

    fn height(&self) -> (h: usize) {
        self.height
    }

    fn i_value(&self, x: usize, y: usize) -> (iv: i16) {
        let len = self.state.len();
        proof {
            lemma_row_major_index(self.width as int, self.height as int, x as int, y as int);
            vec_deep_facts(&self.state);
            assert(y * self.width + x < len);
        }
        self.state[y * self.width + x].i
    }

    fn from_coords(coords: &Coords<Cpx>) -> (s: Self) {
        let ghost cs = coords.values.deep_view();
        let n = coords.values.len();
        let mut cells: Vec<VecCell> = Vec::new();
        let mut j: usize = 0;
        proof {
            vec_deep_facts(&coords.values);
            vec_deep_facts(&cells);
        }
        while j < n
            invariant
                cs == coords.values.deep_view(),
                n == cs.len(),
                j <= n,
                forall|q: int| 0 <= q < n ==> #[trigger] coords.values@[q] == cs[q],
                cells.deep_view().len() == j,
                forall|q: int|
                    0 <= q < j ==> #[trigger] cells.deep_view()[q] == (VecCell {
                        c: cs[q],
                        z: cs[q],
                        i: I_UNSET,
                    }),
            decreases n - j,
        {
            let ghost cdeep0 = cells.deep_view();
            let ghost cview0 = cells@;
            let cv = coords.values[j];
            let cell = VecCell { c: cv, z: cv, i: I_UNSET };
            cells.push(cell);
            j += 1;
            proof {
                vec_deep_facts(&cells);
                assert forall|q: int| 0 <= q < j implies #[trigger] cells.deep_view()[q]
                    == (VecCell { c: cs[q], z: cs[q], i: I_UNSET }) by {
                    if q + 1 == j {
                        assert(cells@[q] == cell);
                    } else {
                        assert(cells@[q] == cview0[q]);
                        assert(cdeep0[q] == cview0[q].deep_view());
                    }
                }
            }
        }
        let s = VecState { width: coords.width, height: coords.height, iteration: 0, state: cells };
        proof {
            assert(s.deep_view().cells =~= init_view(
                coords.width as nat,
                coords.height as nat,
                cs,
            ).cells);
        }
        s
    }
}

impl Split for VecState {
    open spec fn split_pre(v: StateView, n: int) -> bool {
        v.wf()
    }

    open spec fn split_view(v: StateView, n: int) -> Seq<StateView> {
        state_split_view(v, n)
    }

    fn split_to_vec(self, n: usize) -> (parts: Vec<Self>) {
        let ghost v = self.deep_view();
        let width = self.width;
        let height = self.height;
        let iteration = self.iteration;
        let rs = crate::threads::RangeSplitter::split(0, height, n).ranges();
        let mut rest = self.state;
        let total_cells = rest.len();
        let mut parts: Vec<VecState> = Vec::new();
        let mut k: usize = 0;
        proof {
            assert(v.cells.len() <= usize::MAX) by {
                vec_deep_facts(&rest);
            }
            lemma_state_split_parts(v, n as int);
            vec_deep_facts(&rest);
            assert(piece_start(height as int, n as int, 0) == 0);
            assert(rest.deep_view() =~= v.cells.subrange(
                crate::solver::band_start(v, n as int, 0),
                v.cells.len() as int,
            ));
        }
        while k < n
            invariant
                v.wf(),
                n >= 1,
                k <= n,
                v.width == width,
                v.height == height,
                v.iteration == iteration,
                v.cells.len() <= usize::MAX,
                rs.len() == n,
                forall|i: int|
                    0 <= i < n ==> #[trigger] rs@[i] == (
                        piece_start(height as int, n as int, i) as usize,
                        piece_start(height as int, n as int, i + 1) as usize,
                    ),
                forall|i: int|
                    0 <= i < n ==> 0 <= #[trigger] crate::solver::band_start(v, n as int, i)
                        <= crate::solver::band_start(v, n as int, i + 1) <= v.cells.len(),
                parts.deep_view().len() == k,
                forall|i: int|
                    0 <= i < k ==> #[trigger] parts.deep_view()[i] == state_split_view(
                        v,
                        n as int,
                    )[i],
                rest.deep_view() == v.cells.subrange(
                    crate::solver::band_start(v, n as int, k as int),
                    v.cells.len() as int,
                ),
            decreases n - k,
        {
            proof {
                lemma_piece_start_ordered(height as int, n as int, 0, k as int);
                lemma_piece_start_ordered(height as int, n as int, k as int, k as int + 1);
                lemma_piece_start_ordered(height as int, n as int, k as int + 1, n as int);
            }
            let (a, b) = rs[k];
            let rows = b - a;
            let ghost lo = crate::solver::band_start(v, n as int, k as int);
            let ghost hi = crate::solver::band_start(v, n as int, k as int + 1);
            proof {
                assert(rows as int == piece_start(height as int, n as int, k as int + 1)
                    - piece_start(height as int, n as int, k as int));
                assert(hi - lo == width * (rows as int)) by (nonlinear_arith)
                    requires
                        lo == width * piece_start(height as int, n as int, k as int),
                        hi == width * piece_start(height as int, n as int, k as int + 1),
                        rows as int == piece_start(height as int, n as int, k as int + 1)
                            - piece_start(height as int, n as int, k as int),
                ;
                vec_deep_facts(&rest);
                assert(rest@.len() == v.cells.len() - lo);
            }
            let size = rows * width;
            proof {
                assert(size as int == hi - lo) by (nonlinear_arith)
                    requires
                        size as int == (rows as int) * (width as int),
                        hi - lo == width * (rows as int),
                ;
            }
            let ghost rdeep0 = rest.deep_view();
            let ghost rview0 = rest@;
            let tail = rest.split_off(size);
            let ghost parts_deep0 = parts.deep_view();
            let ghost parts_view0 = parts@;
            proof {
                vec_deep_facts(&rest);
                vec_deep_facts(&tail);
                assert forall|q: int| 0 <= q < size implies rest.deep_view()[q] == v.cells[lo
                    + q] by {
                    assert(rest@[q] == rview0[q]);
                    assert(rdeep0[q] == rview0[q].deep_view());
                    assert(rdeep0[q] == v.cells.subrange(lo, v.cells.len() as int)[q]);
                }
                assert(rest.deep_view() =~= v.cells.subrange(lo, hi));
                assert forall|q: int|
                    0 <= q < v.cells.len() - hi implies tail.deep_view()[q] == v.cells[hi + q] by {
                    assert(tail@[q] == rview0[q + size]);
                    assert(rdeep0[q + size] == rview0[q + size].deep_view());
                    assert(rdeep0[q + size] == v.cells.subrange(lo, v.cells.len() as int)[q + size]);
                }
                assert(tail.deep_view() =~= v.cells.subrange(hi, v.cells.len() as int));
            }
            let part = VecState { width, height: rows, iteration, state: rest };
            let ghost part_view = part.deep_view();
            proof {
                assert(part_view == state_split_view(v, n as int)[k as int]);
            }
            parts.push(part);
            rest = tail;
            k += 1;
            proof {
                vec_deep_facts(&parts);
                assert forall|i: int| 0 <= i < k implies #[trigger] parts.deep_view()[i]
                    == state_split_view(v, n as int)[i] by {
                    if i + 1 == k {
                        assert(parts.deep_view()[i] == parts@[i].deep_view());
                        assert(parts@[i].deep_view() == part_view);
                    } else {
                        assert(parts@[i] == parts_view0[i]);
                        assert(parts_deep0[i] == parts_view0[i].deep_view());
                    }
                }
            }
        }
        proof {
            assert(parts.deep_view() =~= state_split_view(v, n as int));
        }
        parts
    }
}

impl Join for VecState {
    open spec fn joinable(parts: Seq<StateView>) -> bool {
        states_joinable(parts)
    }

    open spec fn join_view(parts: Seq<StateView>) -> StateView {
        state_join_view(parts)
    }

    fn join_vec(parts: Vec<Self>) -> (joined: Self) {
        let ghost sv = parts.deep_view();
        let total_count = parts.len();
        let ghost total = total_count as int;
        let mut parts = parts;
        proof {
            vec_deep_facts(&parts);
            assert(parts.deep_view()[0] == parts@[0].deep_view());
        }
        let first = parts.remove(0);
        let width = first.width;
        let iteration = first.iteration;
        let mut height: usize = first.height;
        let mut cells = first.state;
        let mut i: usize = 1;
        proof {
            vec_deep_facts(&parts);
            assert forall|j: int| 0 <= j < total - 1 implies parts.deep_view()[j] == sv[j + 1] by {
                vec_deep_facts(&parts);
            }
            assert(crate::solver::heights_total(sv.subrange(0, 1)) == sv[0].height) by {
                assert(sv.subrange(0, 1) =~= Seq::<StateView>::empty().push(sv[0]));
                crate::solver::lemma_heights_total_push(Seq::<StateView>::empty(), sv[0]);
            }
            assert(cells.deep_view() =~= sv.subrange(0, 1).map_values(
                |p: StateView| p.cells,
            ).flatten()) by {
                let single = sv.subrange(0, 1).map_values(|p: StateView| p.cells);
                assert(single =~= seq![sv[0].cells]);
                single.lemma_flatten_one_element();
            }
        }
        while parts.len() > 0
            invariant
                total == sv.len(),
                total <= usize::MAX,
                1 <= i <= total,
                parts.deep_view().len() == total - i,
                forall|j: int| 0 <= j < total - i ==> parts.deep_view()[j] == sv[j + i],
                states_joinable(sv),
                width == sv[0].width,
                iteration == sv[0].iteration,
                height == crate::solver::heights_total(sv.subrange(0, i as int)),
                cells.deep_view() == sv.subrange(0, i as int).map_values(
                    |p: StateView| p.cells,
                ).flatten(),
            decreases parts.len(),
        {
            let ghost pdeep0 = parts.deep_view();
            let ghost pview0 = parts@;
            let ghost cdeep0 = cells.deep_view();
            proof {
                vec_deep_facts(&parts);
                assert(parts.deep_view().len() > 0);
                assert(i < total);
                assert(pdeep0[0] == pview0[0].deep_view());
            }
            let part = parts.remove(0);
            let ghost iold = i as int;
            proof {
                vec_deep_facts(&parts);
                assert(part.deep_view() == sv[iold]);
                assert(sv[iold].wf());
            }
            let mut pcells = part.state;
            let ghost pcd = pcells.deep_view();
            proof {
                assert(crate::solver::heights_total(sv.subrange(0, iold + 1))
                    == crate::solver::heights_total(sv.subrange(0, iold)) + sv[iold].height) by {
                    assert(sv.subrange(0, iold + 1) =~= sv.subrange(0, iold).push(sv[iold]));
                    crate::solver::lemma_heights_total_push(sv.subrange(0, iold), sv[iold]);
                }
                lemma_heights_prefix_bounded(sv, iold + 1);
            }
            height = height + part.height;
            cells.append(&mut pcells);
            i += 1;
            proof {
                vec_deep_facts(&parts);
                assert forall|j: int| 0 <= j < total - i implies parts.deep_view()[j] == sv[j
                    + i] by {
                    assert(parts@[j] == pview0[j + 1]);
                    assert(pdeep0[j + 1] == pview0[j + 1].deep_view());
                }
                let mapped = sv.subrange(0, i as int).map_values(|p: StateView| p.cells);
                let mapped0 = sv.subrange(0, iold).map_values(|p: StateView| p.cells);
                assert(mapped =~= mapped0 + seq![sv[iold].cells]);
                vstd::seq_lib::lemma_flatten_concat(mapped0, seq![sv[iold].cells]);
                seq![sv[iold].cells].lemma_flatten_one_element();
                assert(cells.deep_view() =~= cdeep0 + pcd) by {
                    vec_deep_facts(&cells);
                }
                assert(cells.deep_view() =~= mapped.flatten());
            }
        }
        let joined = VecState { width, height, iteration, state: cells };
        proof {
            assert(sv.subrange(0, total) =~= sv);
            assert(joined.deep_view() == state_join_view(sv));
        }
        joined
    }
}

/// The height of a joinable prefix never exceeds the joinable total, which
/// a machine index can hold.
proof fn lemma_heights_prefix_bounded(sv: Seq<StateView>, k: int)
    requires
        states_joinable(sv),
        0 <= k <= sv.len(),
    ensures
        crate::solver::heights_total(sv.subrange(0, k)) <= crate::solver::heights_total(sv),
    decreases sv.len() - k,
{
    if k == sv.len() {
        assert(sv.subrange(0, k) =~= sv);
    } else {
        lemma_heights_prefix_bounded(sv, k + 1);
        assert(sv.subrange(0, k + 1) =~= sv.subrange(0, k).push(sv[k]));
        crate::solver::lemma_heights_total_push(sv.subrange(0, k), sv[k]);
    }
}

impl RowState for VecState {
    proof fn row_split_properties(v: StateView, n: int) {
    }

    proof fn row_join_properties(parts: Seq<StateView>) {
    }
}

/// The scalar solver: a per-cell loop applying the recurrence budget with a
/// fixed-point escape threshold.
#[derive(Clone, Copy, Debug)]
pub struct VecSolver {
    pub iterations: u16,
    pub threshold: i64,
}

impl VecSolver {
    /// A solver with the given budget and threshold.
    pub fn new(iterations: u16, threshold: i64) -> (s: Self)
        ensures
            s.iterations == iterations,
            s.threshold == threshold,
    {
        VecSolver { iterations, threshold }
    }
}

impl Default for VecSolver {
    /// One hundred steps against the classic threshold of 2.
    fn default() -> (s: Self)
        ensures
            s.iterations == 100u16,
            s.threshold == 2 * SCALE_ONE,
    {
        VecSolver { iterations: 100, threshold: 2 * SCALE_ONE }
    }
}

impl Solver<VecState> for VecSolver {
    open spec fn wf(&self) -> bool {
        self.iterations <= i16::MAX
    }

    open spec fn steps(&self) -> nat {
        self.iterations as nat
    }

    open spec fn threshold_sqr(&self) -> int {
        fx_mul_spec(self.threshold as int, self.threshold as int)
    }

    fn solve(&self, state: VecState) -> (r: VecState) {
        let ghost v = state.deep_view();
        let thr_sqr = fx_mul(self.threshold, self.threshold);
        let base = state.iteration;
        let mut cells = state.state;
        let count = cells.len();
        proof {
            vec_deep_facts(&cells);
        }
        let mut step: u16 = 0;
        while step < self.iterations
            invariant
                v.wf(),
                self.wf(),
                v.iteration == base,
                v.iteration + self.iterations <= i16::MAX,
                thr_sqr as int == self.threshold_sqr(),
                step <= self.iterations,
                count == v.cells.len(),
                cells@.len() == count,
                forall|j: int|
                    0 <= j < count ==> #[trigger] cells@[j] == cell_solve(
                        v.cells[j],
                        base as int,
                        step as nat,
                        thr_sqr as int,
                    ),
            decreases self.iterations - step,
        {
            let stepno = step as i32 + base as i32 + 1;
            let mut j: usize = 0;
            while j < count
                invariant
                    v.wf(),
                    v.iteration == base,
                    v.iteration + self.iterations <= i16::MAX,
                    step < self.iterations,
                    stepno == step as int + base as int + 1,
                    count == v.cells.len(),
                    cells@.len() == count,
                    j <= count,
                    forall|q: int|
                        j <= q < count ==> #[trigger] cells@[q] == cell_solve(
                            v.cells[q],
                            base as int,
                            step as nat,
                            thr_sqr as int,
                        ),
                    forall|q: int|
                        0 <= q < j ==> #[trigger] cells@[q] == cell_solve(
                            v.cells[q],
                            base as int,
                            step as nat + 1,
                            thr_sqr as int,
                        ),
                decreases count - j,
            {
                proof {
                    lemma_cell_solve_snoc(
                        v.cells[j as int],
                        base as int,
                        step as nat + 1,
                        thr_sqr as int,
                    );
                }
                let cell = cells[j];
                if cell.i == I_UNSET {
                    let z2 = cpx_step(cell.z, cell.c);
                    let nrm = cpx_norm_sqr(z2);
                    let iv: i16 = if nrm > thr_sqr {
                        stepno as i16
                    } else {
                        I_UNSET
                    };
                    cells[j] = VecCell { c: cell.c, z: z2, i: iv };
                }
                j += 1;
            }
            step += 1;
        }
        let iteration = (base as i32 + self.iterations as i32) as i16;
        let r = VecState { width: state.width, height: state.height, iteration, state: cells };
        proof {
            vec_deep_facts(&r.state);
            assert(r.deep_view().cells =~= solve_view(
                v,
                self.steps(),
                self.threshold_sqr(),
            ).cells);
            assert(r.deep_view() == solve_view(v, self.steps(), self.threshold_sqr()));
        }
        r
    }
}

/// The cell grid after the rows of `v` are shifted by `row` (positive moves
/// content toward higher rows) with the vacated rows taken from `strip`.
pub open spec fn shift_rows_cells(v: StateView, row: int, strip: StateView) -> Seq<VecCell> {
    let w = v.width as int;
    let h = v.height as int;
    Seq::new(
        v.cells.len(),
        |j: int|
            {
                let y = j / w;
                let x = j % w;
                let src = y - row;
                if 0 <= src < h {
                    v.cells[src * w + x]
                } else {
                    let off = if row > 0 {
                        row
                    } else {
                        -h
                    };
                    strip.cells[(y - row + off) * w + x]
                }
            },
    )
}

impl VecState {
    /// Shifts the rows of the state by `row` in place — positive `row`
    /// moves content down, negative up — and fills the vacated rows from
    /// `copy_from`, which must be a strip of matching width and iteration
    /// count exactly as tall as the shift.
    pub fn shift_rows(&mut self, row: i64, copy_from: Option<&VecState>)
        requires
            old(self).deep_view().wf(),
            1 <= old(self).width <= 0x7fff_ffff,
            old(self).height <= 0x7fff_ffff,
            -(old(self).height as int) <= row <= old(self).height as int,
            row != 0 ==> copy_from is Some,
            copy_from matches Some(strip) ==> strip.deep_view().wf()
                && strip.deep_view().width == old(self).deep_view().width
                && strip.deep_view().height == vstd::math::abs(row as int)
                && strip.deep_view().iteration == old(self).deep_view().iteration,
        ensures
            final(self).deep_view().wf(),
            final(self).width == old(self).width,
            final(self).height == old(self).height,
            final(self).iteration == old(self).iteration,
            copy_from matches Some(strip) ==> (row != 0 ==> final(self).deep_view().cells
                == shift_rows_cells(old(self).deep_view(), row as int, strip.deep_view())),
            row == 0 ==> final(self).deep_view().cells == old(self).deep_view().cells,
    {
        let ghost v = self.deep_view();
        if row == 0 {
            return ;
        }
        let strip = match copy_from {
            Some(strip) => strip,
            None => unreached(),
        };
        let ghost sv = strip.deep_view();
        let w = self.width;
        let h = self.height;
        let old_cells_len = self.state.len();
        let strip_len = strip.state.len();
        proof {
            vec_deep_facts(&self.state);
            vec_deep_facts(&strip.state);
        }
        let mut cells: Vec<VecCell> = Vec::new();
        let mut y: usize = 0;
        while y < h
            invariant
                v.wf(),
                sv.wf(),
                v.width == w,
                v.height == h,
                1 <= w <= 0x7fff_ffff,
                h <= 0x7fff_ffff,
                sv.width == w,
                sv.height == vstd::math::abs(row as int),
                -(h as int) <= row <= h as int,
                row != 0,
                old_cells_len == v.cells.len(),
                strip_len == sv.cells.len(),
                strip.state@.len() == strip_len,
                self.state@.len() == old_cells_len,
                forall|q: int| 0 <= q < v.cells.len() ==> v.cells[q] == #[trigger] self.state@[q],
                forall|q: int| 0 <= q < sv.cells.len() ==> sv.cells[q] == #[trigger] strip.state@[q],
                y <= h,
                cells@.len() == y * w,
                forall|q: int|
                    0 <= q < y * w ==> #[trigger] cells@[q] == shift_rows_cells(v, row as int, sv)[q],
            decreases h - y,
        {
            let src = y as i64 - row;
            let mut x: usize = 0;
            proof {
                vstd::arithmetic::mul::lemma_mul_nonnegative(y as int, w as int);
                vstd::arithmetic::mul::lemma_mul_is_distributive_add_other_way(
                    w as int,
                    y as int,
                    1,
                );
                vstd::arithmetic::mul::lemma_mul_inequality(y as int + 1, h as int, w as int);
                vstd::arithmetic::mul::lemma_mul_is_commutative(y as int + 1, w as int);
                vstd::arithmetic::mul::lemma_mul_is_commutative(h as int, w as int);
                if 0 <= src < h as i64 {
                    lemma_row_major_index(w as int, h as int, 0, src as int);
                    vstd::arithmetic::mul::lemma_mul_is_distributive_add_other_way(
                        w as int,
                        src as int,
                        1,
                    );
                    vstd::arithmetic::mul::lemma_mul_inequality(src as int + 1, h as int, w as int);
                    vstd::arithmetic::mul::lemma_mul_is_commutative(src as int + 1, w as int);
                } else {
                    let off: int = if row > 0 {
                        row as int
                    } else {
                        -(h as int)
                    };
                    let sy = y as int - row + off;
                    assert(0 <= sy < sv.height);
                    lemma_row_major_index(w as int, sv.height as int, 0, sy);
                    vstd::arithmetic::mul::lemma_mul_is_distributive_add_other_way(
                        w as int,
                        sy,
                        1,
                    );
                    vstd::arithmetic::mul::lemma_mul_inequality(
                        sy + 1,
                        sv.height as int,
                        w as int,
                    );
                    vstd::arithmetic::mul::lemma_mul_is_commutative(sy + 1, w as int);
                    vstd::arithmetic::mul::lemma_mul_is_commutative(sv.height as int, w as int);
                }
            }
            while x < w
                invariant
                    v.wf(),
                    sv.wf(),
                    v.width == w,
                    v.height == h,
                    1 <= w <= 0x7fff_ffff,
                    h <= 0x7fff_ffff,
                    sv.width == w,
                    sv.height == vstd::math::abs(row as int),
                    -(h as int) <= row <= h as int,
                    row != 0,
                    y < h,
                    src == y as int - row,
                    old_cells_len == v.cells.len(),
                    strip_len == sv.cells.len(),
                    strip.state@.len() == strip_len,
                    self.state@.len() == old_cells_len,
                    forall|q: int|
                        0 <= q < v.cells.len() ==> v.cells[q] == #[trigger] self.state@[q],
                    forall|q: int|
                        0 <= q < sv.cells.len() ==> sv.cells[q] == #[trigger] strip.state@[q],
                    x <= w,
                    0 <= src < h ==> 0 <= src * w && src * w + w <= v.cells.len(),
                    !(0 <= src < h) ==> {
                        let off: int = if row > 0 {
                            row as int
                        } else {
                            -(h as int)
                        };
                        0 <= (y - row + off) * w && (y - row + off) * w + w <= sv.cells.len()
                    },
                    0 <= y * w && y * w + w <= v.cells.len(),
                    cells@.len() == y * w + x,
                    forall|q: int|
                        0 <= q < y * w + x ==> #[trigger] cells@[q] == shift_rows_cells(
                            v,
                            row as int,
                            sv,
                        )[q],
                decreases w - x,
            {
                let cell: VecCell = if src >= 0 && src < h as i64 {
                    self.state[(src as usize) * w + x]
                } else {
                    let off: i64 = if row > 0 {
                        row
                    } else {
                        -(h as i64)
                    };
                    let sy = (y as i64 - row + off) as usize;
                    strip.state[sy * w + x]
                };
                cells.push(cell);
                x += 1;
                proof {
                    let j = y * w + x - 1;
                    vstd::arithmetic::div_mod::lemma_fundamental_div_mod_converse(
                        j as int,
                        w as int,
                        y as int,
                        x as int - 1,
                    );
                }
            }
            y += 1;
            proof {
                vstd::arithmetic::mul::lemma_mul_is_distributive_add_other_way(
                    w as int,
                    y as int - 1,
                    1,
                );
            }
        }
        proof {
            vstd::arithmetic::mul::lemma_mul_is_commutative(h as int, w as int);
        }
        self.state = cells;
        proof {
            vec_deep_facts(&self.state);
            assert(self.deep_view().cells =~= shift_rows_cells(v, row as int, sv));
        }
    }
}

/// The cell grid after the columns of `v` are shifted by `col` (positive
/// moves content toward higher columns) with the vacated columns taken
/// from `strip`, a grid of matching height exactly as wide as the shift.
pub open spec fn shift_cols_cells(v: StateView, col: int, strip: StateView) -> Seq<VecCell> {
    let w = v.width as int;
    let sw = strip.width as int;
    Seq::new(
        v.cells.len(),
        |j: int|
            {
                let y = j / w;
                let x = j % w;
                let src = x - col;
                if 0 <= src < w {
                    v.cells[y * w + src]
                } else {
                    let off = if col > 0 {
                        col
                    } else {
                        -w
                    };
                    strip.cells[y * sw + (x - col + off)]
                }
            },
    )
}

impl VecState {
    /// Shifts the columns of the state by `col` in place — positive `col`
    /// moves content right, negative left — and fills the vacated columns
    /// from `copy_from`, which must be a strip of matching height and
    /// iteration count exactly as wide as the shift.
    pub fn shift_cols(&mut self, col: i64, copy_from: Option<&VecState>)
        requires
            old(self).deep_view().wf(),
            1 <= old(self).width <= 0x7fff_ffff,
            1 <= old(self).height <= 0x7fff_ffff,
            -(old(self).width as int) <= col <= old(self).width as int,
            col != 0 ==> copy_from is Some,
            copy_from matches Some(strip) ==> strip.deep_view().wf()
                && strip.deep_view().height == old(self).deep_view().height
                && strip.deep_view().width == vstd::math::abs(col as int)
                && strip.deep_view().iteration == old(self).deep_view().iteration,
        ensures
            final(self).deep_view().wf(),
            final(self).width == old(self).width,
            final(self).height == old(self).height,
            final(self).iteration == old(self).iteration,
            copy_from matches Some(strip) ==> (col != 0 ==> final(self).deep_view().cells
                == shift_cols_cells(old(self).deep_view(), col as int, strip.deep_view())),
            col == 0 ==> final(self).deep_view().cells == old(self).deep_view().cells,
    {
        let ghost v = self.deep_view();
        if col == 0 {
            return ;
        }
        let strip = match copy_from {
            Some(strip) => strip,
            None => unreached(),
        };
        let ghost sv = strip.deep_view();
        let w = self.width;
        let h = self.height;
        let sw = if col > 0 {
            col as usize
        } else {
            (-col) as usize
        };
        let old_cells_len = self.state.len();
        let strip_len = strip.state.len();
        proof {
            vec_deep_facts(&self.state);
            vec_deep_facts(&strip.state);
        }
        let mut cells: Vec<VecCell> = Vec::new();
        let mut y: usize = 0;
        while y < h
            invariant
                v.wf(),
                sv.wf(),
                v.width == w,
                v.height == h,
                1 <= w <= 0x7fff_ffff,
                1 <= h <= 0x7fff_ffff,
                sv.height == h,
                sv.width == sw,
                sw == vstd::math::abs(col as int),
                -(w as int) <= col <= w as int,
                col != 0,
                old_cells_len == v.cells.len(),
                strip_len == sv.cells.len(),
                strip.state@.len() == strip_len,
                self.state@.len() == old_cells_len,
                forall|q: int| 0 <= q < v.cells.len() ==> v.cells[q] == #[trigger] self.state@[q],
                forall|q: int| 0 <= q < sv.cells.len() ==> sv.cells[q] == #[trigger] strip.state@[q],
                y <= h,
                cells@.len() == y * w,
                forall|q: int|
                    0 <= q < y * w ==> #[trigger] cells@[q] == shift_cols_cells(v, col as int, sv)[q],
            decreases h - y,
        {
            let mut x: usize = 0;
            proof {
                vstd::arithmetic::mul::lemma_mul_nonnegative(y as int, w as int);
                vstd::arithmetic::mul::lemma_mul_is_distributive_add_other_way(
                    w as int,
                    y as int,
                    1,
                );
                vstd::arithmetic::mul::lemma_mul_inequality(y as int + 1, h as int, w as int);
                vstd::arithmetic::mul::lemma_mul_is_commutative(y as int + 1, w as int);
                vstd::arithmetic::mul::lemma_mul_is_commutative(h as int, w as int);
                vstd::arithmetic::mul::lemma_mul_nonnegative(y as int, sw as int);
                vstd::arithmetic::mul::lemma_mul_is_distributive_add_other_way(
                    sw as int,
                    y as int,
                    1,
                );
                vstd::arithmetic::mul::lemma_mul_inequality(y as int + 1, h as int, sw as int);
                vstd::arithmetic::mul::lemma_mul_is_commutative(y as int + 1, sw as int);
                vstd::arithmetic::mul::lemma_mul_is_commutative(h as int, sw as int);
            }
            while x < w
                invariant
                    v.wf(),
                    sv.wf(),
                    v.width == w,
                    v.height == h,
                    1 <= w <= 0x7fff_ffff,
                    1 <= h <= 0x7fff_ffff,
                    sv.height == h,
                    sv.width == sw,
                    sw == vstd::math::abs(col as int),
                    -(w as int) <= col <= w as int,
                    col != 0,
                    y < h,
                    old_cells_len == v.cells.len(),
                    strip_len == sv.cells.len(),
                    strip.state@.len() == strip_len,
                    self.state@.len() == old_cells_len,
                    forall|q: int|
                        0 <= q < v.cells.len() ==> v.cells[q] == #[trigger] self.state@[q],
                    forall|q: int|
                        0 <= q < sv.cells.len() ==> sv.cells[q] == #[trigger] strip.state@[q],
                    x <= w,
                    0 <= y * w && y * w + w <= v.cells.len(),
                    0 <= y * sw && y * sw + sw <= sv.cells.len(),
                    cells@.len() == y * w + x,
                    forall|q: int|
                        0 <= q < y * w + x ==> #[trigger] cells@[q] == shift_cols_cells(
                            v,
                            col as int,
                            sv,
                        )[q],
                decreases w - x,
            {
                let src = x as i64 - col;
                let cell: VecCell = if src >= 0 && src < w as i64 {
                    self.state[y * w + (src as usize)]
                } else {
                    let off: i64 = if col > 0 {
                        col
                    } else {
                        -(w as i64)
                    };
                    let sx = (x as i64 - col + off) as usize;
                    strip.state[y * sw + sx]
                };
                cells.push(cell);
                x += 1;
                proof {
                    let j = y * w + x - 1;
                    vstd::arithmetic::div_mod::lemma_fundamental_div_mod_converse(
                        j as int,
                        w as int,
                        y as int,
                        x as int - 1,
                    );
                }
            }
            y += 1;
            proof {
                vstd::arithmetic::mul::lemma_mul_is_distributive_add_other_way(
                    w as int,
                    y as int - 1,
                    1,
                );
            }
        }
        proof {
            vstd::arithmetic::mul::lemma_mul_is_commutative(h as int, w as int);
        }
        self.state = cells;
        proof {
            vec_deep_facts(&self.state);
            assert(self.deep_view().cells =~= shift_cols_cells(v, col as int, sv));
        }
    }
}

} // verus!
