//! Dense escape-time backend: the cell record is exploded into three
//! parallel arrays (`c`, `z`, `i`) so that one solver step is a single
//! elementwise pass, and proved to leave exactly the same state as the
//! scalar backend.

use vstd::prelude::*;

use crate::complex::{cpx_norm_sqr, cpx_step, Cpx};
use crate::coord::Coords;
use crate::fixed::{fx_mul, fx_mul_spec, SCALE_ONE};
use crate::solver::{
    band_start, cell_solve, cell_step, init_view, lemma_cell_solve_snoc, lemma_row_major_index,
    lemma_state_split_parts, solve_view, state_join_view, state_split_view, states_joinable,
    MbState, RowState, Solver, StateView, VecCell, I_UNSET,
};
use crate::threads::{
    lemma_piece_start_ordered, piece_start, vec_deep_facts, Join, RangeSplitter, Split,
};

verus! {

/// Escape-time state as three same-shaped row-major arrays: coordinates,
/// iterates, and escape steps.
#[derive(Clone, Debug)]
pub struct MbArrayState {
    pub width: usize,
    pub height: usize,
    pub iteration: i16,
    pub ca: Vec<Cpx>,
    pub za: Vec<Cpx>,
    pub ia: Vec<i16>,
}

impl MbArrayState {
    /// How many complete cells the three arrays describe together.
    pub open spec fn cell_count(&self) -> nat {
        vstd::math::min(
            self.ca@.len() as int,
            vstd::math::min(self.za@.len() as int, self.ia@.len() as int),
        ) as nat
    }
}

impl DeepView for MbArrayState {
    type V = StateView;

    open spec fn deep_view(&self) -> StateView {
        StateView {
            width: self.width as nat,
            height: self.height as nat,
            iteration: self.iteration as int,
            cells: Seq::new(
                self.cell_count(),
                |j: int| VecCell { c: self.ca@[j], z: self.za@[j], i: self.ia@[j] },
            ),
        }
    }
}

impl MbState for MbArrayState {
    open spec fn init_pre(cs: Seq<Cpx>) -> bool {
        true
    }

    fn width(&self) -> (w: usize) {
        self.width
    }

    fn height(&self) -> (h: usize) {
        self.height
    }

    fn i_value(&self, x: usize, y: usize) -> (iv: i16) {
        let len = self.ia.len();
        proof {
            lemma_row_major_index(self.width as int, self.height as int, x as int, y as int);
            assert(y * self.width + x < self.cell_count());
            assert(self.cell_count() <= len);
        }
        let idx = y * self.width + x;
        self.ia[idx]
    }

    fn from_coords(coords: &Coords<Cpx>) -> (s: Self) {
        let ghost cs = coords.values.deep_view();
        let n = coords.values.len();
        let mut ca: Vec<Cpx> = Vec::new();
        let mut za: Vec<Cpx> = Vec::new();
        let mut ia: Vec<i16> = Vec::new();
        let mut j: usize = 0;
        proof {
            vec_deep_facts(&coords.values);
        }
        while j < n
            invariant
                cs == coords.values.deep_view(),
                n == cs.len(),
                j <= n,
                forall|q: int| 0 <= q < n ==> #[trigger] coords.values@[q] == cs[q],
                ca@.len() == j,
                za@.len() == j,
                ia@.len() == j,
                forall|q: int| 0 <= q < j ==> #[trigger] ca@[q] == cs[q],
                forall|q: int| 0 <= q < j ==> #[trigger] za@[q] == cs[q],
                forall|q: int| 0 <= q < j ==> #[trigger] ia@[q] == I_UNSET,
            decreases n - j,
        {
            let cv = coords.values[j];
            ca.push(cv);
            za.push(cv);
            ia.push(I_UNSET);
            j += 1;
        }
        let s = MbArrayState { width: coords.width, height: coords.height, iteration: 0, ca, za, ia };
        proof {
            assert(s.deep_view().cells =~= init_view(
                coords.width as nat,
                coords.height as nat,
                cs,
            ).cells);
        }
        s
    }
}

/// The dense solver: the same budget and threshold as the scalar solver,
/// executed as whole-array elementwise passes.
#[derive(Clone, Copy, Debug)]
pub struct MbArraySolver {
    pub iterations: u16,
    pub threshold: i64,
}

impl MbArraySolver {
    /// A solver with the given threshold and budget.
    pub fn new(threshold: i64, iterations: u16) -> (s: Self)
        ensures
            s.iterations == iterations,
            s.threshold == threshold,
    {
        MbArraySolver { iterations, threshold }
    }

    /// One elementwise pass: advances every unresolved iterate and records
    /// new escapes at step `stepno`.
    fn iterate(&self, state: MbArrayState, thr_sqr: i64, stepno: i16) -> (r: MbArrayState)
        requires
            state.deep_view().wf(),
            state.deep_view().iteration < i16::MAX,
            stepno == state.deep_view().iteration + 1,
            thr_sqr as int == fx_mul_spec(self.threshold as int, self.threshold as int),
        ensures
            r.deep_view().width == state.deep_view().width,
            r.deep_view().height == state.deep_view().height,
            r.deep_view().iteration == state.deep_view().iteration + 1,
            r.deep_view().cells.len() == state.deep_view().cells.len(),
            forall|j: int|
                0 <= j < state.deep_view().cells.len()
                    ==> #[trigger] r.deep_view().cells[j] == cell_step(
                    state.deep_view().cells[j],
                    stepno as int,
                    thr_sqr as int,
                ),
    {
        let ghost v = state.deep_view();
        let count = state.ca.len();
        let count_z = state.za.len();
        let count_i = state.ia.len();
        let n = if count < count_z {
            count
        } else {
            count_z
        };
        let n = if n < count_i {
            n
        } else {
            count_i
        };
        proof {
            assert(n == v.cells.len());
        }
        let ca = state.ca;
        let za = state.za;
        let ia = state.ia;
        let mut new_za: Vec<Cpx> = Vec::new();
        let mut new_ia: Vec<i16> = Vec::new();
        let mut j: usize = 0;
        while j < n
            invariant
                v.cells.len() == n,
                n <= ca@.len(),
                n <= za@.len(),
                n <= ia@.len(),
                forall|q: int|
                    0 <= q < n ==> #[trigger] v.cells[q] == (VecCell {
                        c: ca@[q],
                        z: za@[q],
                        i: ia@[q],
                    }),
                j <= n,
                new_za@.len() == j,
                new_ia@.len() == j,
                forall|q: int|
                    0 <= q < j ==> #[trigger] new_za@[q] == cell_step(
                        v.cells[q],
                        stepno as int,
                        thr_sqr as int,
                    ).z,
                forall|q: int|
                    0 <= q < j ==> #[trigger] new_ia@[q] == cell_step(
                        v.cells[q],
                        stepno as int,
                        thr_sqr as int,
                    ).i,
            decreases n - j,
        {
            let iv = ia[j];
            let zv = za[j];
            let cv = ca[j];
            let fresh = iv == I_UNSET;
            let z2 = cpx_step(zv, cv);
            let nzv = if fresh {
                z2
            } else {
                zv
            };
            let escaped_now = fresh && cpx_norm_sqr(z2) > thr_sqr;
            let niv = if escaped_now {
                stepno
            } else {
                iv
            };
            new_za.push(nzv);
            new_ia.push(niv);
            j += 1;
        }
        let r = MbArrayState {
            width: state.width,
            height: state.height,
            iteration: stepno,
            ca,
            za: new_za,
            ia: new_ia,
        };
        proof {
            assert(r.cell_count() == n);
            assert forall|q: int| 0 <= q < n implies #[trigger] r.deep_view().cells[q] == cell_step(
                v.cells[q],
                stepno as int,
                thr_sqr as int,
            ) by {
                assert(r.deep_view().cells[q] == VecCell {
                    c: ca@[q],
                    z: new_za@[q],
                    i: new_ia@[q],
                });
            }
        }
        r
    }
}

impl Default for MbArraySolver {
    /// One hundred steps against the classic threshold of 2.
    fn default() -> (s: Self)
        ensures
            s.iterations == 100u16,
            s.threshold == 2 * SCALE_ONE,
    {
        MbArraySolver { iterations: 100, threshold: 2 * SCALE_ONE }
    }
}

impl Solver<MbArrayState> for MbArraySolver {
    open spec fn wf(&self) -> bool {
        self.iterations <= i16::MAX
    }

    open spec fn steps(&self) -> nat {
        self.iterations as nat
    }

    open spec fn threshold_sqr(&self) -> int {
        fx_mul_spec(self.threshold as int, self.threshold as int)
    }

    fn solve(&self, state: MbArrayState) -> (r: MbArrayState) {
        let ghost v = state.deep_view();
        let thr_sqr = fx_mul(self.threshold, self.threshold);
        let base = state.iteration;
        let mut state = state;
        let mut step: u16 = 0;
        while step < self.iterations
            invariant
                v.wf(),
                self.wf(),
                v.iteration == base,
                v.iteration + self.iterations <= i16::MAX,
                thr_sqr as int == self.threshold_sqr(),
                step <= self.iterations,
                state.deep_view().width == v.width,
                state.deep_view().height == v.height,
                state.deep_view().iteration == base + step,
                state.deep_view().cells.len() == v.cells.len(),
                forall|j: int|
                    0 <= j < v.cells.len() ==> #[trigger] state.deep_view().cells[j] == cell_solve(
                        v.cells[j],
                        base as int,
                        step as nat,
                        thr_sqr as int,
                    ),
            decreases self.iterations - step,
        {
            let stepno = (base as i32 + step as i32 + 1) as i16;
            let ghost pre = state.deep_view();
            proof {
                assert(pre.wf());
            }
            state = self.iterate(state, thr_sqr, stepno);
            step += 1;
            proof {
                assert forall|j: int| 0 <= j < v.cells.len() implies
                    #[trigger] state.deep_view().cells[j] == cell_solve(
                    v.cells[j],
                    base as int,
                    step as nat,
                    thr_sqr as int,
                ) by {
                    lemma_cell_solve_snoc(v.cells[j], base as int, step as nat, thr_sqr as int);
                }
            }
        }
        proof {
            assert(state.deep_view().cells =~= solve_view(
                v,
                self.steps(),
                self.threshold_sqr(),
            ).cells);
            assert(state.deep_view() == solve_view(v, self.steps(), self.threshold_sqr()));
        }
        state
    }
}

impl Split for MbArrayState {
    open spec fn split_pre(v: StateView, n: int) -> bool {
        v.wf()
    }

    open spec fn split_view(v: StateView, n: int) -> Seq<StateView> {
        state_split_view(v, n)
    }

    #[verifier::rlimit(100)]
    fn split_to_vec(self, n: usize) -> (parts: Vec<Self>) {
        let ghost v = self.deep_view();
        let width = self.width;
        let height = self.height;
        let iteration = self.iteration;
        let rs = RangeSplitter::split(0, height, n).ranges();
        let mut rest_ca = self.ca;
        let mut rest_za = self.za;
        let mut rest_ia = self.ia;
        let ghost caseq = rest_ca@;
        let ghost zaseq = rest_za@;
        let ghost iaseq = rest_ia@;
        let ca_count = rest_ca.len();
        let za_count = rest_za.len();
        let ia_count = rest_ia.len();
        let mut parts: Vec<MbArrayState> = Vec::new();
        let mut k: usize = 0;
        proof {
            lemma_state_split_parts(v, n as int);
            assert(piece_start(height as int, n as int, 0) == 0);
            assert(rest_ca@ =~= caseq.subrange(0, caseq.len() as int));
            assert(rest_za@ =~= zaseq.subrange(0, zaseq.len() as int));
            assert(rest_ia@ =~= iaseq.subrange(0, iaseq.len() as int));
        }
        while k < n
            invariant
                v.wf(),
                n >= 1,
                k <= n,
                v.width == width,
                v.height == height,
                v.iteration == iteration,
                v.cells.len() == vstd::math::min(
                    caseq.len() as int,
                    vstd::math::min(zaseq.len() as int, iaseq.len() as int),
                ),
                caseq.len() <= usize::MAX,
                zaseq.len() <= usize::MAX,
                iaseq.len() <= usize::MAX,
                forall|q: int|
                    0 <= q < v.cells.len() ==> #[trigger] v.cells[q] == (VecCell {
                        c: caseq[q],
                        z: zaseq[q],
                        i: iaseq[q],
                    }),
                rs.len() == n,
                forall|i: int|
                    0 <= i < n ==> #[trigger] rs@[i] == (
                        piece_start(height as int, n as int, i) as usize,
                        piece_start(height as int, n as int, i + 1) as usize,
                    ),
                forall|i: int|
                    0 <= i < n ==> 0 <= #[trigger] band_start(v, n as int, i)
                        <= band_start(v, n as int, i + 1) <= v.cells.len(),
                parts.deep_view().len() == k,
                forall|i: int|
                    0 <= i < k ==> #[trigger] parts.deep_view()[i] == state_split_view(
                        v,
                        n as int,
                    )[i],
                rest_ca@ == caseq.subrange(band_start(v, n as int, k as int), caseq.len() as int),
                rest_za@ == zaseq.subrange(band_start(v, n as int, k as int), zaseq.len() as int),
                rest_ia@ == iaseq.subrange(band_start(v, n as int, k as int), iaseq.len() as int),
            decreases n - k,
        {
            proof {
                lemma_piece_start_ordered(height as int, n as int, 0, k as int);
                lemma_piece_start_ordered(height as int, n as int, k as int, k as int + 1);
                lemma_piece_start_ordered(height as int, n as int, k as int + 1, n as int);
            }
            let (a, b) = rs[k];
            let rows = b - a;
            let ghost lo = band_start(v, n as int, k as int);
            let ghost hi = band_start(v, n as int, k as int + 1);
            proof {
                assert(rows as int == piece_start(height as int, n as int, k as int + 1)
                    - piece_start(height as int, n as int, k as int));
                assert(hi - lo == width * (rows as int)) by (nonlinear_arith)
                    requires
                        lo == width * piece_start(height as int, n as int, k as int),
                        hi == width * piece_start(height as int, n as int, k as int + 1),
                        rows as int == piece_start(height as int, n as int, k as int + 1)
                            - piece_start(height as int, n as int, k as int),
                ;
            }
            let size = rows * width;
            proof {
                assert(size as int == hi - lo) by (nonlinear_arith)
                    requires
                        size as int == (rows as int) * (width as int),
                        hi - lo == width * (rows as int),
                ;
            }
            let ghost ca0 = rest_ca@;
            let ghost za0 = rest_za@;
            let ghost ia0 = rest_ia@;
            let tail_ca = rest_ca.split_off(size);
            let tail_za = rest_za.split_off(size);
            let tail_ia = rest_ia.split_off(size);
            proof {
                assert(rest_ca@ =~= caseq.subrange(lo, hi));
                assert(rest_za@ =~= zaseq.subrange(lo, hi));
                assert(rest_ia@ =~= iaseq.subrange(lo, hi));
                assert(tail_ca@ =~= caseq.subrange(hi, caseq.len() as int));
                assert(tail_za@ =~= zaseq.subrange(hi, zaseq.len() as int));
                assert(tail_ia@ =~= iaseq.subrange(hi, iaseq.len() as int));
            }
            let part = MbArrayState {
                width,
                height: rows,
                iteration,
                ca: rest_ca,
                za: rest_za,
                ia: rest_ia,
            };
            let ghost part_view = part.deep_view();
            let ghost parts_deep0 = parts.deep_view();
            let ghost parts_view0 = parts@;
            proof {
                assert(part.cell_count() == hi - lo);
                assert(part_view.cells =~= state_split_view(v, n as int)[k as int].cells);
                assert(part_view == state_split_view(v, n as int)[k as int]);
            }
            parts.push(part);
            rest_ca = tail_ca;
            rest_za = tail_za;
            rest_ia = tail_ia;
            k += 1;
            proof {
                vec_deep_facts(&parts);
                assert forall|i: int| 0 <= i < k implies #[trigger] parts.deep_view()[i]
                    == state_split_view(v, n as int)[i] by {
                    if i + 1 == k {
                        assert(parts.deep_view()[i] == parts@[i].deep_view());
                        assert(parts@[i].deep_view() == part_view);
                    } else {
                        assert(parts@[i] == parts_view0[i]);
                        assert(parts_deep0[i] == parts_view0[i].deep_view());
                    }
                }
            }
        }
        proof {
            assert(parts.deep_view() =~= state_split_view(v, n as int));
        }
        parts
    }
}

impl Join for MbArrayState {
    open spec fn joinable(parts: Seq<StateView>) -> bool {
        states_joinable(parts)
    }

    open spec fn join_view(parts: Seq<StateView>) -> StateView {
        state_join_view(parts)
    }

    fn join_vec(parts: Vec<Self>) -> (joined: Self) {
        let ghost sv = parts.deep_view();
        let total_count = parts.len();
        let ghost total = total_count as int;
        let mut parts = parts;
        proof {
            vec_deep_facts(&parts);
        }
        let mut width: usize = 0;
        let mut iteration: i16 = 0;
        let mut height: usize = 0;
        let mut ca: Vec<Cpx> = Vec::new();
        let mut za: Vec<Cpx> = Vec::new();
        let mut ia: Vec<i16> = Vec::new();
        let mut i: usize = 0;
        proof {
            assert(sv.subrange(0, 0) =~= Seq::<StateView>::empty());
            assert(sv.subrange(0, 0).map_values(|p: StateView| p.cells).flatten()
                =~= Seq::<VecCell>::empty());
        }
        while i < total_count
            invariant
                total == sv.len(),
                total == total_count,
                total >= 1,
                total <= usize::MAX,
                i <= total,
                parts.deep_view().len() == total - i,
                forall|j: int| 0 <= j < total - i ==> parts.deep_view()[j] == sv[j + i],
                states_joinable(sv),
                i >= 1 ==> width == sv[0].width,
                i >= 1 ==> iteration == sv[0].iteration,
                height == crate::solver::heights_total(sv.subrange(0, i as int)),
                ca@.len() == za@.len(),
                ca@.len() == ia@.len(),
                Seq::new(ca@.len(), |q: int| VecCell { c: ca@[q], z: za@[q], i: ia@[q] })
                    == sv.subrange(0, i as int).map_values(|p: StateView| p.cells).flatten(),
            decreases total_count - i,
        {
            let ghost pdeep0 = parts.deep_view();
            let ghost pview0 = parts@;
            proof {
                vec_deep_facts(&parts);
                assert(pdeep0[0] == pview0[0].deep_view());
            }
            let part = parts.remove(0);
            let ghost iold = i as int;
            proof {
                vec_deep_facts(&parts);
                assert(part.deep_view() == sv[iold]);
                assert(sv[iold].wf());
                assert forall|j: int| 0 <= j < total - iold - 1 implies parts.deep_view()[j]
                    == sv[j + iold + 1] by {
                    assert(parts@[j] == pview0[j + 1]);
                    assert(pdeep0[j + 1] == pview0[j + 1].deep_view());
                }
            }
            width = part.width;
            iteration = part.iteration;
            let pca_len = part.ca.len();
            proof {
                assert(sv[iold].cells.len() <= part.cell_count());
                assert(part.cell_count() <= pca_len);
                assert(part.width * part.height == sv[iold].cells.len());
            }
            let keep = part.width * part.height;
            proof {
                assert(keep == sv[iold].cells.len());
                assert(keep <= part.cell_count());
            }
            let mut pca = part.ca;
            let mut pza = part.za;
            let mut pia = part.ia;
            pca.truncate(keep);
            pza.truncate(keep);
            pia.truncate(keep);
            let ghost pcells = sv[iold].cells;
            proof {
                assert forall|q: int| 0 <= q < keep implies (VecCell {
                    c: pca@[q],
                    z: pza@[q],
                    i: pia@[q],
                }) == pcells[q] by {
                    assert(sv[iold].cells[q] == part.deep_view().cells[q]);
                }
                assert(crate::solver::heights_total(sv.subrange(0, iold + 1))
                    == crate::solver::heights_total(sv.subrange(0, iold)) + sv[iold].height) by {
                    assert(sv.subrange(0, iold + 1) =~= sv.subrange(0, iold).push(sv[iold]));
                    crate::solver::lemma_heights_total_push(sv.subrange(0, iold), sv[iold]);
                }
                lemma_array_heights_prefix(sv, iold + 1);
            }
            let ghost ca_acc0 = ca@;
            let ghost za_acc0 = za@;
            let ghost ia_acc0 = ia@;
            let ghost pca0 = pca@;
            let ghost pza0 = pza@;
            let ghost pia0 = pia@;
            height = height + part.height;
            ca.append(&mut pca);
            za.append(&mut pza);
            ia.append(&mut pia);
            i += 1;
            proof {
                let mapped = sv.subrange(0, i as int).map_values(|p: StateView| p.cells);
                let mapped0 = sv.subrange(0, iold).map_values(|p: StateView| p.cells);
                assert(mapped =~= mapped0 + seq![pcells]);
                vstd::seq_lib::lemma_flatten_concat(mapped0, seq![pcells]);
                seq![pcells].lemma_flatten_one_element();
                assert forall|q: int| 0 <= q < ca@.len() implies (VecCell {
                    c: ca@[q],
                    z: za@[q],
                    i: ia@[q],
                }) == (mapped0.flatten() + pcells)[q] by {
                    if q < ca_acc0.len() {
                        assert(ca@[q] == ca_acc0[q]);
                        assert(za@[q] == za_acc0[q]);
                        assert(ia@[q] == ia_acc0[q]);
                        assert((VecCell { c: ca_acc0[q], z: za_acc0[q], i: ia_acc0[q] })
                            == mapped0.flatten()[q]);
                    } else {
                        assert(ca@[q] == pca0[q - ca_acc0.len()]);
                        assert(za@[q] == pza0[q - za_acc0.len()]);
                        assert(ia@[q] == pia0[q - ia_acc0.len()]);
                    }
                }
                assert(Seq::new(ca@.len(), |q: int| VecCell { c: ca@[q], z: za@[q], i: ia@[q] })
                    =~= mapped.flatten());
            }
        }
        let joined = MbArrayState { width, height, iteration, ca, za, ia };
        proof {
            assert(sv.subrange(0, total) =~= sv);
            assert(joined.cell_count() == joined.ca@.len());
            assert(joined.deep_view().cells =~= state_join_view(sv).cells);
            assert(joined.deep_view() == state_join_view(sv));
        }
        joined
    }
}

/// The height of a joinable prefix never exceeds the joinable total, which
/// a machine index can hold.
proof fn lemma_array_heights_prefix(sv: Seq<StateView>, k: int)
    requires
        states_joinable(sv),
        0 <= k <= sv.len(),
    ensures
        crate::solver::heights_total(sv.subrange(0, k)) <= crate::solver::heights_total(sv),
    decreases sv.len() - k,
{
    if k == sv.len() {
        assert(sv.subrange(0, k) =~= sv);
    } else {
        lemma_array_heights_prefix(sv, k + 1);
        assert(sv.subrange(0, k + 1) =~= sv.subrange(0, k).push(sv[k]));
        crate::solver::lemma_heights_total_push(sv.subrange(0, k), sv[k]);
    }
}

impl RowState for MbArrayState {
    proof fn row_split_properties(v: StateView, n: int) {
    }

    proof fn row_join_properties(parts: Seq<StateView>) {
    }
}

} // verus!
