//! Lane-packed escape-time backend: cells are grouped four to a lane and
//! every update touches all four slots of a lane at once, with branch-free
//! select/min combining in the style of fixed-width vector units.
//!
//! Inside a lane the escape slot uses a large sentinel (`i32::MAX`, the
//! stand-in for infinity) rather than the public `-1`, so that "earliest
//! escape so far" is a lane-wide minimum; the public sentinel appears only
//! when a value is read out.  Partial lanes are not representable: a grid
//! is accepted only if its cell count is a multiple of the lane width.

use vstd::prelude::*;

use crate::complex::{cpx_norm_sqr, cpx_step, Cpx};
use crate::coord::Coords;
use crate::fixed::{fx_mul, fx_mul_spec, SCALE_ONE};
use crate::solver::{
    cell_solve, cell_step, init_view, lemma_cell_solve_snoc, lemma_row_major_index, solve_view,
    MbState, Solver, StateView, VecCell, I_UNSET,
};
use crate::threads::vec_deep_facts;

verus! {

/// Number of cells packed into one lane.
pub const LANE_WIDTH: usize = 4;

/// The in-lane "never escaped" sentinel, far above any reachable step
/// number.
pub const LANE_UNSET: i32 = i32::MAX;

/// The public escape slot corresponding to an in-lane entry: the lane
/// sentinel reads as the public unset sentinel, and an entry outside the
/// public range stands for a cell escaped long ago.
pub open spec fn lane_i_public(x: i32) -> i16 {
    if x == LANE_UNSET {
        I_UNSET
    } else if 0 <= x <= i16::MAX {
        x as i16
    } else {
        0i16
    }
}

/// Four escape-time cells packed into one lane.
#[derive(Clone, Copy, Debug)]
pub struct SimdVecCell {
    pub c: [Cpx; 4],
    pub z: [Cpx; 4],
    pub i: [i32; 4],
}

impl SimdVecCell {
    /// The cell in slot `e` of this lane, in the public representation.
    pub open spec fn slot(&self, e: int) -> VecCell {
        VecCell { c: self.c@[e], z: self.z@[e], i: lane_i_public(self.i@[e]) }
    }

    /// Applies `steps` recurrence steps to all four slots of the lane.
    pub fn iterate(&mut self, steps: u16, base: i16, thr_sqr: i64)
        requires
            0 <= base,
            base + steps <= i16::MAX,
        ensures
            final(self).c == old(self).c,
            forall|e: int|
                0 <= e < 4 ==> #[trigger] final(self).slot(e) == cell_solve(
                    old(self).slot(e),
                    base as int,
                    steps as nat,
                    thr_sqr as int,
                ),
    {
        let ghost orig = *self;
        let mut step: u16 = 0;
        while step < steps
            invariant
                0 <= base,
                base + steps <= i16::MAX,
                step <= steps,
                self.c == orig.c,
                forall|e: int|
                    0 <= e < 4 ==> #[trigger] self.slot(e) == cell_solve(
                        orig.slot(e),
                        base as int,
                        step as nat,
                        thr_sqr as int,
                    ),
            decreases steps - step,
        {
            let stepno: i32 = base as i32 + step as i32 + 1;
            let ghost pre = *self;
            let z2 = [
                cpx_step(self.z[0], self.c[0]),
                cpx_step(self.z[1], self.c[1]),
                cpx_step(self.z[2], self.c[2]),
                cpx_step(self.z[3], self.c[3]),
            ];
            let live = [
                self.i[0] == LANE_UNSET,
                self.i[1] == LANE_UNSET,
                self.i[2] == LANE_UNSET,
                self.i[3] == LANE_UNSET,
            ];
            let new_z = [
                if live[0] {
                    z2[0]
                } else {
                    self.z[0]
                },
                if live[1] {
                    z2[1]
                } else {
                    self.z[1]
                },
                if live[2] {
                    z2[2]
                } else {
                    self.z[2]
                },
                if live[3] {
                    z2[3]
                } else {
                    self.z[3]
                },
            ];
            let diverged_i = [
                if live[0] && cpx_norm_sqr(z2[0]) > thr_sqr {
                    stepno
                } else {
                    LANE_UNSET
                },
                if live[1] && cpx_norm_sqr(z2[1]) > thr_sqr {
                    stepno
                } else {
                    LANE_UNSET
                },
                if live[2] && cpx_norm_sqr(z2[2]) > thr_sqr {
                    stepno
                } else {
                    LANE_UNSET
                },
                if live[3] && cpx_norm_sqr(z2[3]) > thr_sqr {
                    stepno
                } else {
                    LANE_UNSET
                },
            ];
            let new_i = [
                if diverged_i[0] < self.i[0] {
                    diverged_i[0]
                } else {
                    self.i[0]
                },
                if diverged_i[1] < self.i[1] {
                    diverged_i[1]
                } else {
                    self.i[1]
                },
                if diverged_i[2] < self.i[2] {
                    diverged_i[2]
                } else {
                    self.i[2]
                },
                if diverged_i[3] < self.i[3] {
                    diverged_i[3]
                } else {
                    self.i[3]
                },
            ];
            self.z = new_z;
            self.i = new_i;
            step += 1;
            proof {
                assert forall|e: int| 0 <= e < 4 implies #[trigger] self.slot(e) == cell_solve(
                    orig.slot(e),
                    base as int,
                    step as nat,
                    thr_sqr as int,
                ) by {
                    lemma_cell_solve_snoc(orig.slot(e), base as int, step as nat, thr_sqr as int);
                    assert(self.slot(e) == cell_step(pre.slot(e), stepno as int, thr_sqr as int));
                }
            }
        }
    }
}

/// Escape-time state packed four cells to a lane, row-major over the
/// unpacked cells.
#[derive(Clone, Debug)]
pub struct SimdVecState {
    pub width: usize,
    pub height: usize,
    pub iteration: i16,
    pub state: Vec<SimdVecCell>,
}

impl DeepView for SimdVecState {
    type V = StateView;

    open spec fn deep_view(&self) -> StateView {
        StateView {
            width: self.width as nat,
            height: self.height as nat,
            iteration: self.iteration as int,
            cells: Seq::new(self.state@.len() * 4, |j: int| self.state@[j / 4].slot(j % 4)),
        }
    }
}

impl MbState for SimdVecState {
    open spec fn init_pre(cs: Seq<Cpx>) -> bool {
        cs.len() % 4 == 0
    }

    fn width(&self) -> (w: usize) {
        self.width
    }

    fn height(&self) -> (h: usize) {
        self.height
    }

    fn i_value(&self, x: usize, y: usize) -> (iv: i16) {
        let lanes = self.state.len();
        proof {
            lemma_row_major_index(self.width as int, self.height as int, x as int, y as int);
            assert(y * self.width + x < lanes * 4);
        }
        let idx: u128 = (y as u128) * (self.width as u128) + (x as u128);
        let ghost idxi = idx as int;
        proof {
            assert(idxi == y * self.width + x);
            assert(0 <= idxi / 4 < lanes && 0 <= idxi % 4 < 4) by (nonlinear_arith)
                requires
                    0 <= idxi < lanes * 4,
            ;
            assert(self.deep_view().cells[idxi] == self.state@[idxi / 4].slot(idxi % 4));
        }
        let lane_idx = (idx / 4) as usize;
        let e = (idx % 4) as usize;
        let lane = self.state[lane_idx];
        let raw = lane.i[e];
        if raw == LANE_UNSET {
            I_UNSET
        } else if raw <= i16::MAX as i32 && raw >= 0 {
            raw as i16
        } else {
            0
        }
    }

    fn from_coords(coords: &Coords<Cpx>) -> (s: Self) {
        let ghost cs = coords.values.deep_view();
        let n = coords.values.len();
        let lane_count = n / 4;
        let mut lanes: Vec<SimdVecCell> = Vec::new();
        let mut l: usize = 0;
        proof {
            vec_deep_facts(&coords.values);
            assert(lane_count * 4 == n) by {
                vstd::arithmetic::div_mod::lemma_fundamental_div_mod(n as int, 4);
            }
        }
        while l < lane_count
            invariant
                cs == coords.values.deep_view(),
                n == cs.len(),
                n <= usize::MAX,
                lane_count * 4 == n,
                l <= lane_count,
                forall|q: int| 0 <= q < n ==> #[trigger] coords.values@[q] == cs[q],
                lanes@.len() == l,
                forall|t: int, e: int|
                    0 <= t < l && 0 <= e < 4 ==> (#[trigger] lanes@[t].slot(e)) == (VecCell {
                        c: cs[t * 4 + e],
                        z: cs[t * 4 + e],
                        i: I_UNSET,
                    }),
            decreases lane_count - l,
        {
            proof {
                assert(l * 4 + 4 <= lane_count * 4) by (nonlinear_arith)
                    requires
                        l < lane_count,
                ;
            }
            let j = l * 4;
            let quad = [
                coords.values[j],
                coords.values[j + 1],
                coords.values[j + 2],
                coords.values[j + 3],
            ];
            let lane = SimdVecCell {
                c: quad,
                z: quad,
                i: [LANE_UNSET, LANE_UNSET, LANE_UNSET, LANE_UNSET],
            };
            lanes.push(lane);
            l += 1;
        }
        let s = SimdVecState {
            width: coords.width,
            height: coords.height,
            iteration: 0,
            state: lanes,
        };
        proof {
            assert forall|j: int| 0 <= j < n implies s.deep_view().cells[j] == init_view(
                coords.width as nat,
                coords.height as nat,
                cs,
            ).cells[j] by {
                let t = j / 4;
                let e = j % 4;
                assert(0 <= t < lane_count && 0 <= e < 4 && j == t * 4 + e) by (nonlinear_arith)
                    requires
                        0 <= j < lane_count * 4,
                        t == j / 4,
                        e == j % 4,
                ;
            }
            assert(s.deep_view().cells =~= init_view(
                coords.width as nat,
                coords.height as nat,
                cs,
            ).cells);
        }
        s
    }
}

/// The lane-packed solver: the common budget and threshold, executed four
/// cells at a time.
#[derive(Clone, Copy, Debug)]
pub struct SimdVecSolver {
    pub iterations: u16,
    pub threshold: i64,
}

impl Default for SimdVecSolver {
    /// One hundred steps against the classic threshold of 2.
    fn default() -> (s: Self)
        ensures
            s.iterations == 100u16,
            s.threshold == 2 * SCALE_ONE,
    {
        SimdVecSolver { iterations: 100, threshold: 2 * SCALE_ONE }
    }
}

impl Solver<SimdVecState> for SimdVecSolver {
    open spec fn wf(&self) -> bool {
        self.iterations <= i16::MAX
    }

    open spec fn steps(&self) -> nat {
        self.iterations as nat
    }

    open spec fn threshold_sqr(&self) -> int {
        fx_mul_spec(self.threshold as int, self.threshold as int)
    }

    fn solve(&self, state: SimdVecState) -> (r: SimdVecState) {
        let ghost v = state.deep_view();
        let thr_sqr = fx_mul(self.threshold, self.threshold);
        let base = state.iteration;
        let mut lanes = state.state;
        let lane_count = lanes.len();
        proof {
            assert forall|t: int, e: int|
                0 <= t < lane_count && 0 <= e < 4 implies (#[trigger] lanes@[t].slot(e))
                == v.cells[t * 4 + e] by {
                let j = t * 4 + e;
                assert(0 <= j < lane_count * 4 && j / 4 == t && j % 4 == e) by (nonlinear_arith)
                    requires
                        0 <= t < lane_count,
                        0 <= e < 4,
                        j == t * 4 + e,
                ;
            }
        }
        let mut l: usize = 0;
        while l < lane_count
            invariant
                v.wf(),
                self.wf(),
                v.iteration == base,
                v.iteration + self.iterations <= i16::MAX,
                thr_sqr as int == self.threshold_sqr(),
                l <= lane_count,
                lanes@.len() == lane_count,
                v.cells.len() == lane_count * 4,
                forall|t: int, e: int|
                    l <= t < lane_count && 0 <= e < 4 ==> (#[trigger] lanes@[t].slot(e))
                        == v.cells[t * 4 + e],
                forall|t: int, e: int|
                    0 <= t < l && 0 <= e < 4 ==> (#[trigger] lanes@[t].slot(e)) == cell_solve(
                        v.cells[t * 4 + e],
                        base as int,
                        self.iterations as nat,
                        thr_sqr as int,
                    ),
            decreases lane_count - l,
        {
            proof {
                assert(0 <= l * 4 && l * 4 + 4 <= lane_count * 4) by (nonlinear_arith)
                    requires
                        0 <= (l as int) < lane_count,
                ;
            }
            let mut lane = lanes[l];
            lane.iterate(self.iterations, base, thr_sqr);
            lanes[l] = lane;
            l += 1;
        }
        let iteration = (base as i32 + self.iterations as i32) as i16;
        let r = SimdVecState { width: state.width, height: state.height, iteration, state: lanes };
        proof {
            assert forall|j: int| 0 <= j < v.cells.len() implies r.deep_view().cells[j]
                == cell_solve(v.cells[j], base as int, self.iterations as nat, thr_sqr as int) by {
                let t = j / 4;
                let e = j % 4;
                assert(0 <= t < lane_count && 0 <= e < 4 && j == t * 4 + e) by (nonlinear_arith)
                    requires
                        0 <= j < lane_count * 4,
                        t == j / 4,
                        e == j % 4,
                ;
            }
            assert(r.deep_view().cells =~= solve_view(
                v,
                self.steps(),
                self.threshold_sqr(),
            ).cells);
            assert(r.deep_view() == solve_view(v, self.steps(), self.threshold_sqr()));
        }
        r
    }
}

} // verus!
