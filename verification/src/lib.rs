//! Escape-time evaluation of a rectangular pixel window mapped onto the
//! complex plane: window geometry, per-cell escape state with three
//! interchangeable solver backends, a generic split/join work-partitioning
//! engine, and an incremental recompute path for panned windows.
//!
//! Real quantities (complex coordinates, escape thresholds, scale factors)
//! are carried as fixed-point integers so that every computation is exact
//! and deterministic; see [`fixed`].

pub mod bench;
pub mod complex;
pub mod coord;
pub mod fixed;
pub mod painter;
pub mod solver;
pub mod state;
pub mod threads;

use vstd::prelude::*;

use crate::coord::{div_round, lemma_grid_index, Point, Viewbox, VIEW_LIMIT};
use crate::solver::vec::VecState;
use crate::solver::{init_view, solve_view, MbState, Solver, StateView};

verus! {

/// The state an orchestrator keeps solved for the window it shows:
/// every cell solved once, with the solver's full budget, from the fresh
/// grid of `position`.
pub open spec fn scratch_view(position: Viewbox, steps: nat, thr_sqr: int) -> StateView {
    solve_view(
        init_view(position.width as nat, position.height as nat, position.grid_view()),
        steps,
        thr_sqr,
    )
}


/// A navigation request for a live session: resize the window, translate
/// it by pixels or by a fixed-point fraction of its size, rescale it by a
/// rational factor, or start over at the customary window of a given
/// size.
#[derive(Clone, Copy, Debug, PartialEq, Eq, Structural)]
pub enum MAction {
    Resize(i64, i64),
    Pan(i64, i64),
    PanRelative(i64, i64),
    Zoom(i64, i64),
    Reset(i64, i64),
}

/// A live session: a window, a solver, and the escape state of the window,
/// kept equal to what solving the window from scratch would give.
pub struct Mandelbrot<T, S> {
    pub solver: S,
    pub position: Viewbox,
    pub state: T,
}

impl<T: MbState, S: Solver<T>> Mandelbrot<T, S> {
    /// The session invariant: the window and solver are usable and the
    /// state is exactly the solved state of the window.
    pub open spec fn wf(&self) -> bool {
        &&& self.position.wf()
        &&& self.solver.wf()
        &&& self.solver.steps() <= i16::MAX
        &&& self.state.deep_view() == scratch_view(
            self.position,
            self.solver.steps(),
            self.solver.threshold_sqr(),
        )
    }

    /// Solves the window of `position` from scratch.
    fn resolve(solver: &S, position: &Viewbox) -> (state: T)
        requires
            position.wf(),
            solver.wf(),
            solver.steps() <= i16::MAX,
            T::init_pre(position.grid_view()),
        ensures
            state.deep_view() == scratch_view(*position, solver.steps(), solver.threshold_sqr()),
    {
        let coords = position.generate_complex_coordinates();
        let fresh = T::from_coords(&coords);
        solver.solve(fresh)
    }

    /// Opens a session on the customary start window.
    pub fn initialize(solver: S, width: i64, height: i64) -> (m: Self)
        requires
            solver.wf(),
            solver.steps() <= i16::MAX,
            0 < width <= 65536,
            0 < height <= 65536,
            forall|v: Viewbox| #[trigger] v.wf() ==> T::init_pre(v.grid_view()),
        ensures
            m.wf(),
            m.position.width == width,
            m.position.height == height,
    {
        let position = Viewbox::initial(width, height);
        let state = Self::resolve(&solver, &position);
        Mandelbrot { solver, position, state }
    }

    /// Moves the session to an arbitrary window and solves it.
    pub fn set_position(&mut self, position: Viewbox)
        requires
            old(self).wf(),
            position.wf(),
            T::init_pre(position.grid_view()),
        ensures
            final(self).wf(),
            final(self).position == position,
            final(self).solver == old(self).solver,
    {
        let state = Self::resolve(&self.solver, &position);
        self.position = position;
        self.state = state;
    }

    /// Changes the pixel dimensions of the window and solves it afresh.
    pub fn resize(&mut self, width: i64, height: i64)
        requires
            old(self).wf(),
            0 < width <= 65536,
            0 < height <= 65536,
            T::init_pre(
                (Viewbox {
                    center: old(self).position.center,
                    width,
                    height,
                    scale_num: old(self).position.scale_num,
                    scale_den: old(self).position.scale_den,
                }).grid_view(),
            ),
        ensures
            final(self).wf(),
            final(self).position.width == width,
            final(self).position.height == height,
            final(self).position.center == old(self).position.center,
            final(self).position.scale_num == old(self).position.scale_num,
            final(self).position.scale_den == old(self).position.scale_den,
            final(self).solver == old(self).solver,
    {
        let position = Viewbox {
            center: self.position.center,
            width,
            height,
            scale_num: self.position.scale_num,
            scale_den: self.position.scale_den,
        };
        self.set_position(position);
    }

    /// Translates the window by whole pixels and solves it afresh.
    pub fn pan(&mut self, x: i64, y: i64)
        requires
            old(self).wf(),
            -VIEW_LIMIT <= old(self).position.center.x + x <= VIEW_LIMIT,
            -VIEW_LIMIT <= old(self).position.center.y + y <= VIEW_LIMIT,
            T::init_pre(
                (Viewbox {
                    center: Point {
                        x: (old(self).position.center.x + x) as i64,
                        y: (old(self).position.center.y + y) as i64,
                    },
                    width: old(self).position.width,
                    height: old(self).position.height,
                    scale_num: old(self).position.scale_num,
                    scale_den: old(self).position.scale_den,
                }).grid_view(),
            ),
        ensures
            final(self).wf(),
            final(self).position.center.x == old(self).position.center.x + x,
            final(self).position.center.y == old(self).position.center.y + y,
            final(self).position.width == old(self).position.width,
            final(self).position.height == old(self).position.height,
            final(self).position.scale_num == old(self).position.scale_num,
            final(self).position.scale_den == old(self).position.scale_den,
            final(self).solver == old(self).solver,
    {
        let position = Viewbox {
            center: Point::new(self.position.center.x + x, self.position.center.y + y),
            width: self.position.width,
            height: self.position.height,
            scale_num: self.position.scale_num,
            scale_den: self.position.scale_den,
        };
        self.set_position(position);
    }

    /// Translates the window by fractions of its size, given as
    /// fixed-point fractions of the width and height, and solves it
    /// afresh.
    pub fn pan_relative(&mut self, fx: i64, fy: i64)
        requires
            old(self).wf(),
            -65536 <= fx <= 65536,
            -65536 <= fy <= 65536,
            -VIEW_LIMIT <= old(self).position.center.x + div_round(
                fx * old(self).position.width,
                crate::fixed::SCALE_ONE as int,
            ) <= VIEW_LIMIT,
            -VIEW_LIMIT <= old(self).position.center.y + div_round(
                fy * old(self).position.height,
                crate::fixed::SCALE_ONE as int,
            ) <= VIEW_LIMIT,
            forall|v: Viewbox| #[trigger] v.wf() ==> T::init_pre(v.grid_view()),
        ensures
            final(self).wf(),
            final(self).solver == old(self).solver,
            final(self).position.center.x == old(self).position.center.x + div_round(
                fx * old(self).position.width,
                crate::fixed::SCALE_ONE as int,
            ),
            final(self).position.center.y == old(self).position.center.y + div_round(
                fy * old(self).position.height,
                crate::fixed::SCALE_ONE as int,
            ),
    {
        let nx = Viewbox::round_px(fx, self.position.width);
        let ny = Viewbox::round_px(fy, self.position.height);
        proof {
            let nb = Viewbox {
                center: Point {
                    x: (self.position.center.x + nx) as i64,
                    y: (self.position.center.y + ny) as i64,
                },
                width: self.position.width,
                height: self.position.height,
                scale_num: self.position.scale_num,
                scale_den: self.position.scale_den,
            };
            assert(nb.wf());
            assert(T::init_pre(nb.grid_view()));
        }
        self.pan(nx, ny);
    }

    /// Rescales the window around its centre by the rational factor
    /// `f_num / f_den` and solves it afresh.
    pub fn zoom(&mut self, f_num: i64, f_den: i64)
        requires
            old(self).wf(),
            1 <= f_num,
            1 <= f_den,
            old(self).position.scale_num * f_den <= VIEW_LIMIT,
            old(self).position.scale_den * f_num <= VIEW_LIMIT,
            -VIEW_LIMIT <= div_round(old(self).position.center.x * f_den, f_num as int)
                <= VIEW_LIMIT,
            -VIEW_LIMIT <= div_round(old(self).position.center.y * f_den, f_num as int)
                <= VIEW_LIMIT,
            forall|v: Viewbox| #[trigger] v.wf() ==> T::init_pre(v.grid_view()),
        ensures
            final(self).wf(),
            final(self).solver == old(self).solver,
            final(self).position.scale_num == old(self).position.scale_num * f_den,
            final(self).position.scale_den == old(self).position.scale_den * f_num,
            final(self).position.width == old(self).position.width,
            final(self).position.height == old(self).position.height,
            final(self).position.center.x == div_round(
                old(self).position.center.x * f_den,
                f_num as int,
            ),
            final(self).position.center.y == div_round(
                old(self).position.center.y * f_den,
                f_num as int,
            ),
    {
        let mut position = self.position;
        position.zoom(f_num, f_den);
        proof {
            assert(position.wf());
            assert(T::init_pre(position.grid_view()));
        }
        self.set_position(position);
    }
}

impl Viewbox {
    /// Rounds a fixed-point fraction of a pixel length to whole pixels.
    pub fn round_px(f: i64, len: i64) -> (r: i64)
        requires
            -65536 <= f <= 65536,
            0 < len <= 65536,
        ensures
            r as int == div_round(f * len, crate::fixed::SCALE_ONE as int),
    {
        proof {
            assert(-0x1_0000_0000 <= f * len <= 0x1_0000_0000) by (nonlinear_arith)
                requires
                    -65536 <= f <= 65536,
                    0 < len <= 65536,
            ;
        }
        let p: i64 = f * len;
        let neg = p < 0;
        let mag: i64 = if neg {
            -p
        } else {
            p
        };
        let q = (2 * mag + crate::fixed::SCALE_ONE) / (2 * crate::fixed::SCALE_ONE);
        proof {
            crate::coord::lemma_div_round_le(mag as int, crate::fixed::SCALE_ONE as int);
        }
        if neg {
            -q
        } else {
            q
        }
    }
}

impl<S: Solver<VecState>> Mandelbrot<VecState, S> {
    /// Translates the window by `y` whole rows of pixels and brings the
    /// state up to date incrementally: the still-visible rows are shifted
    /// in place and only the newly exposed strip is solved, yet the
    /// resulting state is exactly the state a full solve of the new
    /// window would give.
    pub fn pan_fast_vertical(&mut self, y: i64)
        requires
            old(self).wf(),
            y != 0,
            -old(self).position.height < y < old(self).position.height,
            -(VIEW_LIMIT - 0x40000) <= old(self).position.center.y + y <= VIEW_LIMIT - 0x40000,
        ensures
            final(self).wf(),
            final(self).solver == old(self).solver,
            final(self).position.center.x == old(self).position.center.x,
            final(self).position.center.y == old(self).position.center.y + y,
            final(self).position.width == old(self).position.width,
            final(self).position.height == old(self).position.height,
            final(self).position.scale_num == old(self).position.scale_num,
            final(self).position.scale_den == old(self).position.scale_den,
    {
        let ghost oldpos = self.position;
        let ghost steps = self.solver.steps();
        let ghost thr = self.solver.threshold_sqr();
        let w = self.position.width;
        let h = self.position.height;
        self.position = Viewbox {
            center: Point::new(self.position.center.x, self.position.center.y + y),
            width: w,
            height: h,
            scale_num: self.position.scale_num,
            scale_den: self.position.scale_den,
        };
        let ghost newpos = self.position;
        let ay: i64 = if y > 0 {
            y
        } else {
            -y
        };
        let half_h: i64 = ((h as u64) / 2) as i64;
        let new_from_y: i64 = self.position.center.y - half_h;
        let target_from_y: i64 = if y > 0 {
            new_from_y + (h - y)
        } else {
            new_from_y
        };
        let half_ay: i64 = ((ay as u64) / 2) as i64;
        let strip_center_y: i64 = target_from_y + half_ay;
        let strip_box = Viewbox {
            center: Point::new(self.position.center.x, strip_center_y),
            width: w,
            height: ay,
            scale_num: self.position.scale_num,
            scale_den: self.position.scale_den,
        };
        proof {
            assert(strip_box.wf());
            assert(strip_box.from_y() == target_from_y);
            assert(newpos.from_y() == oldpos.from_y() + y);
            assert(strip_box.from_x() == newpos.from_x());
        }
        let strip_coords = strip_box.generate_complex_coordinates();
        let strip_fresh = VecState::from_coords(&strip_coords);
        let strip_solved = self.solver.solve(strip_fresh);
        proof {
            assert(self.state.deep_view().wf());
            assert(self.state.deep_view().width == w);
            assert(self.state.deep_view().height == h);
            assert(self.state.deep_view().iteration == steps);
            assert(strip_solved.deep_view().wf());
            assert(strip_solved.deep_view().width == w);
            assert(strip_solved.deep_view().height == ay);
            assert(strip_solved.deep_view().iteration == steps);
        }
        self.state.shift_rows(-y, Some(&strip_solved));
        proof {
            let target = scratch_view(newpos, steps, thr);
            let got = self.state.deep_view();
            let oldv = scratch_view(oldpos, steps, thr);
            let stripv = strip_solved.deep_view();
            let wi = w as int;
            let hi = h as int;
            assert(got.cells.len() == wi * hi);
            assert(target.cells.len() == wi * hi);
            assert forall|j: int| 0 <= j < wi * hi implies got.cells[j] == target.cells[j] by {
                lemma_grid_index(wi, hi, j);
                let yy = j / wi;
                let x = j % wi;
                vstd::arithmetic::div_mod::lemma_fundamental_div_mod(j, wi);
                let src = yy + y;
                if 0 <= src < hi {
                    let sj = src * wi + x;
                    crate::solver::lemma_row_major_index(wi, hi, x, src);
                    vstd::arithmetic::div_mod::lemma_fundamental_div_mod_converse(sj, wi, src, x);
                    assert(got.cells[j] == oldv.cells[sj]);
                    assert(oldpos.grid_view()[sj] == newpos.grid_view()[j]);
                } else {
                    let off: int = if y > 0 {
                        -hi
                    } else {
                        (-y) as int
                    };
                    let sy = yy + y + off;
                    assert(0 <= sy < ay);
                    let sj = sy * wi + x;
                    crate::solver::lemma_row_major_index(wi, ay as int, x, sy);
                    vstd::arithmetic::div_mod::lemma_fundamental_div_mod_converse(sj, wi, sy, x);
                    assert(got.cells[j] == stripv.cells[sj]);
                    assert(strip_box.grid_view()[sj] == newpos.grid_view()[j]);
                }
            }
            assert(got.cells =~= target.cells);
            assert(got == target);
        }
    }

    /// Translates the window by `x` whole columns of pixels and brings
    /// the state up to date incrementally, exactly as a full solve of the
    /// new window would.
    pub fn pan_fast_horizontal(&mut self, x: i64)
        requires
            old(self).wf(),
            x != 0,
            -old(self).position.width < x < old(self).position.width,
            -(VIEW_LIMIT - 0x40000) <= old(self).position.center.x + x <= VIEW_LIMIT - 0x40000,
        ensures
            final(self).wf(),
            final(self).solver == old(self).solver,
            final(self).position.center.y == old(self).position.center.y,
            final(self).position.center.x == old(self).position.center.x + x,
            final(self).position.width == old(self).position.width,
            final(self).position.height == old(self).position.height,
            final(self).position.scale_num == old(self).position.scale_num,
            final(self).position.scale_den == old(self).position.scale_den,
    {
        let ghost oldpos = self.position;
        let ghost steps = self.solver.steps();
        let ghost thr = self.solver.threshold_sqr();
        let w = self.position.width;
        let h = self.position.height;
        self.position = Viewbox {
            center: Point::new(self.position.center.x + x, self.position.center.y),
            width: w,
            height: h,
            scale_num: self.position.scale_num,
            scale_den: self.position.scale_den,
        };
        let ghost newpos = self.position;
        let ax: i64 = if x > 0 {
            x
        } else {
            -x
        };
        let half_w: i64 = ((w as u64) / 2) as i64;
        let new_from_x: i64 = self.position.center.x - half_w;
        let target_from_x: i64 = if x > 0 {
            new_from_x + (w - x)
        } else {
            new_from_x
        };
        let half_ax: i64 = ((ax as u64) / 2) as i64;
        let strip_center_x: i64 = target_from_x + half_ax;
        let strip_box = Viewbox {
            center: Point::new(strip_center_x, self.position.center.y),
            width: ax,
            height: h,
            scale_num: self.position.scale_num,
            scale_den: self.position.scale_den,
        };
        proof {
            assert(strip_box.wf());
            assert(strip_box.from_x() == target_from_x);
            assert(newpos.from_x() == oldpos.from_x() + x);
            assert(strip_box.from_y() == newpos.from_y());
        }
        let strip_coords = strip_box.generate_complex_coordinates();
        let strip_fresh = VecState::from_coords(&strip_coords);
        let strip_solved = self.solver.solve(strip_fresh);
        proof {
            assert(self.state.deep_view().wf());
            assert(self.state.deep_view().width == w);
            assert(self.state.deep_view().height == h);
            assert(self.state.deep_view().iteration == steps);
            assert(strip_solved.deep_view().wf());
            assert(strip_solved.deep_view().width == ax);
            assert(strip_solved.deep_view().height == h);
            assert(strip_solved.deep_view().iteration == steps);
        }
        self.state.shift_cols(-x, Some(&strip_solved));
        proof {
            let target = scratch_view(newpos, steps, thr);
            let got = self.state.deep_view();
            let oldv = scratch_view(oldpos, steps, thr);
            let stripv = strip_solved.deep_view();
            let wi = w as int;
            let hi = h as int;
            assert(got.cells.len() == wi * hi);
            assert(target.cells.len() == wi * hi);
            assert forall|j: int| 0 <= j < wi * hi implies got.cells[j] == target.cells[j] by {
                lemma_grid_index(wi, hi, j);
                let yy = j / wi;
                let xx = j % wi;
                vstd::arithmetic::div_mod::lemma_fundamental_div_mod(j, wi);
                let src = xx + x;
                if 0 <= src < wi {
                    let sj = yy * wi + src;
                    crate::solver::lemma_row_major_index(wi, hi, src, yy);
                    vstd::arithmetic::div_mod::lemma_fundamental_div_mod_converse(sj, wi, yy, src);
                    assert(got.cells[j] == oldv.cells[sj]);
                    assert(oldpos.grid_view()[sj] == newpos.grid_view()[j]);
                } else {
                    let off: int = if x > 0 {
                        -wi
                    } else {
                        (-x) as int
                    };
                    let sx = xx + x + off;
                    assert(0 <= sx < ax);
                    let sj = yy * (ax as int) + sx;
                    crate::solver::lemma_row_major_index(ax as int, hi, sx, yy);
                    vstd::arithmetic::div_mod::lemma_fundamental_div_mod_converse(
                        sj,
                        ax as int,
                        yy,
                        sx,
                    );
                    assert(got.cells[j] == stripv.cells[sj]);
                    assert(strip_box.grid_view()[sj] == newpos.grid_view()[j]);
                }
            }
            assert(got.cells =~= target.cells);
            assert(got == target);
        }
    }

    /// Translates the window vertically by a fixed-point fraction of its
    /// height, incrementally; a zero-pixel result leaves the window alone.
    pub fn pan_fast_vertical_relative(&mut self, fy: i64)
        requires
            old(self).wf(),
            -65536 <= fy <= 65536,
            -old(self).position.height < div_round(
                fy * old(self).position.height,
                crate::fixed::SCALE_ONE as int,
            ) < old(self).position.height,
            -(VIEW_LIMIT - 0x40000) <= old(self).position.center.y + div_round(
                fy * old(self).position.height,
                crate::fixed::SCALE_ONE as int,
            ) <= VIEW_LIMIT - 0x40000,
        ensures
            final(self).wf(),
            final(self).solver == old(self).solver,
            final(self).position.center.y == old(self).position.center.y + div_round(
                fy * old(self).position.height,
                crate::fixed::SCALE_ONE as int,
            ),
    {
        let ny = Viewbox::round_px(fy, self.position.height);
        if ny != 0 {
            self.pan_fast_vertical(ny);
        }
    }

    /// Translates the window horizontally by a fixed-point fraction of
    /// its width, incrementally; a zero-pixel result leaves the window
    /// alone.
    pub fn pan_fast_horizontal_relative(&mut self, fx: i64)
        requires
            old(self).wf(),
            -65536 <= fx <= 65536,
            -old(self).position.width < div_round(
                fx * old(self).position.width,
                crate::fixed::SCALE_ONE as int,
            ) < old(self).position.width,
            -(VIEW_LIMIT - 0x40000) <= old(self).position.center.x + div_round(
                fx * old(self).position.width,
                crate::fixed::SCALE_ONE as int,
            ) <= VIEW_LIMIT - 0x40000,
        ensures
            final(self).wf(),
            final(self).solver == old(self).solver,
            final(self).position.center.x == old(self).position.center.x + div_round(
                fx * old(self).position.width,
                crate::fixed::SCALE_ONE as int,
            ),
    {
        let nx = Viewbox::round_px(fx, self.position.width);
        if nx != 0 {
            self.pan_fast_horizontal(nx);
        }
    }

    /// Whether a session in this state may take `action`: the sizes,
    /// centre coordinates and scale terms it produces stay within the
    /// machine limits of the window.
    pub open spec fn action_pre(&self, action: MAction) -> bool {
        match action {
            MAction::Resize(w, h) => 0 < w <= 65536 && 0 < h <= 65536,
            MAction::Pan(x, y) => {
                &&& -self.position.width < x < self.position.width
                &&& -self.position.height < y < self.position.height
                &&& -(VIEW_LIMIT - 0x40000) <= self.position.center.x + x <= VIEW_LIMIT - 0x40000
                &&& -(VIEW_LIMIT - 0x40000) <= self.position.center.y + y <= VIEW_LIMIT - 0x40000
            },
            MAction::PanRelative(fx, fy) => {
                &&& -65536 <= fx <= 65536
                &&& -65536 <= fy <= 65536
                &&& -self.position.width < div_round(
                    fx * self.position.width,
                    crate::fixed::SCALE_ONE as int,
                ) < self.position.width
                &&& -self.position.height < div_round(
                    fy * self.position.height,
                    crate::fixed::SCALE_ONE as int,
                ) < self.position.height
                &&& -(VIEW_LIMIT - 0x40000) <= self.position.center.x + div_round(
                    fx * self.position.width,
                    crate::fixed::SCALE_ONE as int,
                ) <= VIEW_LIMIT - 0x40000
                &&& -(VIEW_LIMIT - 0x40000) <= self.position.center.y + div_round(
                    fy * self.position.height,
                    crate::fixed::SCALE_ONE as int,
                ) <= VIEW_LIMIT - 0x40000
            },
            MAction::Zoom(f_num, f_den) => {
                &&& 1 <= f_num
                &&& 1 <= f_den
                &&& self.position.scale_num * f_den <= VIEW_LIMIT
                &&& self.position.scale_den * f_num <= VIEW_LIMIT
                &&& -VIEW_LIMIT <= div_round(self.position.center.x * f_den, f_num as int)
                    <= VIEW_LIMIT
                &&& -VIEW_LIMIT <= div_round(self.position.center.y * f_den, f_num as int)
                    <= VIEW_LIMIT
            },
            MAction::Reset(w, h) => 0 < w <= 65536 && 0 < h <= 65536,
        }
    }

    /// The window that taking `action` leaves on screen.
    pub open spec fn action_window(&self, action: MAction) -> Viewbox {
        match action {
            MAction::Resize(w, h) => Viewbox {
                center: self.position.center,
                width: w,
                height: h,
                scale_num: self.position.scale_num,
                scale_den: self.position.scale_den,
            },
            MAction::Pan(x, y) => Viewbox {
                center: Point {
                    x: (self.position.center.x + x) as i64,
                    y: (self.position.center.y + y) as i64,
                },
                width: self.position.width,
                height: self.position.height,
                scale_num: self.position.scale_num,
                scale_den: self.position.scale_den,
            },
            MAction::PanRelative(fx, fy) => Viewbox {
                center: Point {
                    x: (self.position.center.x + div_round(
                        fx * self.position.width,
                        crate::fixed::SCALE_ONE as int,
                    )) as i64,
                    y: (self.position.center.y + div_round(
                        fy * self.position.height,
                        crate::fixed::SCALE_ONE as int,
                    )) as i64,
                },
                width: self.position.width,
                height: self.position.height,
                scale_num: self.position.scale_num,
                scale_den: self.position.scale_den,
            },
            MAction::Zoom(f_num, f_den) => Viewbox {
                center: Point {
                    x: div_round(self.position.center.x * f_den, f_num as int) as i64,
                    y: div_round(self.position.center.y * f_den, f_num as int) as i64,
                },
                width: self.position.width,
                height: self.position.height,
                scale_num: (self.position.scale_num * f_den) as i64,
                scale_den: (self.position.scale_den * f_num) as i64,
            },
            MAction::Reset(w, h) => Viewbox::initial_window(w, h),
        }
    }

    /// Takes one navigation action, choosing per action between the
    /// incremental pan path and a full solve, and reports whether the
    /// window content changed.  The session stays well-formed — the state
    /// always equals a full solve of the window shown — and the window is
    /// exactly what the action asks for.
    pub fn apply(&mut self, action: MAction) -> (repaint: bool)
        requires
            old(self).wf(),
            old(self).action_pre(action),
        ensures
            final(self).wf(),
            final(self).solver == old(self).solver,
            final(self).position == old(self).action_window(action),
    {
        match action {
            MAction::Resize(w, h) => {
                self.resize(w, h);
                true
            },
            MAction::Pan(x, y) => {
                if x != 0 {
                    self.pan_fast_horizontal(x);
                }
                if y != 0 {
                    self.pan_fast_vertical(y);
                }
                x != 0 || y != 0
            },
            MAction::PanRelative(fx, fy) => {
                let nx = Viewbox::round_px(fx, self.position.width);
                let ny = Viewbox::round_px(fy, self.position.height);
                if nx != 0 {
                    self.pan_fast_horizontal(nx);
                }
                if ny != 0 {
                    self.pan_fast_vertical(ny);
                }
                nx != 0 || ny != 0
            },
            MAction::Zoom(f_num, f_den) => {
                self.zoom(f_num, f_den);
                true
            },
            MAction::Reset(w, h) => {
                let position = Viewbox::initial(w, h);
                self.set_position(position);
                true
            },
        }
    }
}

} // verus!
