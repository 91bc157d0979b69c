//! Escape-time state and the common solver contract.
//!
//! Every physical state representation is summarised by a [`StateView`]: a
//! grid of per-cell records in row-major order plus the number of recurrence
//! steps already applied.  All solver backends promise the same thing —
//! [`solve_view`] — so backends, worker pools of backends, and pools of
//! pools are interchangeable by contract.
//!
//! One step of the recurrence on an unresolved cell replaces `z` by
//! `z * z + c` and freezes the cell at the current step number as soon as
//! `|z|^2` exceeds the squared threshold.  Resolved cells are never touched
//! again.  A call applying `steps` further steps advances `iteration` by
//! exactly `steps`, uniformly for the whole grid.

use vstd::prelude::*;

use crate::complex::{cpx_norm_sqr_spec, cpx_step_spec, Cpx};
use crate::coord::Coords;
use crate::threads::{
    lemma_piece_start_ordered, lemma_piece_start_total, piece_start, Call, Join, Split, SplitPart,
    WorkerPool,
};

pub mod array;
pub mod simdvec;
pub mod vec;

verus! {

/// The unset sentinel: a cell whose escape step is `-1` has not escaped yet.
pub const I_UNSET: i16 = -1;

/// One cell of escape-time state: the pixel's coordinate `c`, the current
/// iterate `z`, and the step at which it escaped (`-1` while it has not).
#[derive(Clone, Copy, Debug, PartialEq, Eq, Structural)]
pub struct VecCell {
    pub c: Cpx,
    pub z: Cpx,
    pub i: i16,
}

impl DeepView for VecCell {
    type V = VecCell;

    open spec fn deep_view(&self) -> VecCell {
        *self
    }
}

/// The mathematical summary of an escape-time state: its pixel dimensions,
/// how many recurrence steps have been applied, and the cell grid in
/// row-major order.
pub ghost struct StateView {
    pub width: nat,
    pub height: nat,
    pub iteration: int,
    pub cells: Seq<VecCell>,
}

impl StateView {
    /// One cell per pixel, and an iteration count that fits the cell field.
    pub open spec fn wf(&self) -> bool {
        &&& self.cells.len() == self.width * self.height
        &&& 0 <= self.iteration <= i16::MAX
    }

    /// The escape step recorded for pixel `(x, y)`.
    pub open spec fn i_at(&self, x: int, y: int) -> i16 {
        self.cells[y * self.width + x].i
    }
}

/// The state built from a coordinate grid: every cell starts at its own
/// coordinate (`z = c`) with no steps applied and no escape recorded.
pub open spec fn init_view(width: nat, height: nat, cs: Seq<Cpx>) -> StateView {
    StateView {
        width,
        height,
        iteration: 0,
        cells: Seq::new(cs.len(), |j: int| VecCell { c: cs[j], z: cs[j], i: I_UNSET }),
    }
}

/// One recurrence step, numbered `step` (1-based from the state's creation),
/// applied to a single cell: escaped cells are left untouched; for the rest,
/// `z` advances and the cell freezes at `step` if `|z|^2` now exceeds
/// `thr_sqr`.
pub open spec fn cell_step(cell: VecCell, step: int, thr_sqr: int) -> VecCell {
    if cell.i != I_UNSET {
        cell
    } else {
        let z2 = cpx_step_spec(cell.z, cell.c);
        VecCell {
            c: cell.c,
            z: z2,
            i: if cpx_norm_sqr_spec(z2) > thr_sqr {
                step as i16
            } else {
                I_UNSET
            },
        }
    }
}

/// `steps` further recurrence steps applied to one cell whose state has
/// already seen `base` steps: the steps are numbered `base + 1` up to
/// `base + steps`.
pub open spec fn cell_solve(cell: VecCell, base: int, steps: nat, thr_sqr: int) -> VecCell
    decreases steps,
{
    if steps == 0 {
        cell
    } else {
        cell_solve(cell_step(cell, base + 1, thr_sqr), base + 1, (steps - 1) as nat, thr_sqr)
    }
}

/// What every solver returns: each cell solved independently for `steps`
/// further steps, and the iteration count advanced by `steps`.
pub open spec fn solve_view(s: StateView, steps: nat, thr_sqr: int) -> StateView {
    StateView {
        width: s.width,
        height: s.height,
        iteration: s.iteration + steps,
        cells: Seq::new(s.cells.len(), |j: int| cell_solve(s.cells[j], s.iteration, steps, thr_sqr)),
    }
}

/// Peeling the last step: solving for `steps` steps is solving for
/// `steps - 1` and then applying step number `base + steps`.
pub proof fn lemma_cell_solve_snoc(cell: VecCell, base: int, steps: nat, thr_sqr: int)
    requires
        steps >= 1,
    ensures
        cell_solve(cell, base, steps, thr_sqr) == cell_step(
            cell_solve(cell, base, (steps - 1) as nat, thr_sqr),
            base + steps,
            thr_sqr,
        ),
    decreases steps,
{
    let stepped = cell_step(cell, base + 1, thr_sqr);
    assert(cell_solve(cell, base, steps, thr_sqr) == cell_solve(
        stepped,
        base + 1,
        (steps - 1) as nat,
        thr_sqr,
    ));
    if steps == 1 {
        assert(cell_solve(stepped, base + 1, 0, thr_sqr) == stepped);
        assert(cell_solve(cell, base, 0, thr_sqr) == cell);
    } else {
        lemma_cell_solve_snoc(stepped, base + 1, (steps - 1) as nat, thr_sqr);
        assert(cell_solve(cell, base, (steps - 1) as nat, thr_sqr) == cell_solve(
            stepped,
            base + 1,
            (steps - 2) as nat,
            thr_sqr,
        ));
    }
}

/// An escaped cell is left entirely unchanged by any further solving.
pub proof fn lemma_cell_solve_frozen(cell: VecCell, base: int, steps: nat, thr_sqr: int)
    requires
        cell.i != I_UNSET,
    ensures
        cell_solve(cell, base, steps, thr_sqr) == cell,
    decreases steps,
{
    if steps > 0 {
        lemma_cell_solve_frozen(cell, base + 1, (steps - 1) as nat, thr_sqr);
    }
}

/// Escape results are monotonic: once a pixel's escape step is set, solving
/// the state further never changes that pixel's value.
pub proof fn lemma_escape_monotonic(s: StateView, steps: nat, thr_sqr: int, x: int, y: int)
    requires
        s.wf(),
        0 <= x < s.width,
        0 <= y < s.height,
        s.i_at(x, y) != I_UNSET,
    ensures
        solve_view(s, steps, thr_sqr).i_at(x, y) == s.i_at(x, y),
{
    let j = y * s.width + x;
    assert(0 <= j < s.cells.len()) by {
        lemma_row_major_index(s.width as int, s.height as int, x, y);
    }
    lemma_cell_solve_frozen(s.cells[j], s.iteration, steps, thr_sqr);
}

/// A row-major index `y * width + x` stays inside a `width * height` grid.
pub proof fn lemma_row_major_index(width: int, height: int, x: int, y: int)
    requires
        0 <= x < width,
        0 <= y < height,
    ensures
        0 <= y * width + x < width * height,
{
    assert(y * width + x < width * height) by (nonlinear_arith)
        requires
            0 <= x < width,
            0 <= y < height,
    ;
    assert(y * width >= 0) by (nonlinear_arith)
        requires
            y >= 0,
            width > 0,
    ;
}

/// Solving is deterministic in the view: two states with equal views solved
/// with equal budgets and thresholds give equal views — in particular the
/// escape grids of any two conforming backends agree everywhere.
pub proof fn lemma_backend_agreement(a: StateView, b: StateView, steps: nat, thr_sqr: int)
    requires
        a == b,
    ensures
        solve_view(a, steps, thr_sqr) == solve_view(b, steps, thr_sqr),
{
}

/// An escape-time state: any physical representation summarised by a
/// [`StateView`].
pub trait MbState: Sized + DeepView<V = StateView> {
    /// Which coordinate grids this representation accepts.
    spec fn init_pre(cs: Seq<Cpx>) -> bool;

    /// Pixel width of the grid.
    fn width(&self) -> (w: usize)
        requires
            self.deep_view().wf(),
        ensures
            w == self.deep_view().width,
    ;

    /// Pixel height of the grid.
    fn height(&self) -> (h: usize)
        requires
            self.deep_view().wf(),
        ensures
            h == self.deep_view().height,
    ;

    /// The escape step recorded for pixel `(x, y)`, `-1` if it has not
    /// escaped.
    fn i_value(&self, x: usize, y: usize) -> (iv: i16)
        requires
            self.deep_view().wf(),
            x < self.deep_view().width,
            y < self.deep_view().height,
        ensures
            iv == self.deep_view().i_at(x as int, y as int),
    ;

    /// Builds the fresh state of a coordinate grid: no steps applied, every
    /// cell at its own coordinate.
    fn from_coords(coords: &Coords<Cpx>) -> (s: Self)
        requires
            coords.wf(),
            Self::init_pre(coords.values.deep_view()),
        ensures
            s.deep_view() == init_view(
                coords.width as nat,
                coords.height as nat,
                coords.values.deep_view(),
            ),
            s.deep_view().wf(),
    ;
}

/// A solver backend: applies a fixed budget of recurrence steps with a
/// fixed escape threshold, cell by cell, exactly as [`solve_view`] says.
pub trait Solver<T: MbState>: Sized {
    /// Whether this solver is ready to use.
    spec fn wf(&self) -> bool;

    /// The iteration budget of one `solve` call.
    spec fn steps(&self) -> nat;

    /// The squared escape threshold.
    spec fn threshold_sqr(&self) -> int;

    /// Applies the budget to every cell of `state`.
    fn solve(&self, state: T) -> (r: T)
        requires
            self.wf(),
            state.deep_view().wf(),
            state.deep_view().iteration + self.steps() <= i16::MAX,
        ensures
            r.deep_view() == solve_view(state.deep_view(), self.steps(), self.threshold_sqr()),
            r.deep_view().wf(),
    ;

}

/// Replicates a solver into a pool of `n` interchangeable workers.
pub fn threaded<T, S>(solver: S, n: usize) -> (pool: WorkerPool<T, T, SolverCall<S>>) where
    T: MbState + Split + Join,
    S: Solver<T> + Copy,

    requires
        n >= 1,
    ensures
        pool.workers@.len() == n,
        forall|i: int| 0 <= i < n ==> #[trigger] pool.workers@[i] == (SolverCall { solver }),
{
    WorkerPool::with_cloned(n, &SolverCall { solver })
}

/// A solver used as a processor, so that worker pools can replicate it.
#[derive(Clone, Copy, Debug)]
pub struct SolverCall<S> {
    pub solver: S,
}

impl<T: MbState, S: Solver<T>> Call<T, T> for SolverCall<S> {
    open spec fn call_pre(&self, t: StateView) -> bool {
        &&& self.solver.wf()
        &&& t.wf()
        &&& t.iteration + self.solver.steps() <= i16::MAX
    }

    open spec fn call_view(&self, t: StateView) -> StateView {
        solve_view(t, self.solver.steps(), self.solver.threshold_sqr())
    }

    fn call(&self, t: T) -> (u: T) {
        self.solver.solve(t)
    }
}

/// Total height of a batch of state parts.
pub open spec fn heights_total(parts: Seq<StateView>) -> nat
    decreases parts.len(),
{
    if parts.len() == 0 {
        0
    } else {
        (parts[0].height + heights_total(parts.drop_first())) as nat
    }
}

/// Appending a part adds its height to the total.
pub proof fn lemma_heights_total_push(parts: Seq<StateView>, part: StateView)
    ensures
        heights_total(parts.push(part)) == heights_total(parts) + part.height,
    decreases parts.len(),
{
    if parts.len() == 0 {
        assert(parts.push(part).drop_first() =~= Seq::<StateView>::empty());
        assert(parts.push(part)[0] == part);
        assert(heights_total(parts.push(part)) == part.height + heights_total(
            Seq::<StateView>::empty(),
        ));
    } else {
        assert(parts.push(part)[0] == parts[0]);
        assert(parts.push(part).drop_first() =~= parts.drop_first().push(part));
        lemma_heights_total_push(parts.drop_first(), part);
        assert(heights_total(parts.push(part)) == parts[0].height + heights_total(
            parts.drop_first().push(part),
        ));
    }
}

/// The cell index at which the `i`-th of `n` row bands of `v` starts.
pub open spec fn band_start(v: StateView, n: int, i: int) -> int {
    v.width * piece_start(v.height as int, n, i)
}

/// A state cut into `n` bands of whole rows: band sizes follow
/// [`piece_start`], and every band keeps the width and the iteration count.
pub open spec fn state_split_view(v: StateView, n: int) -> Seq<StateView> {
    Seq::new(
        n as nat,
        |i: int|
            StateView {
                width: v.width,
                height: (piece_start(v.height as int, n, i + 1) - piece_start(
                    v.height as int,
                    n,
                    i,
                )) as nat,
                iteration: v.iteration,
                cells: v.cells.subrange(band_start(v, n, i), band_start(v, n, i + 1)),
            },
    )
}

/// Whether state parts fit back together: at least one part, every part
/// well-formed, all sharing one width and one iteration count, and a total
/// height a machine index can hold.
pub open spec fn states_joinable(parts: Seq<StateView>) -> bool {
    &&& parts.len() >= 1
    &&& forall|i: int| 0 <= i < parts.len() ==> (#[trigger] parts[i]).wf()
    &&& forall|i: int|
        0 <= i < parts.len() ==> (#[trigger] parts[i]).width == parts[0].width
    &&& forall|i: int|
        0 <= i < parts.len() ==> (#[trigger] parts[i]).iteration == parts[0].iteration
    &&& heights_total(parts) <= usize::MAX
}

/// The state made of the parts' rows, in order.
pub open spec fn state_join_view(parts: Seq<StateView>) -> StateView {
    StateView {
        width: parts[0].width,
        height: heights_total(parts),
        iteration: parts[0].iteration,
        cells: parts.map_values(|p: StateView| p.cells).flatten(),
    }
}

/// Flattening consecutive subranges delimited by a boundary function gives
/// back the sequence: the prefix version, by induction on the band count.
proof fn lemma_flatten_boundaries_prefix<A>(s: Seq<A>, f: spec_fn(int) -> int, n: int, k: int)
    requires
        0 <= k <= n,
        f(0) == 0,
        f(n) == s.len(),
        forall|i: int| 0 <= i < n ==> #[trigger] f(i) <= f(i + 1),
        forall|i: int| 0 <= i <= n ==> 0 <= #[trigger] f(i) <= s.len(),
    ensures
        Seq::new(n as nat, |i: int| s.subrange(f(i), f(i + 1))).subrange(0, k).flatten()
            == s.subrange(0, f(k)),
    decreases k,
{
    let bands = Seq::new(n as nat, |i: int| s.subrange(f(i), f(i + 1)));
    if k == 0 {
        assert(bands.subrange(0, 0) =~= Seq::<Seq<A>>::empty());
        assert(s.subrange(0, 0) =~= Seq::<A>::empty());
    } else {
        lemma_flatten_boundaries_prefix(s, f, n, k - 1);
        let single = seq![bands[k - 1]];
        assert(bands.subrange(0, k) =~= bands.subrange(0, k - 1) + single);
        vstd::seq_lib::lemma_flatten_concat(bands.subrange(0, k - 1), single);
        single.lemma_flatten_one_element();
        assert(s.subrange(0, f(k - 1)) + s.subrange(f(k - 1), f(k)) =~= s.subrange(0, f(k)));
    }
}

/// Flattening consecutive subranges delimited by a boundary function gives
/// back the whole sequence.
pub proof fn lemma_flatten_boundaries<A>(s: Seq<A>, f: spec_fn(int) -> int, n: int)
    requires
        n >= 0,
        f(0) == 0,
        f(n) == s.len(),
        forall|i: int| 0 <= i < n ==> #[trigger] f(i) <= f(i + 1),
        forall|i: int| 0 <= i <= n ==> 0 <= #[trigger] f(i) <= s.len(),
    ensures
        Seq::new(n as nat, |i: int| s.subrange(f(i), f(i + 1))).flatten() == s,
{
    let bands = Seq::new(n as nat, |i: int| s.subrange(f(i), f(i + 1)));
    lemma_flatten_boundaries_prefix(s, f, n, n);
    assert(bands.subrange(0, n) =~= bands);
    assert(s.subrange(0, s.len() as int) =~= s);
}

/// Facts about the row bands of a well-formed state: each band is
/// well-formed, keeps the width and iteration count, and the band heights
/// add up to the full height.
pub proof fn lemma_state_split_parts(v: StateView, n: int)
    requires
        v.wf(),
        n >= 1,
    ensures
        state_split_view(v, n).len() == n,
        forall|i: int| 0 <= i < n ==> (#[trigger] state_split_view(v, n)[i]).wf(),
        forall|i: int| 0 <= i < n ==> (#[trigger] state_split_view(v, n)[i]).width == v.width,
        forall|i: int|
            0 <= i < n ==> (#[trigger] state_split_view(v, n)[i]).iteration == v.iteration,
        forall|i: int|
            0 <= i < n ==> 0 <= #[trigger] band_start(v, n, i) <= band_start(v, n, i + 1)
                <= v.cells.len(),
        heights_total(state_split_view(v, n)) == v.height,
{
    let h = v.height as int;
    let w = v.width as int;
    assert forall|i: int|
        0 <= i < n implies 0 <= #[trigger] band_start(v, n, i) <= band_start(v, n, i + 1)
            <= v.cells.len() by {
        lemma_piece_start_ordered(h, n, 0, i);
        lemma_piece_start_ordered(h, n, i, i + 1);
        lemma_piece_start_ordered(h, n, i + 1, n);
        vstd::arithmetic::mul::lemma_mul_inequality(0, piece_start(h, n, i), w);
        vstd::arithmetic::mul::lemma_mul_is_commutative(w, piece_start(h, n, i));
        vstd::arithmetic::mul::lemma_mul_is_commutative(w, piece_start(h, n, i + 1));
        vstd::arithmetic::mul::lemma_mul_is_commutative(w, h);
        vstd::arithmetic::mul::lemma_mul_inequality(piece_start(h, n, i), piece_start(h, n, i + 1), w);
        vstd::arithmetic::mul::lemma_mul_inequality(piece_start(h, n, i + 1), h, w);
        assert(piece_start(h, n, i) * w >= 0) by (nonlinear_arith)
            requires
                piece_start(h, n, i) >= 0,
                w >= 0,
        ;
    }
    assert forall|i: int| 0 <= i < n implies (#[trigger] state_split_view(v, n)[i]).wf() by {
        lemma_piece_start_ordered(h, n, i, i + 1);
        let lo = piece_start(h, n, i);
        let hi = piece_start(h, n, i + 1);
        assert(w * hi - w * lo == w * (hi - lo)) by (nonlinear_arith);
    }
    lemma_heights_sum(v, n, n);
    lemma_piece_start_total(h, n);
}

/// The first `k` band heights add up to the `k`-th band boundary.
#[verifier::rlimit(50)]
proof fn lemma_heights_sum(v: StateView, n: int, k: int)
    requires
        v.wf(),
        n >= 1,
        0 <= k <= n,
    ensures
        heights_total(state_split_view(v, n).subrange(0, k)) == piece_start(
            v.height as int,
            n,
            k,
        ),
        k == n ==> heights_total(state_split_view(v, n)) == v.height,
    decreases k,
{
    let h = v.height as int;
    let parts = state_split_view(v, n);
    if k == 0 {
        assert(parts.subrange(0, 0) =~= Seq::<StateView>::empty());
        assert(heights_total(Seq::<StateView>::empty()) == 0);
        vstd::arithmetic::mul::lemma_mul_basics(h / n);
        vstd::arithmetic::div_mod::lemma_mod_bound(h, n);
        assert(piece_start(h, n, 0) == 0);
    } else {
        lemma_heights_sum(v, n, k - 1);
        lemma_piece_start_ordered(h, n, k - 1, k);
        assert(parts.subrange(0, k) =~= parts.subrange(0, k - 1).push(parts[k - 1]));
        lemma_heights_total_push(parts.subrange(0, k - 1), parts[k - 1]);
        assert(parts[k - 1].height == piece_start(h, n, k) - piece_start(h, n, k - 1));
        assert(heights_total(parts.subrange(0, k)) == heights_total(parts.subrange(0, k - 1))
            + parts[k - 1].height);
    }
    if k == n {
        lemma_piece_start_total(h, n);
        assert(parts.subrange(0, n) =~= parts);
    }
}

/// Splitting a state into row bands and joining the bands gives back
/// exactly the original state, for any positive band count.
pub proof fn lemma_state_split_join_round_trip(v: StateView, n: int)
    requires
        v.wf(),
        v.height <= usize::MAX,
        n >= 1,
    ensures
        states_joinable(state_split_view(v, n)),
        state_join_view(state_split_view(v, n)) == v,
{
    let parts = state_split_view(v, n);
    lemma_state_split_parts(v, n);
    let f = |i: int| band_start(v, n, i);
    assert(f(0) == 0) by {
        assert(piece_start(v.height as int, n, 0) == 0);
    }
    assert(f(n) == v.cells.len()) by {
        lemma_piece_start_total(v.height as int, n);
        vstd::arithmetic::mul::lemma_mul_is_commutative(v.width as int, v.height as int);
    }
    assert(parts.map_values(|p: StateView| p.cells) =~= Seq::new(
        n as nat,
        |i: int| v.cells.subrange(f(i), f(i + 1)),
    ));
    lemma_flatten_boundaries(v.cells, f, n);
    assert(state_join_view(parts) == v);
}

/// Two part batches with pointwise equal heights have equal total height.
proof fn lemma_heights_total_pointwise(a: Seq<StateView>, b: Seq<StateView>)
    requires
        a.len() == b.len(),
        forall|i: int| 0 <= i < a.len() ==> (#[trigger] a[i]).height == b[i].height,
    ensures
        heights_total(a) == heights_total(b),
    decreases a.len(),
{
    if a.len() > 0 {
        assert forall|i: int| 0 <= i < a.drop_first().len() implies (#[trigger] a.drop_first()[i]).height
            == b.drop_first()[i].height by {
            assert(a[i + 1].height == b[i + 1].height);
        }
        lemma_heights_total_pointwise(a.drop_first(), b.drop_first());
    }
}

/// One row band of the solved state: solving a band separately gives
/// exactly the corresponding slice of the solved whole, because each cell
/// is solved independently with the same base count and threshold.
#[verifier::rlimit(50)]
proof fn lemma_solved_band(v: StateView, n: int, steps: nat, thr_sqr: int, i: int)
    requires
        v.wf(),
        n >= 1,
        0 <= i < n,
    ensures
        solve_view(state_split_view(v, n)[i], steps, thr_sqr).cells == solve_view(
            v,
            steps,
            thr_sqr,
        ).cells.subrange(band_start(v, n, i), band_start(v, n, i + 1)),
{
    lemma_state_split_parts(v, n);
    let part = state_split_view(v, n)[i];
    let whole = solve_view(v, steps, thr_sqr);
    let lo = band_start(v, n, i);
    let hi = band_start(v, n, i + 1);
    assert forall|j: int| 0 <= j < hi - lo implies solve_view(part, steps, thr_sqr).cells[j]
        == whole.cells.subrange(lo, hi)[j] by {
        assert(part.cells[j] == v.cells[lo + j]);
        assert(part.iteration == v.iteration);
        assert(whole.cells[lo + j] == cell_solve(v.cells[lo + j], v.iteration, steps, thr_sqr));
    }
    assert(solve_view(part, steps, thr_sqr).cells =~= whole.cells.subrange(lo, hi));
}

/// Solving commutes with row splitting: solving each band separately and
/// joining the bands in order equals solving the whole state.  This is what
/// lets a pool of workers stand in for one solver, whatever the band count.
pub proof fn lemma_solve_commutes_with_split(v: StateView, n: int, steps: nat, thr_sqr: int)
    requires
        v.wf(),
        v.height <= usize::MAX,
        v.iteration + steps <= i16::MAX,
        n >= 1,
    ensures
        states_joinable(
            Seq::new(n as nat, |i: int| solve_view(state_split_view(v, n)[i], steps, thr_sqr)),
        ),
        state_join_view(
            Seq::new(n as nat, |i: int| solve_view(state_split_view(v, n)[i], steps, thr_sqr)),
        ) == solve_view(v, steps, thr_sqr),
{
    let parts = state_split_view(v, n);
    let solved_parts = Seq::new(n as nat, |i: int| solve_view(parts[i], steps, thr_sqr));
    let whole = solve_view(v, steps, thr_sqr);
    lemma_state_split_parts(v, n);
    assert forall|i: int| 0 <= i < n implies (#[trigger] solved_parts[i]).wf() by {
        assert(parts[i].wf());
    }
    lemma_heights_total_pointwise(solved_parts, parts);
    assert(states_joinable(solved_parts));
    let f = |i: int| band_start(v, n, i);
    assert forall|i: int| 0 <= i < n implies #[trigger] solved_parts[i].cells
        == whole.cells.subrange(f(i), f(i + 1)) by {
        lemma_solved_band(v, n, steps, thr_sqr, i);
    }
    assert(f(0) == 0) by {
        assert(piece_start(v.height as int, n, 0) == 0);
    }
    assert(f(n) == whole.cells.len()) by {
        lemma_piece_start_total(v.height as int, n);
        vstd::arithmetic::mul::lemma_mul_is_commutative(v.width as int, v.height as int);
    }
    assert(solved_parts.map_values(|p: StateView| p.cells) =~= Seq::new(
        n as nat,
        |i: int| whole.cells.subrange(f(i), f(i + 1)),
    ));
    lemma_flatten_boundaries(whole.cells, f, n);
    assert(state_join_view(solved_parts).cells == whole.cells);
    assert(state_join_view(solved_parts) == whole);
}

/// An escape-time state whose split and join are exactly the row-band
/// split and join: implementing this certifies the representation's
/// [`Split`] and [`Join`] views against the canonical ones.
pub trait RowState: MbState + Split + Join {
    /// The representation splits by row bands, on any well-formed view.
    proof fn row_split_properties(v: StateView, n: int)
        ensures
            Self::split_pre(v, n) == v.wf(),
            Self::split_view(v, n) == state_split_view(v, n),
    ;

    /// The representation joins by concatenating row bands.
    proof fn row_join_properties(parts: Seq<StateView>)
        ensures
            Self::joinable(parts) == states_joinable(parts),
            Self::join_view(parts) == state_join_view(parts),
    ;
}

/// Running one worker per band and rejoining gives the same state no matter
/// how many bands are used: any worker count is equivalent to solving the
/// whole state with a single solver.
pub proof fn lemma_worker_count_invariance(v: StateView, n1: int, n2: int, steps: nat, thr_sqr: int)
    requires
        v.wf(),
        v.height <= usize::MAX,
        v.iteration + steps <= i16::MAX,
        n1 >= 1,
        n2 >= 1,
    ensures
        state_join_view(
            Seq::new(n1 as nat, |i: int| solve_view(state_split_view(v, n1)[i], steps, thr_sqr)),
        ) == state_join_view(
            Seq::new(n2 as nat, |i: int| solve_view(state_split_view(v, n2)[i], steps, thr_sqr)),
        ),
        state_join_view(
            Seq::new(n1 as nat, |i: int| solve_view(state_split_view(v, n1)[i], steps, thr_sqr)),
        ) == solve_view(v, steps, thr_sqr),
{
    lemma_solve_commutes_with_split(v, n1, steps, thr_sqr);
    lemma_solve_commutes_with_split(v, n2, steps, thr_sqr);
}

/// Pools nest: an outer split into `n1` bands, each solved by an inner
/// split into `n2` bands, joins to the same state as one flat split into
/// any band count — both equal solving the whole state outright.
pub proof fn lemma_pool_nesting(v: StateView, n1: int, n2: int, steps: nat, thr_sqr: int)
    requires
        v.wf(),
        v.height <= usize::MAX,
        v.iteration + steps <= i16::MAX,
        n1 >= 1,
        n2 >= 1,
    ensures
        state_join_view(
            Seq::new(
                n1 as nat,
                |i: int|
                    state_join_view(
                        Seq::new(
                            n2 as nat,
                            |j: int|
                                solve_view(
                                    state_split_view(state_split_view(v, n1)[i], n2)[j],
                                    steps,
                                    thr_sqr,
                                ),
                        ),
                    ),
            ),
        ) == solve_view(v, steps, thr_sqr),
{
    let parts = state_split_view(v, n1);
    lemma_state_split_parts(v, n1);
    let nested = Seq::new(
        n1 as nat,
        |i: int|
            state_join_view(
                Seq::new(
                    n2 as nat,
                    |j: int|
                        solve_view(state_split_view(parts[i], n2)[j], steps, thr_sqr),
                ),
            ),
    );
    let flat = Seq::new(n1 as nat, |i: int| solve_view(parts[i], steps, thr_sqr));
    assert forall|i: int| 0 <= i < n1 implies nested[i] == flat[i] by {
        assert(parts[i].wf());
        assert(parts[i].height <= v.height) by {
            lemma_piece_start_ordered(v.height as int, n1, 0, i);
            lemma_piece_start_ordered(v.height as int, n1, i, i + 1);
            lemma_piece_start_ordered(v.height as int, n1, i + 1, n1);
        }
        lemma_solve_commutes_with_split(parts[i], n2, steps, thr_sqr);
    }
    assert(nested =~= flat);
    lemma_solve_commutes_with_split(v, n1, steps, thr_sqr);
}

impl<T: RowState, S: Solver<T>> Solver<T> for WorkerPool<T, T, SolverCall<S>> {
    open spec fn wf(&self) -> bool {
        &&& self.workers@.len() >= 1
        &&& forall|i: int|
            0 <= i < self.workers@.len() ==> (#[trigger] self.workers@[i]).solver.wf()
        &&& forall|i: int|
            0 <= i < self.workers@.len() ==> (#[trigger] self.workers@[i]).solver.steps()
                == self.workers@[0].solver.steps()
        &&& forall|i: int|
            0 <= i < self.workers@.len() ==> (#[trigger] self.workers@[i]).solver.threshold_sqr()
                == self.workers@[0].solver.threshold_sqr()
    }

    open spec fn steps(&self) -> nat {
        self.workers@[0].solver.steps()
    }

    open spec fn threshold_sqr(&self) -> int {
        self.workers@[0].solver.threshold_sqr()
    }

    fn solve(&self, state: T) -> (r: T) {
        let ghost v = state.deep_view();
        let height = state.height();
        let n = self.workers.len();
        let ghost steps = self.steps();
        let ghost thr_sqr = self.threshold_sqr();
        proof {
            T::row_split_properties(v, n as int);
            lemma_state_split_parts(v, n as int);
            lemma_solve_commutes_with_split(v, n as int, steps, thr_sqr);
            assert(self.parts_view(v) == state_split_view(v, n as int));
            assert forall|i: int| 0 <= i < n implies (#[trigger] self.workers@[i]).call_pre(
                self.parts_view(v)[i],
            ) by {
                assert(state_split_view(v, n as int)[i].wf());
                assert(state_split_view(v, n as int)[i].iteration == v.iteration);
            }
            assert(self.results_view(v) =~= Seq::new(
                n as nat,
                |i: int| solve_view(state_split_view(v, n as int)[i], steps, thr_sqr),
            ));
            T::row_join_properties(self.results_view(v));
            assert(states_joinable(self.results_view(v)));
            assert(self.call_pre(v));
        }
        let r = self.call(state);
        proof {
            assert(r.deep_view() == T::join_view(self.results_view(v)));
            assert(r.deep_view() == state_join_view(self.results_view(v)));
            assert(state_join_view(self.results_view(v)) == state_join_view(
                Seq::new(
                    n as nat,
                    |i: int| solve_view(state_split_view(v, n as int)[i], steps, thr_sqr),
                ),
            ));
            assert(r.deep_view() == solve_view(v, steps, thr_sqr));
        }
        r
    }
}

/// The customary solver arrangement: the scalar backend replicated over
/// the requested number of workers.
pub fn default_solver(workers: usize) -> (pool: WorkerPool<
    crate::solver::vec::VecState,
    crate::solver::vec::VecState,
    SolverCall<crate::solver::vec::VecSolver>,
>)
    requires
        workers >= 1,
    ensures
        pool.workers@.len() == workers,
        forall|i: int|
            0 <= i < workers ==> (#[trigger] pool.workers@[i]).solver.iterations == 100
                && pool.workers@[i].solver.threshold == 2 * crate::fixed::SCALE_ONE,
{
    let solver = crate::solver::vec::VecSolver::default();
    threaded(solver, workers)
}

} // verus!
