use mandelox::complex::Cpx;
use mandelox::coord::{Coords, Viewbox};
use mandelox::fixed::SCALE_ONE;
use mandelox::solver::array::{MbArraySolver, MbArrayState};
use mandelox::solver::simdvec::{SimdVecSolver, SimdVecState};
use mandelox::solver::vec::{VecSolver, VecState};
use mandelox::solver::{MbState, Solver, SolverCall};
use mandelox::threads::{Join, Split, WorkerPool};

fn grid(width: usize, height: usize, values: Vec<Cpx>) -> Coords<Cpx> {
    assert_eq!(values.len(), width * height);
    Coords { width, height, values }
}

fn fx(x: i64) -> i64 {
    x * SCALE_ONE
}

/// A small window around the origin: re and im run over -1, 0, 1 (times
/// a quarter), which keeps a mix of escaping and bounded points.
fn sample_grid() -> Coords<Cpx> {
    let mut values = Vec::new();
    for y in -1i64..=1 {
        for x in -2i64..=1 {
            values.push(Cpx { re: x * SCALE_ONE / 2, im: y * SCALE_ONE / 2 });
        }
    }
    grid(4, 3, values)
}

#[test]
fn test_origin_never_escapes() {
    for budget in [1u16, 10, 100, 1000] {
        let coords = grid(1, 1, vec![Cpx { re: 0, im: 0 }]);
        let state = VecState::from_coords(&coords);
        let solver = VecSolver::new(budget, fx(2));
        let solved = solver.solve(state);
        assert_eq!(solved.i_value(0, 0), -1);
    }
}

#[test]
fn test_two_escapes_at_step_one() {
    let coords = grid(1, 1, vec![Cpx { re: fx(2), im: 0 }]);
    let state = VecState::from_coords(&coords);
    let solver = VecSolver::new(100, fx(2));
    let solved = solver.solve(state);
    assert_eq!(solved.i_value(0, 0), 1);
}

#[test]
fn test_backend_agreement() {
    let coords = sample_grid();
    let scalar = VecSolver::new(50, fx(2)).solve(VecState::from_coords(&coords));
    let dense = MbArraySolver::new(fx(2), 50).solve(MbArrayState::from_coords(&coords));
    let simd = SimdVecSolver { iterations: 50, threshold: fx(2) }.solve(SimdVecState::from_coords(
        &coords,
    ));
    for y in 0..3 {
        for x in 0..4 {
            let expect = scalar.i_value(x, y);
            assert_eq!(dense.i_value(x, y), expect);
            assert_eq!(simd.i_value(x, y), expect);
        }
    }
}

#[test]
fn test_escape_monotonic() {
    let coords = sample_grid();
    let solver = VecSolver::new(10, fx(2));
    let once = solver.solve(VecState::from_coords(&coords));
    let mut firsts = Vec::new();
    for y in 0..3 {
        for x in 0..4 {
            firsts.push(once.i_value(x, y));
        }
    }
    let twice = solver.solve(once);
    for y in 0..3 {
        for x in 0..4 {
            let prev = firsts[y * 4 + x];
            if prev != -1 {
                assert_eq!(twice.i_value(x, y), prev);
            }
        }
    }
}

#[test]
fn test_split_join_round_trip() {
    for n in 1..=8usize {
        let coords = sample_grid();
        let state = VecSolver::new(30, fx(2)).solve(VecState::from_coords(&coords));
        let reference = VecSolver::new(30, fx(2)).solve(VecState::from_coords(&coords));
        let parts = state.split_to_vec(n);
        assert_eq!(parts.len(), n);
        let joined = VecState::join_vec(parts);
        assert_eq!(joined.width, reference.width);
        assert_eq!(joined.height, reference.height);
        assert_eq!(joined.iteration, reference.iteration);
        for y in 0..3 {
            for x in 0..4 {
                assert_eq!(joined.i_value(x, y), reference.i_value(x, y));
            }
        }
    }
}

#[test]
fn test_dense_split_join_round_trip() {
    for n in 1..=5usize {
        let coords = sample_grid();
        let state = MbArrayState::from_coords(&coords);
        let reference = MbArrayState::from_coords(&coords);
        let joined = MbArrayState::join_vec(state.split_to_vec(n));
        for y in 0..3 {
            for x in 0..4 {
                assert_eq!(joined.i_value(x, y), reference.i_value(x, y));
            }
        }
    }
}

#[test]
fn test_worker_count_invariance() {
    let solver = VecSolver::new(40, fx(2));
    let coords = sample_grid();
    let reference = solver.solve(VecState::from_coords(&coords));
    for n in 1..=8usize {
        let pool: WorkerPool<VecState, VecState, SolverCall<VecSolver>> =
            WorkerPool::with_cloned(n, &SolverCall { solver });
        let state = VecState::from_coords(&coords);
        let solved = pool.solve(state);
        for y in 0..3 {
            for x in 0..4 {
                assert_eq!(solved.i_value(x, y), reference.i_value(x, y));
            }
        }
    }
}

#[test]
fn test_pool_nesting() {
    let solver = VecSolver::new(40, fx(2));
    let coords = sample_grid();
    let flat: WorkerPool<VecState, VecState, SolverCall<VecSolver>> =
        WorkerPool::with_cloned(4, &SolverCall { solver });
    let flat_result = flat.solve(VecState::from_coords(&coords));
    let inner_a: WorkerPool<VecState, VecState, SolverCall<VecSolver>> =
        WorkerPool::with_cloned(2, &SolverCall { solver });
    let inner_b: WorkerPool<VecState, VecState, SolverCall<VecSolver>> =
        WorkerPool::with_cloned(2, &SolverCall { solver });
    let outer = WorkerPool::from_workers(vec![
        SolverCall { solver: inner_a },
        SolverCall { solver: inner_b },
    ]);
    let nested_result = outer.solve(VecState::from_coords(&coords));
    for y in 0..3 {
        for x in 0..4 {
            assert_eq!(nested_result.i_value(x, y), flat_result.i_value(x, y));
        }
    }
}

#[test]
fn test_partial_lane_grid_is_not_for_simd() {
    // 3 cells is no whole number of lanes; the scalar backend takes it.
    let coords = grid(3, 1, vec![
        Cpx { re: 0, im: 0 },
        Cpx { re: fx(2), im: 0 },
        Cpx { re: -fx(2), im: 0 },
    ]);
    let solved = VecSolver::new(5, fx(2)).solve(VecState::from_coords(&coords));
    assert_eq!(solved.i_value(0, 0), -1);
    assert_eq!(solved.i_value(1, 0), 1);
    // -2 sits on the boundary: its iterate settles at 2 and never leaves.
    assert_eq!(solved.i_value(2, 0), -1);
}
