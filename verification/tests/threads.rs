use mandelox::complex::Cpx;
use mandelox::coord::Coords;
use mandelox::fixed::SCALE_ONE;
use mandelox::solver::vec::{VecSolver, VecState};
use mandelox::solver::{MbState, Solver, SolverCall};
use mandelox::threads::{vectorize, Call, SplitPart, Split, WorkerPool};

fn test_vec_split(length: usize, n: usize) {
    let v: Vec<usize> = (0..length).collect();
    let vs = v.clone().to_parts(n);
    assert_eq!(vs.len(), n);
    let vj: Vec<usize> = SplitPart::join(vs).unwrap();
    assert_eq!(v, vj);
}

#[test]
fn test_vec_splits() {
    test_vec_split(1, 1);
    test_vec_split(0, 2);
    test_vec_split(5, 8);
    test_vec_split(8, 5);
    test_vec_split(100, 1);
    test_vec_split(55, 47);
}

#[test]
fn test_range_splitter() {
    let rs = mandelox::threads::RangeSplitter::split(0, 100, 3);
    let ranges = rs.ranges();
    assert_eq!(ranges, vec![(0, 34), (34, 67), (67, 100)]);
}

#[test]
fn test_join_rejects_bad_tags() {
    let parts = vec![
        SplitPart::new(vec![1i64, 2], 0),
        SplitPart::new(vec![3i64], 2),
    ];
    assert!(SplitPart::join(parts).is_err());
    let dup = vec![
        SplitPart::new(vec![1i64], 0),
        SplitPart::new(vec![2i64], 0),
    ];
    assert!(SplitPart::join(dup).is_err());
    let empty: Vec<SplitPart<Vec<i64>>> = vec![];
    assert!(SplitPart::join(empty).is_err());
}

#[test]
fn test_join_out_of_order() {
    let parts = vec![
        SplitPart::new(vec![4i64, 5], 1),
        SplitPart::new(vec![1i64, 2, 3], 0),
        SplitPart::new(vec![6i64], 2),
    ];
    let joined: Vec<i64> = SplitPart::join(parts).unwrap();
    assert_eq!(joined, vec![1, 2, 3, 4, 5, 6]);
}

#[test]
fn test_vectorize_maps_elementwise() {
    let make = |re: i64| -> VecState {
        let coords = Coords { width: 1, height: 1, values: vec![Cpx { re, im: 0 }] };
        VecState::from_coords(&coords)
    };
    let solver = VecSolver::new(10, 2 * SCALE_ONE);
    let lifted = vectorize(SolverCall { solver });
    let batch = vec![make(0), make(2 * SCALE_ONE)];
    let solved = lifted.call(batch);
    assert_eq!(solved.len(), 2);
    assert_eq!(solved[0].i_value(0, 0), -1);
    assert_eq!(solved[1].i_value(0, 0), 1);
}

#[test]
fn test_pool_call_matches_plain_solve() {
    let coords = Coords {
        width: 2,
        height: 5,
        values: (0..10)
            .map(|k| Cpx { re: (k - 5) * SCALE_ONE / 2, im: SCALE_ONE / 3 })
            .collect(),
    };
    let solver = VecSolver::new(30, 2 * SCALE_ONE);
    let direct = solver.solve(VecState::from_coords(&coords));
    for n in [1usize, 2, 5, 8] {
        let pool: WorkerPool<VecState, VecState, SolverCall<VecSolver>> =
            WorkerPool::with_cloned(n, &SolverCall { solver });
        let pooled = pool.call(VecState::from_coords(&coords));
        for y in 0..5 {
            for x in 0..2 {
                assert_eq!(pooled.i_value(x, y), direct.i_value(x, y));
            }
        }
    }
}
