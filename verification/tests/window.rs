use mandelox::coord::Viewbox;
use mandelox::solver::{default_solver, Solver};
use mandelox::fixed::SCALE_ONE;
use mandelox::solver::vec::{VecSolver, VecState};
use mandelox::solver::MbState;
use mandelox::{MAction, Mandelbrot};

#[test]
fn test_viewbox_initial() {
    let mut viewbox = Viewbox::initial(6, 8);
    viewbox.center.y = 100;
    viewbox.center.x = 200;
    let xy = viewbox.points();
    assert_eq!(xy.len(), 48);
}

#[test]
fn test_viewbox_initial_scale() {
    // Aspect wider than five to four picks the height-based scale.
    let wide = Viewbox::initial(100, 40);
    assert_eq!(wide.scale_num, 200);
    assert_eq!(wide.scale_den, 12);
    // Otherwise the width-based scale is used.
    let tall = Viewbox::initial(100, 200);
    assert_eq!(tall.scale_num, 100);
    assert_eq!(tall.scale_den, 3);
    assert_eq!(tall.center.x, -17);
    assert_eq!(tall.center.y, 0);
}

#[test]
fn test_zoom_round_trip() {
    let mut v = Viewbox::initial(100, 200);
    let before = v;
    v.zoom(2, 1);
    assert_eq!(v.scale_num, 100);
    assert_eq!(v.scale_den, 6);
    assert_eq!(v.center.x, -9);
    v.zoom(1, 2);
    // The scale is restored exactly, as a ratio.
    assert_eq!(v.scale_num * before.scale_den, before.scale_num * v.scale_den);
    assert_eq!(v.width, before.width);
    assert_eq!(v.height, before.height);
    // The pixel-space centre is restored to within one pixel.
    assert!((v.center.x - before.center.x).abs() <= 1);
    assert!((v.center.y - before.center.y).abs() <= 1);
}

#[test]
fn test_grid_matches_window() {
    let v = Viewbox::initial(4, 4);
    let coords = v.generate_complex_coordinates();
    assert_eq!(coords.width, 4);
    assert_eq!(coords.height, 4);
    assert_eq!(coords.values.len(), 16);
    // The scale of a four-by-four start window is 4/3 pixels per unit, so
    // the pixel at the window centre maps to center / scale exactly.
    let px = v.center.x;
    let expected_re = px * v.scale_den * SCALE_ONE / v.scale_num;
    let from_x = v.center.x - 2;
    let idx = (v.center.x - from_x) as usize;
    let from_y = v.center.y - 2;
    let row = (v.center.y - from_y) as usize;
    assert_eq!(coords.values[row * 4 + idx].re, expected_re);
}

#[test]
fn test_incremental_pan_matches_scratch() {
    let solver = VecSolver::new(25, 2 * SCALE_ONE);
    for dy in [1i64, 2, -3] {
        let mut fast = Mandelbrot::initialize(solver, 8, 8);
        fast.pan_fast_vertical(dy);
        let mut slow = Mandelbrot::initialize(solver, 8, 8);
        slow.pan(0, dy);
        assert_eq!(fast.position.center.y, slow.position.center.y);
        for y in 0..8 {
            for x in 0..8 {
                assert_eq!(fast.state.i_value(x, y), slow.state.i_value(x, y));
            }
        }
    }
}

#[test]
fn test_incremental_pan_horizontal_matches_scratch() {
    let solver = VecSolver::new(25, 2 * SCALE_ONE);
    for dx in [1i64, 3, -2] {
        let mut fast = Mandelbrot::initialize(solver, 8, 8);
        fast.pan_fast_horizontal(dx);
        let mut slow = Mandelbrot::initialize(solver, 8, 8);
        slow.pan(dx, 0);
        assert_eq!(fast.position.center.x, slow.position.center.x);
        for y in 0..8 {
            for x in 0..8 {
                assert_eq!(fast.state.i_value(x, y), slow.state.i_value(x, y));
            }
        }
    }
}

#[test]
fn test_fast_relative_pans() {
    let solver = VecSolver::new(15, 2 * SCALE_ONE);
    let mut m = Mandelbrot::initialize(solver, 8, 8);
    let before = m.position.center.y;
    m.pan_fast_vertical_relative(SCALE_ONE / 4);
    assert_eq!(m.position.center.y, before + 2);
    let before_x = m.position.center.x;
    m.pan_fast_horizontal_relative(-SCALE_ONE / 4);
    assert_eq!(m.position.center.x, before_x - 2);
}

#[test]
fn test_default_solver_pool() {
    let pool = default_solver(3);
    assert_eq!(pool.workers.len(), 3);
    let coords = Viewbox::initial(4, 4).generate_complex_coordinates();
    let direct = VecSolver::new(100, 2 * SCALE_ONE)
        .solve(VecState::from_coords(&coords));
    let pooled = pool.solve(VecState::from_coords(&coords));
    for y in 0..4 {
        for x in 0..4 {
            assert_eq!(pooled.i_value(x, y), direct.i_value(x, y));
        }
    }
}

#[test]
fn test_apply_actions() {
    let solver = VecSolver::new(12, 2 * SCALE_ONE);
    let mut m = Mandelbrot::initialize(solver, 8, 8);
    assert!(m.apply(MAction::Resize(10, 6)));
    assert_eq!(m.position.width, 10);
    assert!(m.apply(MAction::Pan(2, -1)));
    assert!(!m.apply(MAction::PanRelative(0, 0)));
    assert!(m.apply(MAction::Zoom(2, 1)));
    assert!(m.apply(MAction::Reset(8, 8)));
    assert_eq!(m.position.width, 8);
    // A diagonal pan through the incremental path matches a full solve.
    let mut slow = Mandelbrot::initialize(solver, 8, 8);
    slow.pan(2, -1);
    let mut fast = Mandelbrot::initialize(solver, 8, 8);
    fast.apply(MAction::Pan(2, -1));
    for y in 0..8 {
        for x in 0..8 {
            assert_eq!(fast.state.i_value(x, y), slow.state.i_value(x, y));
        }
    }
}

#[test]
fn test_resize_and_pan_keep_session_usable() {
    let solver = VecSolver::new(10, 2 * SCALE_ONE);
    let mut m: Mandelbrot<VecState, VecSolver> = Mandelbrot::initialize(solver, 6, 6);
    m.resize(8, 4);
    assert_eq!(m.position.width, 8);
    assert_eq!(m.position.height, 4);
    assert_eq!(m.state.width(), 8);
    assert_eq!(m.state.height(), 4);
    m.pan(3, -2);
    assert_eq!(m.state.width(), 8);
    m.pan_relative(SCALE_ONE / 2, 0);
    assert_eq!(m.state.height(), 4);
}
