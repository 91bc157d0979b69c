use mandelox::bench::{Benchmark, BenchmarkReport, BenchResult, Unit};
use mandelox::painter::{ColorScale, Greyscale, IValuePainter, Rainbow, rainbow_color};
use mandelox::solver::vec::{VecSolver, VecState};
use mandelox::solver::{MbState, Solver};
use mandelox::state::shared::{SArray, SArraySplit, SRefArray};
use mandelox::complex::Cpx;
use mandelox::coord::Coords;
use mandelox::fixed::{fx_add, fx_mul, fx_sub, SCALE_ONE};

#[test]
fn test_fixed_arithmetic() {
    assert_eq!(fx_mul(2 * SCALE_ONE, 3 * SCALE_ONE), 6 * SCALE_ONE);
    assert_eq!(fx_mul(-2 * SCALE_ONE, 3 * SCALE_ONE), -6 * SCALE_ONE);
    assert_eq!(fx_add(SCALE_ONE, SCALE_ONE / 2), 3 * SCALE_ONE / 2);
    assert_eq!(fx_sub(SCALE_ONE, 3 * SCALE_ONE), -2 * SCALE_ONE);
    assert_eq!(fx_add(i64::MAX, i64::MAX), i64::MAX);
    assert_eq!(fx_mul(i64::MAX, i64::MAX), i64::MAX);
    assert_eq!(fx_mul(i64::MAX, -i64::MAX), i64::MIN);
}

#[test]
fn test_unit_scaled() {
    assert_eq!(Unit::scaled(50, 100), Unit::Nanosecond);
    assert_eq!(Unit::scaled(50_000, 100), Unit::Microsecond);
    assert_eq!(Unit::scaled(50_000_000, 100), Unit::Millisecond);
    assert_eq!(Unit::scaled(50_000_000_000, 100), Unit::Second);
}

#[test]
fn test_unit_format() {
    let (v, sym) = Unit::Millisecond.format(2_500_000);
    assert_eq!(v, 2);
    assert_eq!(sym, "ms");
    let (v, sym) = Unit::Nanosecond.format(17);
    assert_eq!(v, 17);
    assert_eq!(sym, "ns");
}

#[test]
fn test_benchmark_report() {
    let b1 = Benchmark::iter("solve", 10);
    assert_eq!(b1.name, "solve");
    assert_eq!(b1.iterations, 10);
    let b2 = Benchmark::once("init");
    assert_eq!(b2.iterations, 1);
    let mut report = BenchmarkReport::with_benches(vec![b1, b2]);
    assert_eq!(report.benches.len(), 2);
    report.add_bench(Benchmark::iter("paint", 3));
    assert_eq!(report.benches.len(), 3);
    report.record(BenchResult { name: "solve".to_string(), iterations: 10, total_nanos: 1230 });
    assert_eq!(report.results.len(), 1);
    assert_eq!(report.results[0].per_call_nanos(), 123);
}

#[test]
fn test_rainbow_table() {
    assert_eq!(rainbow_color(0), [0xbe, 0x0a, 0xff]);
    assert_eq!(rainbow_color(8), [0xff, 0x87, 0x00]);
    assert_eq!(rainbow_color(9), [0xff, 0x00, 0x00]);
    assert_eq!(rainbow_color(77), [0xff, 0x00, 0x00]);
}

#[test]
fn test_greyscale_endpoints() {
    let g = Greyscale;
    assert_eq!(g.get_color(0, 100), [255, 255, 255]);
    assert_eq!(g.get_color(100, 100), [0, 0, 0]);
    assert_eq!(g.get_color(-1, 100), [255, 255, 255]);
    assert_eq!(g.get_color(50, 100), [127, 127, 127]);
}

#[test]
fn test_rainbow_anchor() {
    let r = Rainbow;
    // At the very start of the scale the colour is the first anchor.
    assert_eq!(r.get_color(0, 9), rainbow_color(0));
    // One anchor span in, the colour is the second anchor exactly.
    assert_eq!(r.get_color(1, 9), rainbow_color(1));
}

#[test]
fn test_painter_buffer() {
    let coords = Coords {
        width: 2,
        height: 1,
        values: vec![Cpx { re: 0, im: 0 }, Cpx { re: 2 * SCALE_ONE, im: 0 }],
    };
    let solved = VecSolver::new(10, 2 * SCALE_ONE).solve(VecState::from_coords(&coords));
    let painter = IValuePainter::new(Greyscale, 10);
    let buf = painter.paint(&solved);
    assert_eq!(buf.len(), 6);
    // The bounded cell paints black, the escaped cell nearly white.
    assert_eq!(&buf[0..3], &[0, 0, 0]);
    let g = Greyscale.get_color(1, 10);
    assert_eq!(&buf[3..6], &[g[0], g[1], g[2]]);
}

#[test]
fn test_sarray() {
    let sarray: SArray<i32, 12> = SArray::full(0);
    let mut v = sarray.split(3);
    let mut sc = v.pop().unwrap();
    let sb = v.pop().unwrap();
    let mut sa = v.pop().unwrap();
    let mut vb = sb.split(2);
    let mut sbb = vb.pop().unwrap();
    let mut sba = vb.pop().unwrap();

    sa.set(0, 0);
    sa.set(1, 1);
    sa.set(2, 2);
    sa.set(3, 3);
    sba.set(0, 4);
    sba.set(1, 5);
    sbb.set(0, 6);
    sbb.set(1, 7);
    sc.set(0, 8);
    sc.set(1, 9);
    sc.set(2, 10);
    sc.set(3, 11);

    let sb = SArray::join(vec![sba, sbb]);
    let sarray = SArray::join(vec![sa, sb, sc]);

    for i in 0..11 {
        assert_eq!(sarray.get(i), i as i32);
    }
}

#[test]
fn test_srefarray() {
    let mut arr: SRefArray<i32, 4> = SRefArray::full(0);
    arr.set(0, 10);
    arr.set(1, 11);
    arr.set(2, 12);
    assert_eq!(*arr.borrow(1), 11);
    assert_eq!(arr.get(2), 12);
    let prev = arr.replace(3, 13);
    assert_eq!(prev, 0);
    arr.swap(0, 3);
    assert_eq!(arr.get(0), 13);
    assert_eq!(arr.get(3), 10);
}
