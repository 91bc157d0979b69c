//! Bookkeeping for timing runs: which benchmarks to run, how often, and
//! what they measured.
//!
//! The clock itself and the printing of reports live outside this crate;
//! here a duration is plain nanoseconds, and the choice of display unit
//! and the scaling arithmetic are exact.

use vstd::prelude::*;

verus! {

/// A display unit for a measured duration.
#[derive(Clone, Copy, Debug, PartialEq, Eq, Structural)]
pub enum Unit {
    Nanosecond,
    Microsecond,
    Millisecond,
    Second,
}

/// Nanoseconds per unit.
pub open spec fn unit_nanos(u: Unit) -> int {
    match u {
        Unit::Nanosecond => 1,
        Unit::Microsecond => 1000,
        Unit::Millisecond => 1000000,
        Unit::Second => 1000000000,
    }
}

impl Unit {
    /// The duration `d` (in nanoseconds) expressed in this unit, rounded
    /// down, together with the unit's customary symbol.
    pub fn format(&self, d: u128) -> (r: (u128, &'static str))
        ensures
            r.0 == d as int / unit_nanos(*self),
            *self is Nanosecond ==> r.1@ == "ns"@,
            *self is Microsecond ==> r.1@ == "us"@,
            *self is Millisecond ==> r.1@ == "ms"@,
            *self is Second ==> r.1@ == "s"@,
    {
        proof {
            reveal_strlit("ns");
            reveal_strlit("us");
            reveal_strlit("ms");
            reveal_strlit("s");
        }
        match self {
            Unit::Nanosecond => (d / 1, "ns"),
            Unit::Microsecond => (d / 1000, "us"),
            Unit::Millisecond => (d / 1000000, "ms"),
            Unit::Second => (d / 1000000000, "s"),
        }
    }

    /// The largest unit in which the duration `d` (in nanoseconds) still
    /// reads below `treshold` units, seconds at the latest.
    pub fn scaled(d: u128, treshold: u128) -> (u: Unit)
        ensures
            u is Nanosecond <==> d < treshold,
            u is Microsecond <==> !(d < treshold) && d / 1000 < treshold,
            u is Millisecond <==> !(d < treshold) && !(d / 1000 < treshold) && d / 1000000
                < treshold,
            u is Second <==> !(d < treshold) && !(d / 1000 < treshold) && !(d / 1000000
                < treshold),
    {
        if d < treshold {
            Unit::Nanosecond
        } else if d / 1000 < treshold {
            Unit::Microsecond
        } else if d / 1000000 < treshold {
            Unit::Millisecond
        } else {
            Unit::Second
        }
    }
}

/// A named piece of work to be timed over a number of repetitions.  The
/// work itself is supplied by the program running the report; the record
/// here carries what identifies and sizes the run.
#[derive(Clone, Debug)]
pub struct Benchmark {
    pub name: String,
    pub iterations: usize,
}

impl Benchmark {
    /// A benchmark run `n` times per measurement.
    pub fn iter(name: &str, n: usize) -> (b: Self)
        ensures
            b.name@ == name@,
            b.iterations == n,
    {
        Benchmark { name: name.to_string(), iterations: n }
    }

    /// A benchmark run once per measurement.
    pub fn once(name: &str) -> (b: Self)
        ensures
            b.name@ == name@,
            b.iterations == 1,
    {
        Self::iter(name, 1)
    }
}

/// One measurement: the benchmark's name and repetition count, and the
/// total time the repetitions took, in nanoseconds.
#[derive(Clone, Debug)]
pub struct BenchResult {
    pub name: String,
    pub iterations: usize,
    pub total_nanos: u128,
}

impl BenchResult {
    /// Nanoseconds per single repetition, rounded down.
    pub fn per_call_nanos(&self) -> (r: u128)
        requires
            self.iterations >= 1,
        ensures
            r == self.total_nanos as int / self.iterations as int,
    {
        self.total_nanos / (self.iterations as u128)
    }
}

/// A set of benchmarks to run and the measurements collected so far.
#[derive(Debug)]
pub struct BenchmarkReport {
    pub benches: Vec<Benchmark>,
    pub results: Vec<BenchResult>,
}

impl BenchmarkReport {
    /// An empty report.
    pub fn new() -> (r: Self)
        ensures
            r.benches@.len() == 0,
            r.results@.len() == 0,
    {
        BenchmarkReport { benches: Vec::new(), results: Vec::new() }
    }

    /// Adds one benchmark to the set.
    pub fn add_bench(&mut self, bench: Benchmark)
        ensures
            final(self).benches@ == old(self).benches@.push(bench),
            final(self).results == old(self).results,
    {
        self.benches.push(bench);
    }

    /// Adds a batch of benchmarks, in order.
    pub fn add_benches(&mut self, benches: Vec<Benchmark>)
        ensures
            final(self).benches@ == old(self).benches@ + benches@,
            final(self).results == old(self).results,
    {
        let mut incoming = benches;
        self.benches.append(&mut incoming);
    }

    /// A report over the given batch of benchmarks.
    pub fn with_benches(benches: Vec<Benchmark>) -> (r: Self)
        ensures
            r.benches@ == benches@,
            r.results@.len() == 0,
    {
        let mut this = Self::new();
        this.add_benches(benches);
        proof {
            assert(this.benches@ =~= benches@);
        }
        this
    }

    /// Records one measurement.
    pub fn record(&mut self, result: BenchResult)
        ensures
            final(self).results@ == old(self).results@.push(result),
            final(self).benches == old(self).benches,
    {
        self.results.push(result);
    }
}

} // verus!
