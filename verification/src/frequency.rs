//! Frequency units and frequency series.

use vstd::prelude::*;
use crate::arrays::Samples;
use crate::number::Number;
use crate::result::{ErrorKind, ParseError};
use crate::text::{ascii_bytes, literal, lower_seq, lowercase, same_bytes};

verus! {

/// The unit in which a file states its frequencies.
#[derive(Clone, Copy, Debug, PartialEq, Eq, Structural)]
pub enum FreqUnit {
    Hz,
    KHz,
    MHz,
    GHz,
    THz,
}

/// The unit that a token names, in either case.
pub open spec fn unit_of(token: Seq<u8>) -> Option<FreqUnit> {
    let t = lower_seq(token);
    if t == ascii_bytes("hz"@) {
        Some(FreqUnit::Hz)
    } else if t == ascii_bytes("khz"@) {
        Some(FreqUnit::KHz)
    } else if t == ascii_bytes("mhz"@) {
        Some(FreqUnit::MHz)
    } else if t == ascii_bytes("ghz"@) {
        Some(FreqUnit::GHz)
    } else if t == ascii_bytes("thz"@) {
        Some(FreqUnit::THz)
    } else {
        None
    }
}

impl FreqUnit {
    /// How many hertz one unit is.
    pub open spec fn factor(self) -> nat {
        match self {
            FreqUnit::Hz => 1,
            FreqUnit::KHz => 1_000,
            FreqUnit::MHz => 1_000_000,
            FreqUnit::GHz => 1_000_000_000,
            FreqUnit::THz => 1_000_000_000_000,
        }
    }

    /// A value in this unit, in hertz.
    pub open spec fn scaled(self, value: int) -> int {
        self.factor() * value
    }

    /// Reads a unit name, in either case.
    pub fn parse(token: &[u8]) -> (r: Result<FreqUnit, ParseError>)
        ensures
            match unit_of(token@) {
                Some(u) => r == Ok::<FreqUnit, ParseError>(u),
                None => r == Err::<FreqUnit, ParseError>(
                    ParseError { kind: ErrorKind::InvalidUnit },
                ),
            },
    {
        let t = lowercase(token);
        proof {
            reveal_strlit("hz");
            reveal_strlit("khz");
            reveal_strlit("mhz");
            reveal_strlit("ghz");
            reveal_strlit("thz");
        }
        if same_bytes(t.as_slice(), literal("hz")) {
            Ok(FreqUnit::Hz)
        } else if same_bytes(t.as_slice(), literal("khz")) {
            Ok(FreqUnit::KHz)
        } else if same_bytes(t.as_slice(), literal("mhz")) {
            Ok(FreqUnit::MHz)
        } else if same_bytes(t.as_slice(), literal("ghz")) {
            Ok(FreqUnit::GHz)
        } else if same_bytes(t.as_slice(), literal("thz")) {
            Ok(FreqUnit::THz)
        } else {
            Err(ParseError::new(ErrorKind::InvalidUnit))
        }
    }

    /// How many hertz one unit is.
    pub fn multiplier(self) -> (m: u64)
        ensures
            m == self.factor(),
    {
        match self {
            FreqUnit::Hz => 1,
            FreqUnit::KHz => 1_000,
            FreqUnit::MHz => 1_000_000,
            FreqUnit::GHz => 1_000_000_000,
            FreqUnit::THz => 1_000_000_000_000,
        }
    }

    /// Converts a whole number of units to hertz, where the result fits.
    pub fn scale(self, value: u64) -> (hz: Option<u64>)
        ensures
            match hz {
                Some(v) => v == self.scaled(value as int),
                None => self.scaled(value as int) > u64::MAX,
            },
    {
        self.multiplier().checked_mul(value)
    }
}

/// Scaling is linear: a multiple of a value scales to the same multiple of
/// the scaled value.
pub proof fn lemma_scale_linear(unit: FreqUnit, k: int, x: int)
    ensures
        unit.scaled(k * x) == k * unit.scaled(x),
{
    let f = unit.factor() as int;
    assert(f * (k * x) == k * (f * x)) by (nonlinear_arith);
}

/// Scaling distributes over sums.
pub proof fn lemma_scale_additive(unit: FreqUnit, x: int, y: int)
    ensures
        unit.scaled(x + y) == unit.scaled(x) + unit.scaled(y),
{
    let f = unit.factor() as int;
    assert(f * (x + y) == f * x + f * y) by (nonlinear_arith);
}

/// A frequency series as plain values.
pub struct FrequencyView {
    /// The samples, in order.
    pub f: Seq<Seq<u8>>,
    pub start: Seq<u8>,
    pub stop: Seq<u8>,
    pub npoints: nat,
}

/// The series that holds the given samples: it starts at the first of them
/// and stops at the last.
pub open spec fn series_of(samples: Seq<Seq<u8>>) -> FrequencyView {
    FrequencyView {
        f: samples,
        start: samples.first(),
        stop: samples.last(),
        npoints: samples.len(),
    }
}

/// A series of frequency samples, in the order of the file. Nothing asks the
/// samples to rise.
#[derive(Debug)]
pub struct Frequency {
    pub f: Samples,
    pub start: Number,
    pub stop: Number,
    pub npoints: usize,
}

impl View for Frequency {
    type V = FrequencyView;

    open spec fn view(&self) -> FrequencyView {
        FrequencyView {
            f: self.f@,
            start: self.start@,
            stop: self.stop@,
            npoints: self.npoints as nat,
        }
    }
}

impl Frequency {
    /// A series is never empty; it starts at its first sample and stops at
    /// its last, and it knows how many samples it holds.
    pub open spec fn wf(&self) -> bool {
        self@.f.len() > 0 && self@ == series_of(self@.f)
    }

    /// Adopts a run of samples as a series. There must be at least one.
    pub fn from_samples(values: Vec<Number>) -> (r: Result<Frequency, ParseError>)
        ensures
            values@.len() == 0 ==> r is Err && r->Err_0.kind == ErrorKind::EmptySeries,
            values@.len() > 0 ==> r is Ok && r->Ok_0@ == series_of(values.deep_view())
                && r->Ok_0.wf(),
    {
        let npoints = values.len();
        if npoints == 0 {
            return Err(ParseError::new(ErrorKind::EmptySeries));
        }
        let start = values[0].clone();
        let stop = values[npoints - 1].clone();
        let f = Samples::from_numbers(values);
        Ok(Frequency { f, start, stop, npoints })
    }

    /// How many samples the series holds.
    pub fn len(&self) -> (n: usize)
        ensures
            n == self@.npoints,
    {
        self.npoints
    }

    /// The sample at position `i`, if there is one.
    pub fn sample(&self, i: usize) -> (e: Option<&Number>)
        ensures
            e is Some <==> i < self@.f.len(),
            e is Some ==> e->0@ == self@.f[i as int],
    {
        self.f.get(i)
    }
}

} // verus!
