//! A network: the frequencies of a file, its parameters, and the reference
//! impedance at each frequency.

use vstd::prelude::*;
use crate::arrays::{axis_weight, Matrix, RawComplex, Tensor};
use crate::frequency::{series_of, Frequency, FrequencyView};
use crate::number::Number;
use crate::result::{ErrorKind, ParseError};
use crate::text::ascii_bytes;
use crate::touchstone::{parse_outcome, Touchstone, TouchstoneView};

verus! {

/// A network as plain values.
pub struct NetworkView {
    pub f: FrequencyView,
    /// The axis lengths of the parameter tensor.
    pub shape: (nat, nat, nat),
    /// The parameter tensor in row-major order.
    pub cells: Seq<(Seq<u8>, Seq<u8>)>,
    /// The axis lengths of the impedance matrix.
    pub z0_shape: (nat, nat),
    /// The impedance matrix in row-major order.
    pub z0_cells: Seq<(Seq<u8>, Seq<u8>)>,
}

/// A network of a given number of ports, sampled over a frequency series.
#[derive(Debug)]
pub struct Network {
    pub f: Frequency,
    pub s: Tensor,
    pub z0: Matrix,
}

impl View for Network {
    type V = NetworkView;

    open spec fn view(&self) -> NetworkView {
        NetworkView {
            f: self.f@,
            shape: self.s.shape(),
            cells: self.s.cells(),
            z0_shape: self.z0.shape(),
            z0_cells: self.z0.cells(),
        }
    }
}

/// The network that a parsed file describes. The file must hold at least one
/// frequency. The impedance matrix is one row with the reference resistance
/// of the options, as a real value, at every frequency.
pub open spec fn network_of(t: TouchstoneView) -> Result<NetworkView, ErrorKind> {
    if t.freqs.len() == 0 {
        Err(ErrorKind::EmptySeries)
    } else {
        Ok(
            NetworkView {
                f: series_of(t.freqs),
                shape: t.shape,
                cells: t.cells,
                z0_shape: (1, t.freqs.len()),
                z0_cells: Seq::new(
                    t.freqs.len(),
                    |i: int| (t.options.resistance, ascii_bytes("0"@)),
                ),
            },
        )
    }
}

/// The network that a file of the given name and content describes.
pub open spec fn network_outcome(filename: Seq<u8>, content: Seq<u8>) -> Result<
    NetworkView,
    ErrorKind,
> {
    match parse_outcome(filename, content) {
        Ok(t) => network_of(t),
        Err(e) => Err(e),
    }
}

impl Network {
    /// A network of the given parts.
    pub fn new(f: Frequency, s: Tensor, z0: Matrix) -> (n: Network)
        ensures
            n.f == f,
            n.s == s,
            n.z0 == z0,
    {
        Network { f, s, z0 }
    }

    /// The network that a parsed file describes.
    pub fn from_touchstone(t: Touchstone) -> (r: Result<Network, ParseError>)
        requires
            t.wf(),
        ensures
            match network_of(t@) {
                Ok(v) => r is Ok && r->Ok_0@ == v && r->Ok_0.f.wf(),
                Err(k) => r is Err && r->Err_0.kind == k,
            },
    {
        let count = t.freqs.len();
        let ghost rank = t.rank as nat;
        proof {
            assert(axis_weight(count as nat) <= isize::MAX) by (nonlinear_arith)
                requires
                    axis_weight(count as nat) * axis_weight(rank) * axis_weight(rank)
                        <= isize::MAX,
                    axis_weight(rank) >= 1,
            ;
            assert(1 * axis_weight(count as nat) * 1 == axis_weight(count as nat))
                by (nonlinear_arith);
        }
        let elem = RawComplex { re: t.options.resistance.clone(), im: Number::zero() };
        let f = match Frequency::from_samples(t.freqs) {
            Ok(f) => f,
            Err(e) => {
                return Err(e);
            },
        };
        match Matrix::filled(1, count, elem) {
            Ok(z0) => Ok(Network { f, s: t.s_params, z0 }),
            Err(e) => Err(e),
        }
    }

    /// Parses the content of a file into a network. The name of the file gives
    /// the rank.
    pub fn from_snp(filename: &[u8], content: &[u8]) -> (r: Result<Network, ParseError>)
        ensures
            match network_outcome(filename@, content@) {
                Ok(v) => r is Ok && r->Ok_0@ == v && r->Ok_0.f.wf(),
                Err(k) => r is Err && r->Err_0.kind == k,
            },
    {
        match Touchstone::new(filename, content) {
            Ok(t) => Network::from_touchstone(t),
            Err(e) => Err(e),
        }
    }
}

} // verus!
