//! A whole file: its rank, its physical lines, and what they parse to.

use vstd::prelude::*;
use vstd::slice::slice_to_vec;
use crate::arrays::{shape_fits, Tensor};
use crate::number::Number;
use crate::options::{OptionsView, TouchstoneOptions};
use crate::parser::{
    initial, run_lines, ParserView, Phase, TouchstoneParser, TouchstoneVersion,
};
use crate::result::{ErrorKind, ParseError};
use crate::text::{
    all_digits, ascii_bytes, digits_value, find_last, last_index_of, lemma_span_end, literal,
    lower_seq, lowercase, parse_digits, same_bytes, scan, span_end, ByteClass, DOT,
};

verus! {

/// What a file parses to, as plain values.
pub struct TouchstoneView {
    pub filename: Seq<u8>,
    pub version: TouchstoneVersion,
    pub comments: Seq<Seq<u8>>,
    pub num_ports: Option<usize>,
    pub freqs: Seq<Seq<u8>>,
    pub num_freq_points: Option<usize>,
    pub num_noise_freq_points: Option<usize>,
    pub reference: Option<Seq<Seq<u8>>>,
    pub options: OptionsView,
    /// The axis lengths of the parameter tensor.
    pub shape: (nat, nat, nat),
    /// The parameter tensor in row-major order.
    pub cells: Seq<(Seq<u8>, Seq<u8>)>,
    pub rank: nat,
    /// Whether the file gave noise data. No file does yet.
    pub has_noise: bool,
}

/// A parsed file.
#[derive(Debug)]
pub struct Touchstone {
    pub filename: Vec<u8>,
    pub version: TouchstoneVersion,
    pub comments: Vec<Vec<u8>>,
    pub num_ports: Option<usize>,
    pub freqs: Vec<Number>,
    pub num_freq_points: Option<usize>,
    pub num_noise_freq_points: Option<usize>,
    pub reference: Option<Vec<Number>>,
    pub options: TouchstoneOptions,
    pub s_params: Tensor,
    pub rank: usize,
    pub noise: Option<Tensor>,
}

impl View for Touchstone {
    type V = TouchstoneView;

    open spec fn view(&self) -> TouchstoneView {
        TouchstoneView {
            filename: self.filename@,
            version: self.version,
            comments: self.comments.deep_view(),
            num_ports: self.num_ports,
            freqs: self.freqs.deep_view(),
            num_freq_points: self.num_freq_points,
            num_noise_freq_points: self.num_noise_freq_points,
            reference: self.reference.deep_view(),
            options: self.options@,
            shape: self.s_params.shape(),
            cells: self.s_params.cells(),
            rank: self.rank as nat,
            has_noise: self.noise is Some,
        }
    }
}

/// `s`, which starts the extension of a file.
pub const LETTER_S: u8 = 115;

/// `p`, which ends the extension of a file.
pub const LETTER_P: u8 = 112;

/// What stands behind the last `.` of a file name, if there is a `.`.
pub open spec fn extension_of(name: Seq<u8>) -> Option<Seq<u8>> {
    let dot = last_index_of(name, DOT);
    if dot >= 0 {
        Some(name.subrange(dot + 1, name.len() as int))
    } else {
        None
    }
}

/// The rank that an extension declares. `s<digits>p`, in either case, gives
/// the number that the digits write. `ts` is known and not handled. Anything
/// else is no format of this library.
pub open spec fn rank_of_extension(ext: Seq<u8>) -> Result<usize, ErrorKind> {
    let e = lower_seq(ext);
    if e.len() >= 2 && e[0] == LETTER_S && e.last() == LETTER_P {
        let d = e.subrange(1, e.len() - 1);
        if d.len() > 0 && all_digits(d) && digits_value(d) <= usize::MAX {
            Ok(digits_value(d) as usize)
        } else {
            Err(ErrorKind::UnsupportedFormat)
        }
    } else if e == ascii_bytes("ts"@) {
        Err(ErrorKind::NotImplemented)
    } else {
        Err(ErrorKind::UnsupportedFormat)
    }
}

/// The rank that a file name declares by its extension.
pub open spec fn rank_of(name: Seq<u8>) -> Result<usize, ErrorKind> {
    match extension_of(name) {
        Some(ext) => rank_of_extension(ext),
        None => Err(ErrorKind::UnsupportedFormat),
    }
}

/// The start of the physical line that follows the one starting at `pos`.
pub open spec fn line_break(content: Seq<u8>, pos: int) -> int {
    let end = span_end(content, pos, ByteClass::Line);
    if end < content.len() {
        end + 1
    } else {
        end
    }
}

/// The physical lines of a text from `pos` on. Each line keeps its line feed;
/// the last line may have none.
pub open spec fn lines_from(content: Seq<u8>, pos: int) -> Seq<Seq<u8>>
    decreases content.len() - pos,
{
    if 0 <= pos < content.len() {
        let next = line_break(content, pos);
        if pos < next <= content.len() {
            seq![content.subrange(pos, next)] + lines_from(content, next)
        } else {
            Seq::empty()
        }
    } else {
        Seq::empty()
    }
}

/// The physical lines of a text.
pub open spec fn lines_of(content: Seq<u8>) -> Seq<Seq<u8>> {
    lines_from(content, 0)
}

/// What the end of input makes of a state. The reference impedances must not
/// be outstanding, and the values must fill a tensor of one `rank` by `rank`
/// matrix for each frequency.
pub open spec fn finished(filename: Seq<u8>, st: ParserView) -> Result<TouchstoneView, ErrorKind> {
    if st.awaiting_reference {
        Err(ErrorKind::NumericParseError)
    } else if shape_fits(st.freqs.len(), st.rank, st.rank) && st.values.len() == st.freqs.len()
        * st.rank * st.rank {
        Ok(
            TouchstoneView {
                filename,
                version: st.version,
                comments: st.comments,
                num_ports: st.num_ports,
                freqs: st.freqs,
                num_freq_points: st.num_freq_points,
                num_noise_freq_points: st.num_noise_freq_points,
                reference: st.reference,
                options: st.options,
                shape: (st.freqs.len(), st.rank, st.rank),
                cells: st.values,
                rank: st.rank,
                has_noise: false,
            },
        )
    } else {
        Err(ErrorKind::ShapeMismatch)
    }
}

/// What a file of the given name and content parses to.
pub open spec fn parse_outcome(filename: Seq<u8>, content: Seq<u8>) -> Result<
    TouchstoneView,
    ErrorKind,
> {
    match rank_of(filename) {
        Err(e) => Err(e),
        Ok(rank) => match run_lines(initial(rank as nat), lines_of(content)) {
            Err(e) => Err(e),
            Ok(st) => finished(filename, st),
        },
    }
}

/// A parser that is done stays as it is, whatever lines follow.
pub proof fn lemma_done_is_final(st: ParserView, lines: Seq<Seq<u8>>)
    requires
        st.phase == Phase::Done,
    ensures
        run_lines(st, lines) == Ok::<ParserView, ErrorKind>(st),
    decreases lines.len(),
{
    if lines.len() > 0 {
        lemma_done_is_final(st, lines.drop_first());
    }
}

/// Reads the rank of a file off its name.
pub fn rank_from_name(filename: &[u8]) -> (r: Result<usize, ParseError>)
    ensures
        match rank_of(filename@) {
            Ok(rank) => r == Ok::<usize, ParseError>(rank),
            Err(k) => r == Err::<usize, ParseError>(ParseError { kind: k }),
        },
{
    let dot = match find_last(filename, DOT) {
        Some(dot) => dot,
        None => {
            return Err(ParseError::new(ErrorKind::UnsupportedFormat));
        },
    };
    let folded = lowercase(&filename[dot + 1..filename.len()]);
    let e = folded.as_slice();
    proof {
        reveal_strlit("ts");
    }
    if e.len() >= 2 && e[0] == LETTER_S && e[e.len() - 1] == LETTER_P {
        match parse_digits(&e[1..e.len() - 1]) {
            Some(rank) => Ok(rank),
            None => Err(ParseError::new(ErrorKind::UnsupportedFormat)),
        }
    } else if same_bytes(e, literal("ts")) {
        Err(ParseError::new(ErrorKind::NotImplemented))
    } else {
        Err(ParseError::new(ErrorKind::UnsupportedFormat))
    }
}

impl TouchstoneParser {
    /// Ends the parse and shapes the values into the tensor of the file.
    pub fn finish(self, filename: &[u8]) -> (r: Result<Touchstone, ParseError>)
        ensures
            match finished(filename@, self@) {
                Ok(v) => r is Ok && r->Ok_0@ == v && r->Ok_0.wf(),
                Err(k) => r is Err && r->Err_0.kind == k,
            },
    {
        if self.awaiting_reference {
            return Err(ParseError::new(ErrorKind::NumericParseError));
        }
        let count = self.freqs.len();
        let s_params = match Tensor::from_values(count, self.rank, self.rank, self.values) {
            Ok(t) => t,
            Err(e) => {
                return Err(e);
            },
        };
        Ok(
            Touchstone {
                filename: slice_to_vec(filename),
                version: self.version,
                comments: self.comments,
                num_ports: self.num_ports,
                freqs: self.freqs,
                num_freq_points: self.num_freq_points,
                num_noise_freq_points: self.num_noise_freq_points,
                reference: self.reference,
                options: self.options,
                s_params,
                rank: self.rank,
                noise: None,
            },
        )
    }
}

impl Touchstone {
    /// A parsed file holds one `rank` by `rank` matrix for each frequency.
    pub open spec fn wf(&self) -> bool {
        &&& self.s_params.wf()
        &&& self.s_params.shape() == (self.freqs@.len(), self.rank as nat, self.rank as nat)
    }

    /// Parses the content of a file. The name of the file gives the rank.
    pub fn new(filename: &[u8], content: &[u8]) -> (r: Result<Touchstone, ParseError>)
        ensures
            match parse_outcome(filename@, content@) {
                Ok(v) => r is Ok && r->Ok_0@ == v && r->Ok_0.wf(),
                Err(k) => r is Err && r->Err_0.kind == k,
            },
    {
        let rank = match rank_from_name(filename) {
            Ok(rank) => rank,
            Err(e) => {
                return Err(e);
            },
        };
        let mut parser = TouchstoneParser::new(rank);
        let mut pos: usize = 0;
        while pos < content.len() && !parser.is_done()
            invariant
                pos <= content.len(),
                rank_of(filename@) == Ok::<usize, ErrorKind>(rank),
                run_lines(initial(rank as nat), lines_of(content@)) == run_lines(
                    parser@,
                    lines_from(content@, pos as int),
                ),
            decreases content.len() - pos,
        {
            let end = scan(content, pos, ByteClass::Line);
            let next = if end < content.len() {
                end + 1
            } else {
                end
            };
            proof {
                lemma_span_end(content@, pos as int, ByteClass::Line);
                let rest = lines_from(content@, next as int);
                assert((seq![content@.subrange(pos as int, next as int)] + rest).drop_first()
                    =~= rest);
            }
            match parser.consume_line(&content[pos..next]) {
                Ok(p) => {
                    parser = p;
                },
                Err(e) => {
                    return Err(e);
                },
            }
            pos = next;
        }
        proof {
            if parser.phase == Phase::Done {
                lemma_done_is_final(parser@, lines_from(content@, pos as int));
            }
        }
        parser.finish(filename)
    }

    /// The frequencies, in file order.
    pub fn freqs(&self) -> (r: Vec<Number>)
        ensures
            r.deep_view() == self@.freqs,
    {
        let mut r: Vec<Number> = Vec::new();
        let mut i: usize = 0;
        while i < self.freqs.len()
            invariant
                i <= self.freqs.len(),
                r@.len() == i,
                forall|k: int| 0 <= k < i ==> #[trigger] r@[k]@ == self.freqs@[k]@,
            decreases self.freqs.len() - i,
        {
            r.push(self.freqs[i].clone());
            i += 1;
        }
        assert(r.deep_view() =~= self.freqs.deep_view());
        r
    }

    /// The parameter tensor.
    pub fn s_params(&self) -> (t: Tensor)
        ensures
            t.shape() == self@.shape,
            t.cells() == self@.cells,
    {
        self.s_params.clone()
    }
}

} // verus!
