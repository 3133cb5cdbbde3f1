//! The line-by-line state machine that reads a file.
//!
//! A parser starts out waiting for the option line. Until it has seen one,
//! any line with a `!` in it is kept as a header comment. After the option
//! line a `!` starts a comment that is cut off the line. Lines in square
//! brackets are directives, and every other line is a row of numbers.

use vstd::prelude::*;
use vstd::slice::slice_to_vec;
use crate::arrays::{square, RawComplex};
use crate::number::{is_number, Number};
use crate::options::{
    decode_options, default_options, parse_options_line, OptionsView, TouchstoneOptions,
};
use crate::result::{ErrorKind, ParseError};
use crate::text::{
    ascii_bytes, blank, count_of, find_last, has_prefix, is_blank, last_index_of,
    lemma_bytes_deep_view, literal, lower_seq, lowercase, parse_count, same_bytes, split_tokens,
    starts_with, strip_prefix, tokens, trim, trimmed, BANG, HASH,
};

verus! {

/// The version of the format that a file declares.
#[derive(Clone, Copy, Debug, PartialEq, Eq, Structural)]
pub enum TouchstoneVersion {
    One,
    Two,
}

impl Default for TouchstoneVersion {
    fn default() -> (v: TouchstoneVersion)
        ensures
            v == TouchstoneVersion::One,
    {
        TouchstoneVersion::One
    }
}

/// Where a parser stands in a file.
#[derive(Clone, Copy, Debug, PartialEq, Eq, Structural)]
pub enum Phase {
    /// No option line has been seen yet.
    AwaitingOptions,
    /// The option line has been seen.
    ParsingData,
    /// The end directive has been seen: nothing more is read.
    Done,
}

/// The state of a parser as plain values.
pub struct ParserView {
    pub phase: Phase,
    /// The line before was a reference directive without values: the next
    /// line holds them.
    pub awaiting_reference: bool,
    pub rank: nat,
    pub version: TouchstoneVersion,
    pub comments: Seq<Seq<u8>>,
    pub num_ports: Option<usize>,
    pub num_freq_points: Option<usize>,
    pub num_noise_freq_points: Option<usize>,
    pub reference: Option<Seq<Seq<u8>>>,
    pub options: OptionsView,
    pub freqs: Seq<Seq<u8>>,
    pub values: Seq<(Seq<u8>, Seq<u8>)>,
}

/// The state of a parser that has read nothing.
pub open spec fn initial(rank: nat) -> ParserView {
    ParserView {
        phase: Phase::AwaitingOptions,
        awaiting_reference: false,
        rank,
        version: TouchstoneVersion::One,
        comments: Seq::empty(),
        num_ports: None,
        num_freq_points: None,
        num_noise_freq_points: None,
        reference: None,
        options: default_options(),
        freqs: Seq::empty(),
        values: Seq::empty(),
    }
}

/// The directive that declares the version of the format.
pub open spec fn tag_version() -> Seq<u8> {
    ascii_bytes("[version]"@)
}

/// The directive that lists the reference impedance of each port.
pub open spec fn tag_reference() -> Seq<u8> {
    ascii_bytes("[reference]"@)
}

/// The directive that declares the number of ports.
pub open spec fn tag_ports() -> Seq<u8> {
    ascii_bytes("[number of ports]"@)
}

/// The directive that declares the number of frequencies.
pub open spec fn tag_frequencies() -> Seq<u8> {
    ascii_bytes("[number of frequencies]"@)
}

/// The directive that declares the number of noise frequencies.
pub open spec fn tag_noise_frequencies() -> Seq<u8> {
    ascii_bytes("[number of noise frequencies]"@)
}

/// The directive that marks the start of the network data.
pub open spec fn tag_network_data() -> Seq<u8> {
    ascii_bytes("[network data]"@)
}

/// The directive that ends the file.
pub open spec fn tag_end() -> Seq<u8> {
    ascii_bytes("[end]"@)
}

/// What follows a tag on its line.
pub open spec fn after_tag(body: Seq<u8>, tag: Seq<u8>) -> Seq<u8> {
    body.subrange(tag.len() as int, body.len() as int)
}

/// Whether every token is a real literal.
pub open spec fn all_numbers(toks: Seq<Seq<u8>>) -> bool {
    forall|i: int| 0 <= i < toks.len() ==> is_number(#[trigger] toks[i])
}

/// Whether a row of `count` tokens opens a new frequency record: it does when
/// it holds a frequency and one matrix row, or a frequency and the whole
/// matrix. Nothing but the count decides.
pub open spec fn opens_record(count: nat, rank: nat) -> bool {
    count == 2 * rank + 1 || count == 2 * rank * rank + 1
}

/// Consecutive tokens paired up into complex values.
pub open spec fn pairs(toks: Seq<Seq<u8>>) -> Seq<(Seq<u8>, Seq<u8>)> {
    Seq::new((toks.len() / 2) as nat, |i: int| (toks[2 * i], toks[2 * i + 1]))
}

/// What a row of tokens makes of a state. Every token must be a number. A
/// row that opens a record gives its first token to the frequencies. What is
/// left must pair up, and the pairs join the values.
pub open spec fn take_row(st: ParserView, toks: Seq<Seq<u8>>) -> Result<ParserView, ErrorKind> {
    if !all_numbers(toks) {
        Err(ErrorKind::NumericParseError)
    } else {
        let opens = opens_record(toks.len(), st.rank);
        let data = if opens {
            toks.subrange(1, toks.len() as int)
        } else {
            toks
        };
        if data.len() % 2 != 0 {
            Err(ErrorKind::ShapeMismatch)
        } else {
            Ok(
                ParserView {
                    freqs: if opens {
                        st.freqs.push(toks[0])
                    } else {
                        st.freqs
                    },
                    values: st.values + pairs(data),
                    ..st
                },
            )
        }
    }
}

/// What a text that holds the reference impedances makes of a state: the text
/// must hold at least one token, and numbers only.
pub open spec fn take_reference(st: ParserView, text: Seq<u8>) -> Result<ParserView, ErrorKind> {
    let toks = tokens(text);
    if toks.len() > 0 && all_numbers(toks) {
        Ok(ParserView { reference: Some(toks), awaiting_reference: false, ..st })
    } else {
        Err(ErrorKind::NumericParseError)
    }
}

/// What a line without its comment makes of a state: a directive, the option
/// line, or a row of numbers. The line is in lower case.
pub open spec fn take_statement(st: ParserView, body: Seq<u8>) -> Result<ParserView, ErrorKind> {
    if starts_with(body, tag_version()) {
        if trim(after_tag(body, tag_version())) == ascii_bytes("2.0"@) {
            Ok(ParserView { version: TouchstoneVersion::Two, ..st })
        } else {
            Ok(st)
        }
    } else if starts_with(body, tag_reference()) {
        let rest = after_tag(body, tag_reference());
        if is_blank(rest) {
            Ok(ParserView { awaiting_reference: true, ..st })
        } else {
            take_reference(st, rest)
        }
    } else if starts_with(body, tag_ports()) {
        Ok(ParserView { num_ports: count_of(trim(after_tag(body, tag_ports()))), ..st })
    } else if starts_with(body, tag_frequencies()) {
        Ok(
            ParserView {
                num_freq_points: count_of(trim(after_tag(body, tag_frequencies()))),
                ..st
            },
        )
    } else if starts_with(body, tag_noise_frequencies()) {
        Ok(
            ParserView {
                num_noise_freq_points: count_of(trim(after_tag(body, tag_noise_frequencies()))),
                ..st
            },
        )
    } else if starts_with(body, tag_network_data()) {
        Ok(st)
    } else if starts_with(body, tag_end()) {
        Ok(ParserView { phase: Phase::Done, ..st })
    } else if body.len() > 0 && body[0] == HASH {
        if st.phase == Phase::AwaitingOptions {
            match decode_options(st.options, body) {
                Ok(o) => Ok(ParserView { options: o, phase: Phase::ParsingData, ..st }),
                Err(e) => Err(e),
            }
        } else {
            Ok(st)
        }
    } else {
        take_row(st, tokens(body))
    }
}

/// What one physical line makes of a state.
///
/// A parser that is done reads nothing. A parser that awaits the reference
/// impedances reads the line as those. A blank line is passed over. Before
/// the option line, a line with a `!` gives what follows its last `!` to the
/// header comments. After it, a line that starts with `!` is passed over, and
/// any other line is cut at its last `!`. What is left is a statement.
pub open spec fn step(st: ParserView, raw: Seq<u8>) -> Result<ParserView, ErrorKind> {
    let line = lower_seq(raw);
    let bang = last_index_of(line, BANG);
    if st.phase == Phase::Done {
        Ok(st)
    } else if st.awaiting_reference {
        take_reference(st, line)
    } else if is_blank(line) {
        Ok(st)
    } else if bang >= 0 && st.phase == Phase::AwaitingOptions {
        Ok(ParserView { comments: st.comments.push(line.subrange(bang + 1, line.len() as int)), ..st })
    } else if bang >= 0 && line[0] == BANG {
        Ok(st)
    } else if bang >= 0 {
        take_statement(st, line.subrange(0, bang))
    } else {
        take_statement(st, line)
    }
}

/// What a sequence of physical lines makes of a state, line by line. The
/// first line that fails ends the parse.
pub open spec fn run_lines(st: ParserView, lines: Seq<Seq<u8>>) -> Result<ParserView, ErrorKind>
    decreases lines.len(),
{
    if lines.len() == 0 {
        Ok(st)
    } else {
        match step(st, lines[0]) {
            Ok(next) => run_lines(next, lines.drop_first()),
            Err(e) => Err(e),
        }
    }
}

/// A parser: the state of a parse between two lines.
#[derive(Debug)]
pub struct TouchstoneParser {
    pub phase: Phase,
    pub awaiting_reference: bool,
    pub rank: usize,
    pub version: TouchstoneVersion,
    pub comments: Vec<Vec<u8>>,
    pub num_ports: Option<usize>,
    pub num_freq_points: Option<usize>,
    pub num_noise_freq_points: Option<usize>,
    pub reference: Option<Vec<Number>>,
    pub options: TouchstoneOptions,
    pub freqs: Vec<Number>,
    pub values: Vec<RawComplex>,
}

impl View for TouchstoneParser {
    type V = ParserView;

    open spec fn view(&self) -> ParserView {
        ParserView {
            phase: self.phase,
            awaiting_reference: self.awaiting_reference,
            rank: self.rank as nat,
            version: self.version,
            comments: self.comments.deep_view(),
            num_ports: self.num_ports,
            num_freq_points: self.num_freq_points,
            num_noise_freq_points: self.num_noise_freq_points,
            reference: self.reference.deep_view(),
            options: self.options@,
            freqs: self.freqs.deep_view(),
            values: self.values.deep_view(),
        }
    }
}

/// Whether a row of `count` tokens opens a new frequency record in a file of
/// the given rank.
pub fn starts_record(count: usize, rank: usize) -> (r: bool)
    ensures
        r == opens_record(count as nat, rank as nat),
{
    assert(2 * rank * rank == 2 * (rank * rank)) by (nonlinear_arith);
    if count == 0 || (count - 1) % 2 != 0 {
        return false;
    }
    let half = (count - 1) / 2;
    if half == rank {
        return true;
    }
    match square(rank) {
        Some(sq) => half == sq,
        None => false,
    }
}

/// Reads every token as a number, or none if one of them is not a number.
pub fn read_numbers(toks: &Vec<Vec<u8>>) -> (r: Option<Vec<Number>>)
    ensures
        r is Some <==> all_numbers(toks.deep_view()),
        r is Some ==> r->0.deep_view() == toks.deep_view(),
{
    let mut numbers: Vec<Number> = Vec::new();
    let mut i: usize = 0;
    while i < toks.len()
        invariant
            i <= toks.len(),
            numbers@.len() == i,
            forall|k: int| 0 <= k < i ==> #[trigger] numbers@[k]@ == toks@[k]@ && is_number(toks@[k]@),
        decreases toks.len() - i,
    {
        match Number::parse(toks[i].as_slice()) {
            Some(n) => {
                numbers.push(n);
            },
            None => {
                proof {
                    lemma_bytes_deep_view(toks@[i as int]);
                    assert(toks.deep_view()[i as int] == toks@[i as int]@);
                }
                return None;
            },
        }
        i += 1;
    }
    proof {
        assert forall|k: int| 0 <= k < toks.len() implies toks.deep_view()[k] == toks@[k]@ by {
            lemma_bytes_deep_view(toks@[k]);
        }
        assert(numbers.deep_view() =~= toks.deep_view());
    }
    Some(numbers)
}

/// Appends the numbers from `start` on to `values`, two by two.
fn push_pairs(values: &mut Vec<RawComplex>, numbers: &Vec<Number>, start: usize)
    requires
        start <= numbers.len(),
        (numbers.len() - start) % 2 == 0,
    ensures
        final(values).deep_view() == old(values).deep_view() + pairs(
            numbers.deep_view().subrange(start as int, numbers.len() as int),
        ),
{
    let ghost data = numbers.deep_view().subrange(start as int, numbers.len() as int);
    let ghost before = values.deep_view();
    let mut j: usize = start;
    assert(values.deep_view() =~= before + pairs(data).subrange(0, 0));
    while j < numbers.len()
        invariant
            start <= j <= numbers.len(),
            (j - start) % 2 == 0,
            (numbers.len() - start) % 2 == 0,
            data == numbers.deep_view().subrange(start as int, numbers.len() as int),
            values.deep_view() == before + pairs(data).subrange(0, (j - start) / 2),
        decreases numbers.len() - j,
    {
        let ghost k = (j - start) / 2;
        let pair = RawComplex { re: numbers[j].clone(), im: numbers[j + 1].clone() };
        let ghost seen = values.deep_view();
        values.push(pair);
        proof {
            assert(pair.deep_view() == pairs(data)[k]);
            assert(values.deep_view() =~= seen.push(pair.deep_view()));
            assert(pairs(data).subrange(0, k + 1) =~= pairs(data).subrange(0, k).push(pairs(data)[k]));
        }
        j += 2;
    }
    assert(pairs(data).subrange(0, pairs(data).len() as int) =~= pairs(data));
}

impl TouchstoneParser {
    /// A parser for a file of the given rank, before its first line.
    pub fn new(rank: usize) -> (p: TouchstoneParser)
        ensures
            p@ == initial(rank as nat),
    {
        let p = TouchstoneParser {
            phase: Phase::AwaitingOptions,
            awaiting_reference: false,
            rank,
            version: TouchstoneVersion::default(),
            comments: Vec::new(),
            num_ports: None,
            num_freq_points: None,
            num_noise_freq_points: None,
            reference: None,
            options: TouchstoneOptions::default(),
            freqs: Vec::new(),
            values: Vec::new(),
        };
        assert(p@.comments =~= Seq::empty());
        assert(p@.freqs =~= Seq::empty());
        assert(p@.values =~= Seq::empty());
        p
    }

    /// Whether the end directive has been read.
    pub fn is_done(&self) -> (r: bool)
        ensures
            r == (self@.phase == Phase::Done),
    {
        match self.phase {
            Phase::Done => true,
            _ => false,
        }
    }

    /// Reads a row of numbers.
    fn consume_row(self, body: &[u8]) -> (r: Result<TouchstoneParser, ParseError>)
        ensures
            match take_row(self@, tokens(body@)) {
                Ok(v) => r is Ok && r->Ok_0@ == v,
                Err(k) => r is Err && r->Err_0.kind == k,
            },
    {
        let mut p = self;
        let toks = split_tokens(body);
        let ghost words = toks.deep_view();
        let numbers = match read_numbers(&toks) {
            Some(n) => n,
            None => {
                return Err(ParseError::new(ErrorKind::NumericParseError));
            },
        };
        let opens = starts_record(numbers.len(), p.rank);
        let start: usize = if opens {
            1
        } else {
            0
        };
        if (numbers.len() - start) % 2 != 0 {
            return Err(ParseError::new(ErrorKind::ShapeMismatch));
        }
        if opens {
            let first = numbers[0].clone();
            let ghost seen = p.freqs.deep_view();
            p.freqs.push(first);
            assert(p.freqs.deep_view() =~= seen.push(words[0]));
        }
        push_pairs(&mut p.values, &numbers, start);
        proof {
            if !opens {
                assert(words.subrange(0, words.len() as int) =~= words);
            }
        }
        Ok(p)
    }

    /// Reads the reference impedances from a text.
    fn consume_reference(self, text: &[u8]) -> (r: Result<TouchstoneParser, ParseError>)
        ensures
            match take_reference(self@, text@) {
                Ok(v) => r is Ok && r->Ok_0@ == v,
                Err(k) => r is Err && r->Err_0.kind == k,
            },
    {
        let mut p = self;
        let toks = split_tokens(text);
        if toks.len() == 0 {
            return Err(ParseError::new(ErrorKind::NumericParseError));
        }
        match read_numbers(&toks) {
            Some(numbers) => {
                p.reference = Some(numbers);
                p.awaiting_reference = false;
                Ok(p)
            },
            None => Err(ParseError::new(ErrorKind::NumericParseError)),
        }
    }

    /// Reads a line without its comment, in lower case.
    fn consume_statement(self, body: &[u8]) -> (r: Result<TouchstoneParser, ParseError>)
        ensures
            match take_statement(self@, body@) {
                Ok(v) => r is Ok && r->Ok_0@ == v,
                Err(k) => r is Err && r->Err_0.kind == k,
            },
    {
        let mut p = self;
        proof {
            reveal_strlit("[version]");
            reveal_strlit("[reference]");
            reveal_strlit("[number of ports]");
            reveal_strlit("[number of frequencies]");
            reveal_strlit("[number of noise frequencies]");
            reveal_strlit("[network data]");
            reveal_strlit("[end]");
            reveal_strlit("2.0");
        }
        match strip_prefix(body, literal("[version]")) {
            Some(rest) => {
                if same_bytes(trimmed(rest), literal("2.0")) {
                    p.version = TouchstoneVersion::Two;
                }
                return Ok(p);
            },
            None => {},
        }
        match strip_prefix(body, literal("[reference]")) {
            Some(rest) => {
                if blank(rest) {
                    p.awaiting_reference = true;
                    return Ok(p);
                }
                return p.consume_reference(rest);
            },
            None => {},
        }
        match strip_prefix(body, literal("[number of ports]")) {
            Some(rest) => {
                p.num_ports = parse_count(trimmed(rest));
                return Ok(p);
            },
            None => {},
        }
        match strip_prefix(body, literal("[number of frequencies]")) {
            Some(rest) => {
                p.num_freq_points = parse_count(trimmed(rest));
                return Ok(p);
            },
            None => {},
        }
        match strip_prefix(body, literal("[number of noise frequencies]")) {
            Some(rest) => {
                p.num_noise_freq_points = parse_count(trimmed(rest));
                return Ok(p);
            },
            None => {},
        }
        if has_prefix(body, literal("[network data]")) {
            return Ok(p);
        }
        if has_prefix(body, literal("[end]")) {
            p.phase = Phase::Done;
            return Ok(p);
        }
        if body.len() > 0 && body[0] == HASH {
            return match p.phase {
                Phase::AwaitingOptions => {
                    match parse_options_line(body, &mut p.options) {
                        Ok(()) => {
                            p.phase = Phase::ParsingData;
                            Ok(p)
                        },
                        Err(e) => Err(e),
                    }
                },
                _ => Ok(p),
            };
        }
        p.consume_row(body)
    }

    /// Reads one physical line, with or without its line end.
    pub fn consume_line(self, raw: &[u8]) -> (r: Result<TouchstoneParser, ParseError>)
        ensures
            match step(self@, raw@) {
                Ok(v) => r is Ok && r->Ok_0@ == v,
                Err(k) => r is Err && r->Err_0.kind == k,
            },
    {
        let mut p = self;
        let folded = lowercase(raw);
        let line = folded.as_slice();
        match p.phase {
            Phase::Done => {
                return Ok(p);
            },
            _ => {},
        }
        if p.awaiting_reference {
            return p.consume_reference(line);
        }
        if blank(line) {
            return Ok(p);
        }
        match find_last(line, BANG) {
            Some(at) => {
                match p.phase {
                    Phase::AwaitingOptions => {
                        let comment = slice_to_vec(&line[at + 1..line.len()]);
                        let ghost seen = p.comments.deep_view();
                        proof {
                            lemma_bytes_deep_view(comment);
                        }
                        p.comments.push(comment);
                        assert(p.comments.deep_view() =~= seen.push(comment@));
                        Ok(p)
                    },
                    _ => {
                        if line[0] == BANG {
                            Ok(p)
                        } else {
                            p.consume_statement(&line[0..at])
                        }
                    },
                }
            },
            None => p.consume_statement(line),
        }
    }
}

} // verus!
