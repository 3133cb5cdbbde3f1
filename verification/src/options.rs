//! The option line of a file: unit, parameter kind, value encoding and
//! reference resistance.

use vstd::prelude::*;
use crate::frequency::{unit_of, FreqUnit};
use crate::number::{is_number, Number};
use crate::result::{ErrorKind, ParseError};
use crate::text::{
    ascii_bytes, lemma_bytes_deep_view, literal, lower_seq, lowercase, same_bytes, split_tokens,
    tokens,
};

verus! {

/// The kind of network parameter that a file holds.
#[derive(Clone, Copy, Debug, PartialEq, Eq, Structural)]
pub enum ParamType {
    S,
    Y,
    Z,
    G,
    H,
}

/// How a file writes each complex value.
#[derive(Clone, Copy, Debug, PartialEq, Eq, Structural)]
pub enum ParamFormat {
    /// Decibels and angle.
    DBAngle,
    /// Magnitude and angle.
    MagAngle,
    /// Real and imaginary part.
    RealImag,
}

/// The parameter kind that a token names, in either case.
pub open spec fn kind_of(token: Seq<u8>) -> Option<ParamType> {
    let t = lower_seq(token);
    if t == ascii_bytes("s"@) {
        Some(ParamType::S)
    } else if t == ascii_bytes("y"@) {
        Some(ParamType::Y)
    } else if t == ascii_bytes("z"@) {
        Some(ParamType::Z)
    } else if t == ascii_bytes("g"@) {
        Some(ParamType::G)
    } else if t == ascii_bytes("h"@) {
        Some(ParamType::H)
    } else {
        None
    }
}

/// The value encoding that a token names, in either case.
pub open spec fn format_of(token: Seq<u8>) -> Option<ParamFormat> {
    let t = lower_seq(token);
    if t == ascii_bytes("db"@) {
        Some(ParamFormat::DBAngle)
    } else if t == ascii_bytes("ma"@) {
        Some(ParamFormat::MagAngle)
    } else if t == ascii_bytes("ri"@) {
        Some(ParamFormat::RealImag)
    } else {
        None
    }
}

impl ParamType {
    /// Reads a parameter kind, in either case.
    pub fn parse(token: &[u8]) -> (r: Result<ParamType, ParseError>)
        ensures
            match kind_of(token@) {
                Some(k) => r == Ok::<ParamType, ParseError>(k),
                None => r == Err::<ParamType, ParseError>(
                    ParseError { kind: ErrorKind::InvalidParameterKind },
                ),
            },
    {
        let t = lowercase(token);
        proof {
            reveal_strlit("s");
            reveal_strlit("y");
            reveal_strlit("z");
            reveal_strlit("g");
            reveal_strlit("h");
        }
        if same_bytes(t.as_slice(), literal("s")) {
            Ok(ParamType::S)
        } else if same_bytes(t.as_slice(), literal("y")) {
            Ok(ParamType::Y)
        } else if same_bytes(t.as_slice(), literal("z")) {
            Ok(ParamType::Z)
        } else if same_bytes(t.as_slice(), literal("g")) {
            Ok(ParamType::G)
        } else if same_bytes(t.as_slice(), literal("h")) {
            Ok(ParamType::H)
        } else {
            Err(ParseError::new(ErrorKind::InvalidParameterKind))
        }
    }
}

impl ParamFormat {
    /// Reads a value encoding, in either case.
    pub fn parse(token: &[u8]) -> (r: Result<ParamFormat, ParseError>)
        ensures
            match format_of(token@) {
                Some(f) => r == Ok::<ParamFormat, ParseError>(f),
                None => r == Err::<ParamFormat, ParseError>(
                    ParseError { kind: ErrorKind::InvalidValueEncoding },
                ),
            },
    {
        let t = lowercase(token);
        proof {
            reveal_strlit("db");
            reveal_strlit("ma");
            reveal_strlit("ri");
        }
        if same_bytes(t.as_slice(), literal("db")) {
            Ok(ParamFormat::DBAngle)
        } else if same_bytes(t.as_slice(), literal("ma")) {
            Ok(ParamFormat::MagAngle)
        } else if same_bytes(t.as_slice(), literal("ri")) {
            Ok(ParamFormat::RealImag)
        } else {
            Err(ParseError::new(ErrorKind::InvalidValueEncoding))
        }
    }
}

/// What an option line declares.
#[derive(Debug)]
pub struct TouchstoneOptions {
    pub unit: FreqUnit,
    pub param_type: ParamType,
    pub param_format: ParamFormat,
    pub resistance: Number,
}

/// The options as plain values: the resistance is its literal.
pub struct OptionsView {
    pub unit: FreqUnit,
    pub param_type: ParamType,
    pub param_format: ParamFormat,
    pub resistance: Seq<u8>,
}

/// The options of a file that has no option line: gigahertz, scattering
/// parameters, magnitude and angle, fifty ohms.
pub open spec fn default_options() -> OptionsView {
    OptionsView {
        unit: FreqUnit::GHz,
        param_type: ParamType::S,
        param_format: ParamFormat::MagAngle,
        resistance: ascii_bytes("50"@),
    }
}

impl View for TouchstoneOptions {
    type V = OptionsView;

    open spec fn view(&self) -> OptionsView {
        OptionsView {
            unit: self.unit,
            param_type: self.param_type,
            param_format: self.param_format,
            resistance: self.resistance@,
        }
    }
}

impl Default for TouchstoneOptions {
    fn default() -> (o: TouchstoneOptions)
        ensures
            o@ == default_options(),
    {
        TouchstoneOptions {
            unit: FreqUnit::GHz,
            param_type: ParamType::S,
            param_format: ParamFormat::MagAngle,
            resistance: Number::fifty(),
        }
    }
}

impl Clone for TouchstoneOptions {
    fn clone(&self) -> (r: Self)
        ensures
            r@ == self@,
    {
        TouchstoneOptions {
            unit: self.unit,
            param_type: self.param_type,
            param_format: self.param_format,
            resistance: self.resistance.clone(),
        }
    }
}

/// `h`
pub const LETTER_H: u8 = 104;

/// `z`
pub const LETTER_Z: u8 = 122;

/// Whether the letters `hz` stand somewhere in a token.
pub open spec fn contains_hz(t: Seq<u8>) -> bool {
    exists|i: int| 0 <= i && i + 2 <= t.len() && #[trigger] t[i] == LETTER_H && t[i + 1] == LETTER_Z
}

/// The token that announces the reference resistance.
pub open spec fn is_resistance_mark(t: Seq<u8>) -> bool {
    t == ascii_bytes("r"@)
}

/// The effect of the token at position `i` of an option line.
///
/// A token with `hz` in it must name a unit. A two-letter token sets the value
/// encoding if it names one. A one-letter token sets the parameter kind if it
/// names one. The token `r` takes the token behind it as the resistance. Any
/// other token is passed over.
pub open spec fn apply_token(o: OptionsView, toks: Seq<Seq<u8>>, i: int) -> Result<
    OptionsView,
    ErrorKind,
> {
    let t = toks[i];
    if contains_hz(t) {
        match unit_of(t) {
            Some(u) => Ok(OptionsView { unit: u, ..o }),
            None => Err(ErrorKind::InvalidUnit),
        }
    } else if t.len() == 2 {
        match format_of(t) {
            Some(f) => Ok(OptionsView { param_format: f, ..o }),
            None => Ok(o),
        }
    } else if t.len() == 1 && kind_of(t) is Some {
        Ok(OptionsView { param_type: kind_of(t)->0, ..o })
    } else if is_resistance_mark(t) {
        if i + 1 < toks.len() && is_number(toks[i + 1]) {
            Ok(OptionsView { resistance: toks[i + 1], ..o })
        } else {
            Err(ErrorKind::MalformedOptionsLine)
        }
    } else {
        Ok(o)
    }
}

/// The effect of the tokens from position `from` on, taken in order. The
/// first token that fails ends the decoding.
pub open spec fn apply_tokens(o: OptionsView, toks: Seq<Seq<u8>>, from: int) -> Result<
    OptionsView,
    ErrorKind,
>
    decreases toks.len() - from,
{
    if 0 <= from < toks.len() {
        match apply_token(o, toks, from) {
            Ok(next) => apply_tokens(next, toks, from + 1),
            Err(e) => Err(e),
        }
    } else {
        Ok(o)
    }
}

/// What an option line makes of the options `o`: the line is folded to lower
/// case and split at white space, its first token (the marker) is dropped, and
/// the others are applied in order.
pub open spec fn decode_options(o: OptionsView, line: Seq<u8>) -> Result<OptionsView, ErrorKind> {
    apply_tokens(o, tokens(lower_seq(line)), 1)
}

/// A token that names a unit.
pub open spec fn is_unit_token(t: Seq<u8>) -> bool {
    contains_hz(t) && unit_of(t) is Some
}

/// A token that names a parameter kind.
pub open spec fn is_kind_token(t: Seq<u8>) -> bool {
    t.len() == 1 && kind_of(t) is Some
}

/// A token that names a value encoding.
pub open spec fn is_format_token(t: Seq<u8>) -> bool {
    t.len() == 2 && format_of(t) is Some
}

/// The three kinds of token exclude each other, and each sets its own field.
proof fn lemma_token_effects(o: OptionsView, toks: Seq<Seq<u8>>, i: int)
    requires
        0 <= i < toks.len(),
    ensures
        is_unit_token(toks[i]) ==> apply_token(o, toks, i) == Ok::<OptionsView, ErrorKind>(
            OptionsView { unit: unit_of(toks[i])->0, ..o },
        ),
        is_kind_token(toks[i]) ==> apply_token(o, toks, i) == Ok::<OptionsView, ErrorKind>(
            OptionsView { param_type: kind_of(toks[i])->0, ..o },
        ),
        is_format_token(toks[i]) ==> apply_token(o, toks, i) == Ok::<OptionsView, ErrorKind>(
            OptionsView { param_format: format_of(toks[i])->0, ..o },
        ),
        !(is_unit_token(toks[i]) && is_kind_token(toks[i])),
        !(is_unit_token(toks[i]) && is_format_token(toks[i])),
        !(is_kind_token(toks[i]) && is_format_token(toks[i])),
{
    let t = toks[i];
    reveal_strlit("db");
    reveal_strlit("ma");
    reveal_strlit("ri");
    if contains_hz(t) {
        let k = choose|k: int|
            0 <= k && k + 2 <= t.len() && #[trigger] t[k] == LETTER_H && t[k + 1] == LETTER_Z;
        assert(t.len() >= 2);
        if is_format_token(t) {
            assert(k == 0);
            assert(lower_seq(t)[0] == LETTER_H);
        }
    }
}

/// The order of the unit, the parameter kind and the value encoding on an
/// option line does not matter: a line that holds one token of each, in any
/// order, sets the three fields to what the tokens name and leaves the
/// resistance as it was.
pub proof fn lemma_options_order_independent(
    o: OptionsView,
    toks: Seq<Seq<u8>>,
    unit: Seq<u8>,
    kind: Seq<u8>,
    format: Seq<u8>,
)
    requires
        is_unit_token(unit),
        is_kind_token(kind),
        is_format_token(format),
        toks.len() == 4,
        toks.subrange(1, 4).contains(unit),
        toks.subrange(1, 4).contains(kind),
        toks.subrange(1, 4).contains(format),
    ensures
        apply_tokens(o, toks, 1) == Ok::<OptionsView, ErrorKind>(
            OptionsView {
                unit: unit_of(unit)->0,
                param_type: kind_of(kind)->0,
                param_format: format_of(format)->0,
                resistance: o.resistance,
            },
        ),
{
    let rest = toks.subrange(1, 4);
    let a = choose|a: int| 0 <= a < 3 && rest[a] == unit;
    let b = choose|b: int| 0 <= b < 3 && rest[b] == kind;
    let c = choose|c: int| 0 <= c < 3 && rest[c] == format;
    assert(rest[a] == toks[a + 1] && rest[b] == toks[b + 1] && rest[c] == toks[c + 1]);
    let o1 = apply_token(o, toks, 1)->Ok_0;
    lemma_token_effects(o, toks, 1);
    let o2 = apply_token(o1, toks, 2)->Ok_0;
    lemma_token_effects(o1, toks, 2);
    lemma_token_effects(o2, toks, 3);
    lemma_token_effects(o, toks, a + 1);
    lemma_token_effects(o, toks, b + 1);
    lemma_token_effects(o, toks, c + 1);
    assert(a != b && b != c && a != c);
    reveal_with_fuel(apply_tokens, 5);
}

/// Two option lines that hold, behind their markers, the same unit, parameter
/// kind and value encoding in different orders decode to the same options.
pub proof fn lemma_decode_order_independent(
    o: OptionsView,
    first: Seq<u8>,
    second: Seq<u8>,
    unit: Seq<u8>,
    kind: Seq<u8>,
    format: Seq<u8>,
)
    requires
        is_unit_token(unit),
        is_kind_token(kind),
        is_format_token(format),
        tokens(lower_seq(first)).len() == 4,
        tokens(lower_seq(first)).subrange(1, 4).contains(unit),
        tokens(lower_seq(first)).subrange(1, 4).contains(kind),
        tokens(lower_seq(first)).subrange(1, 4).contains(format),
        tokens(lower_seq(second)).len() == 4,
        tokens(lower_seq(second)).subrange(1, 4).contains(unit),
        tokens(lower_seq(second)).subrange(1, 4).contains(kind),
        tokens(lower_seq(second)).subrange(1, 4).contains(format),
    ensures
        decode_options(o, first) == decode_options(o, second),
{
    lemma_options_order_independent(o, tokens(lower_seq(first)), unit, kind, format);
    lemma_options_order_independent(o, tokens(lower_seq(second)), unit, kind, format);
}

fn has_hz(t: &[u8]) -> (r: bool)
    ensures
        r == contains_hz(t@),
{
    if t.len() < 2 {
        return false;
    }
    let mut i: usize = 0;
    while i < t.len() - 1
        invariant
            2 <= t.len(),
            i <= t.len() - 1,
            forall|k: int|
                0 <= k < i && k + 2 <= t@.len() ==> !(#[trigger] t@[k] == LETTER_H && t@[k + 1]
                    == LETTER_Z),
        decreases t.len() - i,
    {
        if t[i] == LETTER_H && t[i + 1] == LETTER_Z {
            return true;
        }
        i += 1;
    }
    false
}

/// Decodes an option line into `options`. On failure `options` is left as it
/// was.
pub fn parse_options_line(line: &[u8], options: &mut TouchstoneOptions) -> (r: Result<
    (),
    ParseError,
>)
    ensures
        match decode_options(old(options)@, line@) {
            Ok(v) => r is Ok && final(options)@ == v,
            Err(k) => r == Err::<(), ParseError>(ParseError { kind: k }) && final(options)@ == old(
                options,
            )@,
        },
{
    let folded = lowercase(line);
    let toks = split_tokens(folded.as_slice());
    let ghost first = options@;
    let ghost words = toks.deep_view();
    let mut unit = options.unit;
    let mut param_type = options.param_type;
    let mut param_format = options.param_format;
    let mut resistance: Option<Number> = None;
    let mut i: usize = 1;
    while i < toks.len()
        invariant
            1 <= i,
            words == toks.deep_view(),
            words == tokens(lower_seq(line@)),
            first == old(options)@,
            first == options@,
            apply_tokens(first, words, 1) == apply_tokens(
                OptionsView {
                    unit,
                    param_type,
                    param_format,
                    resistance: match resistance {
                        Some(n) => n@,
                        None => first.resistance,
                    },
                },
                words,
                i as int,
            ),
        decreases toks.len() - i,
    {
        let t = toks[i].as_slice();
        proof {
            reveal_strlit("r");
            lemma_bytes_deep_view(toks@[i as int]);
            assert(words[i as int] == t@);
            if i + 1 < toks.len() {
                lemma_bytes_deep_view(toks@[i + 1]);
            }
        }
        if has_hz(t) {
            match FreqUnit::parse(t) {
                Ok(u) => {
                    unit = u;
                },
                Err(e) => {
                    return Err(e);
                },
            }
        } else if t.len() == 2 {
            match ParamFormat::parse(t) {
                Ok(f) => {
                    param_format = f;
                },
                Err(_) => {},
            }
        } else if t.len() == 1 {
            match ParamType::parse(t) {
                Ok(k) => {
                    param_type = k;
                },
                Err(_) => {
                    if same_bytes(t, literal("r")) {
                        if i + 1 < toks.len() {
                            match Number::parse(toks[i + 1].as_slice()) {
                                Some(n) => {
                                    resistance = Some(n);
                                },
                                None => {
                                    return Err(ParseError::new(ErrorKind::MalformedOptionsLine));
                                },
                            }
                        } else {
                            return Err(ParseError::new(ErrorKind::MalformedOptionsLine));
                        }
                    }
                },
            }
        } else {
            assert(!is_resistance_mark(t@));
        }
        i += 1;
    }
    options.unit = unit;
    options.param_type = param_type;
    options.param_format = param_format;
    match resistance {
        Some(n) => {
            options.resistance = n;
        },
        None => {},
    }
    Ok(())
}

} // verus!
