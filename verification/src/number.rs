//! Real numbers as they are written: validated decimal literals.
//!
//! A `Number` keeps the text of a literal and guarantees that the text is one.
//! Nothing is rounded; turning a literal into a machine float is left to the
//! caller.

use vstd::prelude::*;
use vstd::slice::slice_to_vec;
use crate::text::{
    all_digits, ascii_bytes, is_digit, lemma_span_end, lemma_span_end_unique, literal, lower_seq,
    lowercase, same_bytes, scan, span_end, ByteClass, DOT, MINUS, PLUS,
};

verus! {

/// `e`, which starts an exponent.
pub const LETTER_E: u8 = 101;

/// A plus or a minus sign.
pub open spec fn is_sign(b: u8) -> bool {
    b == PLUS || b == MINUS
}

/// An exponent part: `e`, an optional sign, and at least one digit.
pub open spec fn is_exponent(e: Seq<u8>) -> bool {
    e.len() >= 2 && e[0] == LETTER_E && {
        let d = if is_sign(e[1]) {
            e.subrange(2, e.len() as int)
        } else {
            e.subrange(1, e.len() as int)
        };
        d.len() > 0 && all_digits(d)
    }
}

/// An unsigned decimal: digits with at most one point among them, at least one
/// digit in all, and an optional exponent part behind.
pub open spec fn is_decimal(r: Seq<u8>) -> bool {
    let a = span_end(r, 0, ByteClass::Digit);
    let pointed = a < r.len() && r[a] == DOT;
    let b = if pointed {
        span_end(r, a + 1, ByteClass::Digit)
    } else {
        a
    };
    let digits = if pointed {
        b - 1
    } else {
        a
    };
    digits > 0 && (b == r.len() || is_exponent(r.subrange(b, r.len() as int)))
}

/// The spellings of the values that are not finite.
pub open spec fn is_special(r: Seq<u8>) -> bool {
    r == ascii_bytes("inf"@) || r == ascii_bytes("infinity"@) || r == ascii_bytes("nan"@)
}

/// The part of a lower-case literal behind its optional sign.
pub open spec fn unsigned_part(t: Seq<u8>) -> Seq<u8> {
    if t.len() > 0 && is_sign(t[0]) {
        t.subrange(1, t.len() as int)
    } else {
        t
    }
}

/// A real literal, in either case: an optional sign, then a decimal or the
/// spelling of a value that is not finite.
pub open spec fn is_number(s: Seq<u8>) -> bool {
    let r = unsigned_part(lower_seq(s));
    is_special(r) || is_decimal(r)
}

/// A real number, held as the literal that wrote it.
#[derive(Debug)]
pub struct Number {
    text: Vec<u8>,
}

impl View for Number {
    type V = Seq<u8>;

    closed spec fn view(&self) -> Seq<u8> {
        self.text@
    }
}

impl DeepView for Number {
    type V = Seq<u8>;

    open spec fn deep_view(&self) -> Seq<u8> {
        self@
    }
}

/// Whether a text holds digits only.
pub fn only_digits(s: &[u8]) -> (r: bool)
    ensures
        r == all_digits(s@),
{
    let end = scan(s, 0, ByteClass::Digit);
    proof {
        lemma_span_end(s@, 0, ByteClass::Digit);
    }
    end == s.len()
}

fn byte_is_sign(b: u8) -> (r: bool)
    ensures
        r == is_sign(b),
{
    b == PLUS || b == MINUS
}

fn exponent(e: &[u8]) -> (r: bool)
    ensures
        r == is_exponent(e@),
{
    if e.len() < 2 || e[0] != LETTER_E {
        return false;
    }
    let d = if byte_is_sign(e[1]) {
        &e[2..e.len()]
    } else {
        &e[1..e.len()]
    };
    d.len() > 0 && only_digits(d)
}

fn decimal(r: &[u8]) -> (ok: bool)
    ensures
        ok == is_decimal(r@),
{
    let a = scan(r, 0, ByteClass::Digit);
    let pointed = a < r.len() && r[a] == DOT;
    let b = if pointed {
        scan(r, a + 1, ByteClass::Digit)
    } else {
        a
    };
    let digits = if pointed {
        b - 1
    } else {
        a
    };
    digits > 0 && (b == r.len() || exponent(&r[b..r.len()]))
}

fn special(r: &[u8]) -> (ok: bool)
    ensures
        ok == is_special(r@),
{
    proof {
        reveal_strlit("inf");
        reveal_strlit("infinity");
        reveal_strlit("nan");
    }
    same_bytes(r, literal("inf")) || same_bytes(r, literal("infinity")) || same_bytes(
        r,
        literal("nan"),
    )
}

/// Whether a text is a real literal.
pub fn recognise(s: &[u8]) -> (ok: bool)
    ensures
        ok == is_number(s@),
{
    let t = lowercase(s);
    let r = if t.len() > 0 && byte_is_sign(t[0]) {
        &t[1..t.len()]
    } else {
        &t[0..t.len()]
    };
    assert(t@.subrange(0, t@.len() as int) =~= t@);
    special(r) || decimal(r)
}

impl Number {
    #[verifier::type_invariant]
    spec fn well_formed(self) -> bool {
        is_number(self.text@)
    }

    /// Adopts a text as a number, if it is a real literal.
    pub fn from_vec(text: Vec<u8>) -> (r: Option<Number>)
        ensures
            r is Some <==> is_number(text@),
            r is Some ==> r->0@ == text@,
    {
        if recognise(text.as_slice()) {
            Some(Number { text })
        } else {
            None
        }
    }

    /// Reads a text as a number, if it is a real literal.
    pub fn parse(text: &[u8]) -> (r: Option<Number>)
        ensures
            r is Some <==> is_number(text@),
            r is Some ==> r->0@ == text@,
    {
        Number::from_vec(slice_to_vec(text))
    }

    /// The literal, which is always a real literal.
    pub fn as_bytes(&self) -> (t: &[u8])
        ensures
            t@ == self@,
            is_number(self@),
    {
        proof {
            use_type_invariant(self);
        }
        self.text.as_slice()
    }

    /// The number zero, written `0`.
    pub fn zero() -> (n: Number)
        ensures
            n@ == ascii_bytes("0"@),
    {
        proof {
            reveal_strlit("0");
        }
        let text = slice_to_vec(literal("0"));
        proof {
            lemma_small_literals();
        }
        Number { text }
    }

    /// The number fifty, written `50`.
    pub fn fifty() -> (n: Number)
        ensures
            n@ == ascii_bytes("50"@),
    {
        proof {
            reveal_strlit("50");
        }
        let text = slice_to_vec(literal("50"));
        proof {
            lemma_small_literals();
        }
        Number { text }
    }
}

/// `0` and `50` are real literals.
pub proof fn lemma_small_literals()
    ensures
        is_number(ascii_bytes("0"@)),
        is_number(ascii_bytes("50"@)),
{
    reveal_strlit("0");
    reveal_strlit("50");
    let z = ascii_bytes("0"@);
    let f = ascii_bytes("50"@);
    assert(lower_seq(z) =~= z);
    assert(lower_seq(f) =~= f);
    assert(is_digit(z[0]));
    assert(is_digit(f[0]) && is_digit(f[1]));
    lemma_span_end_unique(z, 0, ByteClass::Digit, 1);
    lemma_span_end_unique(f, 0, ByteClass::Digit, 2);
}

impl Clone for Number {
    fn clone(&self) -> (r: Self)
        ensures
            r@ == self@,
    {
        proof {
            use_type_invariant(self);
        }
        Number { text: slice_to_vec(self.text.as_slice()) }
    }
}

} // verus!
