//! Byte-level text helpers: character classes, case folding, trimming,
//! whitespace tokens, prefixes and unsigned decimal numbers.

use vstd::prelude::*;
use vstd::slice::slice_to_vec;
use vstd::string::{is_ascii, is_ascii_spec_bytes};

verus! {

/// The line feed, which ends a physical line.
pub const LINE_FEED: u8 = 10;

/// `!`, which starts a comment.
pub const BANG: u8 = 33;

/// `#`, which starts the option line.
pub const HASH: u8 = 35;

/// `+`
pub const PLUS: u8 = 43;

/// `-`
pub const MINUS: u8 = 45;

/// `.`
pub const DOT: u8 = 46;

/// `[`, which starts a directive.
pub const BRACKET: u8 = 91;

/// The classes of bytes that the scanners tell apart.
#[derive(Clone, Copy, Debug, PartialEq, Eq, Structural)]
pub enum ByteClass {
    /// ASCII white space: space, tab, line feed, vertical tab, form feed, carriage return.
    Space,
    /// Anything but ASCII white space.
    Word,
    /// `0` to `9`.
    Digit,
    /// Anything but a line feed.
    Line,
}

/// ASCII white space: a space, or one of tab, line feed, vertical tab, form
/// feed and carriage return.
pub open spec fn is_space(b: u8) -> bool {
    b == 32 || (9 <= b && b <= 13)
}

/// A decimal digit.
pub open spec fn is_digit(b: u8) -> bool {
    48 <= b && b <= 57
}

/// Whether a byte belongs to a class.
pub open spec fn in_class(c: ByteClass, b: u8) -> bool {
    match c {
        ByteClass::Space => is_space(b),
        ByteClass::Word => !is_space(b),
        ByteClass::Digit => is_digit(b),
        ByteClass::Line => b != LINE_FEED,
    }
}

/// The ASCII lower-case form of a byte.
pub open spec fn lower(b: u8) -> u8 {
    if 65 <= b && b <= 90 {
        (b + 32) as u8
    } else {
        b
    }
}

/// A byte sequence with every ASCII capital folded to lower case.
pub open spec fn lower_seq(s: Seq<u8>) -> Seq<u8> {
    Seq::new(s.len(), |i: int| lower(s[i]))
}

/// The bytes of a sequence of ASCII characters.
pub open spec fn ascii_bytes(c: Seq<char>) -> Seq<u8> {
    Seq::new(c.len(), |i: int| c[i] as u8)
}

/// The end of the longest run of bytes of class `c` that starts at `from`.
pub open spec fn span_end(s: Seq<u8>, from: int, c: ByteClass) -> int
    decreases s.len() - from,
{
    if 0 <= from < s.len() && in_class(c, s[from]) {
        span_end(s, from + 1, c)
    } else {
        from
    }
}

/// `span_end` is the one position that ends a run: everything before it is
/// in the class, and it is the end of the text or a byte outside the class.
pub proof fn lemma_span_end(s: Seq<u8>, from: int, c: ByteClass)
    requires
        0 <= from <= s.len(),
    ensures
        from <= span_end(s, from, c) <= s.len(),
        forall|k: int| from <= k < span_end(s, from, c) ==> in_class(c, #[trigger] s[k]),
        span_end(s, from, c) < s.len() ==> !in_class(c, s[span_end(s, from, c)]),
    decreases s.len() - from,
{
    if from < s.len() && in_class(c, s[from]) {
        lemma_span_end(s, from + 1, c);
    }
}

/// Any position with the two properties of `lemma_span_end` is `span_end`.
pub proof fn lemma_span_end_unique(s: Seq<u8>, from: int, c: ByteClass, end: int)
    requires
        0 <= from <= end <= s.len(),
        forall|k: int| from <= k < end ==> in_class(c, #[trigger] s[k]),
        end < s.len() ==> !in_class(c, s[end]),
    ensures
        span_end(s, from, c) == end,
    decreases end - from,
{
    if from < end {
        lemma_span_end_unique(s, from + 1, c, end);
    }
}

/// Whether `s` starts with `p`.
pub open spec fn starts_with(s: Seq<u8>, p: Seq<u8>) -> bool {
    p.len() <= s.len() && s.subrange(0, p.len() as int) == p
}

/// The text with its leading white space removed.
pub open spec fn trim_start(s: Seq<u8>) -> Seq<u8> {
    s.subrange(span_end(s, 0, ByteClass::Space), s.len() as int)
}

/// The length of the text once its trailing white space is removed.
pub open spec fn trim_end_len(s: Seq<u8>) -> int
    decreases s.len(),
{
    if s.len() > 0 && is_space(s.last()) {
        trim_end_len(s.drop_last())
    } else {
        s.len() as int
    }
}

/// The text with its trailing white space removed.
pub open spec fn trim_end(s: Seq<u8>) -> Seq<u8> {
    s.subrange(0, trim_end_len(s))
}

/// The text with white space removed at both ends.
pub open spec fn trim(s: Seq<u8>) -> Seq<u8> {
    trim_start(trim_end(s))
}

/// A text that holds nothing but white space.
pub open spec fn is_blank(s: Seq<u8>) -> bool {
    span_end(s, 0, ByteClass::Space) == s.len()
}

/// The position of the last byte equal to `b`, or -1 where there is none.
pub open spec fn last_index_of(s: Seq<u8>, b: u8) -> int
    decreases s.len(),
{
    if s.len() == 0 {
        -1
    } else if s.last() == b {
        s.len() - 1
    } else {
        last_index_of(s.drop_last(), b)
    }
}

/// The white-space separated tokens of `s` that start at or after `from`.
pub open spec fn tokens_from(s: Seq<u8>, from: int) -> Seq<Seq<u8>>
    decreases s.len() - from,
{
    if 0 <= from < s.len() {
        if is_space(s[from]) {
            tokens_from(s, from + 1)
        } else {
            let end = span_end(s, from + 1, ByteClass::Word);
            if from < end <= s.len() {
                seq![s.subrange(from, end)] + tokens_from(s, end)
            } else {
                Seq::empty()
            }
        }
    } else {
        Seq::empty()
    }
}

/// The white-space separated tokens of a text, in order.
pub open spec fn tokens(s: Seq<u8>) -> Seq<Seq<u8>> {
    tokens_from(s, 0)
}

/// Whether a text holds decimal digits only.
pub open spec fn all_digits(s: Seq<u8>) -> bool {
    forall|i: int| 0 <= i < s.len() ==> is_digit(#[trigger] s[i])
}

/// The number that a sequence of decimal digits writes.
pub open spec fn digits_value(s: Seq<u8>) -> nat
    decreases s.len(),
{
    if s.len() == 0 {
        0
    } else {
        digits_value(s.drop_last()) * 10 + (s.last() - 48) as nat
    }
}

/// The unsigned count that a text writes: decimal digits, with an optional
/// `+` in front, whose value fits the machine word.
pub open spec fn count_of(s: Seq<u8>) -> Option<usize> {
    let d = if s.len() > 0 && s[0] == PLUS {
        s.subrange(1, s.len() as int)
    } else {
        s
    };
    if d.len() > 0 && all_digits(d) && digits_value(d) <= usize::MAX {
        Some(digits_value(d) as usize)
    } else {
        None
    }
}

/// Whether a byte is ASCII white space.
pub fn byte_is_space(b: u8) -> (r: bool)
    ensures
        r == is_space(b),
{
    b == 32 || (9 <= b && b <= 13)
}

/// Whether a byte is a decimal digit.
pub fn byte_is_digit(b: u8) -> (r: bool)
    ensures
        r == is_digit(b),
{
    48 <= b && b <= 57
}

/// Whether a byte belongs to a class.
pub fn byte_in_class(c: ByteClass, b: u8) -> (r: bool)
    ensures
        r == in_class(c, b),
{
    match c {
        ByteClass::Space => byte_is_space(b),
        ByteClass::Word => !byte_is_space(b),
        ByteClass::Digit => byte_is_digit(b),
        ByteClass::Line => b != LINE_FEED,
    }
}

/// The ASCII lower-case form of a byte.
pub fn to_lower(b: u8) -> (r: u8)
    ensures
        r == lower(b),
{
    if 65 <= b && b <= 90 {
        b + 32
    } else {
        b
    }
}

/// A lower-case copy of `s`.
pub fn lowercase(s: &[u8]) -> (r: Vec<u8>)
    ensures
        r@ == lower_seq(s@),
{
    let mut r: Vec<u8> = Vec::new();
    let mut i: usize = 0;
    while i < s.len()
        invariant
            i <= s.len(),
            r@ == lower_seq(s@.subrange(0, i as int)),
        decreases s.len() - i,
    {
        r.push(to_lower(s[i]));
        i += 1;
        assert(r@ =~= lower_seq(s@.subrange(0, i as int)));
    }
    assert(s@.subrange(0, s.len() as int) =~= s@);
    r
}

/// The bytes of an ASCII string literal.
pub fn literal(s: &str) -> (b: &[u8])
    requires
        is_ascii(s),
    ensures
        b@ == ascii_bytes(s@),
{
    broadcast use is_ascii_spec_bytes;

    s.as_bytes()
}

/// Scans the run of bytes of class `c` that starts at `from`.
pub fn scan(s: &[u8], from: usize, c: ByteClass) -> (end: usize)
    requires
        from <= s.len(),
    ensures
        end == span_end(s@, from as int, c),
        from <= end <= s.len(),
{
    let mut i: usize = from;
    while i < s.len() && byte_in_class(c, s[i])
        invariant
            from <= i <= s.len(),
            span_end(s@, from as int, c) == span_end(s@, i as int, c),
        decreases s.len() - i,
    {
        i += 1;
    }
    i
}

/// Whether `s` starts with `p`.
pub fn has_prefix(s: &[u8], p: &[u8]) -> (r: bool)
    ensures
        r == starts_with(s@, p@),
{
    if p.len() > s.len() {
        return false;
    }
    let mut i: usize = 0;
    while i < p.len()
        invariant
            i <= p.len() <= s.len(),
            s@.subrange(0, i as int) == p@.subrange(0, i as int),
        decreases p.len() - i,
    {
        if s[i] != p[i] {
            assert(s@.subrange(0, p.len() as int)[i as int] != p@[i as int]);
            return false;
        }
        i += 1;
        assert(s@.subrange(0, i as int) =~= s@.subrange(0, i - 1).push(s@[i - 1]));
        assert(p@.subrange(0, i as int) =~= p@.subrange(0, i - 1).push(p@[i - 1]));
    }
    assert(p@.subrange(0, p.len() as int) =~= p@);
    true
}

/// What follows the prefix `p` in `s`, if `s` starts with `p`.
pub fn strip_prefix<'a>(s: &'a [u8], p: &[u8]) -> (r: Option<&'a [u8]>)
    ensures
        r is Some <==> starts_with(s@, p@),
        r is Some ==> r->0@ == s@.subrange(p@.len() as int, s@.len() as int),
{
    if has_prefix(s, p) {
        Some(&s[p.len()..s.len()])
    } else {
        None
    }
}

/// Whether two texts hold the same bytes.
pub fn same_bytes(a: &[u8], b: &[u8]) -> (r: bool)
    ensures
        r == (a@ == b@),
{
    proof {
        if a@.len() == b@.len() {
            assert(a@.subrange(0, b@.len() as int) =~= a@);
        }
    }
    a.len() == b.len() && has_prefix(a, b)
}

/// Whether a text holds nothing but white space.
pub fn blank(s: &[u8]) -> (r: bool)
    ensures
        r == is_blank(s@),
{
    scan(s, 0, ByteClass::Space) == s.len()
}

/// The text without the white space at its two ends.
pub fn trimmed(s: &[u8]) -> (r: &[u8])
    ensures
        r@ == trim(s@),
{
    let mut e: usize = s.len();
    assert(s@.subrange(0, s.len() as int) =~= s@);
    while e > 0 && byte_is_space(s[e - 1])
        invariant
            e <= s.len(),
            trim_end_len(s@) == trim_end_len(s@.subrange(0, e as int)),
        decreases e,
    {
        assert(s@.subrange(0, e as int).drop_last() =~= s@.subrange(0, e - 1));
        e -= 1;
    }
    let t = &s[0..e];
    let a = scan(t, 0, ByteClass::Space);
    &t[a..e]
}

/// Finds the last byte equal to `b`.
pub fn find_last(s: &[u8], b: u8) -> (r: Option<usize>)
    ensures
        match r {
            Some(i) => i == last_index_of(s@, b) && i < s.len(),
            None => last_index_of(s@, b) == -1,
        },
{
    let mut e: usize = s.len();
    assert(s@.subrange(0, s.len() as int) =~= s@);
    while e > 0
        invariant
            e <= s.len(),
            last_index_of(s@, b) == last_index_of(s@.subrange(0, e as int), b),
        decreases e,
    {
        if s[e - 1] == b {
            return Some(e - 1);
        }
        assert(s@.subrange(0, e as int).drop_last() =~= s@.subrange(0, e - 1));
        e -= 1;
    }
    None
}

/// The deep view of a vector of bytes is its view.
pub proof fn lemma_bytes_deep_view(v: Vec<u8>)
    ensures
        v.deep_view() == v@,
{
    assert(v.deep_view() =~= v@);
}

/// Splits a text into its white-space separated tokens.
pub fn split_tokens(s: &[u8]) -> (r: Vec<Vec<u8>>)
    ensures
        r.deep_view() == tokens(s@),
{
    let mut r: Vec<Vec<u8>> = Vec::new();
    let mut i: usize = 0;
    assert(r.deep_view() =~= Seq::<Seq<u8>>::empty());
    while i < s.len()
        invariant
            i <= s.len(),
            tokens(s@) == r.deep_view() + tokens_from(s@, i as int),
        decreases s.len() - i,
    {
        if byte_is_space(s[i]) {
            i += 1;
        } else {
            let end = scan(s, i + 1, ByteClass::Word);
            let word = slice_to_vec(&s[i..end]);
            let ghost before = r.deep_view();
            proof {
                lemma_bytes_deep_view(word);
                lemma_span_end(s@, i + 1, ByteClass::Word);
            }
            r.push(word);
            assert(r.deep_view() =~= before + seq![s@.subrange(i as int, end as int)]);
            i = end;
        }
    }
    assert(r.deep_view() + Seq::<Seq<u8>>::empty() =~= r.deep_view());
    r
}

/// `digits_value` grows with every digit that is appended.
pub proof fn lemma_digits_value_prefix(s: Seq<u8>, n: int)
    requires
        0 <= n <= s.len(),
        all_digits(s),
    ensures
        digits_value(s.subrange(0, n)) <= digits_value(s),
    decreases s.len() - n,
{
    if n < s.len() {
        lemma_digits_value_prefix(s, n + 1);
        assert(s.subrange(0, n + 1).drop_last() =~= s.subrange(0, n));
        assert(is_digit(s[n]));
    } else {
        assert(s.subrange(0, n) =~= s);
    }
}

/// Reads a run of decimal digits as a number, where it fits.
pub fn parse_digits(s: &[u8]) -> (r: Option<usize>)
    ensures
        r == (if s@.len() > 0 && all_digits(s@) && digits_value(s@) <= usize::MAX {
            Some(digits_value(s@) as usize)
        } else {
            None
        }),
{
    if s.len() == 0 {
        return None;
    }
    let mut acc: usize = 0;
    let mut i: usize = 0;
    while i < s.len()
        invariant
            i <= s.len(),
            all_digits(s@.subrange(0, i as int)),
            acc == digits_value(s@.subrange(0, i as int)),
        decreases s.len() - i,
    {
        let b = s[i];
        if !byte_is_digit(b) {
            return None;
        }
        proof {
            assert(s@.subrange(0, i + 1).drop_last() =~= s@.subrange(0, i as int));
            assert forall|k: int| 0 <= k < i + 1 implies is_digit(
                #[trigger] s@.subrange(0, i + 1)[k],
            ) by {
                if k < i {
                    assert(s@.subrange(0, i as int)[k] == s@[k]);
                }
            }
        }
        let d: usize = (b - 48) as usize;
        let next = match acc.checked_mul(10) {
            Some(t) => t.checked_add(d),
            None => None,
        };
        match next {
            Some(v) => {
                acc = v;
            },
            None => {
                proof {
                    let ghost p = s@.subrange(0, i + 1);
                    assert(digits_value(p) == acc * 10 + d);
                    if all_digits(s@) {
                        lemma_digits_value_prefix(s@, i + 1);
                    }
                }
                return None;
            },
        }
        i += 1;
    }
    assert(s@.subrange(0, s.len() as int) =~= s@);
    Some(acc)
}

/// Reads an unsigned count: decimal digits with an optional `+` in front.
pub fn parse_count(s: &[u8]) -> (r: Option<usize>)
    ensures
        r == count_of(s@),
{
    if s.len() > 0 && s[0] == PLUS {
        parse_digits(&s[1..s.len()])
    } else {
        parse_digits(s)
    }
}

} // verus!
