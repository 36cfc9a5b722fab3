//! Characters and character sequences: the classes the listing grammar is
//! built from, and the conversions between strings and character vectors.

use vstd::prelude::*;

verus! {

/// An ASCII letter or an ASCII decimal digit.
pub open spec fn is_ascii_alphanumeric(ch: char) -> bool {
    ('a' <= ch && ch <= 'z') || ('A' <= ch && ch <= 'Z') || ('0' <= ch && ch <= '9')
}

/// A character that may occur in an identifier token: an ASCII letter or
/// digit, an underscore, a hyphen or a full stop.
pub open spec fn is_identifier_char(ch: char) -> bool {
    is_ascii_alphanumeric(ch) || ch == '_' || ch == '-' || ch == '.'
}

/// A character that separates the fields of a line: a space or a tab.
pub open spec fn is_blank(ch: char) -> bool {
    ch == ' ' || ch == '\t'
}

/// A character with the Unicode property `White_Space`; such characters are
/// trimmed from both ends of a line.
pub open spec fn is_whitespace(ch: char) -> bool {
    let u = ch as u32;
    ||| 0x09 <= u <= 0x0D
    ||| u == 0x20
    ||| u == 0x85
    ||| u == 0xA0
    ||| u == 0x1680
    ||| 0x2000 <= u <= 0x200A
    ||| u == 0x2028
    ||| u == 0x2029
    ||| u == 0x202F
    ||| u == 0x205F
    ||| u == 0x3000
}

/// Trusted: `winnow::stream::AsChar::is_alphanum` on a `char`. winnow tests
/// `is_ascii_alphabetic() || is_ascii_digit()`, so the result is true for the
/// ASCII letters and digits and for nothing else.
#[verifier::external_body]
fn is_alphanum(ch: char) -> (b: bool)
    ensures
        b == is_ascii_alphanumeric(ch),
{
    winnow::stream::AsChar::is_alphanum(ch)
}

/// Tells whether `ch` may occur in an identifier token.
pub fn is_identifier(ch: char) -> (b: bool)
    ensures
        b == is_identifier_char(ch),
{
    is_alphanum(ch) || ch == '_' || ch == '-' || ch == '.'
}

/// Tells whether `ch` is a space or a tab.
pub fn is_blank_char(ch: char) -> (b: bool)
    ensures
        b == is_blank(ch),
{
    ch == ' ' || ch == '\t'
}

/// Tells whether `ch` has the Unicode property `White_Space`.
pub fn is_whitespace_char(ch: char) -> (b: bool)
    ensures
        b == is_whitespace(ch),
{
    let u: u32 = ch as u32;
    (0x09 <= u && u <= 0x0D) || u == 0x20 || u == 0x85 || u == 0xA0 || u == 0x1680 || (0x2000 <= u
        && u <= 0x200A) || u == 0x2028 || u == 0x2029 || u == 0x202F || u == 0x205F || u == 0x3000
}

/// The characters of `s`, in order.
pub fn chars_of(s: &str) -> (v: Vec<char>)
    ensures
        v@ == s@,
{
    let mut v: Vec<char> = Vec::new();
    for c in it: s.chars()
        invariant
            v@ == it.seq().take(it.index() as int),
    {
        v.push(c);
    }
    v
}

/// Trusted: `String::push` of the standard library. The string after the
/// call is the string before it with `ch` behind its last character.
pub assume_specification[ String::push ](s: &mut String, ch: char)
    ensures
        final(s)@ == old(s)@.push(ch),
;

/// The string made of the characters `s[from..to]`.
pub fn string_of(s: &[char], from: usize, to: usize) -> (r: String)
    requires
        from <= to <= s.len(),
    ensures
        r@ == s@.subrange(from as int, to as int),
{
    let mut r = String::new();
    let mut i: usize = from;
    while i < to
        invariant
            from <= i <= to <= s.len(),
            r@ == s@.subrange(from as int, i as int),
        decreases to - i,
    {
        r.push(s[i]);
        i += 1;
        assert(r@ =~= s@.subrange(from as int, i as int));
    }
    r
}

} // verus!
