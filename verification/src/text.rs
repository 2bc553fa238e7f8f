//! String building and character classes used by the parsers.

use vstd::prelude::*;

verus! {

/// Trusted: `chars.iter().collect::<String>()`; the string holds exactly
/// the given characters.
#[verifier::external_body]
pub(crate) fn string_from_chars(chars: &Vec<char>) -> (s: String)
    ensures
        s@ == chars@,
{
    chars.iter().collect::<String>()
}

/// Whether `c` has the Unicode `Alphabetic` property.
pub uninterp spec fn spec_is_alphabetic(c: char) -> bool;

/// Whether `c` has the Unicode `White_Space` property (PropList.txt):
/// the controls U+0009 to U+000D, space, U+0085, no-break space, the
/// Ogham space mark, the spaces U+2000 to U+200A, the line and paragraph
/// separators, the narrow no-break space, the medium mathematical space and
/// the ideographic space.
pub open spec fn spec_is_whitespace(c: char) -> bool {
    let v = c as u32;
    ||| 0x9 <= v <= 0xd
    ||| v == 0x20
    ||| v == 0x85
    ||| v == 0xa0
    ||| v == 0x1680
    ||| 0x2000 <= v <= 0x200a
    ||| v == 0x2028
    ||| v == 0x2029
    ||| v == 0x202f
    ||| v == 0x205f
    ||| v == 0x3000
}

/// Trusted: `char::is_alphabetic`, a function of the character alone
/// (the Unicode `Alphabetic` property). Among ASCII characters that
/// property holds of the letters and of nothing else.
#[verifier::external_body]
pub(crate) fn char_is_alphabetic(c: char) -> (b: bool)
    ensures
        b == spec_is_alphabetic(c),
        (c as u32) < 128 ==> (b <==> ('a' <= c <= 'z' || 'A' <= c <= 'Z')),
{
    c.is_alphabetic()
}

/// Whether `c` has the Unicode `White_Space` property, as
/// `char::is_whitespace` answers.
pub(crate) fn char_is_whitespace(c: char) -> (b: bool)
    ensures
        b == spec_is_whitespace(c),
{
    let v = c as u32;
    (0x9 <= v && v <= 0xd) || v == 0x20 || v == 0x85 || v == 0xa0 || v == 0x1680 || (0x2000 <= v
        && v <= 0x200a) || v == 0x2028 || v == 0x2029 || v == 0x202f || v == 0x205f || v == 0x3000
}

/// The characters of a string, in order.
pub fn chars_of(s: &str) -> (v: Vec<char>)
    ensures
        v@ == s@,
{
    broadcast use vstd::string::group_string_axioms;
    let mut v: Vec<char> = Vec::new();
    for c in it: s.chars()
        invariant
            it.seq() == s@,
            v@ == s@.subrange(0, it.index() as int),
    {
        v.push(c);
        proof {
            assert(v@ =~= s@.subrange(0, it.index() + 1));
        }
    }
    proof {
        assert(v@ =~= s@);
    }
    v
}

/// Appends the characters of `s` to `out`.
pub fn push_chars(out: &mut Vec<char>, s: &str)
    ensures
        final(out)@ == old(out)@ + s@,
{
    let chars = chars_of(s);
    let ghost start = out@;
    let n = chars.len();
    let mut i: usize = 0;
    while i < n
        invariant
            n == chars@.len(),
            chars@ == s@,
            i <= n,
            out@ == start + s@.take(i as int),
        decreases n - i,
    {
        out.push(chars[i]);
        i = i + 1;
        assert(out@ =~= start + s@.take(i as int));
    }
    assert(s@.take(n as int) =~= s@);
}

} // verus!
