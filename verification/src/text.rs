//! Character-level helpers: classification, ASCII case folding and the
//! conversion of a string slice into its sequence of characters.
use vstd::prelude::*;

verus! {

/// The code point of `c` after ASCII lower-casing: `'A'..='Z'` move to
/// `'a'..='z'`, every other character keeps its code point.
pub open spec fn spec_ascii_lower(c: char) -> u32 {
    if 'A' <= c && c <= 'Z' {
        (c as u32 + 32) as u32
    } else {
        c as u32
    }
}

/// Whether `c` has the Unicode property Alphabetic. This name stands for
/// what `char::is_alphabetic` returns, which rests on the character tables
/// of the standard library.
pub uninterp spec fn spec_is_alphabetic(c: char) -> bool;

/// The value of `c` read as a hexadecimal digit, if it is one.
pub open spec fn spec_hex_value(c: char) -> Option<u8> {
    if '0' <= c && c <= '9' {
        Some((c as u32 - '0' as u32) as u8)
    } else if 'a' <= c && c <= 'f' {
        Some((c as u32 - 'a' as u32 + 10) as u8)
    } else if 'A' <= c && c <= 'F' {
        Some((c as u32 - 'A' as u32 + 10) as u8)
    } else {
        None
    }
}

/// The lines of a text, joined by line feeds.
pub open spec fn spec_join(lines: Seq<Seq<char>>) -> Seq<char>
    decreases lines.len(),
{
    if lines.len() == 0 {
        Seq::empty()
    } else if lines.len() == 1 {
        lines[0]
    } else {
        spec_join(lines.drop_last()) + seq!['\n'] + lines.last()
    }
}

/// Two character sequences match when they have the same length and agree
/// position by position after ASCII lower-casing.
pub open spec fn spec_eq_ignore_ascii_case(a: Seq<char>, b: Seq<char>) -> bool {
    &&& a.len() == b.len()
    &&& forall|i: int| 0 <= i < a.len() ==> spec_ascii_lower(a[i]) == spec_ascii_lower(b[i])
}

/// The code point of `c` after ASCII lower-casing.
pub fn ascii_lower(c: char) -> (r: u32)
    ensures
        r == spec_ascii_lower(c),
{
    let u: u32 = c as u32;
    if 65 <= u && u <= 90 {
        u + 32
    } else {
        u
    }
}

/// Tells whether `c` is alphabetic. Calls `char::is_alphabetic`, which is
/// documented to return whether the character has the Unicode property
/// Alphabetic; that its answer depends on the character alone is taken on
/// trust.
#[verifier::external_body]
pub(crate) fn is_alphabetic(c: char) -> (r: bool)
    ensures
        r == spec_is_alphabetic(c),
{
    c.is_alphabetic()
}

/// For each character of `s`, whether it is alphabetic.
pub open spec fn spec_letters(s: Seq<char>) -> Seq<bool> {
    Seq::new(s.len(), |i: int| spec_is_alphabetic(s[i]))
}

/// Tells of each character of `s` whether it is alphabetic.
pub fn classify(s: &[char]) -> (letters: Vec<bool>)
    ensures
        letters@ == spec_letters(s@),
{
    let mut letters: Vec<bool> = Vec::new();
    let mut i: usize = 0;
    while i < s.len()
        invariant
            i <= s@.len(),
            letters@.len() == i,
            forall|k: int| 0 <= k < i ==> letters@[k] == spec_is_alphabetic(s@[k]),
        decreases s@.len() - i,
    {
        letters.push(is_alphabetic(s[i]));
        i = i + 1;
    }
    assert(letters@ =~= spec_letters(s@));
    letters
}

/// Reads `c` as a hexadecimal digit of either case.
pub fn hex_value(c: char) -> (r: Option<u8>)
    ensures
        r == spec_hex_value(c),
        r matches Some(d) ==> d < 16,
{
    let u: u32 = c as u32;
    if 48 <= u && u <= 57 {
        Some((u - 48) as u8)
    } else if 97 <= u && u <= 102 {
        Some((u - 97 + 10) as u8)
    } else if 65 <= u && u <= 70 {
        Some((u - 65 + 10) as u8)
    } else {
        None
    }
}

/// Compares two character slices without regard to ASCII case.
pub fn eq_ignore_ascii_case(a: &[char], b: &[char]) -> (r: bool)
    ensures
        r == spec_eq_ignore_ascii_case(a@, b@),
{
    if a.len() != b.len() {
        return false;
    }
    let mut i: usize = 0;
    while i < a.len()
        invariant
            a@.len() == b@.len(),
            i <= a@.len(),
            forall|j: int| 0 <= j < i ==> spec_ascii_lower(a@[j]) == spec_ascii_lower(b@[j]),
        decreases a@.len() - i,
    {
        if ascii_lower(a[i]) != ascii_lower(b[i]) {
            return false;
        }
        i = i + 1;
    }
    true
}

/// Collects the characters of `s`, in order.
pub fn chars_of(s: &str) -> (out: Vec<char>)
    ensures
        out@ == s@,
{
    let mut out: Vec<char> = Vec::new();
    for c in it: s.chars()
        invariant
            out@ == it.seq().take(it.index() as int),
            it.seq() == s@,
    {
        out.push(c);
    }
    out
}

} // verus!
