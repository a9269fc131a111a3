//! The inline formatting language.
//!
//! Text may carry two-character escapes: the marker `\` followed by a
//! directive letter. `\n` breaks the line, `\t` moves to the next tab stop and
//! `\c` selects a color, named by the token that follows it: one
//! hexadecimal digit, or a run of alphabetic characters. Any other
//! character after the marker stands for itself, which is how the marker is
//! written literally. Parsing keeps no state between calls and reports the
//! text as a sequence of [`Directive`]s in source order.
use vstd::prelude::*;
use vstd::slice::slice_subrange;
use crate::color::{spec_from_name, TextColor};
use crate::text::{classify, hex_value, spec_hex_value, spec_letters};

verus! {

/// The character that introduces an escape.
pub const MARKER: char = '\\';

/// How a color is written after `\c`.
#[derive(Copy, Clone, Debug, PartialEq, Eq, Structural)]
pub enum TokenForm {
    /// One hexadecimal digit, a palette index (cell surfaces).
    HexDigit,
    /// A run of alphabetic characters, a color name (pixel surfaces).
    Name,
}

/// A color as a directive carries it.
#[derive(Copy, Clone, Debug, PartialEq, Eq, Structural)]
pub enum ColorToken {
    /// A palette index below 16.
    Index(u8),
    /// A named color.
    Name(TextColor),
}

/// One primitive operation on a console.
#[derive(Copy, Clone, Debug, PartialEq, Eq, Structural)]
pub enum Directive {
    /// Write this character.
    Literal(char),
    /// Break the line.
    Newline,
    /// Move to the next tab stop.
    Tab,
    /// Select a color.
    SetColor(ColorToken),
}

/// The directive that writes `c`.
pub open spec fn spec_literal(c: char) -> Directive {
    Directive::Literal(c)
}

/// The number of letters at the start of a text, of which `letters` tells
/// for each character whether it is one.
pub open spec fn spec_name_len(letters: Seq<bool>) -> nat
    decreases letters.len(),
{
    if letters.len() > 0 && letters[0] {
        1 + spec_name_len(letters.skip(1))
    } else {
        0
    }
}

/// What a `\c` escape with a one-digit token contributes: a palette index
/// for a hexadecimal digit, nothing for any other character.
pub open spec fn spec_index_directive(c: char) -> Seq<Directive> {
    match spec_hex_value(c) {
        Some(d) => seq![Directive::SetColor(ColorToken::Index(d))],
        None => Seq::empty(),
    }
}

/// What a `\c` escape with a name token contributes: the named color if the
/// palette has it, nothing otherwise.
pub open spec fn spec_name_directive(name: Seq<char>) -> Seq<Directive> {
    match spec_from_name(name) {
        Some(color) => seq![Directive::SetColor(ColorToken::Name(color))],
        None => Seq::empty(),
    }
}

/// The first escape or literal of a non-empty text: the directives it
/// contributes and the number of characters it takes up. `letters` tells
/// for each character of `s` whether it is alphabetic.
///
/// - A character other than the marker is a literal.
/// - A marker at the very end is a literal marker.
/// - `\n` and `\t` are a line break and a tab.
/// - `\c` consumes its token: under [`TokenForm::HexDigit`] the next
///   character, whatever it is (none at the end of input); under
///   [`TokenForm::Name`] the longest run of letters that follows. A token
///   outside the palette contributes nothing.
/// - The marker before any other character is dropped and that character is
///   a literal.
pub open spec fn spec_step(s: Seq<char>, letters: Seq<bool>, form: TokenForm) -> (
    Seq<Directive>,
    int,
) {
    if s[0] != MARKER {
        (seq![spec_literal(s[0])], 1)
    } else if s.len() == 1 {
        (seq![spec_literal(MARKER)], 1)
    } else if s[1] == 'n' {
        (seq![Directive::Newline], 2)
    } else if s[1] == 't' {
        (seq![Directive::Tab], 2)
    } else if s[1] == 'c' {
        match form {
            TokenForm::HexDigit => {
                if s.len() == 2 {
                    (Seq::empty(), 2)
                } else {
                    (spec_index_directive(s[2]), 3)
                }
            },
            TokenForm::Name => {
                let n = spec_name_len(letters.skip(2)) as int;
                (spec_name_directive(s.subrange(2, 2 + n)), 2 + n)
            },
        }
    } else {
        (seq![spec_literal(s[1])], 2)
    }
}

/// The directives that `s` denotes, where `letters` tells for each
/// character of `s` whether it is alphabetic: those of the first step, then
/// those of the text that the step leaves, so that parsing resumes right
/// after each escape and the order of the source is kept.
pub open spec fn spec_parse_classified(
    s: Seq<char>,
    letters: Seq<bool>,
    form: TokenForm,
) -> Seq<Directive>
    decreases s.len(),
    when letters.len() == s.len()
    via spec_parse_terminates
{
    if s.len() == 0 {
        Seq::empty()
    } else {
        let (emitted, consumed) = spec_step(s, letters, form);
        emitted + spec_parse_classified(s.skip(consumed), letters.skip(consumed), form)
    }
}

#[via_fn]
proof fn spec_parse_terminates(s: Seq<char>, letters: Seq<bool>, form: TokenForm) {
    if s.len() > 0 {
        lemma_step_consumes(s, letters, form);
    }
}

/// The directives that `s` denotes.
pub open spec fn spec_parse(s: Seq<char>, form: TokenForm) -> Seq<Directive> {
    spec_parse_classified(s, spec_letters(s), form)
}

/// Every step takes up at least one character and never more than there are.
pub proof fn lemma_step_consumes(s: Seq<char>, letters: Seq<bool>, form: TokenForm)
    requires
        s.len() > 0,
        letters.len() == s.len(),
    ensures
        1 <= spec_step(s, letters, form).1 <= s.len(),
{
    if s.len() >= 2 {
        lemma_name_len_bound(letters.skip(2));
    }
}

/// A run of letters never extends past the end of the text.
pub proof fn lemma_name_len_bound(letters: Seq<bool>)
    ensures
        spec_name_len(letters) <= letters.len(),
    decreases letters.len(),
{
    if letters.len() > 0 && letters[0] {
        lemma_name_len_bound(letters.skip(1));
    }
}

/// The run of letters at the start of a text has length `n` exactly when
/// the first `n` characters are letters and the next one, if any, is not.
pub proof fn lemma_name_len_is(letters: Seq<bool>, n: nat)
    requires
        n <= letters.len(),
        forall|k: int| 0 <= k < n ==> #[trigger] letters[k],
        n < letters.len() ==> !letters[n as int],
    ensures
        spec_name_len(letters) == n,
    decreases n,
{
    if n > 0 {
        let rest = letters.skip(1);
        assert forall|k: int| 0 <= k < n - 1 implies #[trigger] rest[k] by {
            assert(rest[k] == letters[k + 1]);
        }
        lemma_name_len_is(rest, (n - 1) as nat);
    }
}

/// Scans the run of letters that starts at `from` and returns the index
/// just past it.
fn name_end(letters: &[bool], from: usize) -> (end: usize)
    requires
        from <= letters@.len(),
    ensures
        from <= end <= letters@.len(),
        end - from == spec_name_len(letters@.skip(from as int)),
{
    let mut end: usize = from;
    while end < letters.len() && letters[end]
        invariant
            from <= end <= letters@.len(),
            forall|k: int| from <= k < end ==> #[trigger] letters@[k],
        decreases letters@.len() - end,
    {
        end = end + 1;
    }
    proof {
        let tail = letters@.skip(from as int);
        assert forall|k: int| 0 <= k < end - from implies #[trigger] tail[k] by {
            assert(tail[k] == letters@[from + k]);
        }
        lemma_name_len_is(tail, (end - from) as nat);
    }
    end
}

/// What one step contributes, as a sequence.
pub open spec fn spec_emitted(d: Option<Directive>) -> Seq<Directive> {
    match d {
        Some(x) => seq![x],
        None => Seq::empty(),
    }
}

/// Reads the escape or literal that starts at `i`: the directive it
/// contributes, if any, and the number of characters it takes up.
fn step(s: &[char], letters: &[bool], i: usize, form: TokenForm) -> (r: (
    Option<Directive>,
    usize,
))
    requires
        i < s@.len(),
        letters@.len() == s@.len(),
    ensures
        spec_emitted(r.0) == spec_step(s@.skip(i as int), letters@.skip(i as int), form).0,
        r.1 == spec_step(s@.skip(i as int), letters@.skip(i as int), form).1,
        1 <= r.1 <= s@.len() - i,
{
    let ghost rest = s@.skip(i as int);
    let ghost flags = letters@.skip(i as int);
    let n: usize = s.len();
    assert(rest.len() == n - i && rest[0] == s@[i as int]);
    proof {
        lemma_step_consumes(rest, flags, form);
    }
    let c: char = s[i];
    if c != MARKER {
        (Some(Directive::Literal(c)), 1)
    } else if n - i == 1 {
        (Some(Directive::Literal(MARKER)), 1)
    } else {
        assert(rest[1] == s@[i + 1]);
        let d: char = s[i + 1];
        if d == 'n' {
            (Some(Directive::Newline), 2)
        } else if d == 't' {
            (Some(Directive::Tab), 2)
        } else if d == 'c' {
            match form {
                TokenForm::HexDigit => {
                    if n - i == 2 {
                        (None, 2)
                    } else {
                        assert(rest[2] == s@[i + 2]);
                        match hex_value(s[i + 2]) {
                            Some(index) => (Some(Directive::SetColor(ColorToken::Index(index))), 3),
                            None => (None, 3),
                        }
                    }
                },
                TokenForm::Name => {
                    let end = name_end(letters, i + 2);
                    let name = slice_subrange(s, i + 2, end);
                    assert(flags.skip(2) =~= letters@.skip(i + 2));
                    assert(rest.subrange(2, 2 + (end - (i + 2))) =~= name@);
                    match TextColor::from_chars(name) {
                        Some(color) => (Some(Directive::SetColor(ColorToken::Name(color))), end - i),
                        None => (None, end - i),
                    }
                },
            }
        } else {
            (Some(Directive::Literal(d)), 2)
        }
    }
}

/// Parsing the text from `i` on is one step followed by parsing what the
/// step leaves.
proof fn lemma_parse_unfold(s: Seq<char>, letters: Seq<bool>, i: int, form: TokenForm)
    requires
        0 <= i < s.len(),
        letters.len() == s.len(),
    ensures
        spec_parse_classified(s.skip(i), letters.skip(i), form) == spec_step(
            s.skip(i),
            letters.skip(i),
            form,
        ).0 + spec_parse_classified(
            s.skip(i + spec_step(s.skip(i), letters.skip(i), form).1),
            letters.skip(i + spec_step(s.skip(i), letters.skip(i), form).1),
            form,
        ),
{
    let rest = s.skip(i);
    let flags = letters.skip(i);
    let used = spec_step(rest, flags, form).1;
    lemma_step_consumes(rest, flags, form);
    assert(rest.skip(used) =~= s.skip(i + used));
    assert(flags.skip(used) =~= letters.skip(i + used));
}

/// Parses `s` into directives, in one pass, given for each character
/// whether it is alphabetic.
pub fn parse_classified(s: &[char], letters: &[bool], form: TokenForm) -> (out: Vec<Directive>)
    requires
        letters@.len() == s@.len(),
    ensures
        out@ == spec_parse_classified(s@, letters@, form),
{
    let mut out: Vec<Directive> = Vec::new();
    let n: usize = s.len();
    let mut i: usize = 0;
    assert(s@.skip(0) =~= s@);
    assert(letters@.skip(0) =~= letters@);
    assert(out@ + spec_parse_classified(s@, letters@, form) =~= spec_parse_classified(
        s@,
        letters@,
        form,
    ));
    while i < n
        invariant
            n == s@.len(),
            letters@.len() == s@.len(),
            i <= n,
            out@ + spec_parse_classified(s@.skip(i as int), letters@.skip(i as int), form)
                == spec_parse_classified(s@, letters@, form),
        decreases n - i,
    {
        let ghost before = out@;
        let ghost tail = spec_parse_classified(s@.skip(i as int), letters@.skip(i as int), form);
        let (emitted, consumed) = step(s, letters, i, form);
        proof {
            lemma_parse_unfold(s@, letters@, i as int, form);
        }
        let ghost next = spec_parse_classified(
            s@.skip(i + consumed),
            letters@.skip(i + consumed),
            form,
        );
        assert(tail == spec_emitted(emitted) + next);
        match emitted {
            Some(d) => {
                out.push(d);
            },
            None => {},
        }
        assert(out@ =~= before + spec_emitted(emitted));
        assert(out@ + next =~= before + (spec_emitted(emitted) + next));
        i = i + consumed;
    }
    assert(s@.skip(n as int) =~= Seq::<char>::empty());
    assert(out@ + Seq::<Directive>::empty() =~= out@);
    out
}

/// Parses `s` into directives, in one pass.
pub fn parse(s: &[char], form: TokenForm) -> (out: Vec<Directive>)
    ensures
        out@ == spec_parse(s@, form),
{
    let letters = classify(s);
    parse_classified(s, letters.as_slice(), form)
}

} // verus!
