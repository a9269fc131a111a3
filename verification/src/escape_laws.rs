//! What holds of the formatting language.
use vstd::prelude::*;
use crate::color::spec_from_name;
use crate::escape::{
    lemma_name_len_is, spec_index_directive, spec_literal, spec_name_directive, spec_parse,
    spec_parse_classified, spec_step, Directive, TokenForm, MARKER,
};
use crate::text::{spec_is_alphabetic, spec_letters};

verus! {

/// Each character as a literal.
pub open spec fn spec_literals(s: Seq<char>) -> Seq<Directive> {
    Seq::new(s.len(), |i: int| spec_literal(s[i]))
}

/// The letters of the rest of a text are the rest of its letters.
pub proof fn lemma_letters_skip(s: Seq<char>, k: int)
    requires
        0 <= k <= s.len(),
    ensures
        spec_letters(s).skip(k) == spec_letters(s.skip(k)),
{
    assert(spec_letters(s).skip(k) =~= spec_letters(s.skip(k)));
}

/// Parsing is one step followed by parsing what the step leaves.
pub proof fn lemma_parse_step(s: Seq<char>, form: TokenForm)
    requires
        s.len() > 0,
    ensures
        1 <= spec_step(s, spec_letters(s), form).1 <= s.len(),
        spec_parse(s, form) == spec_step(s, spec_letters(s), form).0 + spec_parse(
            s.skip(spec_step(s, spec_letters(s), form).1),
            form,
        ),
{
    crate::escape::lemma_step_consumes(s, spec_letters(s), form);
    lemma_letters_skip(s, spec_step(s, spec_letters(s), form).1);
}

/// Text without the marker is all literals, whatever the token form.
pub proof fn lemma_plain_text_is_literal(s: Seq<char>, form: TokenForm)
    requires
        forall|i: int| 0 <= i < s.len() ==> s[i] != MARKER,
    ensures
        spec_parse(s, form) == spec_literals(s),
    decreases s.len(),
{
    if s.len() == 0 {
        assert(spec_parse(s, form) =~= spec_literals(s));
    } else {
        let rest = s.skip(1);
        assert forall|i: int| 0 <= i < rest.len() implies rest[i] != MARKER by {
            assert(rest[i] == s[i + 1]);
        }
        lemma_plain_text_is_literal(rest, form);
        lemma_parse_step(s, form);
        assert(seq![spec_literal(s[0])] + spec_literals(rest) =~= spec_literals(s));
    }
}

/// A literal in front of a text is parsed by itself.
pub proof fn lemma_literal_first(c: char, rest: Seq<char>, form: TokenForm)
    requires
        c != MARKER,
    ensures
        spec_parse(seq![c] + rest, form) == seq![spec_literal(c)] + spec_parse(rest, form),
{
    let s = seq![c] + rest;
    lemma_parse_step(s, form);
    assert(s.skip(1) =~= rest);
}

/// The marker at the very end of a text is a literal marker.
pub proof fn lemma_trailing_marker(form: TokenForm)
    ensures
        spec_parse(seq![MARKER], form) == seq![spec_literal(MARKER)],
{
    let s = seq![MARKER];
    lemma_parse_step(s, form);
    assert(s.skip(1) =~= Seq::<char>::empty());
    assert(spec_parse(s.skip(1), form) =~= Seq::<Directive>::empty());
    assert(seq![spec_literal(MARKER)] + Seq::<Directive>::empty() =~= seq![spec_literal(MARKER)]);
}

/// `\n` in front of a text is a line break, and parsing goes on behind it.
pub proof fn lemma_newline_escape_first(rest: Seq<char>, form: TokenForm)
    ensures
        spec_parse(seq![MARKER, 'n'] + rest, form) == seq![Directive::Newline] + spec_parse(
            rest,
            form,
        ),
{
    let s = seq![MARKER, 'n'] + rest;
    lemma_parse_step(s, form);
    assert(s.skip(2) =~= rest);
}

/// `\t` in front of a text is a tab, and parsing goes on behind it.
pub proof fn lemma_tab_escape_first(rest: Seq<char>, form: TokenForm)
    ensures
        spec_parse(seq![MARKER, 't'] + rest, form) == seq![Directive::Tab] + spec_parse(rest, form),
{
    let s = seq![MARKER, 't'] + rest;
    lemma_parse_step(s, form);
    assert(s.skip(2) =~= rest);
}

/// The marker before a character that names no directive is dropped, and
/// the character is a literal, the marker itself included.
pub proof fn lemma_escaped_character_first(c: char, rest: Seq<char>, form: TokenForm)
    requires
        c != 'n',
        c != 't',
        c != 'c',
    ensures
        spec_parse(seq![MARKER, c] + rest, form) == seq![spec_literal(c)] + spec_parse(rest, form),
{
    let s = seq![MARKER, c] + rest;
    lemma_parse_step(s, form);
    assert(s.skip(2) =~= rest);
}

/// `\c` and one character: a hexadecimal digit selects its palette index,
/// any other character is dropped with the escape; either way parsing goes
/// on right behind that character.
pub proof fn lemma_index_escape_first(digit: char, rest: Seq<char>)
    ensures
        spec_parse(seq![MARKER, 'c', digit] + rest, TokenForm::HexDigit) == spec_index_directive(
            digit,
        ) + spec_parse(rest, TokenForm::HexDigit),
{
    let s = seq![MARKER, 'c', digit] + rest;
    lemma_parse_step(s, TokenForm::HexDigit);
    assert(s.skip(3) =~= rest);
}

/// `\c` and a run of letters that ends at the end of the text or before a
/// character that is no letter, where `letters` and `rest_letters` tell
/// which characters of the name and of the rest are letters: a name of the
/// palette selects its color, any other name is dropped with the escape and
/// leaves the color alone; either way parsing goes on right behind the name.
pub proof fn lemma_name_escape_first_classified(
    name: Seq<char>,
    rest: Seq<char>,
    head_letters: Seq<bool>,
    rest_letters: Seq<bool>,
)
    requires
        head_letters.len() == 2,
        rest_letters.len() == rest.len(),
        rest.len() > 0 ==> !rest_letters[0],
    ensures
        spec_parse_classified(
            seq![MARKER, 'c'] + name + rest,
            head_letters + Seq::new(name.len(), |i: int| true) + rest_letters,
            TokenForm::Name,
        ) == spec_name_directive(name) + spec_parse_classified(
            rest,
            rest_letters,
            TokenForm::Name,
        ),
        spec_from_name(name) is None ==> spec_parse_classified(
            seq![MARKER, 'c'] + name + rest,
            head_letters + Seq::new(name.len(), |i: int| true) + rest_letters,
            TokenForm::Name,
        ) == spec_parse_classified(rest, rest_letters, TokenForm::Name),
{
    let s = seq![MARKER, 'c'] + name + rest;
    let letters = head_letters + Seq::new(name.len(), |i: int| true) + rest_letters;
    let tail = letters.skip(2);
    assert(tail =~= Seq::new(name.len(), |i: int| true) + rest_letters);
    if name.len() < tail.len() {
        assert(tail[name.len() as int] == rest_letters[0]);
    }
    lemma_name_len_is(tail, name.len());
    crate::escape::lemma_step_consumes(s, letters, TokenForm::Name);
    assert(s.subrange(2, 2 + name.len() as int) =~= name);
    assert(s.skip(2 + name.len() as int) =~= rest);
    assert(letters.skip(2 + name.len() as int) =~= rest_letters);
    assert(Seq::<Directive>::empty() + spec_parse_classified(rest, rest_letters, TokenForm::Name)
        =~= spec_parse_classified(rest, rest_letters, TokenForm::Name));
}

/// The same of a text as it stands: where every character of `name` is
/// alphabetic and the first of `rest`, if any, is not, `\c` and the name
/// select the named color, or nothing if the palette lacks the name, and
/// parsing goes on right behind the name.
pub proof fn lemma_name_escape_first(name: Seq<char>, rest: Seq<char>)
    ensures
        (forall|i: int| 0 <= i < name.len() ==> spec_is_alphabetic(#[trigger] name[i])) && (
        rest.len() > 0 ==> !spec_is_alphabetic(rest[0])) ==> {
            &&& spec_parse(seq![MARKER, 'c'] + name + rest, TokenForm::Name) == spec_name_directive(
                name,
            ) + spec_parse(rest, TokenForm::Name)
            &&& spec_from_name(name) is None ==> spec_parse(
                seq![MARKER, 'c'] + name + rest,
                TokenForm::Name,
            ) == spec_parse(rest, TokenForm::Name)
        },
{
    if (forall|i: int| 0 <= i < name.len() ==> spec_is_alphabetic(#[trigger] name[i])) && (
    rest.len() > 0 ==> !spec_is_alphabetic(rest[0])) {
        let s = seq![MARKER, 'c'] + name + rest;
        let head_letters = spec_letters(seq![MARKER, 'c']);
        let rest_letters = spec_letters(rest);
        assert(spec_letters(s) =~= head_letters + Seq::new(name.len(), |i: int| true)
            + rest_letters);
        lemma_name_escape_first_classified(name, rest, head_letters, rest_letters);
    }
}

} // verus!
