//! Sanitizing names: what is taken out of a name and what is spelled out.

use crate::text::push_char;
use vstd::prelude::*;
use vstd::std_specs::iter::IteratorSpec;

verus! {

/// `text` without its `.` characters.
pub open spec fn without_dots(text: Seq<char>) -> Seq<char>
    decreases text.len(),
{
    if text.len() == 0 {
        Seq::empty()
    } else if text[0] == '.' {
        without_dots(text.drop_first())
    } else {
        seq![text[0]] + without_dots(text.drop_first())
    }
}

/// `text` with the word `underscore` in place of every `_`.
pub open spec fn spell_underscores(text: Seq<char>) -> Seq<char>
    decreases text.len(),
{
    if text.len() == 0 {
        Seq::empty()
    } else if text[0] == '_' {
        "underscore"@ + spell_underscores(text.drop_first())
    } else {
        seq![text[0]] + spell_underscores(text.drop_first())
    }
}

/// `text` with `-minus` in place of every `--`, found from left to right
/// without overlap.
pub open spec fn spell_double_dashes(text: Seq<char>) -> Seq<char>
    decreases text.len(),
{
    if text.len() == 0 {
        Seq::empty()
    } else if text.len() >= 2 && text[0] == '-' && text[1] == '-' {
        "-minus"@ + spell_double_dashes(text.skip(2))
    } else {
        seq![text[0]] + spell_double_dashes(text.drop_first())
    }
}

/// The three steps in their order: dots out, underscores spelled, double
/// dashes spelled.
pub open spec fn sanitized(text: Seq<char>) -> Seq<char> {
    spell_double_dashes(spell_underscores(without_dots(text)))
}

fn remove_dots(text: &str) -> (out: String)
    ensures
        out@ == without_dots(text@),
{
    broadcast use vstd::string::group_string_axioms;

    let mut out = String::new();
    let mut rest = text.chars();
    loop
        invariant
            out@ + without_dots(rest.remaining()) == without_dots(text@),
            rest.decrease() is Some,
        ensures
            out@ == without_dots(text@),
        decreases rest.decrease()->0,
    {
        match rest.next() {
            Some(c) => {
                if c != '.' {
                    push_char(&mut out, c);
                }
            },
            None => {
                break ;
            },
        }
    }
    out
}

fn replace_underscores(text: &str) -> (out: String)
    ensures
        out@ == spell_underscores(text@),
{
    broadcast use vstd::string::group_string_axioms;

    let mut out = String::new();
    let mut rest = text.chars();
    loop
        invariant
            out@ + spell_underscores(rest.remaining()) == spell_underscores(text@),
            rest.decrease() is Some,
        ensures
            out@ == spell_underscores(text@),
        decreases rest.decrease()->0,
    {
        match rest.next() {
            Some(c) => {
                if c == '_' {
                    out.append("underscore");
                } else {
                    push_char(&mut out, c);
                }
            },
            None => {
                break ;
            },
        }
    }
    out
}

fn replace_double_dashes(text: &str) -> (out: String)
    ensures
        out@ == spell_double_dashes(text@),
{
    broadcast use vstd::string::group_string_axioms;

    let mut out = String::new();
    let mut rest = text.chars();
    // Whether a dash was read that is not written yet.
    let mut held = false;
    loop
        invariant
            out@ + spell_double_dashes(
                if held {
                    seq!['-'] + rest.remaining()
                } else {
                    rest.remaining()
                },
            ) == spell_double_dashes(text@),
            rest.decrease() is Some,
        ensures
            out@ == spell_double_dashes(text@),
        decreases rest.decrease()->0,
    {
        let ghost before = rest.remaining();
        let ghost written = out@;
        match rest.next() {
            Some(c) => {
                if held {
                    if c == '-' {
                        assert((seq!['-'] + before).skip(2) =~= rest.remaining());
                        assert(spell_double_dashes(seq!['-'] + before) == "-minus"@
                            + spell_double_dashes(rest.remaining()));
                        out.append("-minus");
                        assert(out@ + spell_double_dashes(rest.remaining()) =~= written + ("-minus"@
                            + spell_double_dashes(rest.remaining())));
                        held = false;
                    } else {
                        assert((seq!['-'] + before).drop_first() =~= before);
                        assert(spell_double_dashes(seq!['-'] + before) == seq!['-']
                            + spell_double_dashes(before));
                        assert(spell_double_dashes(before) == seq![c] + spell_double_dashes(
                            rest.remaining(),
                        ));
                        push_char(&mut out, '-');
                        push_char(&mut out, c);
                        assert(out@ + spell_double_dashes(rest.remaining()) =~= written + (seq!['-']
                            + (seq![c] + spell_double_dashes(rest.remaining()))));
                        held = false;
                    }
                } else {
                    if c == '-' {
                        assert(seq!['-'] + rest.remaining() =~= before);
                        held = true;
                    } else {
                        push_char(&mut out, c);
                    }
                }
            },
            None => {
                if held {
                    assert((seq!['-'] + before).drop_first() =~= before);
                    push_char(&mut out, '-');
                    held = false;
                }
                break ;
            },
        }
    }
    out
}

/// Makes a name safe to use: removes every `.`, writes `underscore` for every
/// `_`, then `-minus` for every `--`.
pub fn sanitize(text: &str) -> (out: String)
    ensures
        out@ == sanitized(text@),
{
    let dotless = remove_dots(text);
    let spelled = replace_underscores(dotless.as_str());
    replace_double_dashes(spelled.as_str())
}

/// No character of `text` is `c`.
pub open spec fn lacks(text: Seq<char>, c: char) -> bool {
    forall|i: int| 0 <= i < text.len() ==> text[i] != c
}

/// No two neighbouring characters of `text` are both dashes.
pub open spec fn lacks_double_dash(text: Seq<char>) -> bool {
    forall|i: int| 0 <= i < text.len() - 1 ==> !(text[i] == '-' && #[trigger] text[i + 1] == '-')
}

/// What sanitizing leaves nothing to do on: no `.`, no `_` and no `--`.
pub open spec fn is_clean(text: Seq<char>) -> bool {
    lacks(text, '.') && lacks(text, '_') && lacks_double_dash(text)
}

proof fn lemma_without_dots(text: Seq<char>)
    ensures
        lacks(without_dots(text), '.'),
        lacks(text, '.') ==> without_dots(text) == text,
    decreases text.len(),
{
    if text.len() > 0 {
        let rest = text.drop_first();
        lemma_without_dots(rest);
        if lacks(text, '.') {
            assert forall|i: int| 0 <= i < rest.len() implies rest[i] != '.' by {
                assert(rest[i] == text[i + 1]);
            }
            assert(seq![text[0]] + rest =~= text);
        }
    }
}

proof fn lemma_spell_underscores(text: Seq<char>)
    ensures
        lacks(spell_underscores(text), '_'),
        lacks(text, '.') ==> lacks(spell_underscores(text), '.'),
        lacks(text, '_') ==> spell_underscores(text) == text,
    decreases text.len(),
{
    reveal_strlit("underscore");
    if text.len() > 0 {
        let rest = text.drop_first();
        lemma_spell_underscores(rest);
        assert forall|c: char| lacks(text, c) implies lacks(rest, c) by {
            assert forall|i: int| 0 <= i < rest.len() implies rest[i] != c by {
                assert(rest[i] == text[i + 1]);
            }
        }
        if lacks(text, '_') {
            assert(seq![text[0]] + rest =~= text);
        }
    }
}

proof fn lemma_spell_double_dashes(text: Seq<char>)
    ensures
        lacks_double_dash(spell_double_dashes(text)),
        lacks(text, '.') ==> lacks(spell_double_dashes(text), '.'),
        lacks(text, '_') ==> lacks(spell_double_dashes(text), '_'),
        lacks_double_dash(text) ==> spell_double_dashes(text) == text,
        text.len() > 0 ==> spell_double_dashes(text).len() > 0 && (spell_double_dashes(text)[0]
            == '-') == (text[0] == '-'),
    decreases text.len(),
{
    reveal_strlit("-minus");
    if text.len() > 0 {
        let out = spell_double_dashes(text);
        if text.len() >= 2 && text[0] == '-' && text[1] == '-' {
            let rest = text.skip(2);
            let tail = spell_double_dashes(rest);
            lemma_spell_double_dashes(rest);
            assert forall|c: char| lacks(text, c) implies lacks(rest, c) by {
                assert forall|i: int| 0 <= i < rest.len() implies rest[i] != c by {
                    assert(rest[i] == text[i + 2]);
                }
            }
            assert forall|i: int| 0 <= i < out.len() - 1 implies !(out[i] == '-' && #[trigger] out[i
                + 1] == '-') by {
                if i >= 6 {
                    assert(out[i] == tail[i - 6]);
                    assert(out[i + 1] == tail[i - 6 + 1]);
                }
            }
            if lacks_double_dash(text) {
                assert(text[0int + 1] == '-');
            }
        } else {
            let rest = text.drop_first();
            let tail = spell_double_dashes(rest);
            lemma_spell_double_dashes(rest);
            assert forall|c: char| lacks(text, c) implies lacks(rest, c) by {
                assert forall|i: int| 0 <= i < rest.len() implies rest[i] != c by {
                    assert(rest[i] == text[i + 1]);
                }
            }
            assert forall|i: int| 0 <= i < out.len() - 1 implies !(out[i] == '-' && #[trigger] out[i
                + 1] == '-') by {
                if i >= 1 {
                    assert(out[i] == tail[i - 1]);
                    assert(out[i + 1] == tail[i - 1 + 1]);
                } else {
                    assert(out[1] == tail[0]);
                    assert(rest[0] == text[1]);
                }
            }
            if lacks_double_dash(text) {
                assert forall|i: int| 0 <= i < rest.len() - 1 implies !(rest[i] == '-'
                    && #[trigger] rest[i + 1] == '-') by {
                    assert(rest[i] == text[i + 1]);
                    assert(rest[i + 1] == text[i + 1 + 1]);
                }
                assert(seq![text[0]] + rest =~= text);
            }
        }
    }
}

/// After sanitizing, no `.`, no `_` and no `--` remains.
pub proof fn lemma_sanitized_is_clean(text: Seq<char>)
    ensures
        is_clean(sanitized(text)),
{
    lemma_without_dots(text);
    lemma_spell_underscores(without_dots(text));
    lemma_spell_double_dashes(spell_underscores(without_dots(text)));
}

/// Sanitizing leaves a text without `.`, `_` and `--` as it is.
pub proof fn lemma_sanitized_of_clean(text: Seq<char>)
    requires
        is_clean(text),
    ensures
        sanitized(text) == text,
{
    lemma_without_dots(text);
    lemma_spell_underscores(text);
    lemma_spell_double_dashes(text);
}

/// Sanitizing twice gives what sanitizing once gives.
pub proof fn lemma_sanitized_idempotent(text: Seq<char>)
    ensures
        sanitized(sanitized(text)) == sanitized(text),
{
    lemma_sanitized_is_clean(text);
    lemma_sanitized_of_clean(sanitized(text));
}

} // verus!
