//! Building blocks for text: code points and their quoted form, decimal
//! numerals, and joining with a separator.

use vstd::prelude::*;

verus! {

/// Whether `code` is a Unicode scalar value, that is, the code of a `char`.
pub open spec fn is_scalar_value(code: u32) -> bool {
    code <= 0xD7FF || (0xE000 <= code && code <= 0x10FFFF)
}

/// Whether every one of `values` is the code of a character.
pub open spec fn all_scalar(values: Seq<u32>) -> bool {
    forall|i: int| 0 <= i < values.len() ==> is_scalar_value(#[trigger] values[i])
}

/// The text that `Debug` formatting gives for a string: the string between
/// double quotes, with the escapes that the standard library chooses.
pub uninterp spec fn debug_form(text: Seq<char>) -> Seq<char>;

/// Appends one character, by `String::push`: the string afterwards is the
/// string before followed by `c`.
#[verifier::external_body]
pub(crate) fn push_char(text: &mut String, c: char)
    ensures
        final(text)@ == old(text)@.push(c),
{
    text.push(c)
}

/// Converts a code point to a `char`, by `char::from_u32`: `Some` exactly for
/// a Unicode scalar value, and then the `char` with that code.
#[verifier::external_body]
pub(crate) fn char_from_code(code: u32) -> (c: Option<char>)
    ensures
        c == (if is_scalar_value(code) {
            Some(code as char)
        } else {
            None
        }),
{
    char::from_u32(code)
}

/// Formats a string with `{:?}`. The result depends on the string alone and
/// is named [`debug_form`].
#[verifier::external_body]
pub(crate) fn debug_string(text: &str) -> (quoted: String)
    ensures
        quoted@ == debug_form(text@),
{
    format!("{:?}", text)
}

/// The quoted form of one code point: the `Debug` form of the string made
/// of the character with that code.
pub open spec fn quoted_code(code: u32) -> Seq<char> {
    debug_form(seq![code as char])
}

/// Quotes one code point, if it is the code of a character.
pub(crate) fn quote_code(code: u32) -> (quoted: Option<String>)
    ensures
        match quoted {
            Some(text) => is_scalar_value(code) && text@ == quoted_code(code),
            None => !is_scalar_value(code),
        },
{
    match char_from_code(code) {
        Some(c) => {
            let mut one = String::new();
            push_char(&mut one, c);
            assert(one@ =~= seq![code as char]);
            Some(debug_string(one.as_str()))
        },
        None => None,
    }
}

/// The decimal digit for `d`, which is below ten.
pub open spec fn digit(d: nat) -> char {
    "0123456789"@[d as int]
}

/// The decimal numeral of `n`, without leading zeros.
pub open spec fn decimal(n: nat) -> Seq<char>
    decreases n,
{
    if n < 10 {
        seq![digit(n)]
    } else {
        decimal(n / 10).push(digit(n % 10))
    }
}

fn digit_char(d: u64) -> (c: char)
    requires
        d < 10,
    ensures
        c == digit(d as nat),
{
    proof {
        reveal_strlit("0123456789");
    }
    "0123456789".get_char(d as usize)
}

/// Appends the decimal numeral of `n` to `text`.
pub(crate) fn push_decimal(text: &mut String, n: u64)
    ensures
        final(text)@ == old(text)@ + decimal(n as nat),
    decreases n,
{
    if n >= 10 {
        push_decimal(text, n / 10);
    }
    push_char(text, digit_char(n % 10));
}

/// The parts in order, with `sep` between each two neighbours.
pub open spec fn join(parts: Seq<Seq<char>>, sep: Seq<char>) -> Seq<char>
    decreases parts.len(),
{
    if parts.len() == 0 {
        Seq::empty()
    } else if parts.len() == 1 {
        parts[0]
    } else {
        join(parts.drop_last(), sep) + sep + parts.last()
    }
}

/// Joining the first `i + 1` parts extends the join of the first `i`.
pub(crate) proof fn lemma_join_step(parts: Seq<Seq<char>>, sep: Seq<char>, i: int)
    requires
        0 <= i < parts.len(),
    ensures
        join(parts.take(i + 1), sep) == if i == 0 {
            parts[i]
        } else {
            join(parts.take(i), sep) + sep + parts[i]
        },
{
    assert(parts.take(i + 1).drop_last() =~= parts.take(i));
}

} // verus!
