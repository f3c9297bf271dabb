use vstd::prelude::*;
use vstd::string::StringExecFns;

verus! {

/// The characters of each of the string slices.
pub open spec fn texts_of(strings: Seq<&str>) -> Seq<Seq<char>> {
    Seq::new(strings.len(), |i: int| strings[i]@)
}

/// The character that stands for the decimal digit `digit`.
pub open spec fn digit_char(digit: nat) -> char {
    if digit == 0 {
        '0'
    } else if digit == 1 {
        '1'
    } else if digit == 2 {
        '2'
    } else if digit == 3 {
        '3'
    } else if digit == 4 {
        '4'
    } else if digit == 5 {
        '5'
    } else if digit == 6 {
        '6'
    } else if digit == 7 {
        '7'
    } else if digit == 8 {
        '8'
    } else {
        '9'
    }
}

/// The decimal digits of `n`, the most significant first, without leading zeros.
pub open spec fn decimal_digits(n: nat) -> Seq<char>
    decreases n,
{
    if n < 10 {
        seq![digit_char(n)]
    } else {
        decimal_digits(n / 10).push(digit_char(n % 10))
    }
}

/// Returns the decimal digit `digit` as a string.
fn digit_str(digit: usize) -> (text: &'static str)
    requires
        digit < 10,
    ensures
        text@ == seq![digit_char(digit as nat)],
{
    proof {
        reveal_strlit("0");
        reveal_strlit("1");
        reveal_strlit("2");
        reveal_strlit("3");
        reveal_strlit("4");
        reveal_strlit("5");
        reveal_strlit("6");
        reveal_strlit("7");
        reveal_strlit("8");
        reveal_strlit("9");
    }
    let text = if digit == 0 {
        "0"
    } else if digit == 1 {
        "1"
    } else if digit == 2 {
        "2"
    } else if digit == 3 {
        "3"
    } else if digit == 4 {
        "4"
    } else if digit == 5 {
        "5"
    } else if digit == 6 {
        "6"
    } else if digit == 7 {
        "7"
    } else if digit == 8 {
        "8"
    } else {
        "9"
    };
    assert(text@ =~= seq![digit_char(digit as nat)]);
    text
}

/// Appends the decimal digits of `n` to `text`.
pub fn append_decimal(text: &mut String, n: usize)
    ensures
        final(text)@ == old(text)@ + decimal_digits(n as nat),
    decreases n,
{
    if n >= 10 {
        append_decimal(text, n / 10);
    }
    text.append(digit_str(n % 10));
}

/// Whether a character beyond ASCII has Unicode's `White_Space` property, as
/// the standard library's `char::is_whitespace` tells.
pub uninterp spec fn has_white_space_property(c: char) -> bool;

/// Whether a character is whitespace: in ASCII the space and the characters
/// from the horizontal tab to the carriage return, beyond ASCII the
/// characters with Unicode's `White_Space` property.
pub open spec fn is_whitespace(c: char) -> bool {
    if c <= '\u{7f}' {
        c == ' ' || ('\t' <= c && c <= '\r')
    } else {
        has_white_space_property(c)
    }
}

/// The text without the whitespace at its start.
pub open spec fn trimmed_start(text: Seq<char>) -> Seq<char>
    decreases text.len(),
{
    if text.len() > 0 && is_whitespace(text.first()) {
        trimmed_start(text.drop_first())
    } else {
        text
    }
}

/// The text without the whitespace at its end.
pub open spec fn trimmed_end(text: Seq<char>) -> Seq<char>
    decreases text.len(),
{
    if text.len() > 0 && is_whitespace(text.last()) {
        trimmed_end(text.drop_last())
    } else {
        text
    }
}

/// The text without the whitespace at its start and at its end.
pub open spec fn trimmed(text: Seq<char>) -> Seq<char> {
    trimmed_end(trimmed_start(text))
}

/// Without the whitespace at its start, a text is empty where it holds
/// nothing but whitespace, and else starts with a character that is none.
pub proof fn lemma_trimmed_start(text: Seq<char>)
    ensures
        trimmed_start(text).len() == 0 <==> forall|i: int|
            0 <= i < text.len() ==> is_whitespace(#[trigger] text[i]),
        trimmed_start(text).len() > 0 ==> !is_whitespace(trimmed_start(text).first()),
    decreases text.len(),
{
    if text.len() > 0 && is_whitespace(text.first()) {
        let rest = text.drop_first();
        lemma_trimmed_start(rest);
        if forall|i: int| 0 <= i < rest.len() ==> is_whitespace(#[trigger] rest[i]) {
            assert forall|i: int| 0 <= i < text.len() implies is_whitespace(#[trigger] text[i]) by {
                if i > 0 {
                    assert(rest[i - 1] == text[i]);
                }
            }
        }
        if forall|i: int| 0 <= i < text.len() ==> is_whitespace(#[trigger] text[i]) {
            assert forall|i: int| 0 <= i < rest.len() implies is_whitespace(#[trigger] rest[i]) by {
                assert(rest[i] == text[i + 1]);
            }
        }
    } else if text.len() > 0 {
        assert(!is_whitespace(text[0]));
    }
}

/// A text that starts with a character that is no whitespace is not empty
/// without the whitespace at its end.
pub proof fn lemma_trimmed_end_keeps_start(text: Seq<char>)
    requires
        text.len() > 0,
        !is_whitespace(text.first()),
    ensures
        trimmed_end(text).len() > 0,
    decreases text.len(),
{
    if is_whitespace(text.last()) {
        assert(text.len() > 1);
        assert(text.drop_last().first() == text.first());
        lemma_trimmed_end_keeps_start(text.drop_last());
    }
}

/// A text is empty without the whitespace at its ends exactly where it holds
/// nothing but whitespace.
pub proof fn lemma_trimmed_empty(text: Seq<char>)
    ensures
        trimmed(text).len() == 0 <==> forall|i: int|
            0 <= i < text.len() ==> is_whitespace(#[trigger] text[i]),
{
    lemma_trimmed_start(text);
    if trimmed_start(text).len() > 0 {
        lemma_trimmed_end_keeps_start(trimmed_start(text));
    }
}

/// Returns whether two strings hold the same characters.
pub(crate) fn str_eq(left: &str, right: &str) -> (equal: bool)
    ensures
        equal == (left@ == right@),
{
    String::from_str(left) == String::from_str(right)
}

/// `str::trim`, which the standard library documents to return the text
/// without its leading and trailing whitespace, whitespace being what has
/// Unicode's `White_Space` property. Nothing is proved of it: the contract
/// states that the result is [`trimmed`] of the text, in which the whitespace
/// of ASCII is written out and that beyond ASCII has the name
/// [`has_white_space_property`]; and, which follows from it, that a character
/// beyond ASCII with which the result starts has not that property.
#[verifier::external_body]
pub(crate) fn trim(text: &str) -> (rest: &str)
    ensures
        rest@ == trimmed(text@),
        rest@.len() > 0 && rest@.first() > '\u{7f}' ==> !has_white_space_property(rest@.first()),
{
    text.trim()
}

} // verus!
