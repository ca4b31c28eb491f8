//! What the answers at the console mean.
//!
//! Reading a line is the caller's business; what the line says is decided
//! here. An answer is taken without the white space around it and without
//! regard to case.

use vstd::prelude::*;
use vstd::string::*;
use crate::label::{decimal_digits, digit_char};

verus! {

/// Whether `c` is white space, as `char::is_whitespace` tells it.
pub uninterp spec fn whitespace(c: char) -> bool;

/// `text` in lower case, as `str::to_lowercase` gives it.
pub uninterp spec fn lowercased(text: Seq<char>) -> Seq<char>;

/// `char::is_whitespace`. Claimed and not proved: the answer depends on the
/// character alone.
#[verifier::external_body]
fn is_space(c: char) -> (space: bool)
    ensures
        space == whitespace(c),
{
    c.is_whitespace()
}

/// The number of white-space characters at the beginning of `text`.
pub open spec fn leading_space(text: Seq<char>) -> int
    decreases text.len(),
{
    if text.len() > 0 && whitespace(text[0]) {
        1 + leading_space(text.drop_first())
    } else {
        0
    }
}

/// The number of white-space characters at the end of `text`.
pub open spec fn trailing_space(text: Seq<char>) -> int
    decreases text.len(),
{
    if text.len() > 0 && whitespace(text.last()) {
        1 + trailing_space(text.drop_last())
    } else {
        0
    }
}

/// `text` without the white space at its two ends.
pub open spec fn trimmed(text: Seq<char>) -> Seq<char> {
    if leading_space(text) == text.len() {
        Seq::empty()
    } else {
        text.subrange(leading_space(text), text.len() - trailing_space(text))
    }
}

/// The white space at the beginning ends within the text, at a character
/// that is none, or at the end.
pub proof fn lemma_leading_space(text: Seq<char>)
    ensures
        0 <= leading_space(text) <= text.len(),
        forall|i: int| 0 <= i < leading_space(text) ==> whitespace(#[trigger] text[i]),
        leading_space(text) < text.len() ==> !whitespace(text[leading_space(text)]),
    decreases text.len(),
{
    if text.len() > 0 && whitespace(text[0]) {
        let rest = text.drop_first();
        lemma_leading_space(rest);
        assert forall|i: int| 0 <= i < leading_space(text) implies whitespace(
            #[trigger] text[i],
        ) by {
            if i > 0 {
                assert(text[i] == rest[i - 1]);
            }
        }
        if leading_space(text) < text.len() {
            assert(text[leading_space(text)] == rest[leading_space(rest)]);
        }
    }
}

/// The white space at the end begins within the text, behind a character
/// that is none, or at the beginning.
pub proof fn lemma_trailing_space(text: Seq<char>)
    ensures
        0 <= trailing_space(text) <= text.len(),
        forall|i: int|
            text.len() - trailing_space(text) <= i < text.len() ==> whitespace(#[trigger] text[i]),
        trailing_space(text) < text.len() ==> !whitespace(
            text[text.len() - trailing_space(text) - 1],
        ),
    decreases text.len(),
{
    if text.len() > 0 && whitespace(text.last()) {
        let rest = text.drop_last();
        lemma_trailing_space(rest);
        assert forall|i: int|
            text.len() - trailing_space(text) <= i < text.len() implies whitespace(
            #[trigger] text[i],
        ) by {
            if i < rest.len() {
                assert(text[i] == rest[i]);
            }
        }
        if trailing_space(text) < text.len() {
            assert(text[text.len() - trailing_space(text) - 1] == rest[rest.len()
                - trailing_space(rest) - 1]);
        }
    }
}

/// A text that is not all white space has its leading and its trailing
/// white space apart from one another.
proof fn lemma_spaces_apart(text: Seq<char>)
    requires
        leading_space(text) < text.len(),
    ensures
        leading_space(text) + trailing_space(text) < text.len(),
{
    lemma_leading_space(text);
    lemma_trailing_space(text);
    let first = leading_space(text);
    if first + trailing_space(text) >= text.len() {
        assert(whitespace(text[first]));
    }
}

/// Takes the white space off the two ends of `text`.
pub fn trim_text(text: &str) -> (inner: &str)
    ensures
        inner@ == trimmed(text@),
{
    let n = text.unicode_len();
    let mut from: usize = 0;
    assert(text@.skip(0) =~= text@);
    while from < n && is_space(text.get_char(from))
        invariant
            from <= n,
            n == text@.len(),
            leading_space(text@) == from + leading_space(text@.skip(from as int)),
        decreases n - from,
    {
        assert(text@.skip(from as int).drop_first() =~= text@.skip(from as int + 1));
        from = from + 1;
    }
    assert(leading_space(text@) == from) by {
        if from < n {
            assert(text@.skip(from as int)[0] == text@[from as int]);
        }
    }
    if from == n {
        return text.substring_char(0, 0);
    }
    proof {
        lemma_spaces_apart(text@);
    }
    let mut to: usize = n;
    assert(text@.take(n as int) =~= text@);
    while to > from && is_space(text.get_char(to - 1))
        invariant
            from <= to <= n,
            n == text@.len(),
            leading_space(text@) == from,
            leading_space(text@) + trailing_space(text@) < text@.len(),
            trailing_space(text@) == (n - to) + trailing_space(text@.take(to as int)),
        decreases to,
    {
        assert(text@.take(to as int).drop_last() =~= text@.take(to as int - 1));
        to = to - 1;
    }
    assert(trailing_space(text@) == n - to) by {
        lemma_trailing_space(text@.take(to as int));
        if to > from {
            assert(text@.take(to as int).last() == text@[to as int - 1]);
        }
    }
    text.substring_char(from, to)
}

/// `str::to_lowercase`. Claimed and not proved: the result is a function of
/// the text alone.
#[verifier::external_body]
fn lowercase_text(text: &str) -> (lower: String)
    ensures
        lower@ == lowercased(text@),
{
    text.to_lowercase()
}

/// What an answer in its plain form says: `y` and `yes` say yes, `n` and
/// `no` say no, and nothing else says either.
pub open spec fn choice_of(answer: Seq<char>) -> Option<bool> {
    if answer == "y"@ || answer == "yes"@ {
        Some(true)
    } else if answer == "n"@ || answer == "no"@ {
        Some(false)
    } else {
        None
    }
}

/// Decides what an answer says that has been trimmed and put in lower case.
pub fn interpret_choice(answer: &String) -> (choice: Option<bool>)
    ensures
        choice == choice_of(answer@),
{
    let y = String::from_str("y");
    let yes = String::from_str("yes");
    let n = String::from_str("n");
    let no = String::from_str("no");
    if *answer == y || *answer == yes {
        Some(true)
    } else if *answer == n || *answer == no {
        Some(false)
    } else {
        None
    }
}

/// Decides what a line says that was typed in answer to a yes-or-no
/// question; `None` where the question has to be asked again.
pub fn read_choice(line: &str) -> (choice: Option<bool>)
    ensures
        choice == choice_of(lowercased(trimmed(line@))),
{
    let answer = lowercase_text(trim_text(line));
    interpret_choice(&answer)
}

/// Whether `c` is one of the ten decimal digits.
pub open spec fn is_digit(c: char) -> bool {
    '0' <= c && c <= '9'
}

/// The value of a decimal digit.
pub open spec fn digit_value(c: char) -> nat {
    (c as u32 - '0' as u32) as nat
}

/// The value of a text of decimal digits; zero for the empty text.
pub open spec fn digits_value(digits: Seq<char>) -> nat
    decreases digits.len(),
{
    if digits.len() == 0 {
        0
    } else {
        digits_value(digits.drop_last()) * 10 + digit_value(digits.last())
    }
}

/// Whether every character of `digits` is a decimal digit.
pub open spec fn all_digits(digits: Seq<char>) -> bool {
    forall|i: int| 0 <= i < digits.len() ==> is_digit(#[trigger] digits[i])
}

/// `text` without the plus sign that may stand in front of it.
pub open spec fn unsigned_part(text: Seq<char>) -> Seq<char> {
    if text.len() > 0 && text[0] == '+' {
        text.drop_first()
    } else {
        text
    }
}

/// The count that `text` denotes: a text of at least one decimal digit,
/// with or without a plus sign in front, denotes its value if that fits in
/// 32 bits. Any other text denotes nothing.
pub open spec fn count_of(text: Seq<char>) -> Option<u32> {
    let digits = unsigned_part(text);
    if digits.len() > 0 && all_digits(digits) && digits_value(digits) <= u32::MAX {
        Some(digits_value(digits) as u32)
    } else {
        None
    }
}

/// A text of digits is worth at least as much as any of its beginnings.
pub proof fn lemma_digits_value_grows(digits: Seq<char>, n: int)
    requires
        0 <= n <= digits.len(),
    ensures
        digits_value(digits.take(n)) <= digits_value(digits),
    decreases digits.len(),
{
    if n == digits.len() {
        assert(digits.take(n) =~= digits);
    } else {
        lemma_digits_value_grows(digits.drop_last(), n);
        assert(digits.drop_last().take(n) =~= digits.take(n));
    }
}

/// What is written as a number in decimal notation is a text of digits
/// without a sign, and it is worth that number: a count that was written
/// out is read back as itself.
pub proof fn lemma_written_count_reads_back(n: nat)
    ensures
        decimal_digits(n).len() > 0,
        all_digits(decimal_digits(n)),
        unsigned_part(decimal_digits(n)) == decimal_digits(n),
        digits_value(decimal_digits(n)) == n,
        n <= u32::MAX ==> count_of(decimal_digits(n)) == Some(n as u32),
    decreases n,
{
    let text = decimal_digits(n);
    assert(is_digit(digit_char(n % 10)) && digit_value(digit_char(n % 10)) == n % 10);
    if n < 10 {
        assert(text.drop_last() =~= Seq::<char>::empty());
        assert(digits_value(text.drop_last()) == 0);
    } else {
        lemma_written_count_reads_back(n / 10);
        assert(text.drop_last() =~= decimal_digits(n / 10));
        assert(text[0] == decimal_digits(n / 10)[0]);
    }
    assert(text[0] != '+');
}

/// Reads the count that `text` denotes, if it denotes one.
pub fn parse_count(text: &str) -> (count: Option<u32>)
    ensures
        count == count_of(text@),
{
    let n = text.unicode_len();
    let start: usize = if n > 0 && text.get_char(0) == '+' {
        1
    } else {
        0
    };
    let ghost digits = unsigned_part(text@);
    assert(digits =~= text@.skip(start as int));
    if start == n {
        return None;
    }
    let mut value: u64 = 0;
    let mut i: usize = start;
    while i < n
        invariant
            start <= i <= n,
            n == text@.len(),
            digits == text@.skip(start as int),
            digits == unsigned_part(text@),
            all_digits(digits.take(i - start)),
            value == digits_value(digits.take(i - start)),
            value <= u32::MAX,
        decreases n - i,
    {
        let c = text.get_char(i);
        let ghost upto = digits.take(i - start + 1);
        assert(upto.drop_last() =~= digits.take(i - start));
        assert(upto.last() == c);
        if !('0' <= c && c <= '9') {
            assert(!is_digit(digits[i - start]));
            return None;
        }
        let digit: u64 = (c as u32 - '0' as u32) as u64;
        value = value * 10 + digit;
        if value > 0xffff_ffff {
            proof {
                lemma_digits_value_grows(digits, i - start + 1);
            }
            return None;
        }
        i = i + 1;
    }
    assert(digits.take(n - start) =~= digits);
    Some(value as u32)
}

/// The count that a typed line denotes; `None` where it denotes none and
/// the question has to be asked again.
pub fn read_count(line: &str) -> (count: Option<u32>)
    ensures
        count == count_of(trimmed(line@)),
{
    parse_count(trim_text(line))
}

} // verus!
