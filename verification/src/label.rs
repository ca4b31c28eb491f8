//! The labels of the bodies: a category and a number, as in `Planet 3`.

use vstd::prelude::*;
use vstd::string::*;

verus! {

/// The character of a decimal digit.
pub open spec fn digit_char(digit: nat) -> char {
    if digit == 0 {
        '0'
    } else if digit == 1 {
        '1'
    } else if digit == 2 {
        '2'
    } else if digit == 3 {
        '3'
    } else if digit == 4 {
        '4'
    } else if digit == 5 {
        '5'
    } else if digit == 6 {
        '6'
    } else if digit == 7 {
        '7'
    } else if digit == 8 {
        '8'
    } else {
        '9'
    }
}

/// A number in decimal notation, without sign and without leading zeros.
pub open spec fn decimal_digits(n: nat) -> Seq<char>
    decreases n,
{
    if n < 10 {
        seq![digit_char(n)]
    } else {
        decimal_digits(n / 10).push(digit_char(n % 10))
    }
}

/// The label of the body with the number `number` within its category.
pub open spec fn label_of(category: Seq<char>, number: nat) -> Seq<char> {
    category + " "@ + decimal_digits(number)
}

/// The labels of `count` bodies of one category, numbered from `start`.
pub open spec fn labels_of(category: Seq<char>, start: nat, count: nat) -> Seq<Seq<char>> {
    Seq::new(count, |i: int| label_of(category, (start + i) as nat))
}

/// The text of one decimal digit.
fn digit_text(digit: usize) -> (text: &'static str)
    requires
        digit < 10,
    ensures
        text@ == seq![digit_char(digit as nat)],
{
    proof {
        reveal_strlit("0");
        reveal_strlit("1");
        reveal_strlit("2");
        reveal_strlit("3");
        reveal_strlit("4");
        reveal_strlit("5");
        reveal_strlit("6");
        reveal_strlit("7");
        reveal_strlit("8");
        reveal_strlit("9");
    }
    let text = match digit {
        0 => "0",
        1 => "1",
        2 => "2",
        3 => "3",
        4 => "4",
        5 => "5",
        6 => "6",
        7 => "7",
        8 => "8",
        _ => "9",
    };
    assert(text@ =~= seq![digit_char(digit as nat)]);
    text
}

/// Writes `n` in decimal notation.
pub fn decimal(n: usize) -> (text: String)
    ensures
        text@ == decimal_digits(n as nat),
    decreases n,
{
    if n < 10 {
        String::from_str(digit_text(n))
    } else {
        let mut text = decimal(n / 10);
        text.append(digit_text(n % 10));
        assert(text@ =~= decimal_digits(n as nat));
        text
    }
}

/// Writes the label of the body with the number `number` in `category`.
pub fn body_label(category: &str, number: usize) -> (label: String)
    ensures
        label@ == label_of(category@, number as nat),
{
    let mut label = String::from_str(category);
    label.append(" ");
    let digits = decimal(number);
    label.append(digits.as_str());
    label
}

/// Writes the labels of `count` bodies of one category, numbered from
/// `start`.
pub fn body_labels(category: &str, start: usize, count: usize) -> (labels: Vec<String>)
    requires
        start + count <= usize::MAX,
    ensures
        labels.deep_view() == labels_of(category@, start as nat, count as nat),
{
    let mut labels: Vec<String> = Vec::new();
    let mut i: usize = 0;
    while i < count
        invariant
            i <= count,
            start + count <= usize::MAX,
            labels.len() == i,
            forall|k: int|
                0 <= k < i ==> (#[trigger] labels[k])@ == label_of(category@, (start + k) as nat),
        decreases count - i,
    {
        labels.push(body_label(category, start + i));
        i = i + 1;
    }
    assert(labels.deep_view() =~= labels_of(category@, start as nat, count as nat));
    labels
}

} // verus!
