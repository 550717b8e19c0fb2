use crate::registry::same_text;
use crate::registry::TypeRule;
use vstd::prelude::*;
use vstd::std_specs::iter::IteratorSpec;

verus! {

/// The number that a decimal digit stands for; -1 for any other character.
pub open spec fn digit_value(c: char) -> int {
    if c == '0' {
        0
    } else if c == '1' {
        1
    } else if c == '2' {
        2
    } else if c == '3' {
        3
    } else if c == '4' {
        4
    } else if c == '5' {
        5
    } else if c == '6' {
        6
    } else if c == '7' {
        7
    } else if c == '8' {
        8
    } else if c == '9' {
        9
    } else {
        -1
    }
}

/// Whether every character is a decimal digit.
pub open spec fn all_digits(text: Seq<char>) -> bool {
    forall|i: int| 0 <= i < text.len() ==> digit_value(#[trigger] text[i]) >= 0
}

/// The number that a run of decimal digits stands for.
pub open spec fn digits_value(digits: Seq<char>) -> int
    decreases digits.len(),
{
    if digits.len() == 0 {
        0
    } else {
        10 * digits_value(digits.drop_last()) + digit_value(digits.last())
    }
}

/// Whether the text starts with a sign.
pub open spec fn has_sign(text: Seq<char>) -> bool {
    text.len() > 0 && (text[0] == '-' || text[0] == '+')
}

/// The digits of a number: the text without its sign.
pub open spec fn digits_of(text: Seq<char>) -> Seq<char> {
    if has_sign(text) {
        text.drop_first()
    } else {
        text
    }
}

/// The signed 64-bit integer that the text stands for: an optional sign, then one or
/// more decimal digits, and a value from -2^63 to 2^63 - 1. Nothing for any other text.
pub open spec fn integer_value(text: Seq<char>) -> Option<int> {
    let digits = digits_of(text);
    let value = if text.len() > 0 && text[0] == '-' {
        -digits_value(digits)
    } else {
        digits_value(digits)
    };
    if digits.len() > 0 && all_digits(digits) && i64::MIN <= value <= i64::MAX {
        Some(value)
    } else {
        None
    }
}

/// The truth value that the text stands for: `true` or `false`, and nothing else.
pub open spec fn boolean_value(text: Seq<char>) -> Option<bool> {
    if text == "true"@ {
        Some(true)
    } else if text == "false"@ {
        Some(false)
    } else {
        None
    }
}

/// Whether a rule accepts a text as the value of an argument.
pub open spec fn rule_accepts(rule: TypeRule, text: Seq<char>) -> bool {
    match rule {
        TypeRule::Text => true,
        TypeRule::Integer => integer_value(text) is Some,
        TypeRule::Boolean => boolean_value(text) is Some,
    }
}

/// A run of digits stands for no less than any run that it starts with.
pub proof fn lemma_digits_value_grows(digits: Seq<char>, upto: int)
    requires
        all_digits(digits),
        0 <= upto <= digits.len(),
    ensures
        0 <= digits_value(digits.subrange(0, upto)) <= digits_value(digits),
    decreases digits.len() - upto,
{
    let start = digits.subrange(0, upto);
    lemma_digits_value_nonnegative(start);
    if upto == digits.len() {
        assert(start =~= digits);
    } else {
        let next = digits.subrange(0, upto + 1);
        assert(next.drop_last() =~= start);
        assert(next.last() == digits[upto]);
        lemma_digits_value_grows(digits, upto + 1);
    }
}

/// A run of digits stands for a number that is not negative.
pub proof fn lemma_digits_value_nonnegative(digits: Seq<char>)
    requires
        all_digits(digits),
    ensures
        digits_value(digits) >= 0,
    decreases digits.len(),
{
    if digits.len() > 0 {
        lemma_digits_value_nonnegative(digits.drop_last());
    }
}

fn digit_of(c: char) -> (digit: Option<i64>)
    ensures
        match digit {
            Some(d) => d == digit_value(c) && 0 <= d <= 9,
            None => digit_value(c) < 0,
        },
{
    if c == '0' {
        Some(0)
    } else if c == '1' {
        Some(1)
    } else if c == '2' {
        Some(2)
    } else if c == '3' {
        Some(3)
    } else if c == '4' {
        Some(4)
    } else if c == '5' {
        Some(5)
    } else if c == '6' {
        Some(6)
    } else if c == '7' {
        Some(7)
    } else if c == '8' {
        Some(8)
    } else if c == '9' {
        Some(9)
    } else {
        None
    }
}

/// Reads a signed 64-bit integer in decimal notation.
pub fn parse_integer(text: &str) -> (value: Option<i64>)
    ensures
        match value {
            Some(v) => integer_value(text@) == Some(v as int),
            None => integer_value(text@) is None,
        },
{
    let ghost digits = digits_of(text@);
    let mut chars = text.chars();
    let mut negative = false;
    let mut current = chars.next();
    match current {
        None => {
            return None;
        },
        Some(c) => {
            if c == '-' || c == '+' {
                negative = c == '-';
                current = chars.next();
            }
        },
    }
    assert(match current {
        Some(c) => digits.len() > 0 && c == digits[0] && chars.remaining() =~= digits.subrange(
            1,
            digits.len() as int,
        ),
        None => digits.len() == 0,
    });
    if current.is_none() {
        return None;
    }
    // The value is gathered below zero, where the range reaches one further.
    let mut gathered: i64 = 0;
    let ghost mut seen: int = 0;
    while current.is_some()
        invariant
            digits == digits_of(text@),
            0 <= seen <= digits.len(),
            all_digits(digits.subrange(0, seen)),
            gathered == -digits_value(digits.subrange(0, seen)),
            gathered <= 0,
            match current {
                Some(c) => seen < digits.len() && c == digits[seen] && chars.remaining()
                    == digits.subrange(seen + 1, digits.len() as int),
                None => seen == digits.len(),
            },
        decreases digits.len() - seen,
    {
        let c = current.unwrap();
        let ghost before = digits.subrange(0, seen);
        let ghost after = digits.subrange(0, seen + 1);
        proof {
            assert(after.drop_last() =~= before);
            assert(after.last() == c);
        }
        match digit_of(c) {
            None => {
                assert(!all_digits(digits)) by {
                    assert(digit_value(digits[seen]) < 0);
                }
                return None;
            },
            Some(d) => {
                assert(all_digits(after)) by {
                    assert forall|i: int| 0 <= i < after.len() implies digit_value(
                        #[trigger] after[i],
                    ) >= 0 by {
                        if i < seen {
                            assert(after[i] == before[i]);
                        }
                    }
                }
                if gathered < -922337203685477580 || (gathered == -922337203685477580 && d > 8) {
                    proof {
                        assert(digits_value(after) > -(i64::MIN as int));
                        if all_digits(digits) {
                            lemma_digits_value_grows(digits, seen + 1);
                        }
                    }
                    return None;
                }
                gathered = gathered * 10 - d;
                proof {
                    seen = seen + 1;
                }
                current = chars.next();
            },
        }
    }
    proof {
        assert(digits.subrange(0, seen) =~= digits);
    }
    if negative {
        Some(gathered)
    } else if gathered == i64::MIN {
        None
    } else {
        Some(-gathered)
    }
}

/// Reads a truth value: `true` or `false`.
pub fn parse_boolean(text: &str) -> (value: Option<bool>)
    ensures
        value == boolean_value(text@),
{
    if same_text(text, "true") {
        Some(true)
    } else if same_text(text, "false") {
        Some(false)
    } else {
        None
    }
}

impl TypeRule {
    /// Whether this rule accepts `text` as the value of an argument.
    pub fn accepts(&self, text: &str) -> (accepted: bool)
        ensures
            accepted == rule_accepts(*self, text@),
    {
        match self {
            TypeRule::Text => true,
            TypeRule::Integer => parse_integer(text).is_some(),
            TypeRule::Boolean => parse_boolean(text).is_some(),
        }
    }
}

} // verus!
