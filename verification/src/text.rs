//! Small helpers on text.

use vstd::prelude::*;

verus! {

/// The characters of a text that may be absent.
pub open spec fn text_of(text: Option<String>) -> Option<Seq<char>> {
    match text {
        Some(text) => Some(text@),
        None => None,
    }
}

/// `text` ends in `suffix`.
pub open spec fn has_suffix(text: Seq<char>, suffix: Seq<char>) -> bool {
    suffix.len() <= text.len() && text.skip(text.len() - suffix.len()) == suffix
}

/// `c` is a decimal digit.
pub open spec fn is_digit(c: char) -> bool {
    '0' as u32 <= c as u32 <= '9' as u32
}

/// The number that `digits` write in decimal.
pub open spec fn decimal_value(digits: Seq<char>) -> nat
    decreases digits.len(),
{
    if digits.len() == 0 {
        0
    } else {
        decimal_value(digits.drop_last()) * 10 + (digits.last() as u32 - '0' as u32) as nat
    }
}

/// The digits of a whole number that may start with a plus sign.
pub open spec fn unsigned_digits(text: Seq<char>) -> Seq<char> {
    if text.len() > 0 && text[0] == '+' {
        text.skip(1)
    } else {
        text
    }
}

/// The whole number that `text` writes in decimal, if it does and the number fits.
pub open spec fn whole_number(text: Seq<char>) -> Option<u64> {
    let digits = unsigned_digits(text);
    if digits.len() > 0 && (forall|i: int| 0 <= i < digits.len() ==> is_digit(#[trigger] digits[i]))
        && decimal_value(digits) <= u64::MAX {
        Some(decimal_value(digits) as u64)
    } else {
        None
    }
}

/// The characters of `text`.
fn characters(text: &str) -> (r: Vec<char>)
    ensures
        r@ == text@,
{
    let mut r: Vec<char> = Vec::new();
    for c in iter: text.chars()
        invariant
            iter.seq() == text@,
            r@ == text@.take(iter.index() as int),
    {
        r.push(c);
    }
    proof {
        assert(text@.take(text@.len() as int) =~= text@);
    }
    r
}

/// Whether `text` reads exactly `other`.
pub fn reads(text: &String, other: &str) -> (r: bool)
    ensures
        r == (text@ == other@),
{
    *text == other.to_owned()
}

/// Whether `text` ends in `suffix`.
pub fn ends_with(text: &str, suffix: &str) -> (r: bool)
    ensures
        r == has_suffix(text@, suffix@),
{
    let whole: Vec<char> = characters(text);
    let ending: Vec<char> = characters(suffix);
    if ending.len() > whole.len() {
        return false;
    }
    let offset: usize = whole.len() - ending.len();
    let ghost tail = text@.skip(offset as int);
    for i in 0..ending.len()
        invariant
            whole@ == text@,
            ending@ == suffix@,
            offset + ending.len() == whole.len(),
            tail == text@.skip(offset as int),
            forall|j: int| 0 <= j < i ==> tail[j] == suffix@[j],
    {
        if whole[offset + i] != ending[i] {
            proof {
                assert(tail[i as int] != suffix@[i as int]);
            }
            return false;
        }
    }
    proof {
        assert(tail =~= suffix@);
    }
    true
}

/// The start of a number is no larger than the number.
proof fn lemma_decimal_prefix(digits: Seq<char>, n: int)
    requires
        0 <= n <= digits.len(),
        forall|i: int| 0 <= i < digits.len() ==> is_digit(#[trigger] digits[i]),
    ensures
        decimal_value(digits.take(n)) <= decimal_value(digits),
    decreases digits.len(),
{
    if n == digits.len() {
        assert(digits.take(n) =~= digits);
    } else {
        lemma_decimal_prefix(digits.drop_last(), n);
        assert(digits.drop_last().take(n) =~= digits.take(n));
        assert(is_digit(digits[digits.len() - 1]));
    }
}

/// The whole number that `text` writes in decimal: digits, perhaps after a plus sign, of a number
/// that fits.
pub fn parse_whole_number(text: &str) -> (r: Option<u64>)
    ensures
        r == whole_number(text@),
{
    let all: Vec<char> = characters(text);
    let first: usize = if all.len() > 0 && all[0] == '+' {
        1
    } else {
        0
    };
    let ghost digits = unsigned_digits(text@);
    if all.len() == first {
        return None;
    }
    proof {
        assert(digits =~= all@.skip(first as int));
        assert(digits.take(0) =~= Seq::empty());
    }
    let mut value: u64 = 0;
    for i in first..all.len()
        invariant
            first <= i,
            all@ == text@,
            digits == unsigned_digits(text@),
            digits == all@.skip(first as int),
            forall|j: int| 0 <= j < i - first ==> is_digit(#[trigger] digits[j]),
            value == decimal_value(digits.take(i - first)),
    {
        let c: u32 = all[i] as u32;
        assert(digits[i - first] == all@[i as int]);
        if c < '0' as u32 || c > '9' as u32 {
            return None;
        }
        let digit: u64 = (c - '0' as u32) as u64;
        proof {
            assert(digits.take(i - first + 1).drop_last() =~= digits.take(i - first));
            if forall|j: int| 0 <= j < digits.len() ==> is_digit(#[trigger] digits[j]) {
                lemma_decimal_prefix(digits, i - first + 1);
            }
        }
        value = match value.checked_mul(10) {
            Some(tens) => match tens.checked_add(digit) {
                Some(sum) => sum,
                None => {
                    return None;
                },
            },
            None => {
                return None;
            },
        };
    }
    proof {
        assert(digits.take(digits.len() as int) =~= digits);
    }
    Some(value)
}

} // verus!
