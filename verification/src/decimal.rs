//! Numbers in decimal notation.

use vstd::prelude::*;

verus! {

/// The decimal digit of a number below ten.
pub open spec fn digit(value: nat) -> char {
    (48 + value) as char
}

/// The number in decimal notation, without leading zeros.
pub open spec fn decimal(value: nat) -> Seq<char>
    decreases value,
{
    if value < 10 {
        seq![digit(value)]
    } else {
        decimal(value / 10).push(digit(value % 10))
    }
}

/// All bytes are decimal digits in ASCII.
pub open spec fn all_digits(bytes: Seq<u8>) -> bool {
    forall|i: int| 0 <= i < bytes.len() ==> 48 <= #[trigger] bytes[i] <= 57
}

/// The number with the given decimal digits, in ASCII.
pub open spec fn digits_value(bytes: Seq<u8>) -> int
    decreases bytes.len(),
{
    if bytes.len() == 0 {
        0
    } else {
        10 * digits_value(bytes.drop_last()) + (bytes.last() - 48)
    }
}

/// The bytes without a leading plus sign.
pub open spec fn without_plus(bytes: Seq<u8>) -> Seq<u8> {
    if bytes.len() > 0 && bytes[0] == 43 {
        bytes.skip(1)
    } else {
        bytes
    }
}

/// The number that the bytes write down, if they write down one that 64 bits can hold: an optional
/// plus sign, followed by digits and nothing else.
pub open spec fn parsed(bytes: Seq<u8>) -> Option<u64> {
    let digits = without_plus(bytes);
    if digits.len() > 0 && all_digits(digits) && digits_value(digits) <= u64::MAX {
        Some(digits_value(digits) as u64)
    } else {
        None
    }
}

/// The text that consists of one digit.
fn digit_text(value: u64) -> (text: &'static str)
    requires
        value < 10,
    ensures
        text@ == seq![digit(value as nat)],
{
    proof {
        reveal_strlit("0");
        reveal_strlit("1");
        reveal_strlit("2");
        reveal_strlit("3");
        reveal_strlit("4");
        reveal_strlit("5");
        reveal_strlit("6");
        reveal_strlit("7");
        reveal_strlit("8");
        reveal_strlit("9");
    }
    let text = match value {
        0 => "0",
        1 => "1",
        2 => "2",
        3 => "3",
        4 => "4",
        5 => "5",
        6 => "6",
        7 => "7",
        8 => "8",
        _ => "9",
    };
    assert(text@ =~= seq![digit(value as nat)]);
    text
}

/// Appends a number in decimal notation to a text.
pub fn append_decimal(text: &mut String, value: u64)
    ensures
        final(text)@ == old(text)@ + decimal(value as nat),
    decreases value,
{
    if value >= 10 {
        append_decimal(text, value / 10);
    }
    text.append(digit_text(value % 10));
    assert(text@ =~= old(text)@ + decimal(value as nat));
}

/// Leaving out the last digits makes the number no larger.
proof fn lemma_prefix_value(bytes: Seq<u8>, end: int)
    requires
        all_digits(bytes),
        0 <= end <= bytes.len(),
    ensures
        0 <= digits_value(bytes.take(end)) <= digits_value(bytes),
    decreases bytes.len(),
{
    if bytes.len() == 0 {
        assert(bytes.take(end) =~= bytes);
    } else {
        let shorter = bytes.drop_last();
        if end == bytes.len() {
            assert(bytes.take(end) =~= bytes);
            lemma_prefix_value(shorter, shorter.len() as int);
            assert(shorter.take(shorter.len() as int) =~= shorter);
        } else {
            lemma_prefix_value(shorter, end);
            assert(shorter.take(end) =~= bytes.take(end));
        }
    }
}

/// Reads a number in decimal notation.
pub fn parse_decimal(bytes: &[u8]) -> (value: Option<u64>)
    ensures
        value == parsed(bytes@),
{
    let start: usize = if bytes.len() > 0 && bytes[0] == 43 {
        1
    } else {
        0
    };
    if start == bytes.len() {
        return None;
    }
    let ghost digits = without_plus(bytes@);
    let mut value: u64 = 0;
    let mut at: usize = start;
    assert(digits.take(0) =~= Seq::<u8>::empty());
    while at < bytes.len()
        invariant
            start <= at <= bytes@.len(),
            start <= 1,
            digits =~= bytes@.skip(start as int),
            digits == without_plus(bytes@),
            all_digits(digits.take(at - start)),
            value == digits_value(digits.take(at - start)),
        decreases bytes@.len() - at,
    {
        let byte: u8 = bytes[at];
        let ghost next = digits.take(at - start + 1);
        proof {
            assert(digits[at - start] == byte);
            assert(next.drop_last() =~= digits.take(at - start));
            assert(next.last() == byte);
        }
        if byte < 48 || byte > 57 {
            assert(!all_digits(digits));
            return None;
        }
        assert(all_digits(next)) by {
            assert forall|i: int| 0 <= i < next.len() implies 48 <= #[trigger] next[i] <= 57 by {
                if i < next.len() - 1 {
                    assert(next[i] == digits.take(at - start)[i]);
                }
            }
        }
        let unit: u64 = (byte - 48) as u64;
        let grown: Option<u64> = match value.checked_mul(10) {
            Some(shifted) => shifted.checked_add(unit),
            None => None,
        };
        match grown {
            Some(larger) => {
                value = larger;
            },
            None => {
                assert(digits_value(next) > u64::MAX);
                proof {
                    if all_digits(digits) {
                        lemma_prefix_value(digits, at - start + 1);
                    }
                }
                return None;
            },
        }
        at = at + 1;
    }
    assert(digits.take(at - start) =~= digits);
    Some(value)
}

/// The ASCII bytes of a text of digits.
pub open spec fn ascii(text: Seq<char>) -> Seq<u8> {
    text.map_values(|c: char| c as u8)
}

pub(crate) proof fn lemma_decimal_digits(value: nat)
    ensures
        decimal(value).len() > 0,
        all_digits(ascii(decimal(value))),
        digits_value(ascii(decimal(value))) == value,
    decreases value,
{
    let bytes = ascii(decimal(value));
    if value < 10 {
        assert(bytes =~= seq![(48 + value) as u8]);
        assert(bytes.drop_last() =~= Seq::<u8>::empty());
        assert(digits_value(bytes.drop_last()) == 0);
    } else {
        lemma_decimal_digits(value / 10);
        let before = ascii(decimal(value / 10));
        assert(bytes =~= before.push((48 + value % 10) as u8));
        assert(bytes.drop_last() =~= before);
        assert forall|i: int| 0 <= i < bytes.len() implies 48 <= #[trigger] bytes[i] <= 57 by {
            if i < before.len() {
                assert(bytes[i] == before[i]);
            }
        }
    }
}

/// A number that was written down in decimal notation is read back.
pub proof fn law_decimal_is_read_back(value: u64)
    ensures
        parsed(ascii(decimal(value as nat))) == Some(value),
{
    lemma_decimal_digits(value as nat);
    let bytes = ascii(decimal(value as nat));
    assert(48 <= bytes[0] <= 57);
}

} // verus!
