//! What holds of every number in decimal notation, and of every reply over HTTP.

use vstd::arithmetic::{div_mod, power};
use vstd::prelude::*;

use crate::backends::http::{self, RangeReply};
use crate::decimal;
use crate::errors::ErrorView;

verus! {

/// A number has as many decimal digits as it needs.
pub proof fn law_number_of_digits(value: nat)
    ensures
        decimal::decimal(value).len() > 0,
        value < power::pow(10, decimal::decimal(value).len()),
        decimal::decimal(value).len() > 1 ==> power::pow(
            10,
            (decimal::decimal(value).len() - 1) as nat,
        ) <= value,
    decreases value,
{
    reveal(power::pow);
    assert(power::pow(10, 0) == 1);
    assert(power::pow(10, 1) == 10 * power::pow(10, 0));
    if value >= 10 {
        law_number_of_digits(value / 10);
        let shorter = decimal::decimal(value / 10).len();
        assert(decimal::decimal(value).len() == shorter + 1);
        assert(power::pow(10, shorter + 1) == 10 * power::pow(10, shorter));
        if shorter > 1 {
            assert(power::pow(10, shorter) == 10 * power::pow(10, (shorter - 1) as nat));
        }
    }
}

/// Each digit of a number says how often its power of ten is in the number: counted from the end,
/// digit number `i` is the last digit of the number divided by the `i`-th power of ten.
pub proof fn law_each_digit(value: nat, i: nat)
    requires
        i < decimal::decimal(value).len(),
    ensures
        decimal::decimal(value)[decimal::decimal(value).len() - 1 - i] as int == 48 + (value as int
            / power::pow(10, i)) % 10,
    decreases value,
{
    reveal(power::pow);
    assert(power::pow(10, 0) == 1);
    if i == 0 {
        assert(value as int / 1 == value);
    } else {
        let before = (i - 1) as nat;
        law_each_digit(value / 10, before);
        power::lemma_pow_positive(10, before);
        assert(power::pow(10, i) == 10 * power::pow(10, before));
        div_mod::lemma_div_denominator(value as int, 10, power::pow(10, before));
        let text = decimal::decimal(value);
        let shorter = decimal::decimal(value / 10);
        assert(text[text.len() - 1 - i] == shorter[shorter.len() - 1 - before]);
    }
}

/// The plus sign, or nothing.
pub open spec fn sign(signed: bool) -> Seq<u8> {
    if signed {
        seq![43u8]
    } else {
        Seq::empty()
    }
}

/// The digit zero, `count` times.
pub open spec fn zeros(count: nat) -> Seq<u8> {
    Seq::new(count, |i: int| 48u8)
}

/// The bytes write down `value`: an optional plus sign, any number of leading zeros, and the
/// decimal digits of the number.
pub open spec fn writes_down(bytes: Seq<u8>, value: u64) -> bool {
    exists|signed: bool, count: nat| #[trigger]
        (sign(signed) + zeros(count)) + decimal::ascii(decimal::decimal(value as nat)) == bytes
}

proof fn lemma_leading_zeros(count: nat, digits: Seq<u8>)
    requires
        decimal::all_digits(digits),
    ensures
        decimal::all_digits(zeros(count) + digits),
        decimal::digits_value(zeros(count) + digits) == decimal::digits_value(digits),
    decreases count + digits.len(),
{
    let all = zeros(count) + digits;
    if digits.len() > 0 {
        lemma_leading_zeros(count, digits.drop_last());
        assert(all.drop_last() =~= zeros(count) + digits.drop_last());
    } else if count > 0 {
        lemma_leading_zeros((count - 1) as nat, digits);
        assert(all.drop_last() =~= zeros((count - 1) as nat) + digits);
    }
}

/// Digits are leading zeros and the decimal digits of their number.
proof fn lemma_digits(digits: Seq<u8>) -> (count: nat)
    requires
        digits.len() > 0,
        decimal::all_digits(digits),
    ensures
        decimal::digits_value(digits) >= 0,
        digits == zeros(count) + decimal::ascii(
            decimal::decimal(decimal::digits_value(digits) as nat),
        ),
    decreases digits.len(),
{
    let before = digits.drop_last();
    let last = digits.last();
    let value = decimal::digits_value(digits);
    assert(48 <= last <= 57);
    if before.len() == 0 {
        assert(decimal::digits_value(before) == 0);
        assert(digits =~= zeros(0) + decimal::ascii(decimal::decimal(value as nat)));
        0
    } else {
        let count = lemma_digits(before);
        let shorter = decimal::digits_value(before);
        if shorter == 0 {
            assert(before =~= zeros(count + 1));
            assert(digits =~= zeros(count + 1) + decimal::ascii(decimal::decimal(value as nat)));
            count + 1
        } else {
            assert(value / 10 == shorter && value % 10 == last - 48);
            let text = decimal::decimal(shorter as nat);
            assert(decimal::decimal(value as nat) == text.push(decimal::digit((last - 48) as nat)));
            assert(decimal::ascii(decimal::decimal(value as nat)) =~= decimal::ascii(text).push(
                last,
            ));
            assert(digits =~= before.push(last));
            assert(digits =~= zeros(count) + decimal::ascii(decimal::decimal(value as nat)));
            count
        }
    }
}

/// A number is read from bytes if and only if they write it down, and then it is that number.
pub proof fn law_what_is_read_as_a_number(bytes: Seq<u8>)
    ensures
        forall|value: u64| #[trigger] writes_down(bytes, value) ==> decimal::parsed(bytes) == Some(
            value,
        ),
        decimal::parsed(bytes) matches Some(value) ==> writes_down(bytes, value),
{
    assert forall|value: u64| #[trigger] writes_down(bytes, value) implies decimal::parsed(bytes)
        == Some(value) by {
        let text = decimal::ascii(decimal::decimal(value as nat));
        let (signed, count) = choose|signed: bool, count: nat| #[trigger]
            (sign(signed) + zeros(count)) + text == bytes;
        decimal::lemma_decimal_digits(value as nat);
        lemma_leading_zeros(count, text);
        let digits = zeros(count) + text;
        assert(48 <= digits[0] <= 57);
        if signed {
            assert(bytes.skip(1) =~= digits);
        } else {
            assert(bytes =~= digits);
        }
    }
    if let Some(value) = decimal::parsed(bytes) {
        let digits = decimal::without_plus(bytes);
        let count = lemma_digits(digits);
        let signed = bytes[0] == 43;
        assert(bytes =~= sign(signed) + digits);
        assert(decimal::digits_value(digits) == value);
        assert((sign(signed) + zeros(count)) + decimal::ascii(decimal::decimal(value as nat))
            =~= bytes);
    }
}

/// The size of a file is the number that the `Content-Length` header writes down, whatever number
/// that is. Without such a number, or without a reply, there is an error that says so.
pub proof fn law_size_is_the_number_in_the_header(value: Vec<u8>, cause: String)
    ensures
        forall|size: u64| #[trigger] writes_down(value@, size) ==> http::reported_size(
            Ok(Some(value)),
        ) == Ok::<u64, ErrorView>(size),
        (forall|size: u64| !#[trigger] writes_down(value@, size)) ==> http::reported_size(
            Ok(Some(value)),
        ) == Err::<u64, ErrorView>(
            ErrorView::GenericError("HTTP response is missing a numeric Content-Length header"@),
        ),
        http::reported_size(Ok(None)) == Err::<u64, ErrorView>(
            ErrorView::GenericError("HTTP response is missing a numeric Content-Length header"@),
        ),
        http::reported_size(Err(cause)) == Err::<u64, ErrorView>(
            ErrorView::GenericError("HTTP HEAD request failed: "@ + cause@),
        ),
{
    law_what_is_read_as_a_number(value@);
}

/// The body of a response is passed on whole, and a failure with its whole cause.
pub proof fn law_body_is_passed_on(body: Vec<u8>, cause: String)
    ensures
        http::received(RangeReply::Body(body)) == Ok::<Seq<u8>, ErrorView>(body@),
        http::received(RangeReply::RequestFailed(cause)) == Err::<Seq<u8>, ErrorView>(
            ErrorView::GenericError("HTTP GET request failed: "@ + cause@),
        ),
        http::received(RangeReply::BodyFailed(cause)) == Err::<Seq<u8>, ErrorView>(
            ErrorView::GenericError("Failed to read HTTP response body: "@ + cause@),
        ),
{
}

/// The text of a range names its first and its last byte: from the first to the last there are as
/// many bytes as are asked for.
pub proof fn law_range_names_its_ends(first: u64, last: u64)
    requires
        first <= last,
        last - first < u64::MAX,
    ensures
        http::range_text(first, (last - first + 1) as u64) == "bytes="@ + decimal::decimal(
            first as nat,
        ) + "-"@ + decimal::decimal(last as nat),
{
}

/// A range without bytes ends one before it starts.
pub proof fn law_empty_range(offset: u64)
    requires
        offset > 0,
    ensures
        http::range_text(offset, 0) == "bytes="@ + decimal::decimal(offset as nat) + "-"@
            + decimal::decimal((offset - 1) as nat),
{
}

} // verus!
