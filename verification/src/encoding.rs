use vstd::prelude::*;

verus! {

/// The number of values that `width` bytes can tell apart: 256 to the power `width`.
pub open spec fn span(width: nat) -> nat
    decreases width,
{
    if width == 0 {
        1
    } else {
        256 * span((width - 1) as nat)
    }
}

/// The digit of weight `256^place` of `value` written in base 256.
pub open spec fn digit(value: nat, place: nat) -> nat
    decreases place,
{
    if place == 0 {
        value % 256
    } else {
        digit(value / 256, (place - 1) as nat)
    }
}

/// `value` in `width` bytes, most significant byte first.
pub open spec fn be_bytes(value: nat, width: nat) -> Seq<u8> {
    Seq::new(width, |k: int| digit(value, (width - 1 - k) as nat) as u8)
}

/// `value` in `width` bytes, least significant byte first.
pub open spec fn le_bytes(value: nat, width: nat) -> Seq<u8> {
    Seq::new(width, |k: int| digit(value, k as nat) as u8)
}

/// The number that a decoder reads from `bytes`, most significant byte first.
pub open spec fn be_value(bytes: Seq<u8>) -> nat
    decreases bytes.len(),
{
    if bytes.len() == 0 {
        0
    } else {
        256 * be_value(bytes.drop_last()) + bytes.last() as nat
    }
}

/// The number that a decoder reads from `bytes`, least significant byte first.
pub open spec fn le_value(bytes: Seq<u8>) -> nat
    decreases bytes.len(),
{
    if bytes.len() == 0 {
        0
    } else {
        bytes.first() as nat + 256 * le_value(bytes.drop_first())
    }
}

/// Every digit is below 256: writing it as a byte loses nothing.
pub proof fn lemma_digit_is_byte(value: nat, place: nat)
    ensures
        digit(value, place) < 256,
    decreases place,
{
    if place > 0 {
        lemma_digit_is_byte(value / 256, (place - 1) as nat);
    }
}

/// A digit is what is left of `value` above the lower places, cut to one byte.
pub proof fn lemma_digit_by_division(value: nat, place: nat)
    ensures
        span(place) > 0,
        digit(value, place) == (value / span(place)) % 256,
    decreases place,
{
    if place > 0 {
        let lower = span((place - 1) as nat);
        lemma_digit_by_division(value / 256, (place - 1) as nat);
        vstd::arithmetic::div_mod::lemma_div_denominator(value as int, 256, lower as int);
    } else {
        assert(value / 1 == value);
    }
}

/// Big-endian puts the most significant eight bits first: for a value that
/// fits `width` bytes, the first byte is the value with its lower
/// `width - 1` bytes cut off.
pub proof fn lemma_be_leads_with_most_significant(value: nat, width: nat)
    requires
        width > 0,
        value < span(width),
    ensures
        span((width - 1) as nat) > 0,
        be_bytes(value, width).first() == value / span((width - 1) as nat),
{
    let lower = span((width - 1) as nat);
    lemma_digit_by_division(value, (width - 1) as nat);
    assert(value / lower < 256) by (nonlinear_arith)
        requires
            lower > 0,
            value < 256 * lower,
    ;
}

/// Little-endian puts the least significant eight bits first.
pub proof fn lemma_le_leads_with_least_significant(value: nat, width: nat)
    requires
        width > 0,
    ensures
        le_bytes(value, width).first() == value % 256,
{
}

/// Little-endian is big-endian read backwards.
pub proof fn lemma_le_reverses_be(value: nat, width: nat)
    ensures
        le_bytes(value, width) == be_bytes(value, width).reverse(),
{
}

/// A big-endian decoder gets back every value that fits the width it was
/// written in.
pub proof fn lemma_be_round_trip(value: nat, width: nat)
    requires
        value < span(width),
    ensures
        be_value(be_bytes(value, width)) == value,
    decreases width,
{
    if width > 0 {
        let bytes = be_bytes(value, width);
        assert(bytes.drop_last() =~= be_bytes(value / 256, (width - 1) as nat));
        lemma_be_round_trip(value / 256, (width - 1) as nat);
    }
}

/// A little-endian decoder gets back every value that fits the width it was
/// written in.
pub proof fn lemma_le_round_trip(value: nat, width: nat)
    requires
        value < span(width),
    ensures
        le_value(le_bytes(value, width)) == value,
    decreases width,
{
    if width > 0 {
        let bytes = le_bytes(value, width);
        assert(bytes.drop_first() =~= le_bytes(value / 256, (width - 1) as nat));
        lemma_le_round_trip(value / 256, (width - 1) as nat);
    }
}

/// The widths of the fixed-width integers hold every value of their type.
pub proof fn lemma_span_of_widths()
    ensures
        span(1) == 0x100,
        span(2) == 0x1_0000,
        span(4) == 0x1_0000_0000,
        span(8) == 0x1_0000_0000_0000_0000,
{
    reveal_with_fuel(span, 9);
}

/// The bytes of a 16-bit value, as shifts and masks compute them.
pub proof fn lemma_digits_u16(i: u16)
    ensures
        digit(i as nat, 0) == i & 0xff,
        digit(i as nat, 1) == (i >> 8) & 0xff,
{
    reveal_with_fuel(digit, 2);
    assert(i % 256 == i & 0xff) by (bit_vector);
    assert((i / 256) % 256 == (i >> 8) & 0xff) by (bit_vector);
}

/// The bytes of a 32-bit value, as shifts and masks compute them.
pub proof fn lemma_digits_u32(i: u32)
    ensures
        digit(i as nat, 0) == i & 0xff,
        digit(i as nat, 1) == (i >> 8) & 0xff,
        digit(i as nat, 2) == (i >> 16) & 0xff,
        digit(i as nat, 3) == (i >> 24) & 0xff,
{
    reveal_with_fuel(digit, 4);
    assert(i % 256 == i & 0xff) by (bit_vector);
    assert((i / 256) % 256 == (i >> 8) & 0xff) by (bit_vector);
    assert((i / 256 / 256) % 256 == (i >> 16) & 0xff) by (bit_vector);
    assert((i / 256 / 256 / 256) % 256 == (i >> 24) & 0xff) by (bit_vector);
}

/// The bytes of a 64-bit value, as shifts and masks compute them.
pub proof fn lemma_digits_u64(i: u64)
    ensures
        digit(i as nat, 0) == i & 0xff,
        digit(i as nat, 1) == (i >> 8) & 0xff,
        digit(i as nat, 2) == (i >> 16) & 0xff,
        digit(i as nat, 3) == (i >> 24) & 0xff,
        digit(i as nat, 4) == (i >> 32) & 0xff,
        digit(i as nat, 5) == (i >> 40) & 0xff,
        digit(i as nat, 6) == (i >> 48) & 0xff,
        digit(i as nat, 7) == (i >> 56) & 0xff,
{
    reveal_with_fuel(digit, 8);
    assert(i % 256 == i & 0xff) by (bit_vector);
    assert((i / 256) % 256 == (i >> 8) & 0xff) by (bit_vector);
    assert((i / 256 / 256) % 256 == (i >> 16) & 0xff) by (bit_vector);
    assert((i / 256 / 256 / 256) % 256 == (i >> 24) & 0xff) by (bit_vector);
    assert((i / 256 / 256 / 256 / 256) % 256 == (i >> 32) & 0xff) by (bit_vector);
    assert((i / 256 / 256 / 256 / 256 / 256) % 256 == (i >> 40) & 0xff) by (bit_vector);
    assert((i / 256 / 256 / 256 / 256 / 256 / 256) % 256 == (i >> 48) & 0xff) by (bit_vector);
    assert((i / 256 / 256 / 256 / 256 / 256 / 256 / 256) % 256 == (i >> 56) & 0xff)
        by (bit_vector);
}

} // verus!
