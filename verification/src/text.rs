//! Numbers as text: decimal and zero-padded hexadecimal digits.
use vstd::prelude::*;
use vstd::string::*;

verus! {

/// The digit of value `d` (below 16), with letters in upper case.
pub open spec fn upper_digit(d: int) -> char {
    "0123456789ABCDEF"@[d]
}

/// The digit of value `d` (below 16), with letters in lower case.
pub open spec fn lower_digit(d: int) -> char {
    "0123456789abcdef"@[d]
}

/// `n` in decimal, without leading zeros.
pub open spec fn decimal(n: nat) -> Seq<char>
    decreases n,
{
    if n < 10 {
        seq![upper_digit(n as int)]
    } else {
        decimal(n / 10).push(upper_digit((n % 10) as int))
    }
}

/// The last `width` hexadecimal digits of `n`, in upper case.
pub open spec fn upper_hex(n: nat, width: nat) -> Seq<char>
    decreases width,
{
    if width == 0 {
        Seq::empty()
    } else {
        upper_hex(n / 16, (width - 1) as nat).push(upper_digit((n % 16) as int))
    }
}

/// The two hexadecimal digits of a byte, in lower case.
pub open spec fn lower_hex_byte(b: u8) -> Seq<char> {
    seq![lower_digit(b as int / 16), lower_digit(b as int % 16)]
}

fn push_upper_digit(out: &mut String, d: usize)
    requires
        d < 16,
    ensures
        final(out)@ == old(out)@.push(upper_digit(d as int)),
{
    proof {
        reveal_strlit("0123456789ABCDEF");
    }
    let digit: &str = "0123456789ABCDEF".substring_ascii(d, d + 1);
    out.append(digit);
    assert(out@ =~= old(out)@.push(upper_digit(d as int)));
}

fn push_lower_digit(out: &mut String, d: usize)
    requires
        d < 16,
    ensures
        final(out)@ == old(out)@.push(lower_digit(d as int)),
{
    proof {
        reveal_strlit("0123456789abcdef");
    }
    let digit: &str = "0123456789abcdef".substring_ascii(d, d + 1);
    out.append(digit);
    assert(out@ =~= old(out)@.push(lower_digit(d as int)));
}

/// Appends `n` in decimal.
pub fn push_decimal(out: &mut String, n: u64)
    ensures
        final(out)@ == old(out)@ + decimal(n as nat),
{
    push_wide_decimal(out, n as u128);
}

/// Appends `n` in decimal.
pub fn push_wide_decimal(out: &mut String, n: u128)
    ensures
        final(out)@ == old(out)@ + decimal(n as nat),
    decreases n,
{
    if n >= 10 {
        push_wide_decimal(out, n / 10);
    }
    push_upper_digit(out, (n % 10) as usize);
    assert(out@ =~= old(out)@ + decimal(n as nat));
}

/// Appends the last `width` hexadecimal digits of `n`, in upper case.
pub fn push_upper_hex(out: &mut String, n: u32, width: u32)
    ensures
        final(out)@ == old(out)@ + upper_hex(n as nat, width as nat),
    decreases width,
{
    if width > 0 {
        push_upper_hex(out, n / 16, width - 1);
        push_upper_digit(out, (n % 16) as usize);
    }
    assert(out@ =~= old(out)@ + upper_hex(n as nat, width as nat));
}

/// Appends the two hexadecimal digits of `b`, in lower case.
pub fn push_lower_hex_byte(out: &mut String, b: u8)
    ensures
        final(out)@ == old(out)@ + lower_hex_byte(b),
{
    push_lower_digit(out, (b / 16) as usize);
    push_lower_digit(out, (b % 16) as usize);
    assert(out@ =~= old(out)@ + lower_hex_byte(b));
}

/// The value of a decimal or hexadecimal digit.
pub open spec fn digit_value(c: char) -> int {
    if '0' <= c <= '9' {
        c as int - '0' as int
    } else if 'A' <= c <= 'F' {
        c as int - 'A' as int + 10
    } else {
        c as int - 'a' as int + 10
    }
}

/// The number that digits spell in this base.
pub open spec fn digits_value(digits: Seq<char>, base: int) -> int
    decreases digits.len(),
{
    if digits.len() == 0 {
        0
    } else {
        digits_value(digits.drop_last(), base) * base + digit_value(digits.last())
    }
}

/// Digits stand for their values: decimal ones are `0` to `9`, and hexadecimal
/// ones go on with letters, of the case that was asked for.
pub proof fn digits_have_their_values(d: int)
    requires
        0 <= d < 16,
    ensures
        digit_value(upper_digit(d)) == d,
        digit_value(lower_digit(d)) == d,
        d < 10 ==> '0' <= upper_digit(d) <= '9' && '0' <= lower_digit(d) <= '9',
        d >= 10 ==> 'A' <= upper_digit(d) <= 'F' && 'a' <= lower_digit(d) <= 'f',
{
    reveal_strlit("0123456789ABCDEF");
    reveal_strlit("0123456789abcdef");
}

/// The decimal text of a number spells that number, in decimal digits, and
/// starts with a zero only if it is the number zero.
pub proof fn decimal_spells_the_number(n: nat)
    ensures
        digits_value(decimal(n), 10) == n,
        decimal(n).len() > 0,
        forall|i: int| 0 <= i < decimal(n).len() ==> '0' <= #[trigger] decimal(n)[i] <= '9',
        decimal(n)[0] == '0' ==> n == 0,
    decreases n,
{
    digits_have_their_values((n % 10) as int);
    if n < 10 {
        digits_have_their_values(n as int);
        assert(decimal(n).drop_last() =~= Seq::empty());
        assert(digits_value(decimal(n).drop_last(), 10) == 0);
    } else {
        decimal_spells_the_number(n / 10);
        assert(decimal(n).drop_last() =~= decimal(n / 10));
        assert(decimal(n)[0] == decimal(n / 10)[0]);
    }
}

/// The hexadecimal text of a number has as many digits as were asked for, with
/// letters in upper case, and spells the number, if they are enough.
pub proof fn hexadecimal_spells_the_number(n: nat, width: nat)
    ensures
        upper_hex(n, width).len() == width,
        forall|i: int|
            0 <= i < width ==> '0' <= #[trigger] upper_hex(n, width)[i] <= '9' || 'A' <= upper_hex(
                n,
                width,
            )[i] <= 'F',
        width == 2 && n < 0x100 ==> digits_value(upper_hex(n, width), 16) == n,
        width == 8 && n < 0x1_0000_0000 ==> digits_value(upper_hex(n, width), 16) == n,
{
    lemma_upper_hex(n, width);
    reveal_with_fuel(sixteens, 9);
}

/// 16 to the power `width`.
spec fn sixteens(width: nat) -> int
    decreases width,
{
    if width == 0 {
        1
    } else {
        16 * sixteens((width - 1) as nat)
    }
}

proof fn lemma_upper_hex(n: nat, width: nat)
    ensures
        upper_hex(n, width).len() == width,
        forall|i: int|
            0 <= i < width ==> '0' <= #[trigger] upper_hex(n, width)[i] <= '9' || 'A' <= upper_hex(
                n,
                width,
            )[i] <= 'F',
        n < sixteens(width) ==> digits_value(upper_hex(n, width), 16) == n,
    decreases width,
{
    if width > 0 {
        digits_have_their_values((n % 16) as int);
        lemma_upper_hex(n / 16, (width - 1) as nat);
        assert(upper_hex(n, width).drop_last() =~= upper_hex(n / 16, (width - 1) as nat));
    }
}

/// The two digits of a byte spell it, with letters in lower case.
pub proof fn byte_digits_spell_the_byte(b: u8)
    ensures
        lower_hex_byte(b).len() == 2,
        digit_value(lower_hex_byte(b)[0]) * 16 + digit_value(lower_hex_byte(b)[1]) == b,
        forall|i: int|
            0 <= i < 2 ==> '0' <= #[trigger] lower_hex_byte(b)[i] <= '9' || 'a' <= lower_hex_byte(
                b,
            )[i] <= 'f',
{
    digits_have_their_values(b as int / 16);
    digits_have_their_values(b as int % 16);
}

} // verus!
