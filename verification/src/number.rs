//! Decimal and hexadecimal text of integers, and the decimal parsing of
//! port numbers.

use vstd::prelude::*;

verus! {

/// The character that stands for the digit `d` (lower-case for `10..16`).
pub open spec fn digit_char(d: nat) -> char {
    if d == 0 { '0' } else if d == 1 { '1' } else if d == 2 { '2' } else if d == 3 { '3' }
    else if d == 4 { '4' } else if d == 5 { '5' } else if d == 6 { '6' } else if d == 7 { '7' }
    else if d == 8 { '8' } else if d == 9 { '9' } else if d == 10 { 'a' } else if d == 11 { 'b' }
    else if d == 12 { 'c' } else if d == 13 { 'd' } else if d == 14 { 'e' } else { 'f' }
}

/// The numeric value of a decimal digit character.
pub open spec fn digit_value(c: char) -> Option<nat> {
    if '0' <= c && c <= '9' { Some((c as nat - '0' as nat) as nat) } else { None }
}

/// Text of `n` in base `base`, most significant digit first, without
/// leading zeros (`0` is written as a single digit).
pub open spec fn in_base(n: nat, base: nat) -> Seq<char>
    decreases n,
{
    if base <= 1 || n < base {
        seq![digit_char(n)]
    } else {
        proof {
            assert(n / base < n) by (nonlinear_arith)
                requires
                    base > 1,
                    n >= base,
            ;
        }
        in_base(n / base, base).push(digit_char(n % base))
    }
}

/// Decimal text of `n`.
pub open spec fn decimal(n: nat) -> Seq<char> {
    in_base(n, 10)
}

/// Lower-case hexadecimal text of `n`, as `{:x}` writes it.
pub open spec fn hex(n: nat) -> Seq<char> {
    in_base(n, 16)
}

/// Decimal text of a signed integer, with a leading `-` when negative.
pub open spec fn signed_decimal(n: int) -> Seq<char> {
    if n < 0 {
        seq!['-'] + decimal((-n) as nat)
    } else {
        decimal(n as nat)
    }
}

fn digit(d: u64) -> (c: char)
    requires
        d < 16,
    ensures
        c == digit_char(d as nat),
{
    if d == 0 { '0' } else if d == 1 { '1' } else if d == 2 { '2' } else if d == 3 { '3' }
    else if d == 4 { '4' } else if d == 5 { '5' } else if d == 6 { '6' } else if d == 7 { '7' }
    else if d == 8 { '8' } else if d == 9 { '9' } else if d == 10 { 'a' } else if d == 11 { 'b' }
    else if d == 12 { 'c' } else if d == 13 { 'd' } else if d == 14 { 'e' } else { 'f' }
}

/// Appends the text of `n` in base `base` to `out`.
pub fn push_in_base(out: &mut Vec<char>, n: u64, base: u64)
    requires
        2 <= base <= 16,
    ensures
        final(out)@ == old(out)@ + in_base(n as nat, base as nat),
    decreases n,
{
    let ghost before = out@;
    if n >= base {
        assert(n / base < n) by (nonlinear_arith)
            requires
                n >= base,
                base >= 2,
        ;
        push_in_base(out, n / base, base);
        out.push(digit(n % base));
        assert(in_base(n as nat, base as nat) == in_base((n / base) as nat, base as nat).push(
            digit_char((n % base) as nat),
        ));
        assert(out@ =~= before + in_base(n as nat, base as nat));
    } else {
        out.push(digit(n % base));
        proof {
            vstd::arithmetic::div_mod::lemma_small_mod(n as nat, base as nat);
        }
        assert(out@ =~= before + in_base(n as nat, base as nat));
    }
}

/// Appends the decimal text of `n` to `out`.
pub fn push_decimal(out: &mut Vec<char>, n: u64)
    ensures
        final(out)@ == old(out)@ + decimal(n as nat),
{
    push_in_base(out, n, 10);
}

/// Appends the lower-case hexadecimal text of `n` to `out`.
pub fn push_hex(out: &mut Vec<char>, n: u64)
    ensures
        final(out)@ == old(out)@ + hex(n as nat),
{
    push_in_base(out, n, 16);
}

/// Appends the decimal text of the signed `n` to `out`.
pub fn push_signed_decimal(out: &mut Vec<char>, n: i64)
    ensures
        final(out)@ == old(out)@ + signed_decimal(n as int),
{
    if n < 0 {
        out.push('-');
        let magnitude: u64 = if n == i64::MIN { 9223372036854775808u64 } else { (-n) as u64 };
        push_decimal(out, magnitude);
        assert(final(out)@ =~= old(out)@ + signed_decimal(n as int));
    } else {
        push_decimal(out, n as u64);
    }
}

/// Why a text is not a number, as `std`'s integer parsing reports it.
#[derive(Debug, Clone, Copy, PartialEq, Eq, Structural)]
pub enum IntErrorKind {
    /// The text is empty.
    Empty,
    /// A character that is not a decimal digit, or a lone sign.
    InvalidDigit,
    /// The value does not fit in the target type.
    PosOverflow,
}

/// Reads the decimal digits of `s` after an accumulated value `acc`, left
/// to right, failing at the first character that is not a digit or at the
/// first digit that takes the value above `u16::MAX`.
pub open spec fn accumulate_u16(acc: nat, s: Seq<char>) -> Result<nat, IntErrorKind>
    decreases s.len(),
{
    if s.len() == 0 {
        Ok(acc)
    } else {
        match digit_value(s[0]) {
            None => Err(IntErrorKind::InvalidDigit),
            Some(d) => if acc * 10 + d > 65535 {
                Err(IntErrorKind::PosOverflow)
            } else {
                accumulate_u16(acc * 10 + d, s.drop_first())
            },
        }
    }
}

/// What `str::parse::<u16>` gives for the text `s`: an optional `+`, then
/// decimal digits only.
pub open spec fn parse_u16_spec(s: Seq<char>) -> Result<u16, IntErrorKind> {
    if s.len() == 0 {
        Err(IntErrorKind::Empty)
    } else if s.len() == 1 && (s[0] == '+' || s[0] == '-') {
        Err(IntErrorKind::InvalidDigit)
    } else {
        let digits = if s[0] == '+' { s.drop_first() } else { s };
        match accumulate_u16(0, digits) {
            Ok(v) => Ok(v as u16),
            Err(e) => Err(e),
        }
    }
}

/// Reading one more character after `s`.
proof fn lemma_accumulate_push(acc: nat, s: Seq<char>, c: char)
    ensures
        accumulate_u16(acc, s.push(c)) == match accumulate_u16(acc, s) {
            Ok(v) => match digit_value(c) {
                None => Err(IntErrorKind::InvalidDigit),
                Some(d) => if v * 10 + d > 65535 {
                    Err(IntErrorKind::PosOverflow)
                } else {
                    Ok(v * 10 + d)
                },
            },
            Err(e) => Err(e),
        },
    decreases s.len(),
{
    if s.len() == 0 {
        assert(s.push(c).drop_first() =~= Seq::<char>::empty());
        if let Some(d) = digit_value(c) {
            assert(accumulate_u16(acc * 10 + d, Seq::<char>::empty()) == Ok::<nat, IntErrorKind>(
                acc * 10 + d,
            ));
        }
    } else {
        assert(s.push(c).drop_first() =~= s.drop_first().push(c));
        assert(s.push(c)[0] == s[0]);
        if let Some(d) = digit_value(s[0]) {
            if acc * 10 + d <= 65535 {
                lemma_accumulate_push(acc * 10 + d, s.drop_first(), c);
            }
        }
    }
}

proof fn lemma_accumulate_decimal(n: nat)
    requires
        n <= 65535,
    ensures
        accumulate_u16(0, decimal(n)) == Ok::<nat, IntErrorKind>(n),
        decimal(n).len() > 0,
        digit_value(decimal(n)[0]) is Some,
    decreases n,
{
    let d = n % 10;
    assert(digit_value(digit_char(d)) == Some(d)) by {
        assert(d < 10);
    }
    if n < 10 {
        assert(decimal(n) == seq![digit_char(n)]);
        assert(seq![digit_char(n)].drop_first() =~= Seq::<char>::empty());
        assert(n % 10 == n);
        assert(accumulate_u16(n, Seq::<char>::empty()) == Ok::<nat, IntErrorKind>(n));
    } else {
        lemma_accumulate_decimal(n / 10);
        lemma_accumulate_push(0, decimal(n / 10), digit_char(d));
        assert(decimal(n) == decimal(n / 10).push(digit_char(d)));
        assert((n / 10) * 10 + d == n);
        assert(decimal(n)[0] == decimal(n / 10)[0]);
    }
}

/// Reading back the decimal text of a port gives the port: the text that
/// `push_decimal` writes is the text that `parse_u16` accepts for it.
pub proof fn lemma_parse_decimal_u16(n: u16)
    ensures
        parse_u16_spec(decimal(n as nat)) == Ok::<u16, IntErrorKind>(n),
{
    lemma_accumulate_decimal(n as nat);
    let s = decimal(n as nat);
    assert(s[0] != '+' && s[0] != '-');
}

/// Parses a port number the way `str::parse::<u16>` does.
pub fn parse_u16(s: &Vec<char>) -> (res: Result<u16, IntErrorKind>)
    ensures
        res == parse_u16_spec(s@),
{
    let n = s.len();
    if n == 0 {
        return Err(IntErrorKind::Empty);
    }
    if n == 1 && (s[0] == '+' || s[0] == '-') {
        return Err(IntErrorKind::InvalidDigit);
    }
    let start: usize = if s[0] == '+' { 1 } else { 0 };
    let ghost digits = if s@[0] == '+' { s@.drop_first() } else { s@ };
    assert(digits =~= s@.skip(start as int));
    let mut acc: u32 = 0;
    let mut i: usize = start;
    while i < n
        invariant
            start <= i <= n,
            n == s@.len(),
            acc <= 65535,
            digits == s@.skip(start as int),
            accumulate_u16(0, digits) == accumulate_u16(acc as nat, s@.skip(i as int)),
            parse_u16_spec(s@) == match accumulate_u16(0, digits) {
                Ok(v) => Ok(v as u16),
                Err(e) => Err::<u16, IntErrorKind>(e),
            },
        decreases n - i,
    {
        let c = s[i];
        assert(s@.skip(i as int)[0] == c);
        assert(s@.skip(i as int).drop_first() =~= s@.skip(i + 1));
        if c < '0' || c > '9' {
            assert(digit_value(c) is None);
            assert(accumulate_u16(acc as nat, s@.skip(i as int)) == Err::<nat, IntErrorKind>(
                IntErrorKind::InvalidDigit,
            ));
            return Err(IntErrorKind::InvalidDigit);
        }
        let d: u32 = (c as u32) - ('0' as u32);
        assert(digit_value(c) == Some(d as nat));
        if acc * 10 + d > 65535 {
            assert(accumulate_u16(acc as nat, s@.skip(i as int)) == Err::<nat, IntErrorKind>(
                IntErrorKind::PosOverflow,
            ));
            return Err(IntErrorKind::PosOverflow);
        }
        acc = acc * 10 + d;
        i = i + 1;
    }
    assert(s@.skip(n as int).len() == 0);
    assert(accumulate_u16(acc as nat, s@.skip(n as int)) == Ok::<nat, IntErrorKind>(acc as nat));
    Ok(acc as u16)
}

/// The message that `std` prints for each way a number fails to parse.
pub open spec fn int_error_message(kind: IntErrorKind) -> Seq<char> {
    match kind {
        IntErrorKind::Empty => "cannot parse integer from empty string"@,
        IntErrorKind::InvalidDigit => "invalid digit found in string"@,
        IntErrorKind::PosOverflow => "number too large to fit in target type"@,
    }
}

impl IntErrorKind {
    /// The text of this error, as the standard library displays it.
    pub fn message(&self) -> (res: &'static str)
        ensures
            res@ == int_error_message(*self),
    {
        match self {
            IntErrorKind::Empty => "cannot parse integer from empty string",
            IntErrorKind::InvalidDigit => "invalid digit found in string",
            IntErrorKind::PosOverflow => "number too large to fit in target type",
        }
    }
}

} // verus!
