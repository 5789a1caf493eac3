//! Decimal text of integers: rendering, and parsing with the rules of the
//! standard library's `from_str` for `u16` and `i32`.

use vstd::prelude::*;
use vstd::string::*;

verus! {

/// Why a decimal integer could not be parsed, in the standard library's
/// terms.
#[derive(Debug, Clone, Copy, PartialEq, Eq, Structural)]
pub enum IntErrorKind {
    /// The text is empty.
    Empty,
    /// A character is not a decimal digit (or a sign stands alone).
    InvalidDigit,
    /// The value is above the type's maximum.
    PosOverflow,
    /// The value is below the type's minimum.
    NegOverflow,
}

/// The standard library's message for each kind.
pub open spec fn int_error_text(k: IntErrorKind) -> Seq<char> {
    match k {
        IntErrorKind::Empty => "cannot parse integer from empty string"@,
        IntErrorKind::InvalidDigit => "invalid digit found in string"@,
        IntErrorKind::PosOverflow => "number too large to fit in target type"@,
        IntErrorKind::NegOverflow => "number too small to fit in target type"@,
    }
}

pub open spec fn is_digit(c: char) -> bool {
    '0' <= c && c <= '9'
}

pub open spec fn digit_value(c: char) -> int {
    c as int - '0' as int
}

pub open spec fn digit_char(d: int) -> char {
    ((d + '0' as int) as u32) as char
}

/// Decimal digits of `n`, most significant first, without leading zeros.
pub open spec fn decimal(n: nat) -> Seq<char>
    decreases n,
{
    if n < 10 {
        seq![digit_char(n as int)]
    } else {
        decimal(n / 10).push(digit_char((n % 10) as int))
    }
}

/// Reads the digits `ds` after an accumulated magnitude `acc`, stopping at
/// the first character that is not a digit or that takes the magnitude past
/// `limit` (the digit check comes first at each character).
pub open spec fn accumulate(ds: Seq<char>, acc: int, limit: int) -> Result<int, IntErrorKind>
    decreases ds.len(),
{
    if ds.len() == 0 {
        Ok(acc)
    } else if !is_digit(ds[0]) {
        Err(IntErrorKind::InvalidDigit)
    } else if acc * 10 + digit_value(ds[0]) > limit {
        Err(IntErrorKind::PosOverflow)
    } else {
        accumulate(ds.drop_first(), acc * 10 + digit_value(ds[0]), limit)
    }
}

/// `u16::from_str`: an optional `+`, then one or more decimal digits.
pub open spec fn spec_parse_u16(s: Seq<char>) -> Result<u16, IntErrorKind> {
    if s.len() == 0 {
        Err(IntErrorKind::Empty)
    } else if (s[0] == '+' || s[0] == '-') && s.len() == 1 {
        Err(IntErrorKind::InvalidDigit)
    } else {
        let digits = if s[0] == '+' {
            s.drop_first()
        } else {
            s
        };
        match accumulate(digits, 0, 65535) {
            Ok(v) => Ok(v as u16),
            Err(k) => Err(k),
        }
    }
}

/// `i32::from_str`: an optional `+` or `-`, then one or more decimal digits.
pub open spec fn spec_parse_i32(s: Seq<char>) -> Result<i32, IntErrorKind> {
    if s.len() == 0 {
        Err(IntErrorKind::Empty)
    } else if (s[0] == '+' || s[0] == '-') && s.len() == 1 {
        Err(IntErrorKind::InvalidDigit)
    } else if s[0] == '-' {
        match accumulate(s.drop_first(), 0, 2147483648) {
            Ok(v) => Ok((-v) as i32),
            Err(IntErrorKind::PosOverflow) => Err(IntErrorKind::NegOverflow),
            Err(k) => Err(k),
        }
    } else {
        let digits = if s[0] == '+' {
            s.drop_first()
        } else {
            s
        };
        match accumulate(digits, 0, 2147483647) {
            Ok(v) => Ok(v as i32),
            Err(k) => Err(k),
        }
    }
}

/// A successful accumulation stays within the limit and does not go below
/// its start.
pub proof fn lemma_accumulate_bounds(ds: Seq<char>, acc: int, limit: int)
    requires
        0 <= acc,
    ensures
        accumulate(ds, acc, limit) matches Ok(v) ==> acc <= v && (ds.len() > 0 ==> v <= limit)
            && (ds.len() == 0 ==> v == acc),
    decreases ds.len(),
{
    if ds.len() > 0 && is_digit(ds[0]) && acc * 10 + digit_value(ds[0]) <= limit {
        assert(acc <= acc * 10 + digit_value(ds[0])) by (nonlinear_arith)
            requires
                0 <= acc,
                0 <= digit_value(ds[0]),
        ;
        lemma_accumulate_bounds(ds.drop_first(), acc * 10 + digit_value(ds[0]), limit);
    }
}

/// Reads the decimal magnitude of `chars[start..]` up to `limit`.
fn accumulate_exec(chars: &Vec<char>, start: usize, limit: u32) -> (r: Result<u32, IntErrorKind>)
    requires
        start <= chars.len(),
        limit <= 2147483648,
    ensures
        r == (match accumulate(chars@.subrange(start as int, chars@.len() as int), 0, limit as int) {
            Ok(v) => Ok(v as u32),
            Err(k) => Err(k),
        }),
        accumulate(chars@.subrange(start as int, chars@.len() as int), 0, limit as int) matches Ok(
            v,
        ) ==> 0 <= v <= limit,
{
    let ghost full = chars@.subrange(start as int, chars@.len() as int);
    let mut acc: u32 = 0;
    let mut i = start;
    assert(chars@.subrange(i as int, chars@.len() as int) == full);
    while i < chars.len()
        invariant
            start <= i <= chars.len(),
            limit <= 2147483648,
            acc <= limit,
            full == chars@.subrange(start as int, chars@.len() as int),
            accumulate(full, 0, limit as int) == accumulate(
                chars@.subrange(i as int, chars@.len() as int),
                acc as int,
                limit as int,
            ),
        decreases chars.len() - i,
    {
        let ghost rest = chars@.subrange(i as int, chars@.len() as int);
        assert(rest[0] == chars@[i as int]);
        assert(rest.drop_first() =~= chars@.subrange(i + 1, chars@.len() as int));
        let c = chars[i];
        if !('0' <= c && c <= '9') {
            return Err(IntErrorKind::InvalidDigit);
        }
        let d = (c as u32) - ('0' as u32);
        if (acc as u64) * 10 + (d as u64) > limit as u64 {
            return Err(IntErrorKind::PosOverflow);
        }
        acc = acc * 10 + d;
        i = i + 1;
    }
    proof {
        lemma_accumulate_bounds(full, 0, limit as int);
        assert(chars@.subrange(i as int, chars@.len() as int).len() == 0);
    }
    Ok(acc)
}

/// `u16::from_str` on the characters of `s`.
pub fn parse_u16(s: &Vec<char>) -> (r: Result<u16, IntErrorKind>)
    ensures
        r == spec_parse_u16(s@),
{
    let n = s.len();
    if n == 0 {
        return Err(IntErrorKind::Empty);
    }
    if (s[0] == '+' || s[0] == '-') && n == 1 {
        return Err(IntErrorKind::InvalidDigit);
    }
    let start: usize = if s[0] == '+' {
        1
    } else {
        0
    };
    proof {
        if s@[0] == '+' {
            assert(s@.drop_first() =~= s@.subrange(1, n as int));
        } else {
            assert(s@ =~= s@.subrange(0, n as int));
        }
    }
    match accumulate_exec(s, start, 65535) {
        Ok(v) => Ok(v as u16),
        Err(k) => Err(k),
    }
}

/// `i32::from_str` on the characters of `s`.
pub fn parse_i32(s: &Vec<char>) -> (r: Result<i32, IntErrorKind>)
    ensures
        r == spec_parse_i32(s@),
{
    let n = s.len();
    if n == 0 {
        return Err(IntErrorKind::Empty);
    }
    if (s[0] == '+' || s[0] == '-') && n == 1 {
        return Err(IntErrorKind::InvalidDigit);
    }
    if s[0] == '-' {
        assert(s@.drop_first() =~= s@.subrange(1, n as int));
        match accumulate_exec(s, 1, 2147483648) {
            Ok(v) => {
                if v == 2147483648 {
                    Ok(-2147483648i32)
                } else {
                    Ok(-(v as i32))
                }
            },
            Err(IntErrorKind::PosOverflow) => Err(IntErrorKind::NegOverflow),
            Err(k) => Err(k),
        }
    } else {
        let start: usize = if s[0] == '+' {
            1
        } else {
            0
        };
        proof {
            if s@[0] == '+' {
                assert(s@.drop_first() =~= s@.subrange(1, n as int));
            } else {
                assert(s@ =~= s@.subrange(0, n as int));
            }
        }
        match accumulate_exec(s, start, 2147483647) {
            Ok(v) => Ok(v as i32),
            Err(k) => Err(k),
        }
    }
}

/// The one-character text of digit `d`.
fn digit_str(d: u32) -> (r: &'static str)
    requires
        d < 10,
    ensures
        r@ == seq![digit_char(d as int)],
{
    proof {
        reveal_strlit("0");
        reveal_strlit("1");
        reveal_strlit("2");
        reveal_strlit("3");
        reveal_strlit("4");
        reveal_strlit("5");
        reveal_strlit("6");
        reveal_strlit("7");
        reveal_strlit("8");
        reveal_strlit("9");
    }
    match d {
        0 => "0",
        1 => "1",
        2 => "2",
        3 => "3",
        4 => "4",
        5 => "5",
        6 => "6",
        7 => "7",
        8 => "8",
        _ => "9",
    }
}

/// Appends the decimal digits of `n` to `out`.
pub fn push_decimal(out: &mut String, n: u32)
    ensures
        final(out)@ == old(out)@ + decimal(n as nat),
    decreases n,
{
    if n >= 10 {
        push_decimal(out, n / 10);
    }
    out.append(digit_str(n % 10));
    proof {
        if n >= 10 {
            assert(decimal(n as nat) == decimal((n / 10) as nat).push(digit_char((n % 10) as int)));
        }
    }
    assert(final(out)@ =~= old(out)@ + decimal(n as nat));
}

/// Digits of a decimal rendering are digits.
pub proof fn lemma_decimal_digits(n: nat)
    ensures
        decimal(n).len() > 0,
        forall|i: int| 0 <= i < decimal(n).len() ==> is_digit(#[trigger] decimal(n)[i]),
    decreases n,
{
    if n >= 10 {
        lemma_decimal_digits(n / 10);
    }
}

/// Accumulating digits one more step: reading `ds` then the digit `c`.
pub proof fn lemma_accumulate_push(ds: Seq<char>, c: char, acc: int, limit: int)
    requires
        is_digit(c),
        accumulate(ds, acc, limit) matches Ok(v) && v * 10 + digit_value(c) <= limit,
    ensures
        accumulate(ds.push(c), acc, limit) == Ok::<int, IntErrorKind>(
            accumulate(ds, acc, limit)->Ok_0 * 10 + digit_value(c),
        ),
    decreases ds.len(),
{
    if ds.len() == 0 {
        assert(ds.push(c).drop_first() =~= Seq::<char>::empty());
        assert(ds.push(c)[0] == c);
        assert(accumulate(Seq::<char>::empty(), acc * 10 + digit_value(c), limit) == Ok::<
            int,
            IntErrorKind,
        >(acc * 10 + digit_value(c)));
    } else {
        let next = acc * 10 + digit_value(ds[0]);
        assert(ds.push(c)[0] == ds[0]);
        assert(ds.push(c).drop_first() =~= ds.drop_first().push(c));
        assert(accumulate(ds, acc, limit) == accumulate(ds.drop_first(), next, limit));
        lemma_accumulate_push(ds.drop_first(), c, next, limit);
        assert(accumulate(ds.push(c), acc, limit) == accumulate(
            ds.push(c).drop_first(),
            next,
            limit,
        ));
    }
}

/// Reading back the decimal rendering of `n` gives `n`, for `n` within the
/// limit.
pub proof fn lemma_accumulate_decimal(n: nat, limit: int)
    requires
        n <= limit,
    ensures
        accumulate(decimal(n), 0, limit) == Ok::<int, IntErrorKind>(n as int),
    decreases n,
{
    if n < 10 {
        let c = digit_char(n as int);
        assert(decimal(n) == seq![c]);
        assert(decimal(n).drop_first() =~= Seq::<char>::empty());
        assert(digit_value(c) == n);
        assert(accumulate(Seq::<char>::empty(), n as int, limit) == Ok::<int, IntErrorKind>(
            n as int,
        ));
    } else {
        lemma_accumulate_decimal(n / 10, limit);
        assert((n / 10) * 10 + n % 10 == n);
        lemma_accumulate_push(decimal(n / 10), digit_char((n % 10) as int), 0, limit);
    }
}

/// Round trip: `u16::from_str` reads back the decimal rendering of any port
/// number.
pub proof fn lemma_parse_u16_decimal(n: u16)
    ensures
        spec_parse_u16(decimal(n as nat)) == Ok::<u16, IntErrorKind>(n),
{
    lemma_decimal_digits(n as nat);
    lemma_accumulate_decimal(n as nat, 65535);
    assert(is_digit(decimal(n as nat)[0]));
}

} // verus!
