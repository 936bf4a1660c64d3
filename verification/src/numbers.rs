//! Numbers as text: decimal and hexadecimal, written and read.
use crate::wire::be32;
use vstd::prelude::*;

verus! {

/// The digit `d`, in lower case where it is a letter.
pub open spec fn digit_char(d: int) -> char {
    if d < 10 {
        (48 + d) as char
    } else {
        (87 + d) as char
    }
}

/// `n` written in decimal, without leading zeros.
pub open spec fn decimal(n: int) -> Seq<char>
    decreases n,
{
    if n < 10 {
        seq![digit_char(n)]
    } else {
        decimal(n / 10).push(digit_char(n % 10))
    }
}

/// Two lower-case hexadecimal digits per byte.
pub open spec fn hex_bytes(bytes: Seq<u8>) -> Seq<char>
    decreases bytes.len(),
{
    if bytes.len() == 0 {
        Seq::empty()
    } else {
        hex_bytes(bytes.drop_last()) + seq![
            digit_char(bytes.last() as int / 16),
            digit_char(bytes.last() as int % 16),
        ]
    }
}

/// Whether `c` is a lower-case hexadecimal digit.
pub open spec fn is_lower_hex(c: char) -> bool {
    ('0' <= c && c <= '9') || ('a' <= c && c <= 'f')
}

fn digit(d: u8) -> (c: char)
    requires
        d < 16,
    ensures
        c == digit_char(d as int),
{
    if d < 10 {
        (48 + d) as char
    } else {
        (87 + d) as char
    }
}

/// Appends a number in decimal.
pub fn push_decimal(s: &mut String, n: u64)
    ensures
        final(s)@ == old(s)@ + decimal(n as int),
    decreases n,
{
    if n >= 10 {
        push_decimal(s, n / 10);
    }
    s.push(digit((n % 10) as u8));
    assert(s@ =~= old(s)@ + decimal(n as int));
}

/// A number in decimal.
pub fn decimal_of(n: u64) -> (s: String)
    ensures
        s@ == decimal(n as int),
{
    let mut s = String::new();
    push_decimal(&mut s, n);
    assert(s@ =~= decimal(n as int));
    s
}

/// Bytes in hexadecimal.
pub fn hex_of(bytes: &[u8]) -> (s: String)
    ensures
        s@ == hex_bytes(bytes@),
{
    let mut s = String::new();
    let mut i: usize = 0;
    while i < bytes.len()
        invariant
            i <= bytes.len(),
            s@ == hex_bytes(bytes@.take(i as int)),
        decreases bytes.len() - i,
    {
        s.push(digit(bytes[i] / 16));
        s.push(digit(bytes[i] % 16));
        i += 1;
        assert(bytes@.take(i as int).drop_last() =~= bytes@.take(i - 1));
        assert(s@ =~= hex_bytes(bytes@.take(i as int)));
    }
    assert(bytes@.take(bytes.len() as int) =~= bytes@);
    s
}

/// A 32-bit number as eight hexadecimal digits.
pub fn hex8_of(n: u32) -> (s: String)
    ensures
        s@ == hex_bytes(be32(n as int)),
{
    let mut bytes: Vec<u8> = Vec::new();
    crate::wire::push_be32(&mut bytes, n);
    assert(bytes@ =~= be32(n as int));
    hex_of(&bytes)
}

/// Hexadecimal text has two lower-case digits per byte.
pub proof fn law_hex_is_two_digits_per_byte(bytes: Seq<u8>)
    ensures
        hex_bytes(bytes).len() == 2 * bytes.len(),
        forall|i: int| 0 <= i < 2 * bytes.len() ==> is_lower_hex(#[trigger] hex_bytes(bytes)[i]),
    decreases bytes.len(),
{
    if bytes.len() > 0 {
        law_hex_is_two_digits_per_byte(bytes.drop_last());
    }
}

/// Different bytes have different hexadecimal texts.
pub proof fn law_hex_is_injective(a: Seq<u8>, b: Seq<u8>)
    requires
        hex_bytes(a) == hex_bytes(b),
    ensures
        a == b,
    decreases a.len(),
{
    law_hex_is_two_digits_per_byte(a);
    law_hex_is_two_digits_per_byte(b);
    if a.len() > 0 {
        let ha = hex_bytes(a);
        let hb = hex_bytes(b);
        assert(ha.drop_last().drop_last() =~= hex_bytes(a.drop_last()));
        assert(hb.drop_last().drop_last() =~= hex_bytes(b.drop_last()));
        law_hex_is_injective(a.drop_last(), b.drop_last());
        let n = ha.len();
        assert(ha[n - 1] == digit_char(a.last() as int % 16));
        assert(hb[n - 1] == digit_char(b.last() as int % 16));
        assert(ha[n - 2] == digit_char(a.last() as int / 16));
        assert(hb[n - 2] == digit_char(b.last() as int / 16));
        lemma_digit_char_injective(a.last() as int % 16, b.last() as int % 16);
        lemma_digit_char_injective(a.last() as int / 16, b.last() as int / 16);
        assert(a.last() == b.last());
        assert(a =~= a.drop_last().push(a.last()));
        assert(b =~= b.drop_last().push(b.last()));
    } else {
        assert(a =~= b);
    }
}

proof fn lemma_digit_char_injective(d: int, e: int)
    requires
        0 <= d < 16,
        0 <= e < 16,
        digit_char(d) == digit_char(e),
    ensures
        d == e,
{
}

/// Why a text is no number.
#[derive(Debug, Clone, Copy, PartialEq, Eq, Structural)]
pub enum NumberError {
    /// There is no text.
    Empty,
    /// A character is no digit.
    InvalidDigit,
    /// The number is too large.
    TooLarge,
}

/// The value of a digit in base 10 or 16.
pub open spec fn digit_value(c: char, base: int) -> Option<int> {
    if '0' <= c && c <= '9' {
        Some(c as int - 48)
    } else if base == 16 && 'a' <= c && c <= 'f' {
        Some(c as int - 87)
    } else if base == 16 && 'A' <= c && c <= 'F' {
        Some(c as int - 55)
    } else {
        None
    }
}

/// How many digits a text starts with.
pub open spec fn digit_run(s: Seq<char>, base: int) -> int
    decreases s.len(),
{
    if s.len() == 0 || digit_value(s[0], base) is None {
        0
    } else {
        1 + digit_run(s.skip(1), base)
    }
}

/// The number that digits stand for.
pub open spec fn digits_value(s: Seq<char>, base: int) -> int
    decreases s.len(),
{
    if s.len() == 0 {
        0
    } else {
        digits_value(s.drop_last(), base) * base + digit_value(s.last(), base)->0
    }
}

/// The text behind a plus sign, if there is one.
pub open spec fn unsigned_part(s: Seq<char>) -> Seq<char> {
    if s.len() > 1 && s[0] == '+' {
        s.skip(1)
    } else {
        s
    }
}

/// The number up to `max` that a text stands for: digits, with an optional plus sign before them.
/// Of two faults the one further left counts.
pub open spec fn parsed_number(s: Seq<char>, base: int, max: int) -> Result<int, NumberError> {
    let body = unsigned_part(s);
    let run = body.take(digit_run(body, base));
    if s.len() == 0 {
        Err(NumberError::Empty)
    } else if digits_value(run, base) > max {
        Err(NumberError::TooLarge)
    } else if run.len() < body.len() {
        Err(NumberError::InvalidDigit)
    } else {
        Ok(digits_value(run, base))
    }
}

proof fn lemma_digit_run(s: Seq<char>, base: int, i: int)
    requires
        0 <= i <= s.len(),
        forall|j: int| 0 <= j < i ==> digit_value(#[trigger] s[j], base) is Some,
    ensures
        i <= digit_run(s, base) <= s.len(),
        i < s.len() && digit_value(s[i], base) is None ==> digit_run(s, base) == i,
    decreases s.len(),
{
    if s.len() > 0 {
        if i > 0 {
            assert(digit_value(s[0], base) is Some);
            assert forall|j: int| 0 <= j < i - 1 implies digit_value(
                #[trigger] s.skip(1)[j],
                base,
            ) is Some by {
                assert(s.skip(1)[j] == s[j + 1]);
            }
            lemma_digit_run(s.skip(1), base, i - 1);
            if i < s.len() {
                assert(s.skip(1)[i - 1] == s[i]);
            }
        } else if digit_value(s[0], base) is Some {
            lemma_digit_run(s.skip(1), base, 0);
        }
    }
}

proof fn lemma_digit_run_all(s: Seq<char>, base: int, j: int)
    requires
        0 <= j < digit_run(s, base),
    ensures
        digit_run(s, base) <= s.len(),
        digit_value(s[j], base) is Some,
    decreases s.len(),
{
    if j > 0 {
        lemma_digit_run_all(s.skip(1), base, j - 1);
    } else if digit_run(s, base) > 1 {
        lemma_digit_run_all(s.skip(1), base, 0);
    }
}

/// More digits never make a smaller number.
proof fn lemma_digits_value_grows(s: Seq<char>, base: int, i: int)
    requires
        base == 10 || base == 16,
        0 <= i <= s.len(),
        forall|j: int| 0 <= j < s.len() ==> digit_value(#[trigger] s[j], base) is Some,
    ensures
        0 <= digits_value(s.take(i), base) <= digits_value(s, base),
    decreases s.len(),
{
    if i == s.len() {
        assert(s.take(i) =~= s);
        if s.len() > 0 {
            lemma_digits_value_grows(s.drop_last(), base, 0);
            let v = digits_value(s.drop_last(), base);
            assert(digit_value(s.last(), base) is Some);
            assert(0 <= v * base) by (nonlinear_arith)
                requires
                    0 <= v,
                    base > 0,
            ;
        }
    } else {
        lemma_digits_value_grows(s.drop_last(), base, i);
        assert(s.drop_last().take(i) =~= s.take(i));
        let v = digits_value(s.drop_last(), base);
        assert(digit_value(s.last(), base) is Some);
        assert(v <= v * base) by (nonlinear_arith)
            requires
                0 <= v,
                base >= 1,
        ;
    }
}

fn digit_value_of(c: char, base: u64) -> (d: Option<u64>)
    requires
        base == 10 || base == 16,
    ensures
        match d {
            Some(v) => digit_value(c, base as int) == Some(v as int) && v < base,
            None => digit_value(c, base as int) is None,
        },
{
    if '0' <= c && c <= '9' {
        Some(c as u64 - 48)
    } else if base == 16 && 'a' <= c && c <= 'f' {
        Some(c as u64 - 87)
    } else if base == 16 && 'A' <= c && c <= 'F' {
        Some(c as u64 - 55)
    } else {
        None
    }
}

/// Reads a number of at most `max` in base 10 or 16.
pub fn parse_number(chars: &[char], base: u64, max: u64) -> (res: Result<u64, NumberError>)
    requires
        base == 10 || base == 16,
    ensures
        match res {
            Ok(n) => n <= max && parsed_number(chars@, base as int, max as int) == Ok::<
                int,
                NumberError,
            >(n as int),
            Err(e) => parsed_number(chars@, base as int, max as int) == Err::<int, NumberError>(e),
        },
{
    if chars.len() == 0 {
        return Err(NumberError::Empty);
    }
    let start: usize = if chars.len() > 1 && chars[0] == '+' {
        1
    } else {
        0
    };
    let ghost body = unsigned_part(chars@);
    assert(chars@.skip(0) =~= chars@);
    assert(body == chars@.skip(start as int));
    let mut i: usize = start;
    let mut n: u64 = 0;
    assert(body.take(0) =~= Seq::empty());
    while i < chars.len()
        invariant
            start <= i <= chars.len(),
            chars@.len() > 0,
            base == 10 || base == 16,
            body == unsigned_part(chars@),
            body == chars@.skip(start as int),
            n <= max,
            n == digits_value(body.take(i - start), base as int),
            forall|j: int|
                0 <= j < i - start ==> digit_value(#[trigger] body[j], base as int) is Some,
        decreases chars.len() - i,
    {
        let ghost k = i - start;
        assert(body[k] == chars@[i as int]);
        proof {
            lemma_digit_run(body, base as int, k);
        }
        match digit_value_of(chars[i], base) {
            None => {
                return Err(NumberError::InvalidDigit);
            },
            Some(d) => {
                assert(body.take(k + 1).drop_last() =~= body.take(k));
                assert(n * base <= 0xffff_ffff_ffff_ffff * 16) by (nonlinear_arith)
                    requires
                        0 <= n <= 0xffff_ffff_ffff_ffff,
                        0 <= base <= 16,
                ;
                let next: u128 = n as u128 * base as u128 + d as u128;
                assert(next == digits_value(body.take(k + 1), base as int));
                if next > max as u128 {
                    proof {
                        lemma_digit_run(body, base as int, k + 1);
                        let run = body.take(digit_run(body, base as int));
                        assert forall|j: int| 0 <= j < run.len() implies digit_value(
                            #[trigger] run[j],
                            base as int,
                        ) is Some by {
                            lemma_digit_run_all(body, base as int, j);
                        }
                        lemma_digits_value_grows(run, base as int, k + 1);
                        assert(run.take(k + 1) =~= body.take(k + 1));
                    }
                    return Err(NumberError::TooLarge);
                }
                n = next as u64;
            },
        }
        i += 1;
    }
    proof {
        lemma_digit_run(body, base as int, body.len() as int);
    }
    Ok(n)
}

/// A text of nothing but digits is the number that they stand for, unless it is too large.
pub proof fn lemma_digits_are_parsed(s: Seq<char>, base: int, max: int)
    requires
        base == 10 || base == 16,
        s.len() > 0,
        forall|i: int| 0 <= i < s.len() ==> digit_value(#[trigger] s[i], base) is Some,
    ensures
        0 <= digits_value(s, base),
        parsed_number(s, base, max) == if digits_value(s, base) <= max {
            Ok::<int, NumberError>(digits_value(s, base))
        } else {
            Err(NumberError::TooLarge)
        },
{
    assert(digit_value(s[0], base) is Some);
    assert(s[0] != '+');
    lemma_digit_run(s, base, s.len() as int);
    assert(s.take(s.len() as int) =~= s);
    lemma_digits_value_grows(s, base, 0);
}

/// A number that was written in decimal is read back.
pub proof fn law_decimal_read_back(n: int, max: int)
    requires
        0 <= n <= max,
    ensures
        parsed_number(decimal(n), 10, max) == Ok::<int, NumberError>(n),
{
    lemma_decimal(n);
    lemma_digits_are_parsed(decimal(n), 10, max);
}

pub proof fn lemma_decimal(n: int)
    requires
        0 <= n,
    ensures
        decimal(n).len() > 0,
        digits_value(decimal(n), 10) == n,
        forall|j: int|
            0 <= j < decimal(n).len() ==> digit_value(#[trigger] decimal(n)[j], 10) is Some,
    decreases n,
{
    let s = decimal(n);
    let d = n % 10;
    assert(digit_value(digit_char(d), 10) == Some(d));
    if n >= 10 {
        lemma_decimal(n / 10);
        assert(s.drop_last() =~= decimal(n / 10));
        assert(s.last() == digit_char(d));
        assert(digits_value(s, 10) == n / 10 * 10 + d);
    } else {
        assert(s.last() == digit_char(d));
        assert(s.drop_last() =~= Seq::empty());
        assert(digits_value(s.drop_last(), 10) == 0);
    }
}

/// A number is written with its last digit last: ten times a number and a digit more is that number
/// with the digit behind it. Digits are `0` to `9`, and no number but zero starts with `0`.
pub proof fn law_decimal_appends_digits(n: int, d: int)
    requires
        0 <= n,
        0 <= d < 10,
    ensures
        decimal(d) == seq![(48 + d) as char],
        n > 0 ==> decimal(10 * n + d) == decimal(n).push((48 + d) as char),
        n > 0 ==> decimal(n)[0] != '0',
        forall|i: int|
            0 <= i < decimal(n).len() ==> '0' <= #[trigger] decimal(n)[i] && decimal(n)[i] <= '9',
    decreases n,
{
    assert(decimal(d) =~= seq![(48 + d) as char]);
    if n > 0 {
        assert((10 * n + d) / 10 == n && (10 * n + d) % 10 == d);
    }
    if n >= 10 {
        law_decimal_appends_digits(n / 10, 0);
        assert(decimal(n)[0] == decimal(n / 10)[0]) by {
            lemma_decimal(n / 10);
        }
        assert forall|i: int| 0 <= i < decimal(n).len() implies '0' <= #[trigger] decimal(n)[i]
            && decimal(n)[i] <= '9' by {
            if i < decimal(n / 10).len() {
                assert(decimal(n)[i] == decimal(n / 10)[i]);
            }
        }
    }
}

/// Bytes are written with their high digit first, and digits above nine are `a` to `f`.
pub proof fn law_hex_digits(bytes: Seq<u8>, i: int)
    requires
        0 <= i < bytes.len(),
    ensures
        ({
            let high = bytes[i] as int / 16;
            let low = bytes[i] as int % 16;
            &&& hex_bytes(bytes).len() == 2 * bytes.len()
            &&& hex_bytes(bytes)[2 * i] as int == if high < 10 {
                48 + high
            } else {
                87 + high
            }
            &&& hex_bytes(bytes)[2 * i + 1] as int == if low < 10 {
                48 + low
            } else {
                87 + low
            }
        }),
    decreases bytes.len(),
{
    law_hex_is_two_digits_per_byte(bytes);
    law_hex_is_two_digits_per_byte(bytes.drop_last());
    let before = hex_bytes(bytes.drop_last());
    if i < bytes.len() - 1 {
        law_hex_digits(bytes.drop_last(), i);
        assert(hex_bytes(bytes)[2 * i] == before[2 * i]);
        assert(hex_bytes(bytes)[2 * i + 1] == before[2 * i + 1]);
    }
}

/// A digit more behind digits makes the number ten, or sixteen, times as large and adds the value of
/// the digit; no digits stand for zero.
pub proof fn law_digits_are_weighted(s: Seq<char>, c: char)
    ensures
        digits_value(Seq::empty(), 10) == 0,
        digits_value(Seq::empty(), 16) == 0,
        '0' <= c && c <= '9' ==> digits_value(s.push(c), 10) == 10 * digits_value(s, 10) + (c as int
            - 48),
        '0' <= c && c <= '9' ==> digits_value(s.push(c), 16) == 16 * digits_value(s, 16) + (c as int
            - 48),
        'a' <= c && c <= 'f' ==> digits_value(s.push(c), 16) == 16 * digits_value(s, 16) + (c as int
            - 97 + 10),
        'A' <= c && c <= 'F' ==> digits_value(s.push(c), 16) == 16 * digits_value(s, 16) + (c as int
            - 65 + 10),
{
    assert(s.push(c).drop_last() =~= s);
}

/// Whether a text is made of the digits `0` to `9`.
pub open spec fn only_digits(s: Seq<char>) -> bool {
    forall|i: int| 0 <= i < s.len() ==> '0' <= #[trigger] s[i] && s[i] <= '9'
}

/// A text is a decimal number up to `max` if and only if it is made of digits, with at most one plus
/// sign before them, and they stand for no more than `max`; it is then the number that they stand
/// for.
pub proof fn law_numbers_are_digits(s: Seq<char>, max: int)
    requires
        0 <= max,
    ensures
        ({
            let digits = if s.len() > 1 && s[0] == '+' {
                s.skip(1)
            } else {
                s
            };
            let all = only_digits(digits);
            let parsed = parsed_number(s, 10, max);
            &&& parsed is Ok <==> digits.len() > 0 && all && digits_value(digits, 10) <= max
            &&& parsed matches Ok(n) ==> n == digits_value(digits, 10) && 0 <= n <= max
            &&& s.len() == 0 <==> parsed == Err::<int, NumberError>(NumberError::Empty)
            &&& digits.len() > 0 && all && digits_value(digits, 10) > max ==> parsed == Err::<
                int,
                NumberError,
            >(NumberError::TooLarge)
        }),
{
    let digits = unsigned_part(s);
    if s.len() > 0 {
        assert(digits.len() > 0);
        if only_digits(digits) {
            assert(forall|i: int|
                0 <= i < digits.len() ==> digit_value(#[trigger] digits[i], 10) is Some);
            lemma_digit_run(digits, 10, digits.len() as int);
            assert(digits.take(digits.len() as int) =~= digits);
            lemma_digits_value_grows(digits, 10, 0);
        } else {
            let i = choose|i: int|
                0 <= i < digits.len() && !('0' <= #[trigger] digits[i] && digits[i] <= '9');
            if digit_run(digits, 10) > i {
                lemma_digit_run_all(digits, 10, i);
            }
            assert(digit_run(digits, 10) <= i);
            lemma_digit_run(digits, 10, 0);
        }
    }
}

} // verus!
