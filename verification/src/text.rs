//! Reading numbers and booleans out of text, as the standard library's
//! `FromStr` implementations do for the attribute and property values of a
//! Tiled document.

use vstd::prelude::*;
use vstd::string::*;

verus! {

/// Why a piece of text is not an integer of the wanted type.
#[derive(Debug, Clone, Copy, PartialEq, Eq, Structural)]
pub enum IntErrorKind {
    Empty,
    InvalidDigit,
    PosOverflow,
    NegOverflow,
}

pub open spec fn is_decimal_digit(c: char) -> bool {
    '0' <= c && c <= '9'
}

pub open spec fn decimal_digit_value(c: char) -> int {
    (c as int) - ('0' as int)
}

/// Folds the decimal digits `ds` into `acc`, adding (or, for a negative
/// number, subtracting) each digit in turn, and fails at the first character
/// that is no digit or at the first step that leaves `[min, max]`.
pub open spec fn fold_decimal_digits(
    ds: Seq<char>,
    acc: int,
    negative: bool,
    min: int,
    max: int,
) -> Result<int, IntErrorKind>
    decreases ds.len(),
{
    if ds.len() == 0 {
        Ok(acc)
    } else if !is_decimal_digit(ds[0]) {
        Err(IntErrorKind::InvalidDigit)
    } else {
        let next = if negative {
            acc * 10 - decimal_digit_value(ds[0])
        } else {
            acc * 10 + decimal_digit_value(ds[0])
        };
        if next > max {
            Err(IntErrorKind::PosOverflow)
        } else if next < min {
            Err(IntErrorKind::NegOverflow)
        } else {
            fold_decimal_digits(ds.drop_first(), next, negative, min, max)
        }
    }
}

/// The decimal integer that `s` denotes within `[min, max]`: an optional
/// `+` (or, when `signed`, `-`) followed by digits only.
pub open spec fn parse_decimal(s: Seq<char>, signed: bool, min: int, max: int) -> Result<
    int,
    IntErrorKind,
> {
    if s.len() == 0 {
        Err(IntErrorKind::Empty)
    } else if (s[0] == '+' || s[0] == '-') && s.len() == 1 {
        Err(IntErrorKind::InvalidDigit)
    } else if s[0] == '+' {
        fold_decimal_digits(s.drop_first(), 0, false, min, max)
    } else if s[0] == '-' && signed {
        fold_decimal_digits(s.drop_first(), 0, true, min, max)
    } else {
        fold_decimal_digits(s, 0, false, min, max)
    }
}

/// A decimal fold that starts within `[min, max]` ends within it.
proof fn lemma_fold_decimal_in_range(ds: Seq<char>, acc: int, negative: bool, min: int, max: int)
    requires
        min <= acc <= max,
    ensures
        fold_decimal_digits(ds, acc, negative, min, max) matches Ok(v) ==> min <= v <= max,
    decreases ds.len(),
{
    if ds.len() > 0 && is_decimal_digit(ds[0]) {
        let next = if negative {
            acc * 10 - decimal_digit_value(ds[0])
        } else {
            acc * 10 + decimal_digit_value(ds[0])
        };
        if min <= next <= max {
            lemma_fold_decimal_in_range(ds.drop_first(), next, negative, min, max);
        }
    }
}

/// What `parse_decimal` yields lies within `[min, max]`.
pub proof fn lemma_parse_decimal_in_range(s: Seq<char>, signed: bool, min: int, max: int)
    requires
        min <= 0 <= max,
    ensures
        parse_decimal(s, signed, min, max) matches Ok(v) ==> min <= v <= max,
{
    if s.len() > 0 {
        lemma_fold_decimal_in_range(s.drop_first(), 0, false, min, max);
        lemma_fold_decimal_in_range(s.drop_first(), 0, true, min, max);
        lemma_fold_decimal_in_range(s, 0, false, min, max);
    }
}

/// Ten to the power `n`.
pub open spec fn pow10(n: nat) -> int
    decreases n,
{
    if n == 0 {
        1
    } else {
        10 * pow10((n - 1) as nat)
    }
}

/// The number that the decimal digits `ds` write, most significant first:
/// each digit added to ten times the number that the digits before it write.
pub open spec fn digits_value(ds: Seq<char>) -> int
    decreases ds.len(),
{
    if ds.len() == 0 {
        0
    } else {
        digits_value(ds.drop_last()) * 10 + ((ds.last() as int) - 48)
    }
}

proof fn lemma_pow10_positive(n: nat)
    ensures
        pow10(n) >= 1,
    decreases n,
{
    if n > 0 {
        lemma_pow10_positive((n - 1) as nat);
    }
}

proof fn lemma_digits_value_bounds(ds: Seq<char>)
    requires
        only_digits(ds),
    ensures
        0 <= digits_value(ds) < pow10(ds.len()),
    decreases ds.len(),
{
    if ds.len() > 0 {
        let init = ds.drop_last();
        assert(only_digits(init)) by {
            assert forall|i: int| 0 <= i < init.len() implies '0' <= #[trigger] init[i] <= '9' by {
                assert(init[i] == ds[i]);
            }
        }
        lemma_digits_value_bounds(init);
        assert('0' <= ds[ds.len() - 1] <= '9');
        let v = digits_value(init);
        let p = pow10(init.len());
        let d = (ds.last() as int) - 48;
        assert(v * 10 + d < 10 * p) by (nonlinear_arith)
            requires
                0 <= v < p,
                0 <= d <= 9,
        ;
    }
}

/// The leading digit of `ds` counts `10^(len - 1)` times.
proof fn lemma_digits_value_front(ds: Seq<char>)
    requires
        ds.len() > 0,
    ensures
        digits_value(ds) == ((ds[0] as int) - 48) * pow10((ds.len() - 1) as nat) + digits_value(
            ds.drop_first(),
        ),
    decreases ds.len(),
{
    if ds.len() > 1 {
        let init = ds.drop_last();
        lemma_digits_value_front(init);
        assert(init.drop_first() =~= ds.drop_first().drop_last());
        assert(init[0] == ds[0]);
        assert(ds.drop_first().last() == ds.last());
        let d0 = (ds[0] as int) - 48;
        let p = pow10((init.len() - 1) as nat);
        let w = digits_value(init.drop_first());
        let last = (ds.last() as int) - 48;
        assert(digits_value(ds) == digits_value(init) * 10 + last);
        assert(digits_value(ds.drop_first()) == w * 10 + last);
        assert(pow10((ds.len() - 1) as nat) == 10 * p);
        assert((d0 * p + w) * 10 == d0 * (10 * p) + w * 10) by (nonlinear_arith);
    } else {
        assert(ds.drop_first().len() == 0);
        assert(ds.drop_last().len() == 0);
        assert(ds.last() == ds[0]);
        assert(digits_value(ds.drop_last()) == 0);
        assert(digits_value(ds.drop_first()) == 0);
        assert(pow10(0) == 1);
        assert(digits_value(ds) == (ds[0] as int) - 48);
    }
}

/// Folding the digits `ds` into `acc` adds (or subtracts) the number they
/// write, shifted past `acc`, when that stays within `[min, max]`.
proof fn lemma_fold_digits_value(ds: Seq<char>, acc: int, negative: bool, min: int, max: int)
    requires
        only_digits(ds),
        min <= 0 <= max,
        negative ==> min <= acc * pow10(ds.len()) - digits_value(ds) && acc <= 0,
        !negative ==> acc * pow10(ds.len()) + digits_value(ds) <= max && acc >= 0,
    ensures
        fold_decimal_digits(ds, acc, negative, min, max) == Ok::<int, IntErrorKind>(
            if negative {
                acc * pow10(ds.len()) - digits_value(ds)
            } else {
                acc * pow10(ds.len()) + digits_value(ds)
            },
        ),
    decreases ds.len(),
{
    if ds.len() > 0 {
        let rest = ds.drop_first();
        assert(only_digits(rest)) by {
            assert forall|i: int| 0 <= i < rest.len() implies '0' <= #[trigger] rest[i] <= '9' by {
                assert(rest[i] == ds[i + 1]);
            }
        }
        assert('0' <= ds[0] <= '9');
        lemma_digits_value_front(ds);
        lemma_digits_value_bounds(rest);
        lemma_pow10_positive(rest.len());
        let d0 = (ds[0] as int) - 48;
        let p = pow10(rest.len());
        let w = digits_value(rest);
        assert(pow10(ds.len()) == 10 * p);
        if negative {
            let next = acc * 10 - d0;
            assert(acc * (10 * p) - (d0 * p + w) == next * p - w) by (nonlinear_arith)
                requires
                    next == acc * 10 - d0,
            ;
            assert(next * p - w <= next) by (nonlinear_arith)
                requires
                    next <= 0,
                    p >= 1,
                    w >= 0,
            ;
            lemma_fold_digits_value(rest, next, negative, min, max);
        } else {
            let next = acc * 10 + d0;
            assert(acc * (10 * p) + (d0 * p + w) == next * p + w) by (nonlinear_arith)
                requires
                    next == acc * 10 + d0,
            ;
            assert(next * p + w >= next) by (nonlinear_arith)
                requires
                    next >= 0,
                    p >= 1,
                    w >= 0,
            ;
            lemma_fold_digits_value(rest, next, negative, min, max);
        }
    }
}

proof fn lemma_fold_digits_overflow(ds: Seq<char>, acc: int, negative: bool, min: int, max: int)
    requires
        only_digits(ds),
        min <= 0 <= max,
        min <= acc <= max,
        negative ==> acc * pow10(ds.len()) - digits_value(ds) < min && acc <= 0,
        !negative ==> acc * pow10(ds.len()) + digits_value(ds) > max && acc >= 0,
    ensures
        fold_decimal_digits(ds, acc, negative, min, max) == Err::<int, IntErrorKind>(
            if negative {
                IntErrorKind::NegOverflow
            } else {
                IntErrorKind::PosOverflow
            },
        ),
    decreases ds.len(),
{
    if ds.len() == 0 {
        assert(pow10(0) == 1);
        assert(digits_value(ds) == 0);
    } else {
        let rest = ds.drop_first();
        assert(only_digits(rest)) by {
            assert forall|i: int| 0 <= i < rest.len() implies '0' <= #[trigger] rest[i] <= '9' by {
                assert(rest[i] == ds[i + 1]);
            }
        }
        assert('0' <= ds[0] <= '9');
        lemma_digits_value_front(ds);
        let d0 = (ds[0] as int) - 48;
        let p = pow10(rest.len());
        let w = digits_value(rest);
        assert(pow10(ds.len()) == 10 * p);
        if negative {
            let next = acc * 10 - d0;
            assert(acc * (10 * p) - (d0 * p + w) == next * p - w) by (nonlinear_arith)
                requires
                    next == acc * 10 - d0,
            ;
            if next >= min {
                lemma_fold_digits_overflow(rest, next, negative, min, max);
            }
        } else {
            let next = acc * 10 + d0;
            assert(acc * (10 * p) + (d0 * p + w) == next * p + w) by (nonlinear_arith)
                requires
                    next == acc * 10 + d0,
            ;
            if next <= max {
                lemma_fold_digits_overflow(rest, next, negative, min, max);
            }
        }
    }
}

/// Decimal digits that write a number too large for `[min, max]` are too
/// large, with or without `+` in front; with `-` in front (for a signed
/// type) and a negation too small, they are too small.
pub proof fn lemma_digits_overflow(ds: Seq<char>, signed: bool, min: int, max: int)
    requires
        ds.len() > 0,
        only_digits(ds),
        min <= 0 <= max,
    ensures
        digits_value(ds) > max ==> parse_decimal(ds, signed, min, max) == Err::<int, IntErrorKind>(
            IntErrorKind::PosOverflow,
        ),
        digits_value(ds) > max ==> parse_decimal(seq!['+'] + ds, signed, min, max) == Err::<
            int,
            IntErrorKind,
        >(IntErrorKind::PosOverflow),
        signed && -digits_value(ds) < min ==> parse_decimal(seq!['-'] + ds, signed, min, max)
            == Err::<int, IntErrorKind>(IntErrorKind::NegOverflow),
{
    assert('0' <= ds[0] <= '9');
    assert((seq!['+'] + ds).drop_first() =~= ds);
    assert((seq!['-'] + ds).drop_first() =~= ds);
    lemma_pow10_positive(ds.len());
    if digits_value(ds) > max {
        lemma_fold_digits_overflow(ds, 0, false, min, max);
    }
    if -digits_value(ds) < min {
        lemma_fold_digits_overflow(ds, 0, true, min, max);
    }
}

/// Decimal digits read as an integer, as the standard library reads them:
/// one or more digits, with or without `+` in front, are the number they
/// write, and with `-` in front (for a signed type) its negation, whenever
/// that number fits in `[min, max]`.
pub proof fn lemma_digits_parse_to_their_value(ds: Seq<char>, signed: bool, min: int, max: int)
    requires
        ds.len() > 0,
        only_digits(ds),
        min <= 0 <= max,
    ensures
        digits_value(ds) <= max ==> parse_decimal(ds, signed, min, max) == Ok::<int, IntErrorKind>(
            digits_value(ds),
        ),
        digits_value(ds) <= max ==> parse_decimal(seq!['+'] + ds, signed, min, max) == Ok::<
            int,
            IntErrorKind,
        >(digits_value(ds)),
        signed && min <= -digits_value(ds) ==> parse_decimal(seq!['-'] + ds, signed, min, max)
            == Ok::<int, IntErrorKind>(-digits_value(ds)),
{
    lemma_pow10_positive(ds.len());
    assert('0' <= ds[0] <= '9');
    assert((seq!['+'] + ds).drop_first() =~= ds);
    assert((seq!['-'] + ds).drop_first() =~= ds);
    if digits_value(ds) <= max {
        lemma_fold_digits_value(ds, 0, false, min, max);
    }
    if min <= -digits_value(ds) {
        lemma_fold_digits_value(ds, 0, true, min, max);
    }
}

/// The message that the standard library gives for each kind of failure.
pub open spec fn int_error_message(kind: IntErrorKind) -> Seq<char> {
    match kind {
        IntErrorKind::Empty => "cannot parse integer from empty string"@,
        IntErrorKind::InvalidDigit => "invalid digit found in string"@,
        IntErrorKind::PosOverflow => "number too large to fit in target type"@,
        IntErrorKind::NegOverflow => "number too small to fit in target type"@,
    }
}

impl IntErrorKind {
    /// The description of this failure.
    pub fn message(&self) -> (r: String)
        ensures
            r@ == int_error_message(*self),
    {
        match self {
            IntErrorKind::Empty => String::from_str("cannot parse integer from empty string"),
            IntErrorKind::InvalidDigit => String::from_str("invalid digit found in string"),
            IntErrorKind::PosOverflow => String::from_str("number too large to fit in target type"),
            IntErrorKind::NegOverflow => String::from_str("number too small to fit in target type"),
        }
    }
}

fn fold_digits_exec(s: &str, start: usize, negative: bool, min: i64, max: i64) -> (r: Result<
    i64,
    IntErrorKind,
>)
    requires
        start <= s@.len(),
        -0x1_0000_0000 <= min <= 0 <= max <= 0x1_0000_0000,
    ensures
        match (r, fold_decimal_digits(s@.skip(start as int), 0, negative, min as int, max as int)) {
            (Ok(v), Ok(w)) => v == w,
            (Err(k), Err(l)) => k == l,
            _ => false,
        },
{
    let n = s.unicode_len();
    let mut i = start;
    let mut acc: i64 = 0;
    while i < n
        invariant
            start <= i <= n,
            n == s@.len(),
            min <= acc <= max,
            -0x1_0000_0000 <= min <= 0 <= max <= 0x1_0000_0000,
            fold_decimal_digits(s@.skip(start as int), 0, negative, min as int, max as int)
                == fold_decimal_digits(s@.skip(i as int), acc as int, negative, min as int, max as int),
        decreases n - i,
    {
        let c = s.get_char(i);
        assert(s@.skip(i as int)[0] == c);
        assert(s@.skip(i as int).drop_first() =~= s@.skip(i + 1));
        if !('0' <= c && c <= '9') {
            return Err(IntErrorKind::InvalidDigit);
        }
        let d = (c as u32 - '0' as u32) as i64;
        let next = if negative {
            acc * 10 - d
        } else {
            acc * 10 + d
        };
        if next > max {
            return Err(IntErrorKind::PosOverflow);
        } else if next < min {
            return Err(IntErrorKind::NegOverflow);
        }
        acc = next;
        i = i + 1;
    }
    assert(s@.skip(i as int).len() == 0);
    Ok(acc)
}

/// Parses `s` as a decimal integer in `[min, max]`, the way the standard
/// library's integer `FromStr` does.
fn parse_decimal_exec(s: &str, signed: bool, min: i64, max: i64) -> (r: Result<i64, IntErrorKind>)
    requires
        -0x1_0000_0000 <= min <= 0 <= max <= 0x1_0000_0000,
    ensures
        match (r, parse_decimal(s@, signed, min as int, max as int)) {
            (Ok(v), Ok(w)) => v == w,
            (Err(k), Err(l)) => k == l,
            _ => false,
        },
{
    let n = s.unicode_len();
    if n == 0 {
        return Err(IntErrorKind::Empty);
    }
    let first = s.get_char(0);
    if (first == '+' || first == '-') && n == 1 {
        return Err(IntErrorKind::InvalidDigit);
    }
    if first == '+' {
        fold_digits_exec(s, 1, false, min, max)
    } else if first == '-' && signed {
        fold_digits_exec(s, 1, true, min, max)
    } else {
        assert(s@.skip(0) =~= s@);
        fold_digits_exec(s, 0, false, min, max)
    }
}

/// `s` read as an `i32`, as `s.parse::<i32>()` reads it.
pub fn parse_i32(s: &str) -> (r: Result<i32, IntErrorKind>)
    ensures
        match (r, parse_decimal(s@, true, i32::MIN as int, i32::MAX as int)) {
            (Ok(v), Ok(w)) => v == w,
            (Err(k), Err(l)) => k == l,
            _ => false,
        },
{
    proof {
        lemma_parse_decimal_in_range(s@, true, i32::MIN as int, i32::MAX as int);
    }
    match parse_decimal_exec(s, true, i32::MIN as i64, i32::MAX as i64) {
        Ok(v) => Ok(v as i32),
        Err(k) => Err(k),
    }
}

/// `s` read as a `u32`, as `s.parse::<u32>()` reads it.
pub fn parse_u32(s: &str) -> (r: Result<u32, IntErrorKind>)
    ensures
        match (r, parse_decimal(s@, false, 0, u32::MAX as int)) {
            (Ok(v), Ok(w)) => v == w,
            (Err(k), Err(l)) => k == l,
            _ => false,
        },
{
    proof {
        lemma_parse_decimal_in_range(s@, false, 0, u32::MAX as int);
    }
    match parse_decimal_exec(s, false, 0, u32::MAX as i64) {
        Ok(v) => Ok(v as u32),
        Err(k) => Err(k),
    }
}

/// `s` read as a `u8`, as `s.parse::<u8>()` reads it.
pub fn parse_u8(s: &str) -> (r: Result<u8, IntErrorKind>)
    ensures
        match (r, parse_decimal(s@, false, 0, u8::MAX as int)) {
            (Ok(v), Ok(w)) => v == w,
            (Err(k), Err(l)) => k == l,
            _ => false,
        },
{
    proof {
        lemma_parse_decimal_in_range(s@, false, 0, u8::MAX as int);
    }
    match parse_decimal_exec(s, false, 0, u8::MAX as i64) {
        Ok(v) => Ok(v as u8),
        Err(k) => Err(k),
    }
}

/// Whether the text of `s` is exactly `lit`.
pub fn str_equals(s: &str, lit: &str) -> (r: bool)
    ensures
        r == (s@ == lit@),
{
    let n = s.unicode_len();
    if n != lit.unicode_len() {
        return false;
    }
    let mut i: usize = 0;
    while i < n
        invariant
            n == s@.len(),
            n == lit@.len(),
            i <= n,
            forall|j: int| 0 <= j < i ==> s@[j] == lit@[j],
        decreases n - i,
    {
        if s.get_char(i) != lit.get_char(i) {
            return false;
        }
        i = i + 1;
    }
    assert(s@ =~= lit@);
    true
}

/// The boolean that `s` spells, if it spells one: `true` or `false`, nothing
/// else.
pub open spec fn bool_literal(s: Seq<char>) -> Option<bool> {
    if s == "true"@ {
        Some(true)
    } else if s == "false"@ {
        Some(false)
    } else {
        None
    }
}

/// `s` read as a `bool`, as `s.parse::<bool>()` reads it.
pub fn parse_bool(s: &str) -> (r: Option<bool>)
    ensures
        r == bool_literal(s@),
{
    if str_equals(s, "true") {
        Some(true)
    } else if str_equals(s, "false") {
        Some(false)
    } else {
        None
    }
}

/// The message that the standard library gives for a text that is no
/// boolean.
pub open spec fn bool_error_message() -> Seq<char> {
    "provided string was not `true` or `false`"@
}

pub fn bool_error_description() -> (r: String)
    ensures
        r@ == bool_error_message(),
{
    String::from_str("provided string was not `true` or `false`")
}

/// `c` with an ASCII capital letter made small.
pub open spec fn ascii_lowercase(c: char) -> char {
    if 'A' <= c && c <= 'Z' {
        ((c as u8) + 32) as char
    } else {
        c
    }
}

pub open spec fn all_decimal_digits(s: Seq<char>) -> bool {
    forall|i: int| 0 <= i < s.len() ==> is_decimal_digit(#[trigger] s[i])
}

/// `Digit+ | Digit+ '.' Digit* | Digit* '.' Digit+`
pub open spec fn is_float_mantissa(m: Seq<char>) -> bool {
    ||| m.len() > 0 && all_decimal_digits(m)
    ||| exists|p: int|
        0 <= p < m.len() && m[p] == '.' && m.len() >= 2 && all_decimal_digits(#[trigger] m.take(p))
            && all_decimal_digits(m.skip(p + 1))
}

/// `Sign? Digit+`
pub open spec fn is_float_exponent(x: Seq<char>) -> bool {
    ||| x.len() > 0 && all_decimal_digits(x)
    ||| x.len() >= 2 && (x[0] == '+' || x[0] == '-') && all_decimal_digits(x.drop_first())
}

/// `Mantissa ('e' Exponent)?`, on text already made lower case.
pub open spec fn is_float_number(l: Seq<char>) -> bool {
    ||| is_float_mantissa(l)
    ||| exists|q: int|
        0 <= q < l.len() && l[q] == 'e' && is_float_mantissa(#[trigger] l.take(q))
            && is_float_exponent(l.skip(q + 1))
}

/// The grammar of the standard library's `f32::from_str`, letters taken
/// without regard to case: `Sign? ('inf' | 'infinity' | 'nan' | Number)`.
pub open spec fn is_float_literal(s: Seq<char>) -> bool {
    let body = if s.len() > 0 && (s[0] == '+' || s[0] == '-') {
        s.drop_first()
    } else {
        s
    };
    let l = body.map_values(|c: char| ascii_lowercase(c));
    ||| l == "inf"@
    ||| l == "infinity"@
    ||| l == "nan"@
    ||| is_float_number(l)
}

/// Whether every character of `s` is one of `0` to `9`.
pub open spec fn only_digits(s: Seq<char>) -> bool {
    forall|i: int| 0 <= i < s.len() ==> '0' <= #[trigger] s[i] <= '9'
}

proof fn lemma_lowercase_keeps_plain(s: Seq<char>)
    requires
        forall|i: int| 0 <= i < s.len() ==> ('0' <= #[trigger] s[i] <= '9' || s[i] == '.'),
    ensures
        s.map_values(|c: char| ascii_lowercase(c)) =~= s,
{
}

/// Decimal digits read as a floating-point number, as `f32::from_str`
/// reads them: one or more digits, or digits with one `.` among them and at
/// least one digit in all, each with or without a sign in front.
pub proof fn lemma_decimal_texts_are_floats(a: Seq<char>, b: Seq<char>)
    requires
        only_digits(a),
        only_digits(b),
    ensures
        a.len() > 0 ==> is_float_literal(a),
        a.len() > 0 ==> is_float_literal(seq!['-'] + a),
        a.len() > 0 ==> is_float_literal(seq!['+'] + a),
        a.len() + b.len() > 0 ==> is_float_literal(a + seq!['.'] + b),
        a.len() + b.len() > 0 ==> is_float_literal(seq!['-'] + (a + seq!['.'] + b)),
{
    let m = a + seq!['.'] + b;
    let p = a.len() as int;
    assert(m.take(p) =~= a);
    assert(m.skip(p + 1) =~= b);
    assert(m[p] == '.');
    assert forall|i: int| 0 <= i < m.len() implies ('0' <= #[trigger] m[i] <= '9' || m[i] == '.') by {
        if i < p {
            assert(m[i] == a[i]);
        } else if i > p {
            assert(m[i] == b[i - p - 1]);
        }
    }
    lemma_lowercase_keeps_plain(a);
    lemma_lowercase_keeps_plain(m);
    assert(all_decimal_digits(a));
    assert(all_decimal_digits(b));
    if a.len() + b.len() > 0 {
        assert(all_decimal_digits(m.take(p)));
        assert(is_float_mantissa(m));
        assert(is_float_number(m));
        if a.len() > 0 {
            assert(m[0] == a[0]);
        }
        assert((seq!['-'] + m).drop_first() =~= m);
    }
    if a.len() > 0 {
        assert(is_float_mantissa(a));
        assert((seq!['-'] + a).drop_first() =~= a);
        assert((seq!['+'] + a).drop_first() =~= a);
    }
}

/// The special values of `f32::from_str` are floats in any case and with
/// either sign, and so are digits with a decimal exponent; an empty text, a
/// lone `.`, a lone sign and an exponent without digits before it are not.
pub proof fn lemma_float_special_texts(a: Seq<char>, x: Seq<char>)
    requires
        only_digits(a),
        only_digits(x),
    ensures
        is_float_literal("inf"@),
        is_float_literal("infinity"@),
        is_float_literal("nan"@),
        is_float_literal("-inf"@),
        is_float_literal("+NaN"@),
        is_float_literal("INFINITY"@),
        a.len() > 0 && x.len() > 0 ==> is_float_literal(a + seq!['e'] + x),
        a.len() > 0 && x.len() > 0 ==> is_float_literal(a + seq!['E', '-'] + x),
        !is_float_literal(seq![]),
        !is_float_literal(seq!['.']),
        !is_float_literal(seq!['-']),
        !is_float_literal(seq!['e'] + x),
{
    reveal_strlit("inf");
    reveal_strlit("infinity");
    reveal_strlit("nan");
    reveal_strlit("-inf");
    reveal_strlit("+NaN");
    reveal_strlit("INFINITY");
    assert("-inf"@.drop_first() =~= "inf"@);
    assert("-inf"@.drop_first().map_values(|c: char| ascii_lowercase(c)) =~= "inf"@);
    assert("inf"@.map_values(|c: char| ascii_lowercase(c)) =~= "inf"@);
    assert("infinity"@.map_values(|c: char| ascii_lowercase(c)) =~= "infinity"@);
    assert("nan"@.map_values(|c: char| ascii_lowercase(c)) =~= "nan"@);
    assert("+NaN"@.drop_first().map_values(|c: char| ascii_lowercase(c)) =~= "nan"@);
    assert("INFINITY"@.map_values(|c: char| ascii_lowercase(c)) =~= "infinity"@);
    lemma_lowercase_keeps_plain(a);
    lemma_lowercase_keeps_plain(x);
    if a.len() > 0 && x.len() > 0 {
        let s = a + seq!['e'] + x;
        let q = a.len() as int;
        assert(s.map_values(|c: char| ascii_lowercase(c)) =~= s);
        assert(s.take(q) =~= a);
        assert(s.skip(q + 1) =~= x);
        assert(all_decimal_digits(a));
        assert(all_decimal_digits(x));
        assert(is_float_mantissa(s.take(q)));
        assert(is_float_exponent(s.skip(q + 1)));
        assert(s[0] == a[0]);
        let t = a + seq!['E', '-'] + x;
        let l = t.map_values(|c: char| ascii_lowercase(c));
        assert(l =~= a + seq!['e', '-'] + x);
        assert(l.take(q) =~= a);
        assert(l.skip(q + 1) =~= seq!['-'] + x);
        assert((seq!['-'] + x).drop_first() =~= x);
        assert(is_float_exponent(l.skip(q + 1)));
        assert(t[0] == a[0]);
        assert(l[q] == 'e');
    }
    let e = seq!['e'] + x;
    let le = e.map_values(|c: char| ascii_lowercase(c));
    assert(le =~= e);
    assert forall|q: int| 0 <= q < le.len() && le[q] == 'e' implies !is_float_mantissa(
        #[trigger] le.take(q),
    ) by {
        if q > 0 {
            assert(le[q] == x[q - 1]);
        }
        assert(le.take(q).len() == 0 || q > 0);
    }
    assert(!is_float_mantissa(le)) by {
        assert(!all_decimal_digits(le)) by {
            assert(!is_decimal_digit(le[0]));
        }
        assert forall|p: int| 0 <= p < le.len() && le[p] == '.' implies !all_decimal_digits(
            #[trigger] le.take(p),
        ) by {
            if p > 0 {
                assert(le[p] == x[p - 1]);
            }
        }
    }
    let d = seq!['.'];
    assert(d.map_values(|c: char| ascii_lowercase(c)) =~= d);
    assert(!all_decimal_digits(d)) by {
        assert(!is_decimal_digit(d[0]));
    }
    let m = seq!['-'];
    assert(m.drop_first() =~= Seq::<char>::empty());
    assert(Seq::<char>::empty().map_values(|c: char| ascii_lowercase(c)) =~= Seq::<char>::empty());
}

/// The message that the standard library gives for a text that is no
/// floating-point number.
pub open spec fn float_error_message(s: Seq<char>) -> Seq<char> {
    if s.len() == 0 {
        "cannot parse float from empty string"@
    } else {
        "invalid float literal"@
    }
}

pub fn float_error_description(s: &str) -> (r: String)
    ensures
        r@ == float_error_message(s@),
{
    if s.unicode_len() == 0 {
        String::from_str("cannot parse float from empty string")
    } else {
        String::from_str("invalid float literal")
    }
}

fn seq_equals_lit(v: &Vec<char>, lit: &str) -> (r: bool)
    ensures
        r == (v@ == lit@),
{
    let n = v.len();
    if n != lit.unicode_len() {
        return false;
    }
    let mut i: usize = 0;
    while i < n
        invariant
            n == v@.len(),
            n == lit@.len(),
            i <= n,
            forall|j: int| 0 <= j < i ==> v@[j] == lit@[j],
        decreases n - i,
    {
        if v[i] != lit.get_char(i) {
            return false;
        }
        i = i + 1;
    }
    assert(v@ =~= lit@);
    true
}

/// Whether `v[from..to]` holds decimal digits only.
fn digits_between(v: &Vec<char>, from: usize, to: usize) -> (r: bool)
    requires
        from <= to <= v@.len(),
    ensures
        r == all_decimal_digits(v@.subrange(from as int, to as int)),
{
    let mut i = from;
    while i < to
        invariant
            from <= i <= to <= v@.len(),
            forall|j: int| from <= j < i ==> is_decimal_digit(v@[j]),
        decreases to - i,
    {
        if !('0' <= v[i] && v[i] <= '9') {
            assert(v@.subrange(from as int, to as int)[i - from] == v@[i as int]);
            return false;
        }
        i = i + 1;
    }
    assert forall|j: int| 0 <= j < to - from implies is_decimal_digit(
        #[trigger] v@.subrange(from as int, to as int)[j],
    ) by {
        assert(v@.subrange(from as int, to as int)[j] == v@[from + j]);
    }
    true
}

/// The first index in `v[from..to]` that holds `c`, or `to`.
fn first_index_of(v: &Vec<char>, from: usize, to: usize, c: char) -> (r: usize)
    requires
        from <= to <= v@.len(),
    ensures
        from <= r <= to,
        r < to ==> v@[r as int] == c,
        forall|j: int| from <= j < r ==> v@[j] != c,
{
    let mut i = from;
    while i < to
        invariant
            from <= i <= to <= v@.len(),
            forall|j: int| from <= j < i ==> v@[j] != c,
        decreases to - i,
    {
        if v[i] == c {
            return i;
        }
        i = i + 1;
    }
    i
}

/// Whether `v[from..to]` is a mantissa.
fn mantissa_between(v: &Vec<char>, from: usize, to: usize) -> (r: bool)
    requires
        from <= to <= v@.len(),
    ensures
        r == is_float_mantissa(v@.subrange(from as int, to as int)),
{
    let ghost m = v@.subrange(from as int, to as int);
    let p = first_index_of(v, from, to, '.');
    if p == to {
        let r = from < to && digits_between(v, from, to);
        proof {
            if exists|q: int|
                0 <= q < m.len() && m[q] == '.' && m.len() >= 2 && all_decimal_digits(
                    #[trigger] m.take(q),
                ) && all_decimal_digits(m.skip(q + 1)) {
                let q = choose|q: int|
                    0 <= q < m.len() && m[q] == '.' && m.len() >= 2 && all_decimal_digits(
                        #[trigger] m.take(q),
                    ) && all_decimal_digits(m.skip(q + 1));
                assert(v@[from + q] == m[q]);
            }
        }
        r
    } else {
        let before = digits_between(v, from, p);
        let after = digits_between(v, p + 1, to);
        let r = before && after && to - from >= 2;
        proof {
            let pp = p - from;
            assert(m.take(pp) =~= v@.subrange(from as int, p as int));
            assert(m.skip(pp + 1) =~= v@.subrange(p + 1, to as int));
            assert(m[pp] == '.');
            if m.len() > 0 && all_decimal_digits(m) {
                assert(is_decimal_digit(m[pp]));
            }
            if exists|q: int|
                0 <= q < m.len() && m[q] == '.' && m.len() >= 2 && all_decimal_digits(
                    #[trigger] m.take(q),
                ) && all_decimal_digits(m.skip(q + 1)) {
                let q = choose|q: int|
                    0 <= q < m.len() && m[q] == '.' && m.len() >= 2 && all_decimal_digits(
                        #[trigger] m.take(q),
                    ) && all_decimal_digits(m.skip(q + 1));
                if q < pp {
                    assert(m.skip(q + 1)[pp - q - 1] == m[pp]);
                } else if q > pp {
                    assert(m.take(q)[pp] == m[pp]);
                }
            }
        }
        r
    }
}

/// Whether `v[from..to]` is an exponent.
fn exponent_between(v: &Vec<char>, from: usize, to: usize) -> (r: bool)
    requires
        from <= to <= v@.len(),
    ensures
        r == is_float_exponent(v@.subrange(from as int, to as int)),
{
    let ghost x = v@.subrange(from as int, to as int);
    if from == to {
        return false;
    }
    if v[from] == '+' || v[from] == '-' {
        let r = to - from >= 2 && digits_between(v, from + 1, to);
        proof {
            assert(x.drop_first() =~= v@.subrange(from + 1, to as int));
            assert(!is_decimal_digit(x[0]));
        }
        r
    } else {
        digits_between(v, from, to)
    }
}

/// Whether the text of `s` is accepted by the standard library's
/// `f32::from_str`.
pub fn is_float_text(s: &str) -> (r: bool)
    ensures
        r == is_float_literal(s@),
{
    let n = s.unicode_len();
    let start: usize = if n > 0 && (s.get_char(0) == '+' || s.get_char(0) == '-') {
        1
    } else {
        0
    };
    let ghost body = if s@.len() > 0 && (s@[0] == '+' || s@[0] == '-') {
        s@.drop_first()
    } else {
        s@
    };
    let ghost l = body.map_values(|c: char| ascii_lowercase(c));
    let mut v: Vec<char> = Vec::new();
    let mut i = start;
    while i < n
        invariant
            start <= i <= n,
            n == s@.len(),
            start == s@.len() - body.len(),
            v@.len() == i - start,
            forall|j: int| 0 <= j < v@.len() ==> v@[j] == ascii_lowercase(s@[start + j]),
        decreases n - i,
    {
        let c = s.get_char(i);
        let lc = if 'A' <= c && c <= 'Z' {
            ((c as u8) + 32) as char
        } else {
            c
        };
        v.push(lc);
        i = i + 1;
    }
    proof {
        assert forall|j: int| 0 <= j < body.len() implies body[j] == s@[start + j] by {}
        assert(v@ =~= l);
    }
    if seq_equals_lit(&v, "inf") || seq_equals_lit(&v, "infinity") || seq_equals_lit(&v, "nan") {
        return true;
    }
    let len = v.len();
    let q = first_index_of(&v, 0, len, 'e');
    assert(v@.subrange(0, len as int) =~= l);
    if mantissa_between(&v, 0, len) {
        return true;
    }
    if q == len {
        proof {
            if exists|q2: int|
                0 <= q2 < l.len() && l[q2] == 'e' && is_float_mantissa(#[trigger] l.take(q2))
                    && is_float_exponent(l.skip(q2 + 1)) {
                let q2 = choose|q2: int|
                    0 <= q2 < l.len() && l[q2] == 'e' && is_float_mantissa(#[trigger] l.take(q2))
                        && is_float_exponent(l.skip(q2 + 1));
                assert(l[q2] != 'e');
            }
        }
        return false;
    }
    let r = mantissa_between(&v, 0, q) && exponent_between(&v, q + 1, len);
    proof {
        assert(l.take(q as int) =~= v@.subrange(0, q as int));
        assert(l.skip(q + 1) =~= v@.subrange(q + 1, len as int));
        if exists|q2: int|
            0 <= q2 < l.len() && l[q2] == 'e' && is_float_mantissa(#[trigger] l.take(q2))
                && is_float_exponent(l.skip(q2 + 1)) {
            let q2 = choose|q2: int|
                0 <= q2 < l.len() && l[q2] == 'e' && is_float_mantissa(#[trigger] l.take(q2))
                    && is_float_exponent(l.skip(q2 + 1));
            if q2 > q {
                lemma_mantissa_has_no_e(l.take(q2), q as int);
            }
        }
    }
    r
}

/// A mantissa holds no `e`.
proof fn lemma_mantissa_has_no_e(m: Seq<char>, i: int)
    requires
        is_float_mantissa(m),
        0 <= i < m.len(),
    ensures
        m[i] != 'e',
{
    if m.len() > 0 && all_decimal_digits(m) {
        assert(is_decimal_digit(m[i]));
    } else {
        let p = choose|p: int|
            0 <= p < m.len() && m[p] == '.' && m.len() >= 2 && all_decimal_digits(#[trigger] m.take(p))
                && all_decimal_digits(m.skip(p + 1));
        if i < p {
            assert(is_decimal_digit(m.take(p)[i]));
        } else if i > p {
            assert(is_decimal_digit(m.skip(p + 1)[i - p - 1]));
        }
    }
}

} // verus!
