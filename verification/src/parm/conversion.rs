//! The `printf`-like conversions `%d`, `%o`, `%x`, `%X`, `%s` and `%c`.
//!
//! A conversion may carry flags, a field width and a precision, which mean
//! what they mean to C's `printf`:
//!
//! - `-` pads on the right instead of the left;
//! - `+` writes a plus sign before a decimal number that is not negative;
//! - a space writes a space there, unless `+` is given;
//! - `#` starts an octal number with `0`, and a hexadecimal number other
//!   than zero with `0x` or `0X`;
//! - `0` pads a number with zeros instead of spaces, unless `-` or a precision
//!   is given;
//! - the width is the least number of bytes written;
//! - the precision is the least number of digits of a number, zero written
//!   with precision zero having none, and the greatest number of bytes taken
//!   from a string.
//!
//! `%o`, `%x` and `%X` write a negative number as its two's complement in 32
//! bits. `%c` writes the low eight bits of a number, and the byte 128 for
//! the number zero.

use crate::parm::ascii::{
    DIGIT_0, DIGIT_1, DIGIT_9, DOT, HASH, LOWER_A, LOWER_C, LOWER_D, LOWER_O, LOWER_S, LOWER_X,
    MINUS, PLUS, SPACE, UPPER_A, UPPER_X,
};
use crate::parm::{ExpandError, Val, Value};
use vstd::prelude::*;

verus! {

/// The flags, width and precision of a conversion.
#[derive(Clone, Copy, Debug)]
pub struct Flags {
    pub left: bool,
    pub sign: bool,
    pub space: bool,
    pub alternate: bool,
    pub zero: bool,
    pub width: u32,
    pub precision: Option<u32>,
}

impl Flags {
    /// No flag, no width, no precision.
    pub open spec fn plain() -> Flags {
        Flags {
            left: false,
            sign: false,
            space: false,
            alternate: false,
            zero: false,
            width: 0,
            precision: None,
        }
    }

    /// No flag, no width, no precision.
    pub fn new() -> (f: Flags)
        ensures
            f == Flags::plain(),
    {
        Flags {
            left: false,
            sign: false,
            space: false,
            alternate: false,
            zero: false,
            width: 0,
            precision: None,
        }
    }
}

/// Whether `c` names a conversion.
pub open spec fn is_conversion(c: u8) -> bool {
    c == LOWER_D || c == LOWER_O || c == LOWER_X || c == UPPER_X || c == LOWER_S || c == LOWER_C
}

/// The digit `d`, below sixteen, as a character.
pub open spec fn digit_byte(d: int, upper: bool) -> u8 {
    if d < 10 {
        (DIGIT_0 + d) as u8
    } else if upper {
        (UPPER_A + d - 10) as u8
    } else {
        (LOWER_A + d - 10) as u8
    }
}

/// The digits of `v` to the base `base`, most significant first.
pub open spec fn digits(v: int, base: int, upper: bool) -> Seq<u8>
    decreases v,
{
    if base < 2 || v < base {
        seq![digit_byte(v, upper)]
    } else {
        proof {
            lemma_quotient_is_less(v, base);
        }
        digits(v / base, base, upper).push(digit_byte(v % base, upper))
    }
}

/// A quotient by two or more is less than what was divided.
pub proof fn lemma_quotient_is_less(v: int, base: int)
    requires
        2 <= base <= v,
    ensures
        0 <= v / base < v,
{
    assert(0 <= v / base < v) by (nonlinear_arith)
        requires
            2 <= base <= v,
    ;
}

/// `n` times the byte `b`; nothing when `n` is negative.
pub open spec fn fill(b: u8, n: int) -> Seq<u8> {
    Seq::new(
        if n > 0 {
            n as nat
        } else {
            0
        },
        |i: int| b,
    )
}

/// The digits of a number under a precision: none for zero with precision
/// zero, else zeros before the digits up to the precision, which is one where
/// none is given.
pub open spec fn number_body(v: int, base: int, upper: bool, precision: Option<u32>) -> Seq<u8> {
    let shown = if v == 0 && precision == Some(0u32) {
        Seq::<u8>::empty()
    } else {
        digits(v, base, upper)
    };
    let least = match precision {
        Some(p) => p as int,
        None => 1,
    };
    fill(DIGIT_0, least - shown.len()) + shown
}

/// A sign or base prefix and a body, padded to the width: by spaces on the
/// right under `-`, else by zeros between the two where `zeros` holds, else by
/// spaces on the left.
pub open spec fn padded(prefix: Seq<u8>, body: Seq<u8>, f: Flags, zeros: bool) -> Seq<u8> {
    let gap = f.width - prefix.len() - body.len();
    if f.left {
        prefix + body + fill(SPACE, gap)
    } else if zeros {
        prefix + fill(DIGIT_0, gap) + body
    } else {
        fill(SPACE, gap) + prefix + body
    }
}

/// The number that `%o`, `%x` and `%X` write for `v`: `v` itself, or its
/// two's complement in 32 bits when it is negative.
pub open spec fn unsigned(v: i32) -> int {
    if v < 0 {
        v + 0x1_0000_0000
    } else {
        v as int
    }
}

/// What stands before the digits of `v` under the conversion `conv`.
pub open spec fn number_prefix(v: i32, conv: u8, f: Flags) -> Seq<u8> {
    if conv == LOWER_D {
        if v < 0 {
            seq![MINUS]
        } else if f.sign {
            seq![PLUS]
        } else if f.space {
            seq![SPACE]
        } else {
            seq![]
        }
    } else if conv == LOWER_X && f.alternate && v != 0 {
        seq![DIGIT_0, LOWER_X]
    } else if conv == UPPER_X && f.alternate && v != 0 {
        seq![DIGIT_0, UPPER_X]
    } else {
        seq![]
    }
}

/// The digits of `v` under the conversion `conv`, which is `d`, `o`, `x` or
/// `X`.
pub open spec fn number_digits(v: i32, conv: u8, f: Flags) -> Seq<u8> {
    if conv == LOWER_D {
        number_body(
            if v < 0 {
                -v
            } else {
                v as int
            },
            10,
            false,
            f.precision,
        )
    } else if conv == LOWER_O {
        let body = number_body(unsigned(v), 8, false, f.precision);
        if f.alternate && (body.len() == 0 || body[0] != DIGIT_0) {
            seq![DIGIT_0] + body
        } else {
            body
        }
    } else {
        number_body(unsigned(v), 16, conv == UPPER_X, f.precision)
    }
}

/// The byte that `%c` writes for `v`.
pub open spec fn char_byte(v: i32) -> u8 {
    if v == 0 {
        128
    } else {
        (v as int % 256) as u8
    }
}

/// What the conversion `conv` writes for the value `v`.
pub open spec fn formatted(v: Val, conv: u8, f: Flags) -> Result<Seq<u8>, ExpandError> {
    match v {
        Val::Number(n) => {
            if conv == LOWER_S {
                Err(ExpandError::TypeMismatch)
            } else if conv == LOWER_C {
                Ok(padded(seq![], seq![char_byte(n)], f, false))
            } else {
                Ok(
                    padded(
                        number_prefix(n, conv, f),
                        number_digits(n, conv, f),
                        f,
                        f.zero && f.precision is None,
                    ),
                )
            }
        },
        Val::Words(s) => {
            if conv == LOWER_S {
                Ok(
                    padded(
                        seq![],
                        match f.precision {
                            Some(p) => if p < s.len() {
                                s.subrange(0, p as int)
                            } else {
                                s
                            },
                            None => s,
                        },
                        f,
                        false,
                    ),
                )
            } else {
                Err(ExpandError::TypeMismatch)
            }
        },
    }
}

/// Appends `n` times the byte `b`.
fn push_fill(out: &mut Vec<u8>, b: u8, n: usize)
    ensures
        final(out)@ == old(out)@ + fill(b, n as int),
{
    let mut i: usize = 0;
    while i < n
        invariant
            i <= n,
            out@ == old(out)@ + fill(b, i as int),
        decreases n - i,
    {
        out.push(b);
        i = i + 1;
    }
}

/// Appends the bytes of `s`.
pub(crate) fn push_all(out: &mut Vec<u8>, s: &[u8])
    ensures
        final(out)@ == old(out)@ + s@,
{
    let mut i: usize = 0;
    while i < s.len()
        invariant
            i <= s@.len(),
            out@ == old(out)@ + s@.subrange(0, i as int),
        decreases s@.len() - i,
    {
        out.push(s[i]);
        i = i + 1;
    }
}

/// The digit `d` as a character.
fn digit_of(d: u32, upper: bool) -> (r: u8)
    requires
        d < 16,
    ensures
        r == digit_byte(d as int, upper),
{
    if d < 10 {
        DIGIT_0 + d as u8
    } else if upper {
        UPPER_A + (d - 10) as u8
    } else {
        LOWER_A + (d - 10) as u8
    }
}

/// Appends the digits of `v` to the base `base`.
fn push_digits(out: &mut Vec<u8>, v: u32, base: u32, upper: bool)
    requires
        2 <= base <= 16,
    ensures
        final(out)@ == old(out)@ + digits(v as int, base as int, upper),
    decreases v,
{
    if v < base {
        out.push(digit_of(v, upper));
    } else {
        proof {
            lemma_quotient_is_less(v as int, base as int);
        }
        push_digits(out, v / base, base, upper);
        out.push(digit_of(v % base, upper));
    }
}

/// A prefix and a body, padded to the width.
fn pad(prefix: &Vec<u8>, body: &Vec<u8>, f: &Flags, zeros: bool) -> (r: Vec<u8>)
    ensures
        r@ == padded(prefix@, body@, *f, zeros),
{
    let width: usize = f.width as usize;
    let gap: usize = if body.len() >= width {
        0
    } else if prefix.len() >= width - body.len() {
        0
    } else {
        width - body.len() - prefix.len()
    };
    let mut r: Vec<u8> = Vec::new();
    if f.left {
        push_all(&mut r, prefix.as_slice());
        push_all(&mut r, body.as_slice());
        push_fill(&mut r, SPACE, gap);
    } else if zeros {
        push_all(&mut r, prefix.as_slice());
        push_fill(&mut r, DIGIT_0, gap);
        push_all(&mut r, body.as_slice());
    } else {
        push_fill(&mut r, SPACE, gap);
        push_all(&mut r, prefix.as_slice());
        push_all(&mut r, body.as_slice());
    }
    r
}

/// What stands before the digits of `v`.
fn prefix_of(v: i32, conv: u8, f: &Flags) -> (r: Vec<u8>)
    ensures
        r@ == number_prefix(v, conv, *f),
{
    let mut r: Vec<u8> = Vec::new();
    if conv == LOWER_D {
        if v < 0 {
            r.push(MINUS);
        } else if f.sign {
            r.push(PLUS);
        } else if f.space {
            r.push(SPACE);
        }
    } else if (conv == LOWER_X || conv == UPPER_X) && f.alternate && v != 0 {
        r.push(DIGIT_0);
        r.push(conv);
    }
    r
}

/// The digits of `v` under a precision.
fn body_of(v: u32, base: u32, upper: bool, precision: Option<u32>) -> (r: Vec<u8>)
    requires
        2 <= base <= 16,
    ensures
        r@ == number_body(v as int, base as int, upper, precision),
{
    let mut shown: Vec<u8> = Vec::new();
    let none: bool = match precision {
        Some(p) => v == 0 && p == 0,
        None => false,
    };
    if !none {
        push_digits(&mut shown, v, base, upper);
    }
    let least: usize = match precision {
        Some(p) => p as usize,
        None => 1,
    };
    let mut r: Vec<u8> = Vec::new();
    if least > shown.len() {
        push_fill(&mut r, DIGIT_0, least - shown.len());
    }
    push_all(&mut r, shown.as_slice());
    r
}

/// The digits of `v` under the conversion `conv`.
fn digits_of(v: i32, conv: u8, f: &Flags) -> (r: Vec<u8>)
    requires
        conv == LOWER_D || conv == LOWER_O || conv == LOWER_X || conv == UPPER_X,
    ensures
        r@ == number_digits(v, conv, *f),
{
    if conv == LOWER_D {
        let magnitude: u32 = if v < 0 {
            (-(v as i64)) as u32
        } else {
            v as u32
        };
        body_of(magnitude, 10, false, f.precision)
    } else {
        let value: u32 = if v < 0 {
            (v as i64 + 0x1_0000_0000) as u32
        } else {
            v as u32
        };
        if conv == LOWER_O {
            let body = body_of(value, 8, false, f.precision);
            if f.alternate && (body.len() == 0 || body[0] != DIGIT_0) {
                let mut r: Vec<u8> = Vec::new();
                r.push(DIGIT_0);
                push_all(&mut r, body.as_slice());
                r
            } else {
                body
            }
        } else {
            body_of(value, 16, conv == UPPER_X, f.precision)
        }
    }
}

/// The byte that `%c` writes for `v`.
fn char_of(v: i32) -> (r: u8)
    ensures
        r == char_byte(v),
{
    if v == 0 {
        128
    } else {
        assert(v as u8 as int == (v as int) % 256) by (bit_vector);
        v as u8
    }
}

/// The views of a result that holds bytes.
pub open spec fn bytes_of(r: Result<Vec<u8>, ExpandError>) -> Result<Seq<u8>, ExpandError> {
    match r {
        Ok(s) => Ok(s@),
        Err(e) => Err(e),
    }
}

/// What the conversion `conv` writes for the value `val`.
pub(crate) fn render(val: &Value, conv: u8, f: &Flags) -> (r: Result<Vec<u8>, ExpandError>)
    requires
        is_conversion(conv),
    ensures
        bytes_of(r) == formatted(val@, conv, *f),
{
    let none: Vec<u8> = Vec::new();
    match val {
        Value::Number(n) => {
            if conv == LOWER_S {
                Err(ExpandError::TypeMismatch)
            } else if conv == LOWER_C {
                let mut body: Vec<u8> = Vec::new();
                body.push(char_of(*n));
                Ok(pad(&none, &body, f, false))
            } else {
                let prefix = prefix_of(*n, conv, f);
                let body = digits_of(*n, conv, f);
                let zeros: bool = f.zero && f.precision.is_none();
                Ok(pad(&prefix, &body, f, zeros))
            }
        },
        Value::Words(s) => {
            if conv == LOWER_S {
                let mut body: Vec<u8> = Vec::new();
                let take: usize = match f.precision {
                    Some(p) => if (p as usize) < s.len() {
                        p as usize
                    } else {
                        s.len()
                    },
                    None => s.len(),
                };
                push_all(&mut body, vstd::slice::slice_subrange(s.as_slice(), 0, take));
                assert(s@.subrange(0, s@.len() as int) =~= s@);
                Ok(pad(&none, &body, f, false))
            } else {
                Err(ExpandError::TypeMismatch)
            }
        },
    }
}

/// The numeric value of a decimal digit.
pub open spec fn digit_value(c: u8) -> int {
    c - DIGIT_0
}

/// Whether `c` is a decimal digit.
pub open spec fn is_digit(c: u8) -> bool {
    DIGIT_0 <= c <= DIGIT_9
}

/// The format that starts at `j`: where it ends, what it holds and the
/// conversion that closes it.
///
/// A format is made of flags, then a width, then a dot and a precision, each
/// of which may be missing, and a conversion. `stage` is 0 among the flags, 1
/// in the width and 2 in the precision; `f` is what was read before `j`.
pub open spec fn scan_format(raw: Seq<u8>, j: int, stage: int, f: Flags) -> Result<
    (int, Flags, u8),
    ExpandError,
>
    decreases raw.len() - j,
{
    if j < 0 || j >= raw.len() {
        Err(ExpandError::UnterminatedEscape)
    } else {
        let c = raw[j];
        if is_conversion(c) {
            Ok((j + 1, f, c))
        } else if stage == 0 && c == HASH {
            scan_format(raw, j + 1, 0, Flags { alternate: true, ..f })
        } else if stage == 0 && c == MINUS {
            scan_format(raw, j + 1, 0, Flags { left: true, ..f })
        } else if stage == 0 && c == PLUS {
            scan_format(raw, j + 1, 0, Flags { sign: true, ..f })
        } else if stage == 0 && c == SPACE {
            scan_format(raw, j + 1, 0, Flags { space: true, ..f })
        } else if stage == 0 && c == DIGIT_0 {
            scan_format(raw, j + 1, 0, Flags { zero: true, ..f })
        } else if stage == 0 && DIGIT_1 <= c <= DIGIT_9 {
            scan_format(raw, j + 1, 1, Flags { width: digit_value(c) as u32, ..f })
        } else if stage == 1 && is_digit(c) {
            if f.width * 10 + digit_value(c) > u32::MAX {
                Err(ExpandError::FormatWidthOverflow)
            } else {
                scan_format(
                    raw,
                    j + 1,
                    1,
                    Flags { width: (f.width * 10 + digit_value(c)) as u32, ..f },
                )
            }
        } else if (stage == 0 || stage == 1) && c == DOT {
            scan_format(raw, j + 1, 2, Flags { precision: Some(0u32), ..f })
        } else if stage == 2 && is_digit(c) && f.precision is Some {
            if f.precision.unwrap() * 10 + digit_value(c) > u32::MAX {
                Err(ExpandError::FormatPrecisionOverflow)
            } else {
                scan_format(
                    raw,
                    j + 1,
                    2,
                    Flags {
                        precision: Some((f.precision.unwrap() * 10 + digit_value(c)) as u32),
                        ..f
                    },
                )
            }
        } else {
            Err(ExpandError::MalformedFormat)
        }
    }
}

/// A format that was read ends behind where it started, and within the
/// capability, and closes with a conversion.
pub proof fn lemma_scan_format_advances(raw: Seq<u8>, j: int, stage: int, f: Flags)
    requires
        0 <= j,
    ensures
        scan_format(raw, j, stage, f) matches Ok(found) ==> j < found.0 <= raw.len()
            && is_conversion(found.2),
    decreases raw.len() - j,
{
    if j < raw.len() {
        let c = raw[j];
        if is_conversion(c) {
        } else if stage == 0 && c == HASH {
            lemma_scan_format_advances(raw, j + 1, 0, Flags { alternate: true, ..f });
        } else if stage == 0 && c == MINUS {
            lemma_scan_format_advances(raw, j + 1, 0, Flags { left: true, ..f });
        } else if stage == 0 && c == PLUS {
            lemma_scan_format_advances(raw, j + 1, 0, Flags { sign: true, ..f });
        } else if stage == 0 && c == SPACE {
            lemma_scan_format_advances(raw, j + 1, 0, Flags { space: true, ..f });
        } else if stage == 0 && c == DIGIT_0 {
            lemma_scan_format_advances(raw, j + 1, 0, Flags { zero: true, ..f });
        } else if stage == 0 && DIGIT_1 <= c <= DIGIT_9 {
            lemma_scan_format_advances(
                raw,
                j + 1,
                1,
                Flags { width: digit_value(c) as u32, ..f },
            );
        } else if stage == 1 && is_digit(c) {
            if f.width * 10 + digit_value(c) <= u32::MAX {
                lemma_scan_format_advances(
                    raw,
                    j + 1,
                    1,
                    Flags { width: (f.width * 10 + digit_value(c)) as u32, ..f },
                );
            }
        } else if (stage == 0 || stage == 1) && c == DOT {
            lemma_scan_format_advances(raw, j + 1, 2, Flags { precision: Some(0u32), ..f });
        } else if stage == 2 && is_digit(c) && f.precision is Some {
            if f.precision.unwrap() * 10 + digit_value(c) <= u32::MAX {
                lemma_scan_format_advances(
                    raw,
                    j + 1,
                    2,
                    Flags {
                        precision: Some((f.precision.unwrap() * 10 + digit_value(c)) as u32),
                        ..f
                    },
                );
            }
        }
    }
}

/// What reading a format gave: the view of `r` as `scan_format` gives it.
pub open spec fn format_of(r: Result<(usize, Flags, u8), ExpandError>) -> Result<
    (int, Flags, u8),
    ExpandError,
> {
    match r {
        Ok((end, f, conv)) => Ok((end as int, f, conv)),
        Err(e) => Err(e),
    }
}

/// Reads the format that starts at `start`.
pub(crate) fn read_format(raw: &[u8], start: usize) -> (r: Result<(usize, Flags, u8), ExpandError>)
    ensures
        format_of(r) == scan_format(raw@, start as int, 0, Flags::plain()),
{
    let mut f: Flags = Flags::new();
    let mut stage: u8 = 0;
    let mut j: usize = start;
    while j < raw.len()
        invariant
            start <= j,
            stage <= 2,
            stage == 2 ==> f.precision is Some,
            scan_format(raw@, start as int, 0, Flags::plain()) == scan_format(
                raw@,
                j as int,
                stage as int,
                f,
            ),
        decreases raw@.len() - j,
    {
        let c: u8 = raw[j];
        if c == LOWER_D || c == LOWER_O || c == LOWER_X || c == UPPER_X || c == LOWER_S || c
            == LOWER_C {
            return Ok((j + 1, f, c));
        } else if stage == 0 && c == HASH {
            f.alternate = true;
        } else if stage == 0 && c == MINUS {
            f.left = true;
        } else if stage == 0 && c == PLUS {
            f.sign = true;
        } else if stage == 0 && c == SPACE {
            f.space = true;
        } else if stage == 0 && c == DIGIT_0 {
            f.zero = true;
        } else if stage == 0 && DIGIT_1 <= c && c <= DIGIT_9 {
            f.width = (c - DIGIT_0) as u32;
            stage = 1;
        } else if stage == 1 && DIGIT_0 <= c && c <= DIGIT_9 {
            let wide: u64 = f.width as u64 * 10 + (c - DIGIT_0) as u64;
            if wide > u32::MAX as u64 {
                return Err(ExpandError::FormatWidthOverflow);
            }
            f.width = wide as u32;
        } else if (stage == 0 || stage == 1) && c == DOT {
            f.precision = Some(0);
            stage = 2;
        } else if stage == 2 && DIGIT_0 <= c && c <= DIGIT_9 {
            let so_far: u32 = match f.precision {
                Some(p) => p,
                None => 0,
            };
            let wide: u64 = so_far as u64 * 10 + (c - DIGIT_0) as u64;
            if wide > u32::MAX as u64 {
                return Err(ExpandError::FormatPrecisionOverflow);
            }
            f.precision = Some(wide as u32);
        } else {
            return Err(ExpandError::MalformedFormat);
        }
        j = j + 1;
    }
    Err(ExpandError::UnterminatedEscape)
}

} // verus!
