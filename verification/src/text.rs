//! Texts as sequences of characters: conversion from and to strings,
//! literals, and decimal numbers.

use vstd::prelude::*;
use vstd::string::StringExecFns;

verus! {

/// `String::push` appends one character.
pub assume_specification[ String::push ](s: &mut String, ch: char)
    ensures
        final(s)@ == old(s)@.push(ch),
;

/// The characters of a string.
pub fn chars_of(s: &str) -> (chars: Vec<char>)
    ensures
        chars@ == s@,
{
    let mut out: Vec<char> = Vec::new();
    for c in it: s.chars()
        invariant
            it.seq() == s@,
            out@.len() == it.index(),
            forall|j: int| 0 <= j < out@.len() ==> out@[j] == it.seq()[j],
    {
        out.push(c);
    }
    proof {
        assert(out@ =~= s@);
    }
    out
}

/// The string made of some characters.
pub fn string_of(chars: &Vec<char>) -> (s: String)
    ensures
        s@ == chars@,
{
    let mut out = String::new();
    let mut i: usize = 0;
    while i < chars.len()
        invariant
            i <= chars.len(),
            out@ == chars@.subrange(0, i as int),
        decreases chars.len() - i,
    {
        out.push(chars[i]);
        proof {
            assert(chars@.subrange(0, i + 1) =~= chars@.subrange(0, i as int).push(chars@[i as int]));
        }
        i = i + 1;
    }
    proof {
        assert(chars@.subrange(0, chars@.len() as int) =~= chars@);
    }
    out
}


/// The string made of the characters from `from` up to `to`.
pub fn string_of_range(chars: &Vec<char>, from: usize, to: usize) -> (s: String)
    requires
        from <= to <= chars@.len(),
    ensures
        s@ == chars@.subrange(from as int, to as int),
{
    let mut out = String::new();
    let mut i: usize = from;
    while i < to
        invariant
            from <= i <= to <= chars@.len(),
            out@ == chars@.subrange(from as int, i as int),
        decreases to - i,
    {
        out.push(chars[i]);
        proof {
            assert(chars@.subrange(from as int, i + 1) =~= chars@.subrange(
                from as int,
                i as int,
            ).push(chars@[i as int]));
        }
        i = i + 1;
    }
    out
}

/// Appends the characters of a string.
pub fn push_str(out: &mut Vec<char>, s: &str)
    ensures
        final(out)@ == old(out)@ + s@,
{
    let ghost before = out@;
    for c in it: s.chars()
        invariant
            it.seq() == s@,
            out@.len() == before.len() + it.index(),
            forall|j: int| 0 <= j < before.len() ==> out@[j] == before[j],
            forall|j: int| 0 <= j < it.index() ==> out@[before.len() + j] == it.seq()[j],
    {
        out.push(c);
    }
    proof {
        assert(out@ =~= before + s@);
    }
}

/// Appends the characters of another sequence.
pub fn push_chars(out: &mut Vec<char>, chars: &Vec<char>)
    ensures
        final(out)@ == old(out)@ + chars@,
{
    let ghost before = out@;
    let mut i: usize = 0;
    while i < chars.len()
        invariant
            i <= chars.len(),
            out@ == before + chars@.subrange(0, i as int),
        decreases chars.len() - i,
    {
        out.push(chars[i]);
        proof {
            assert(before + chars@.subrange(0, i + 1) =~= (before + chars@.subrange(
                0,
                i as int,
            )).push(chars@[i as int]));
        }
        i = i + 1;
    }
    proof {
        assert(chars@.subrange(0, chars@.len() as int) =~= chars@);
    }
}

/// Whether the characters from `from` up to `to` spell the given string.
pub fn range_is(chars: &Vec<char>, from: usize, to: usize, s: &str) -> (r: bool)
    requires
        from <= to <= chars@.len(),
    ensures
        r == (chars@.subrange(from as int, to as int) == s@),
{
    let ghost part = chars@.subrange(from as int, to as int);
    let mut i: usize = from;
    for c in it: s.chars()
        invariant
            it.seq() == s@,
            from <= to <= chars@.len(),
            part == chars@.subrange(from as int, to as int),
            i == from + it.index(),
            i <= to,
            forall|j: int| 0 <= j < it.index() ==> part[j] == it.seq()[j],
    {
        if i >= to || chars[i] != c {
            proof {
                if i < to {
                    assert(part[it.index()] != s@[it.index()]);
                }
            }
            return false;
        }
        i = i + 1;
    }
    proof {
        if i == to {
            assert(part =~= s@);
        }
    }
    i == to
}

/// Whether a character is a decimal digit.
pub open spec fn is_digit(c: char) -> bool {
    48 <= c as u32 <= 57
}

/// Value of a decimal digit.
pub open spec fn digit_value(c: char) -> nat {
    (c as u32 - 48) as nat
}

/// The decimal digit of a value below ten.
pub open spec fn digit_char(v: nat) -> char {
    ((48 + v) as u8) as char
}

/// Why a text is not a number of the type asked for.
#[derive(Clone, Copy, Debug, PartialEq, Eq, Structural)]
pub enum IntError {
    /// The text is empty.
    Empty,
    /// A character is no digit, or a sign stands alone.
    InvalidDigit,
    /// The number is above the largest of the type.
    PosOverflow,
    /// The number is below the smallest of the type.
    NegOverflow,
}

/// Reads digits from the left, stopping at the first character that is no
/// digit and at the first digit that takes the value above `max`.
pub open spec fn parse_digits(d: Seq<char>, max: nat) -> Result<nat, IntError>
    decreases d.len(),
{
    if d.len() == 0 {
        Ok(0)
    } else {
        match parse_digits(d.drop_last(), max) {
            Err(e) => Err(e),
            Ok(v) => if !is_digit(d.last()) {
                Err(IntError::InvalidDigit)
            } else if v * 10 + digit_value(d.last()) > max {
                Err(IntError::PosOverflow)
            } else {
                Ok(v * 10 + digit_value(d.last()))
            },
        }
    }
}

/// An unsigned decimal number with an optional `+` before it, at most `max`.
pub open spec fn parse_unsigned(s: Seq<char>, max: nat) -> Result<nat, IntError> {
    if s.len() == 0 {
        Err(IntError::Empty)
    } else {
        let d = if s[0] == '+' {
            s.subrange(1, s.len() as int)
        } else {
            s
        };
        if d.len() == 0 {
            Err(IntError::InvalidDigit)
        } else {
            parse_digits(d, max)
        }
    }
}

/// A decimal number with an optional sign before it, within the 32-bit
/// signed range.
pub open spec fn parse_i32(s: Seq<char>) -> Result<int, IntError> {
    if s.len() == 0 {
        Err(IntError::Empty)
    } else if s[0] == '-' {
        let d = s.subrange(1, s.len() as int);
        if d.len() == 0 {
            Err(IntError::InvalidDigit)
        } else {
            match parse_digits(d, 0x8000_0000) {
                Ok(v) => Ok(-(v as int)),
                Err(IntError::PosOverflow) => Err(IntError::NegOverflow),
                Err(e) => Err(e),
            }
        }
    } else {
        match parse_unsigned(s, 0x7fff_ffff) {
            Ok(v) => Ok(v as int),
            Err(e) => Err(e),
        }
    }
}

/// Decimal text of a number, without leading zeros.
pub open spec fn decimal_text(v: nat) -> Seq<char>
    decreases v,
{
    if v < 10 {
        seq![digit_char(v)]
    } else {
        decimal_text(v / 10).push(digit_char(v % 10))
    }
}

/// Decimal text of a signed number.
pub open spec fn signed_text(v: int) -> Seq<char> {
    if v < 0 {
        seq!['-'] + decimal_text((-v) as nat)
    } else {
        decimal_text(v as nat)
    }
}

/// Every character of a number's decimal text is a digit.
pub proof fn lemma_decimal_text_digits(v: nat)
    ensures
        decimal_text(v).len() >= 1,
        forall|i: int| 0 <= i < decimal_text(v).len() ==> is_digit(#[trigger] decimal_text(v)[i]),
    decreases v,
{
    if v >= 10 {
        lemma_decimal_text_digits(v / 10);
    }
}

/// Reading the decimal text of a number gives the number back.
pub proof fn lemma_decimal_round_trip(v: nat, max: nat)
    requires
        v <= max,
    ensures
        parse_digits(decimal_text(v), max) == Ok::<nat, IntError>(v),
        parse_unsigned(decimal_text(v), max) == Ok::<nat, IntError>(v),
    decreases v,
{
    lemma_decimal_text_digits(v);
    let t = decimal_text(v);
    if v < 10 {
        assert(t.drop_last() =~= Seq::<char>::empty());
        assert(parse_digits(t.drop_last(), max) == Ok::<nat, IntError>(0));
        assert(digit_value(digit_char(v)) == v);
    } else {
        lemma_decimal_round_trip(v / 10, max);
        assert(t.drop_last() =~= decimal_text(v / 10));
        assert(digit_value(digit_char(v % 10)) == v % 10);
    }
    assert(t[0] != '+');
}

/// Reads the characters from `from` up to `to` as digits.
pub fn read_digits(chars: &Vec<char>, from: usize, to: usize, max: u64) -> (r: Result<
    u64,
    IntError,
>)
    requires
        from <= to <= chars@.len(),
    ensures
        match r {
            Ok(v) => parse_digits(chars@.subrange(from as int, to as int), max as nat) == Ok::<
                nat,
                IntError,
            >(v as nat),
            Err(e) => parse_digits(chars@.subrange(from as int, to as int), max as nat) == Err::<
                nat,
                IntError,
            >(e),
        },
{
    let mut acc: u64 = 0;
    let mut i: usize = from;
    proof {
        assert(chars@.subrange(from as int, from as int) =~= Seq::<char>::empty());
    }
    while i < to
        invariant
            from <= i <= to <= chars@.len(),
            acc <= max,
            parse_digits(chars@.subrange(from as int, i as int), max as nat) == Ok::<
                nat,
                IntError,
            >(acc as nat),
        decreases to - i,
    {
        let c: char = chars[i];
        let n: u32 = c as u32;
        proof {
            let next = chars@.subrange(from as int, i + 1);
            assert(next.drop_last() =~= chars@.subrange(from as int, i as int));
            assert(next.last() == c);
        }
        let step: Option<u64> = if n < 48 || n > 57 {
            None
        } else {
            let d: u64 = (n - 48) as u64;
            let wide: u128 = (acc as u128) * 10 + d as u128;
            if wide > max as u128 {
                None
            } else {
                Some(wide as u64)
            }
        };
        match step {
            Some(v) => {
                acc = v;
                i = i + 1;
            },
            None => {
                let e = if n < 48 || n > 57 {
                    IntError::InvalidDigit
                } else {
                    IntError::PosOverflow
                };
                proof {
                    assert(chars@.subrange(from as int, to as int).subrange(0, i + 1 - from)
                        =~= chars@.subrange(from as int, i + 1));
                    lemma_parse_digits_error_extends(
                        chars@.subrange(from as int, to as int),
                        max as nat,
                        i + 1 - from,
                    );
                }
                return Err(e);
            },
        }
    }
    Ok(acc)
}

/// An error met in a prefix is the error of the whole text.
pub proof fn lemma_parse_digits_error_extends(d: Seq<char>, max: nat, k: int)
    requires
        0 <= k <= d.len(),
        parse_digits(d.subrange(0, k), max) is Err,
    ensures
        parse_digits(d, max) == parse_digits(d.subrange(0, k), max),
    decreases d.len(),
{
    if k == d.len() {
        assert(d.subrange(0, k) =~= d);
    } else {
        assert(d.drop_last().subrange(0, k) =~= d.subrange(0, k));
        lemma_parse_digits_error_extends(d.drop_last(), max, k);
    }
}

/// Reads the characters from `from` up to `to` as an unsigned number.
pub fn read_unsigned(chars: &Vec<char>, from: usize, to: usize, max: u64) -> (r: Result<
    u64,
    IntError,
>)
    requires
        from <= to <= chars@.len(),
    ensures
        match r {
            Ok(v) => parse_unsigned(chars@.subrange(from as int, to as int), max as nat) == Ok::<
                nat,
                IntError,
            >(v as nat) && v <= max,
            Err(e) => parse_unsigned(chars@.subrange(from as int, to as int), max as nat) == Err::<
                nat,
                IntError,
            >(e),
        },
{
    let ghost s = chars@.subrange(from as int, to as int);
    if from == to {
        return Err(IntError::Empty);
    }
    let start: usize = if chars[from] == '+' {
        from + 1
    } else {
        from
    };
    proof {
        assert(s[0] == chars@[from as int]);
        if start == from + 1 {
            assert(s.subrange(1, s.len() as int) =~= chars@.subrange(start as int, to as int));
        }
    }
    if start == to {
        return Err(IntError::InvalidDigit);
    }
    let r = read_digits(chars, start, to, max);
    proof {
        if let Ok(v) = r {
            lemma_parse_digits_bound(chars@.subrange(start as int, to as int), max as nat);
        }
    }
    r
}

/// A number read from digits is at most the bound it was read with.
pub proof fn lemma_parse_digits_bound(d: Seq<char>, max: nat)
    ensures
        parse_digits(d, max) matches Ok(v) ==> v <= max,
    decreases d.len(),
{
    if d.len() > 0 {
        lemma_parse_digits_bound(d.drop_last(), max);
    }
}

/// Reads the characters from `from` up to `to` as a signed 32-bit number.
pub fn read_i32(chars: &Vec<char>, from: usize, to: usize) -> (r: Result<i32, IntError>)
    requires
        from <= to <= chars@.len(),
    ensures
        match r {
            Ok(v) => parse_i32(chars@.subrange(from as int, to as int)) == Ok::<int, IntError>(
                v as int,
            ),
            Err(e) => parse_i32(chars@.subrange(from as int, to as int)) == Err::<int, IntError>(
                e,
            ),
        },
{
    let ghost s = chars@.subrange(from as int, to as int);
    if from == to {
        return Err(IntError::Empty);
    }
    proof {
        assert(s[0] == chars@[from as int]);
    }
    if chars[from] == '-' {
        proof {
            assert(s.subrange(1, s.len() as int) =~= chars@.subrange(from + 1, to as int));
        }
        if from + 1 == to {
            return Err(IntError::InvalidDigit);
        }
        match read_digits(chars, from + 1, to, 0x8000_0000) {
            Ok(v) => {
                proof {
                    lemma_parse_digits_bound(chars@.subrange(from + 1, to as int), 0x8000_0000);
                }
                if v == 0x8000_0000 {
                    Ok(i32::MIN)
                } else {
                    Ok(-(v as i32))
                }
            },
            Err(IntError::PosOverflow) => Err(IntError::NegOverflow),
            Err(e) => Err(e),
        }
    } else {
        match read_unsigned(chars, from, to, 0x7fff_ffff) {
            Ok(v) => Ok(v as i32),
            Err(e) => Err(e),
        }
    }
}

/// Appends the decimal text of a number.
pub fn write_decimal(out: &mut Vec<char>, v: u64)
    ensures
        final(out)@ == old(out)@ + decimal_text(v as nat),
    decreases v,
{
    let ghost before = out@;
    if v >= 10 {
        write_decimal(out, v / 10);
    }
    let d: u8 = (v % 10) as u8;
    out.push((48 + d) as char);
    proof {
        if v >= 10 {
            assert(out@ =~= before + decimal_text(v as nat));
        } else {
            assert(out@ =~= before + decimal_text(v as nat));
        }
    }
}

/// Appends the decimal text of a signed number.
pub fn write_signed(out: &mut Vec<char>, v: i32)
    ensures
        final(out)@ == old(out)@ + signed_text(v as int),
{
    let ghost before = out@;
    if v < 0 {
        out.push('-');
        let m: u64 = (-(v as i64)) as u64;
        write_decimal(out, m);
        proof {
            assert(out@ =~= before + signed_text(v as int));
        }
    } else {
        write_decimal(out, v as u64);
    }
}

/// The text that the library gives for each kind of number error.
pub fn int_error_text(e: IntError) -> (s: String)
    ensures
        s@ == int_error_message(e),
{
    match e {
        IntError::Empty => String::from_str("cannot parse integer from empty string"),
        IntError::InvalidDigit => String::from_str("invalid digit found in string"),
        IntError::PosOverflow => String::from_str("number too large to fit in target type"),
        IntError::NegOverflow => String::from_str("number too small to fit in target type"),
    }
}

/// The message of each kind of number error.
pub open spec fn int_error_message(e: IntError) -> Seq<char> {
    match e {
        IntError::Empty => "cannot parse integer from empty string"@,
        IntError::InvalidDigit => "invalid digit found in string"@,
        IntError::PosOverflow => "number too large to fit in target type"@,
        IntError::NegOverflow => "number too small to fit in target type"@,
    }
}


/// The characters from `from` up to `to`.
pub fn copy_range(chars: &Vec<char>, from: usize, to: usize) -> (part: Vec<char>)
    requires
        from <= to <= chars@.len(),
    ensures
        part@ == chars@.subrange(from as int, to as int),
{
    let mut out: Vec<char> = Vec::new();
    let mut i: usize = from;
    while i < to
        invariant
            from <= i <= to <= chars@.len(),
            out@ == chars@.subrange(from as int, i as int),
        decreases to - i,
    {
        out.push(chars[i]);
        proof {
            assert(chars@.subrange(from as int, i + 1) =~= chars@.subrange(
                from as int,
                i as int,
            ).push(chars@[i as int]));
        }
        i = i + 1;
    }
    out
}

} // verus!
