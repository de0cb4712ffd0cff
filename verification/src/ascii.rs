//! ASCII (`u8`) classification, case-mapping and numeric-string parsing.
use vstd::prelude::*;
use vstd::slice::slice_subrange;

use crate::err::{ParseNumErr, ParseNumErrKind};

verus! {

/// Difference between an ASCII lower-case letter and its upper-case form.
pub const DIFF_BETWEEN_LOWER_UPPER: u8 = 32;

/// ASCII code of `'a'`.
pub const LOWER_A: u8 = 97;

/// ASCII code of `'z'`.
pub const LOWER_Z: u8 = 122;

/// ASCII code of `'A'`.
pub const UPPER_A: u8 = 65;

/// ASCII code of `'Z'`.
pub const UPPER_Z: u8 = 90;

/// ASCII code of `'0'`.
pub const DIGIT_0: u8 = 48;

/// ASCII code of `'9'`.
pub const DIGIT_9: u8 = 57;

/// ASCII code of `'f'`.
pub const LOWER_F: u8 = 102;

/// ASCII code of `'F'`.
pub const UPPER_F: u8 = 70;

/// ASCII code of the space character.
pub const SPACE: u8 = 32;

/// ASCII code of the horizontal tab.
pub const TAB: u8 = 9;

/// ASCII code of the line feed.
pub const LINE_FEED: u8 = 10;

/// ASCII code of the carriage return.
pub const CARRIAGE_RETURN: u8 = 13;

/// True if the byte is an ASCII letter.
pub open spec fn spec_is_alpha(c: u8) -> bool {
    (LOWER_A <= c && c <= LOWER_Z) || (UPPER_A <= c && c <= UPPER_Z)
}

/// True if the byte is an ASCII decimal digit.
pub open spec fn spec_is_digit(c: u8) -> bool {
    DIGIT_0 <= c && c <= DIGIT_9
}

/// True if the byte is an ASCII hexadecimal digit.
pub open spec fn spec_is_hex_digit(c: u8) -> bool {
    spec_is_digit(c) || (LOWER_A <= c && c <= LOWER_F) || (UPPER_A <= c && c <= UPPER_F)
}

/// True if the byte is a space, tab, line feed or carriage return.
pub open spec fn spec_is_space(c: u8) -> bool {
    c == SPACE || c == TAB || c == LINE_FEED || c == CARRIAGE_RETURN
}

/// The lower-case form of an ASCII byte; other bytes are unchanged.
pub open spec fn spec_to_lower(c: u8) -> u8 {
    if UPPER_A <= c && c <= UPPER_Z {
        (c + DIFF_BETWEEN_LOWER_UPPER) as u8
    } else {
        c
    }
}

/// The upper-case form of an ASCII byte; other bytes are unchanged.
pub open spec fn spec_to_upper(c: u8) -> u8 {
    if LOWER_A <= c && c <= LOWER_Z {
        (c - DIFF_BETWEEN_LOWER_UPPER) as u8
    } else {
        c
    }
}

/// Returns true if this `u8` is an alphabetic code point, and false if not.
#[inline]
pub fn isalpha(c: u8) -> (r: bool)
    ensures
        r == spec_is_alpha(c),
{
    (LOWER_A <= c && c <= LOWER_Z) || (UPPER_A <= c && c <= UPPER_Z)
}

/// Checks if a `u8` is a digit in a radix of ten.
#[inline]
pub fn isdigit(c: u8) -> (r: bool)
    ensures
        r == spec_is_digit(c),
{
    DIGIT_0 <= c && c <= DIGIT_9
}

/// Checks if a `u8` is a digit in a radix of hexadecimal.
#[inline]
pub fn isdigit_hex(c: u8) -> (r: bool)
    ensures
        r == spec_is_hex_digit(c),
{
    isdigit(c) || (LOWER_A <= c && c <= LOWER_F) || (UPPER_A <= c && c <= UPPER_F)
}

/// Checks if a given character is an alphanumerical character.
#[inline]
pub fn isalnum(c: u8) -> (r: bool)
    ensures
        r == (spec_is_alpha(c) || spec_is_digit(c)),
{
    isalpha(c) || isdigit(c)
}

/// Checks if a given character is a space character (i.e., ' ', \t, \n, \r).
#[inline]
pub fn isspace(c: u8) -> (r: bool)
    ensures
        r == spec_is_space(c),
{
    c == SPACE || c == TAB || c == LINE_FEED || c == CARRIAGE_RETURN
}

/// Maps one byte to lower case.
#[inline]
pub fn tolowerc(c: u8) -> (r: u8)
    ensures
        r == spec_to_lower(c),
{
    if c < UPPER_A || UPPER_Z < c {
        c
    } else {
        c + DIFF_BETWEEN_LOWER_UPPER
    }
}

/// Maps every byte of the slice to lower case.
pub fn tolower(s: &[u8]) -> (r: Vec<u8>)
    ensures
        r@.len() == s@.len(),
        forall|i: int| 0 <= i < s@.len() ==> r@[i] == spec_to_lower(s@[i]),
{
    let mut buf: Vec<u8> = Vec::new();
    let mut i: usize = 0;
    while i < s.len()
        invariant
            i <= s@.len(),
            buf@.len() == i,
            forall|j: int| 0 <= j < i ==> buf@[j] == spec_to_lower(s@[j]),
        decreases s@.len() - i,
    {
        buf.push(tolowerc(s[i]));
        i = i + 1;
    }
    buf
}

/// Maps one byte to upper case.
#[inline]
pub fn toupperc(c: u8) -> (r: u8)
    ensures
        r == spec_to_upper(c),
{
    if c < LOWER_A || LOWER_Z < c {
        c
    } else {
        c - DIFF_BETWEEN_LOWER_UPPER
    }
}

/// Maps every byte of the slice to upper case.
pub fn toupper(s: &[u8]) -> (r: Vec<u8>)
    ensures
        r@.len() == s@.len(),
        forall|i: int| 0 <= i < s@.len() ==> r@[i] == spec_to_upper(s@[i]),
{
    let mut buf: Vec<u8> = Vec::new();
    let mut i: usize = 0;
    while i < s.len()
        invariant
            i <= s@.len(),
            buf@.len() == i,
            forall|j: int| 0 <= j < i ==> buf@[j] == spec_to_upper(s@[j]),
        decreases s@.len() - i,
    {
        buf.push(toupperc(s[i]));
        i = i + 1;
    }
    buf
}

/// ASCII code of the minus sign.
pub const MINUS: u8 = 45;

/// Index of the first byte at or after `i` that is not an ASCII space.
pub open spec fn skip_while_space(s: Seq<u8>, i: int) -> int
    decreases s.len() - i when 0 <= i <= s.len()
{
    if i >= s.len() {
        i
    } else if spec_is_space(s[i]) {
        skip_while_space(s, i + 1)
    } else {
        i
    }
}

/// Index of the first byte at or after `i` that is not an ASCII digit.
pub open spec fn skip_while_digit(s: Seq<u8>, i: int) -> int
    decreases s.len() - i when 0 <= i <= s.len()
{
    if i >= s.len() {
        i
    } else if spec_is_digit(s[i]) {
        skip_while_digit(s, i + 1)
    } else {
        i
    }
}

/// The numeric value of a string of ASCII decimal digits.
pub open spec fn dec_val(s: Seq<u8>) -> int
    decreases s.len(),
{
    if s.len() == 0 {
        0
    } else {
        dec_val(s.drop_last()) * 10 + (s.last() - DIGIT_0)
    }
}

/// Everything skipped over by `skip_while_space` is a space.
pub proof fn lemma_skip_while_space_range(s: Seq<u8>, i: int)
    requires
        0 <= i <= s.len(),
    ensures
        i <= skip_while_space(s, i) <= s.len(),
        forall|j: int| i <= j < skip_while_space(s, i) ==> spec_is_space(#[trigger] s[j]),
    decreases s.len() - i,
{
    if i < s.len() && spec_is_space(s[i]) {
        lemma_skip_while_space_range(s, i + 1);
    }
}

/// Everything skipped over by `skip_while_digit` is a digit.
pub proof fn lemma_skip_while_digit_range(s: Seq<u8>, i: int)
    requires
        0 <= i <= s.len(),
    ensures
        i <= skip_while_digit(s, i) <= s.len(),
        forall|j: int| i <= j < skip_while_digit(s, i) ==> spec_is_digit(#[trigger] s[j]),
    decreases s.len() - i,
{
    if i < s.len() && spec_is_digit(s[i]) {
        lemma_skip_while_digit_range(s, i + 1);
    }
}

/// A digit string's value never goes down when more digits follow.
pub proof fn lemma_dec_val_bounds(t: Seq<u8>, k: int)
    requires
        0 <= k <= t.len(),
        forall|i: int| 0 <= i < t.len() ==> spec_is_digit(#[trigger] t[i]),
    ensures
        0 <= dec_val(t.subrange(0, k)) <= dec_val(t),
    decreases t.len(),
{
    if t.len() == 0 {
        assert(t.subrange(0, k) =~= t);
    } else if k == t.len() {
        assert(t.subrange(0, k) =~= t);
        lemma_dec_val_bounds(t.drop_last(), t.len() - 1);
        assert(t.drop_last().subrange(0, t.len() - 1) =~= t.drop_last());
    } else {
        let u = t.drop_last();
        assert(u.subrange(0, k) =~= t.subrange(0, k));
        lemma_dec_val_bounds(u, k);
    }
}

/// Outcome required of `strtol` on input `s`: the digit run after leading
/// spaces parses to an `i64`, with the unparsed suffix handed back.
pub open spec fn strtol_ensures(s: Seq<u8>, r: Result<(i64, Option<&[u8]>), ParseNumErr>) -> bool {
    let start = skip_while_space(s, 0);
    let end = skip_while_digit(s, start);
    let val = dec_val(s.subrange(start, end));
    if start == end {
        r matches Err(e) && e.kind == ParseNumErrKind::Empty
    } else if val > i64::MAX {
        r matches Err(e) && e.kind == ParseNumErrKind::Overflow
    } else {
        r matches Ok((v, rem)) && v == val && (if end < s.len() {
            rem matches Some(t) && t@ == s.skip(end)
        } else {
            rem is None
        })
    }
}

/// Convert a string to an integer value and
/// return a remaining part which is not valid in decimal.
pub fn strtol<'a>(s: &'a [u8]) -> (r: Result<(i64, Option<&'a [u8]>), ParseNumErr>)
    ensures
        strtol_ensures(s@, r),
{
    let n = s.len();
    let mut start: usize = 0;
    while start < n && isspace(s[start])
        invariant
            n == s@.len(),
            0 <= start <= n,
            skip_while_space(s@, 0) == skip_while_space(s@, start as int),
        decreases n - start,
    {
        start = start + 1;
    }
    assert(skip_while_space(s@, 0) == start);

    let mut end: usize = start;
    let mut val: i64 = 0;
    let mut overflowed = false;
    while end < n && isdigit(s[end])
        invariant
            n == s@.len(),
            start <= end <= n,
            skip_while_digit(s@, start as int) == skip_while_digit(s@, end as int),
            forall|i: int| start <= i < end ==> spec_is_digit(#[trigger] s@[i]),
            !overflowed ==> 0 <= val == dec_val(s@.subrange(start as int, end as int)),
            overflowed ==> dec_val(s@.subrange(start as int, end as int)) > i64::MAX,
        decreases n - end,
    {
        let d = s[end] - DIGIT_0;
        proof {
            assert(s@.subrange(start as int, end + 1).drop_last() =~= s@.subrange(
                start as int,
                end as int,
            ));
        }
        if !overflowed {
            if val > (i64::MAX - d as i64) / 10 {
                overflowed = true;
                proof {
                    let t = s@.subrange(start as int, end + 1);
                    assert(dec_val(t) == dec_val(t.drop_last()) * 10 + d);
                    assert(dec_val(t) > i64::MAX) by (nonlinear_arith)
                        requires
                            dec_val(t) == dec_val(t.drop_last()) * 10 + d,
                            dec_val(t.drop_last()) > (i64::MAX - d as int) / 10,
                            dec_val(t.drop_last()) >= 0,
                            0 <= d <= 9,
                    ;
                }
            } else {
                val = val * 10 + d as i64;
            }
        }
        end = end + 1;
    }
    assert(skip_while_digit(s@, start as int) == end);

    if start == end {
        return Err(ParseNumErr::empty());
    }
    if overflowed {
        return Err(ParseNumErr::overflow());
    }
    let rem: Option<&'a [u8]> = if end < n {
        Some(slice_subrange(s, end, n))
    } else {
        None
    };
    Ok((val, rem))
}

/// Like `strtol`, but the value must also fit in an `i32`.
pub fn strtoi<'a>(s: &'a [u8]) -> (r: Result<(i32, Option<&'a [u8]>), ParseNumErr>)
    ensures
        ({
            let start = skip_while_space(s@, 0);
            let end = skip_while_digit(s@, start);
            let val = dec_val(s@.subrange(start, end));
            if start == end {
                r matches Err(e) && e.kind == ParseNumErrKind::Empty
            } else if val > i32::MAX {
                r matches Err(e) && e.kind == ParseNumErrKind::Overflow
            } else {
                r matches Ok((v, rem)) && v == val && (if end < s@.len() {
                    rem matches Some(t) && t@ == s@.skip(end)
                } else {
                    rem is None
                })
            }
        }),
{
    proof {
        let start = skip_while_space(s@, 0);
        lemma_skip_while_space_range(s@, 0);
        lemma_skip_while_digit_range(s@, start);
        let end = skip_while_digit(s@, start);
        let t = s@.subrange(start, end);
        assert(forall|i: int| 0 <= i < t.len() ==> spec_is_digit(#[trigger] t[i]));
        lemma_dec_val_bounds(t, 0);
        assert(t.subrange(0, 0) =~= Seq::<u8>::empty());
    }
    match strtol(s) {
        Err(e) => Err(e),
        Ok((val, rem)) => {
            if val > i32::MAX as i64 {
                Err(ParseNumErr::overflow())
            } else {
                Ok((val as i32, rem))
            }
        },
    }
}

/// Result of reading a whole byte string as an unsigned decimal number.
pub open spec fn spec_parse_uint(s: Seq<u8>) -> Result<int, ParseNumErrKind> {
    if s.len() == 0 {
        Err(ParseNumErrKind::Empty)
    } else if exists|i: int| 0 <= i < s.len() && !spec_is_digit(#[trigger] s[i]) {
        Err(ParseNumErrKind::InvalidDigit)
    } else {
        Ok(dec_val(s))
    }
}

/// Result of reading a whole byte string as a decimal number with an
/// optional leading minus sign.
pub open spec fn spec_parse_int(s: Seq<u8>) -> Result<int, ParseNumErrKind> {
    if s.len() > 0 && s[0] == MINUS {
        match spec_parse_uint(s.skip(1)) {
            Ok(v) => Ok(-v),
            Err(k) => Err(k),
        }
    } else {
        spec_parse_uint(s)
    }
}

/// Result of reading a whole byte string as a decimal number that must lie
/// in the range `lo ..= hi`.
pub open spec fn spec_from_decimal(s: Seq<u8>, lo: int, hi: int) -> Result<int, ParseNumErr> {
    match spec_parse_int(s) {
        Ok(v) => if v > hi {
            Err(ParseNumErr { kind: ParseNumErrKind::Overflow })
        } else if v < lo {
            Err(ParseNumErr { kind: ParseNumErrKind::Underflow })
        } else {
            Ok(v)
        },
        Err(k) => Err(ParseNumErr { kind: k }),
    }
}

/// Reads the whole byte string as an unsigned decimal number that fits in a
/// `u64`; values past `u64::MAX` report an overflow.
pub fn parse_unsigned(s: &[u8]) -> (r: Result<u64, ParseNumErr>)
    ensures
        match spec_parse_uint(s@) {
            Ok(v) => if v <= u64::MAX {
                r matches Ok(x) && x == v
            } else {
                r matches Err(e) && e.kind == ParseNumErrKind::Overflow
            },
            Err(k) => r matches Err(e) && e.kind == k,
        },
{
    let n = s.len();
    if n == 0 {
        return Err(ParseNumErr::empty());
    }
    let mut i: usize = 0;
    while i < n
        invariant
            n == s@.len(),
            0 <= i <= n,
            forall|j: int| 0 <= j < i ==> spec_is_digit(#[trigger] s@[j]),
        decreases n - i,
    {
        if !isdigit(s[i]) {
            return Err(ParseNumErr::invalid_digit());
        }
        i = i + 1;
    }
    let mut val: u64 = 0;
    let mut k: usize = 0;
    while k < n
        invariant
            n == s@.len(),
            0 <= k <= n,
            forall|j: int| 0 <= j < n ==> spec_is_digit(#[trigger] s@[j]),
            0 <= val == dec_val(s@.subrange(0, k as int)),
        decreases n - k,
    {
        let d = s[k] - DIGIT_0;
        proof {
            assert(s@.subrange(0, k + 1).drop_last() =~= s@.subrange(0, k as int));
        }
        if val > (u64::MAX - d as u64) / 10 {
            proof {
                let t = s@.subrange(0, k + 1);
                assert(dec_val(t) == dec_val(t.drop_last()) * 10 + d);
                assert(dec_val(t) > u64::MAX) by (nonlinear_arith)
                    requires
                        dec_val(t) == dec_val(t.drop_last()) * 10 + d,
                        dec_val(t.drop_last()) > (u64::MAX - d as int) / 10,
                        dec_val(t.drop_last()) >= 0,
                        0 <= d <= 9,
                ;
                lemma_dec_val_bounds(s@, k + 1);
                assert(s@.subrange(0, n as int) =~= s@);
            }
            return Err(ParseNumErr::overflow());
        }
        val = val * 10 + d as u64;
        k = k + 1;
    }
    proof {
        assert(s@.subrange(0, n as int) =~= s@);
    }
    Ok(val)
}

/// Reads the whole byte string as a decimal number with an optional leading
/// minus sign that fits in an `i64`.
pub fn parse_signed(s: &[u8]) -> (r: Result<i64, ParseNumErr>)
    ensures
        match spec_from_decimal(s@, i64::MIN as int, i64::MAX as int) {
            Ok(v) => r matches Ok(x) && x == v,
            Err(e) => r matches Err(e2) && e2.kind == e.kind,
        },
{
    if s.len() > 0 && s[0] == MINUS {
        let rest = slice_subrange(s, 1, s.len());
        proof {
            if spec_parse_uint(rest@) matches Ok(v) {
                lemma_dec_val_bounds(rest@, 0);
                assert(rest@.subrange(0, 0) =~= Seq::<u8>::empty());
            }
        }
        match parse_unsigned(rest) {
            Ok(m) => {
                if m <= i64::MAX as u64 {
                    Ok(-(m as i64))
                } else if m == i64::MAX as u64 + 1 {
                    Ok(i64::MIN)
                } else {
                    Err(ParseNumErr::underflow())
                }
            },
            Err(e) => {
                match &e.kind {
                    ParseNumErrKind::Overflow => Err(ParseNumErr::underflow()),
                    _ => Err(e),
                }
            },
        }
    } else {
        proof {
            if spec_parse_uint(s@) matches Ok(v) {
                lemma_dec_val_bounds(s@, 0);
                assert(s@.subrange(0, 0) =~= Seq::<u8>::empty());
            }
        }
        match parse_unsigned(s) {
            Ok(v) => {
                if v <= i64::MAX as u64 {
                    Ok(v as i64)
                } else {
                    Err(ParseNumErr::overflow())
                }
            },
            Err(e) => Err(e),
        }
    }
}

/// A value that can be read from the decimal text in a byte string.
pub trait FromBytes: Sized {
    type Err;

    /// The value, or error, that `from_bytes` must return.
    spec fn from_bytes_spec(b: Seq<u8>) -> Result<Self, Self::Err>;

    /// Reads the value from the whole byte string.
    fn from_bytes(b: &[u8]) -> (r: Result<Self, Self::Err>)
        ensures
            r == Self::from_bytes_spec(b@),
    ;
}


impl FromBytes for u8 {
    type Err = ParseNumErr;

    open spec fn from_bytes_spec(b: Seq<u8>) -> Result<u8, ParseNumErr> {
        match spec_from_decimal(b, u8::MIN as int, u8::MAX as int) {
            Ok(v) => Ok(v as u8),
            Err(e) => Err(e),
        }
    }

    fn from_bytes(b: &[u8]) -> (r: Result<u8, ParseNumErr>) {
        match parse_signed(b) {
            Ok(v) => {
                if v < u8::MIN as i64 {
                    Err(ParseNumErr::underflow())
                } else if v > u8::MAX as i64 {
                    Err(ParseNumErr::overflow())
                } else {
                    Ok(v as u8)
                }
            },
            Err(e) => Err(e),
        }
    }
}

impl FromBytes for u16 {
    type Err = ParseNumErr;

    open spec fn from_bytes_spec(b: Seq<u8>) -> Result<u16, ParseNumErr> {
        match spec_from_decimal(b, u16::MIN as int, u16::MAX as int) {
            Ok(v) => Ok(v as u16),
            Err(e) => Err(e),
        }
    }

    fn from_bytes(b: &[u8]) -> (r: Result<u16, ParseNumErr>) {
        match parse_signed(b) {
            Ok(v) => {
                if v < u16::MIN as i64 {
                    Err(ParseNumErr::underflow())
                } else if v > u16::MAX as i64 {
                    Err(ParseNumErr::overflow())
                } else {
                    Ok(v as u16)
                }
            },
            Err(e) => Err(e),
        }
    }
}

impl FromBytes for u32 {
    type Err = ParseNumErr;

    open spec fn from_bytes_spec(b: Seq<u8>) -> Result<u32, ParseNumErr> {
        match spec_from_decimal(b, u32::MIN as int, u32::MAX as int) {
            Ok(v) => Ok(v as u32),
            Err(e) => Err(e),
        }
    }

    fn from_bytes(b: &[u8]) -> (r: Result<u32, ParseNumErr>) {
        match parse_signed(b) {
            Ok(v) => {
                if v < u32::MIN as i64 {
                    Err(ParseNumErr::underflow())
                } else if v > u32::MAX as i64 {
                    Err(ParseNumErr::overflow())
                } else {
                    Ok(v as u32)
                }
            },
            Err(e) => Err(e),
        }
    }
}

impl FromBytes for i8 {
    type Err = ParseNumErr;

    open spec fn from_bytes_spec(b: Seq<u8>) -> Result<i8, ParseNumErr> {
        match spec_from_decimal(b, i8::MIN as int, i8::MAX as int) {
            Ok(v) => Ok(v as i8),
            Err(e) => Err(e),
        }
    }

    fn from_bytes(b: &[u8]) -> (r: Result<i8, ParseNumErr>) {
        match parse_signed(b) {
            Ok(v) => {
                if v < i8::MIN as i64 {
                    Err(ParseNumErr::underflow())
                } else if v > i8::MAX as i64 {
                    Err(ParseNumErr::overflow())
                } else {
                    Ok(v as i8)
                }
            },
            Err(e) => Err(e),
        }
    }
}

impl FromBytes for i16 {
    type Err = ParseNumErr;

    open spec fn from_bytes_spec(b: Seq<u8>) -> Result<i16, ParseNumErr> {
        match spec_from_decimal(b, i16::MIN as int, i16::MAX as int) {
            Ok(v) => Ok(v as i16),
            Err(e) => Err(e),
        }
    }

    fn from_bytes(b: &[u8]) -> (r: Result<i16, ParseNumErr>) {
        match parse_signed(b) {
            Ok(v) => {
                if v < i16::MIN as i64 {
                    Err(ParseNumErr::underflow())
                } else if v > i16::MAX as i64 {
                    Err(ParseNumErr::overflow())
                } else {
                    Ok(v as i16)
                }
            },
            Err(e) => Err(e),
        }
    }
}

impl FromBytes for i32 {
    type Err = ParseNumErr;

    open spec fn from_bytes_spec(b: Seq<u8>) -> Result<i32, ParseNumErr> {
        match spec_from_decimal(b, i32::MIN as int, i32::MAX as int) {
            Ok(v) => Ok(v as i32),
            Err(e) => Err(e),
        }
    }

    fn from_bytes(b: &[u8]) -> (r: Result<i32, ParseNumErr>) {
        match parse_signed(b) {
            Ok(v) => {
                if v < i32::MIN as i64 {
                    Err(ParseNumErr::underflow())
                } else if v > i32::MAX as i64 {
                    Err(ParseNumErr::overflow())
                } else {
                    Ok(v as i32)
                }
            },
            Err(e) => Err(e),
        }
    }
}

impl FromBytes for i64 {
    type Err = ParseNumErr;

    open spec fn from_bytes_spec(b: Seq<u8>) -> Result<i64, ParseNumErr> {
        match spec_from_decimal(b, i64::MIN as int, i64::MAX as int) {
            Ok(v) => Ok(v as i64),
            Err(e) => Err(e),
        }
    }

    fn from_bytes(b: &[u8]) -> (r: Result<i64, ParseNumErr>) {
        parse_signed(b)
    }
}

impl FromBytes for u64 {
    type Err = ParseNumErr;

    open spec fn from_bytes_spec(b: Seq<u8>) -> Result<u64, ParseNumErr> {
        match spec_from_decimal(b, 0, u64::MAX as int) {
            Ok(v) => Ok(v as u64),
            Err(e) => Err(e),
        }
    }

    fn from_bytes(b: &[u8]) -> (r: Result<u64, ParseNumErr>) {
        if b.len() > 0 && b[0] == MINUS {
            let rest = slice_subrange(b, 1, b.len());
            proof {
                if spec_parse_uint(rest@) matches Ok(v) {
                    lemma_dec_val_bounds(rest@, 0);
                    assert(rest@.subrange(0, 0) =~= Seq::<u8>::empty());
                }
            }
            match parse_unsigned(rest) {
                Ok(m) => {
                    if m == 0 {
                        Ok(0)
                    } else {
                        Err(ParseNumErr::underflow())
                    }
                },
                Err(e) => {
                    match &e.kind {
                        ParseNumErrKind::Overflow => Err(ParseNumErr::underflow()),
                        _ => Err(e),
                    }
                },
            }
        } else {
            parse_unsigned(b)
        }
    }
}

} // verus!
