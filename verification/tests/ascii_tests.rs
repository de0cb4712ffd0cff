use common::ascii::{
    isalnum, isalpha, isdigit, isdigit_hex, isspace, parse_signed, parse_unsigned, strtoi, strtol,
    tolower, tolowerc, toupper, toupperc, FromBytes,
};
use common::err::{ParseNumErr, ParseNumErrKind};

#[test]
fn test_tolowerc() {
    assert_eq!(b'a', tolowerc(b'A'));
    assert_eq!(b'a', tolowerc(b'a'));
    assert_eq!(b'b', tolowerc(b'B'));
}

#[test]
fn test_tolower() {
    assert_eq!(b"abcdefgh", tolower(b"aBcdEfGH").as_slice());
}

#[test]
fn test_toupperc() {
    assert_eq!(b'A', toupperc(b'A'));
    assert_eq!(b'A', toupperc(b'a'));
    assert_eq!(b'B', toupperc(b'b'));
}

#[test]
fn test_toupper() {
    assert_eq!(b"ABCDEFGH", toupper(b"aBcdEfGH").as_slice());
}

#[test]
fn test_strtol() {
    let (val, remain) = strtol(b"   12345").ok().unwrap();
    assert_eq!(12345i64, val);
    assert!(remain.is_none());

    let (val, remain) = strtol(b"12345").ok().unwrap();
    assert_eq!(12345i64, val);
    assert!(remain.is_none());

    let (val, remain) = strtol(b"12345l").ok().unwrap();
    assert_eq!(12345i64, val);
    assert!(remain.is_some());
    assert_eq!(b"l", remain.unwrap());

    let (val, remain) = strtol(b"12345lll").ok().unwrap();
    assert_eq!(12345i64, val);
    assert!(remain.is_some());
    assert_eq!(b"lll", remain.unwrap());

    let (val, remain) = strtol(b"1").ok().unwrap();
    assert_eq!(1, val);
    assert!(remain.is_none());
}

#[test]
#[should_panic]
fn test_strtoi_overflow() {
    strtoi(b"123456789012345lll").ok().unwrap();
}

#[test]
fn strtol_no_digits_is_empty() {
    let e = strtol(b"lll").err().unwrap();
    assert_eq!(e.kind, ParseNumErrKind::Empty);
    let e = strtol(b"   ").err().unwrap();
    assert_eq!(e.kind, ParseNumErrKind::Empty);
    let e = strtol(b"").err().unwrap();
    assert_eq!(e.kind, ParseNumErrKind::Empty);
}

#[test]
fn strtol_overflow_reported() {
    let e = strtol(b"9223372036854775808").err().unwrap();
    assert_eq!(e.kind, ParseNumErrKind::Overflow);
    let (val, remain) = strtol(b"9223372036854775807x").ok().unwrap();
    assert_eq!(i64::MAX, val);
    assert_eq!(b"x", remain.unwrap());
}

#[test]
fn strtoi_boundaries() {
    let (val, remain) = strtoi(b"  2147483647").ok().unwrap();
    assert_eq!(i32::MAX, val);
    assert!(remain.is_none());
    let e = strtoi(b"2147483648").err().unwrap();
    assert_eq!(e.kind, ParseNumErrKind::Overflow);
}

#[test]
fn classification_matches_ascii() {
    assert!(isalpha(b'a') && isalpha(b'Z') && !isalpha(b'0'));
    assert!(isdigit(b'7') && !isdigit(b'x'));
    assert!(isdigit_hex(b'f') && isdigit_hex(b'A') && isdigit_hex(b'9') && !isdigit_hex(b'g'));
    assert!(isalnum(b'a') && isalnum(b'5') && !isalnum(b'-'));
    assert!(isspace(b' ') && isspace(b'\t') && isspace(b'\n') && isspace(b'\r') && !isspace(b'x'));
}

#[test]
fn from_bytes_reads_integers() {
    assert_eq!(u8::from_bytes(b"255"), Ok(255u8));
    assert_eq!(
        u8::from_bytes(b"256"),
        Err(ParseNumErr { kind: ParseNumErrKind::Overflow })
    );
    assert_eq!(
        u8::from_bytes(b"-1"),
        Err(ParseNumErr { kind: ParseNumErrKind::Underflow })
    );
    assert_eq!(
        u8::from_bytes(b"12x"),
        Err(ParseNumErr { kind: ParseNumErrKind::InvalidDigit })
    );
    assert_eq!(
        u8::from_bytes(b""),
        Err(ParseNumErr { kind: ParseNumErrKind::Empty })
    );
    assert_eq!(i8::from_bytes(b"-128"), Ok(-128i8));
    assert_eq!(
        i8::from_bytes(b"-129"),
        Err(ParseNumErr { kind: ParseNumErrKind::Underflow })
    );
    assert_eq!(i16::from_bytes(b"-32768"), Ok(i16::MIN));
    assert_eq!(u16::from_bytes(b"65535"), Ok(u16::MAX));
    assert_eq!(i32::from_bytes(b"-2147483648"), Ok(i32::MIN));
    assert_eq!(u32::from_bytes(b"4294967295"), Ok(u32::MAX));
    assert_eq!(i64::from_bytes(b"-9223372036854775808"), Ok(i64::MIN));
    assert_eq!(i64::from_bytes(b"9223372036854775807"), Ok(i64::MAX));
    assert_eq!(u64::from_bytes(b"18446744073709551615"), Ok(u64::MAX));
    assert_eq!(
        u64::from_bytes(b"18446744073709551616"),
        Err(ParseNumErr { kind: ParseNumErrKind::Overflow })
    );
}

#[test]
fn parse_helpers_agree_with_kinds() {
    assert_eq!(parse_unsigned(b"42"), Ok(42u64));
    assert_eq!(parse_signed(b"-42"), Ok(-42i64));
    let e = parse_signed(b"-9223372036854775809").err().unwrap();
    assert_eq!(e.kind, ParseNumErrKind::Underflow);
    let e = ParseNumErr::overflow();
    assert_eq!(e.display(), "number too large to fit in target type");
    assert_eq!(ParseNumErr::empty().display(), "cannot parse integer from empty string");
    assert_eq!(ParseNumErr::invalid_digit().display(), "invalid digit found in string");
    assert_eq!(ParseNumErr::underflow().display(), "number too small to fit in target type");
    let bad = ParseNumErr { kind: ParseNumErrKind::BadFormat("three cows".to_string()) };
    assert_eq!(bad.display(), "three cows");
}
