//! Tests of the wire codec: decoding, encoding, and their round trip.

use sparrow::{decode, decode_string, encode, Data, DecodeError, DecodeErrorKind};

fn nested_array() -> Data {
    Data::Array(vec![
        Data::SimpleString("OK".to_string()),
        Data::BulkString("Hi sparrow, how are you?".to_string()),
        Data::Array(vec![
            Data::SimpleString("OK".to_string()),
            Data::Null,
            Data::Integer(23),
        ]),
        Data::Null,
        Data::Error("An error occurred".into()),
        Data::NullArray,
    ])
}

const NESTED_ARRAY_WIRE: &str = "*6\r\n\
    +OK\r\n\
    $24\r\nHi sparrow, how are you?\r\n\
    *3\r\n\
    +OK\r\n\
    $-1\r\n\
    :23\r\n\
    $-1\r\n\
    -An error occurred\r\n\
    *-1\r\n";

#[test]
fn test_decode_array() {
    assert_eq!(decode_string(NESTED_ARRAY_WIRE.to_string()).unwrap(), nested_array());
}

#[test]
fn test_decode_error() {
    assert_eq!(
        decode_string("-An error occurred\r\n".to_string()).unwrap(),
        Data::Error("An error occurred".into())
    );
}

#[test]
fn test_decode_bulk_string() {
    assert_eq!(
        decode_string("$2\r\nOK\r\n".to_string()).unwrap(),
        Data::BulkString("OK".to_string())
    );
}

#[test]
fn test_decode_bulk_string_large() {
    assert_eq!(
        decode_string("$24\r\nHi sparrow, how are you?\r\n".to_string()).unwrap(),
        Data::BulkString("Hi sparrow, how are you?".to_string())
    );
}

#[test]
fn test_decode_integer() {
    assert_eq!(decode_string(":23\r\n".to_string()).unwrap(), Data::Integer(23));
}

#[test]
fn test_decode_null() {
    assert_eq!(decode_string("$-1\r\n".to_string()).unwrap(), Data::Null);
}

#[test]
fn test_decode_null_array() {
    assert_eq!(decode_string("*-1\r\n".to_string()).unwrap(), Data::NullArray);
}

#[test]
fn test_decode_simple_string() {
    assert_eq!(
        decode_string("+OK\r\n".to_string()).unwrap(),
        Data::SimpleString("OK".to_string())
    );
}

#[test]
fn test_encode_array() {
    assert_eq!(encode(&nested_array()), NESTED_ARRAY_WIRE.as_bytes().to_vec());
}

#[test]
fn test_encode_error() {
    assert_eq!(
        encode(&Data::Error("An error occurred".into())),
        "-An error occurred\r\n".as_bytes()
    );
}

#[test]
fn test_encode_bulk_string() {
    assert_eq!(encode(&Data::BulkString("OK".to_string())), "$2\r\nOK\r\n".as_bytes());
}

#[test]
fn test_encode_bulk_string_large() {
    assert_eq!(
        encode(&Data::BulkString("Hi sparrow, how are you?".to_string())),
        "$24\r\nHi sparrow, how are you?\r\n".as_bytes()
    );
}

#[test]
fn test_encode_integer() {
    assert_eq!(encode(&Data::Integer(23)), ":23\r\n".as_bytes());
}

#[test]
fn test_encode_null() {
    assert_eq!(encode(&Data::Null), "$-1\r\n".as_bytes());
}

#[test]
fn test_encode_null_array() {
    assert_eq!(encode(&Data::NullArray), "*-1\r\n".as_bytes());
}

#[test]
fn test_encode_simple_string() {
    assert_eq!(encode(&Data::SimpleString("OK".to_string())), "+OK\r\n".as_bytes());
}

#[test]
fn test_decode_hello_bulk_string() {
    assert_eq!(
        decode_string("$14\r\nHello Sparrow!\r\n".to_string()).unwrap(),
        Data::BulkString("Hello Sparrow!".to_string())
    );
}

#[test]
fn test_round_trip_nested_array() {
    let v = nested_array();
    let bytes = encode(&v);
    let (back, used) = decode(&bytes).unwrap();
    assert_eq!(back, v);
    assert_eq!(used, bytes.len());
}

#[test]
fn test_round_trip_integers() {
    for n in [0i64, -1, 9, 10, -10, 23, i64::MAX, i64::MIN] {
        let v = Data::Integer(n);
        let bytes = encode(&v);
        let (back, used) = decode(&bytes).unwrap();
        assert_eq!(back, v);
        assert_eq!(used, bytes.len());
    }
}

#[test]
fn test_round_trip_multibyte_text() {
    // A payload whose UTF-8 form is longer than its character count:
    // the declared length counts bytes, and decoding restores the text.
    let v = Data::BulkString("caf\u{e9} \u{2708} r\u{e9}ponse".to_string());
    let bytes = encode(&v);
    assert_eq!(bytes[1] as char, '1');
    assert_eq!(bytes[2] as char, '8');
    let (back, used) = decode(&bytes).unwrap();
    assert_eq!(back, v);
    assert_eq!(used, bytes.len());
}

#[test]
fn test_round_trip_empty_array_and_strings() {
    for v in [
        Data::Array(vec![]),
        Data::BulkString(String::new()),
        Data::SimpleString(String::new()),
        Data::Error(String::new()),
    ] {
        let bytes = encode(&v);
        let (back, used) = decode(&bytes).unwrap();
        assert_eq!(back, v);
        assert_eq!(used, bytes.len());
    }
}

#[test]
fn test_decode_oversized_bulk_is_invalid_data() {
    // One byte above the 512 MiB cap: rejected before any payload is read.
    let err = decode_string("$536870913\r\n".to_string()).unwrap_err();
    assert!(matches!(err, DecodeError::SizeOutOfRange));
    assert!(matches!(err.kind(), DecodeErrorKind::InvalidData));
}

#[test]
fn test_decode_oversized_array_is_invalid_data() {
    let err = decode_string("*536870913\r\n".to_string()).unwrap_err();
    assert!(matches!(err, DecodeError::SizeOutOfRange));
    assert!(matches!(err.kind(), DecodeErrorKind::InvalidData));
}

#[test]
fn test_decode_at_cap_is_accepted_shape() {
    // Exactly the cap is within range; the failure is only that the
    // payload bytes are missing, a starved read, not a size complaint.
    let err = decode_string("$536870912\r\n".to_string()).unwrap_err();
    assert!(matches!(err, DecodeError::UnexpectedEnd));
    assert!(err.is_starved());
}

#[test]
fn test_decode_empty_input_is_broken_pipe() {
    let err = decode(b"").unwrap_err();
    assert!(matches!(err, DecodeError::BrokenPipe));
    assert!(matches!(err.kind(), DecodeErrorKind::BrokenPipe));
    assert!(err.is_starved());
}

#[test]
fn test_decode_error_kinds() {
    // A line that never ends.
    let err = decode(b"+abc").unwrap_err();
    assert!(matches!(err, DecodeError::UnterminatedLine));
    assert!(matches!(err.kind(), DecodeErrorKind::InvalidInput));
    assert!(err.is_starved());

    // A finished line of fewer than three bytes.
    let err = decode(b"+\n").unwrap_err();
    assert!(matches!(err, DecodeError::LineTooShort));
    assert!(matches!(err.kind(), DecodeErrorKind::InvalidInput));
    assert!(!err.is_starved());

    // A line feed not preceded by a carriage return.
    let err = decode(b"+ab\n").unwrap_err();
    assert!(matches!(err, DecodeError::InvalidCrlf));
    assert!(matches!(err.kind(), DecodeErrorKind::InvalidInput));

    // An integer payload that is no number.
    let err = decode(b":twelve\r\n").unwrap_err();
    assert!(matches!(err, DecodeError::InvalidInteger));
    assert!(matches!(err.kind(), DecodeErrorKind::InvalidData));

    // A bulk payload that is not UTF-8.
    let err = decode(b"$2\r\n\xff\xfe\r\n").unwrap_err();
    assert!(matches!(err, DecodeError::InvalidUtf8));
    assert!(matches!(err.kind(), DecodeErrorKind::InvalidData));

    // A tag byte the protocol does not know, named in the failure.
    let err = decode(b"?ab\r\n").unwrap_err();
    assert!(matches!(err, DecodeError::UnknownTag(b'?')));
    assert!(matches!(err.kind(), DecodeErrorKind::InvalidInput));

    // A bulk payload cut short.
    let err = decode(b"$5\r\nab").unwrap_err();
    assert!(matches!(err, DecodeError::UnexpectedEnd));
    assert!(matches!(err.kind(), DecodeErrorKind::UnexpectedEof));
    assert!(err.is_starved());

    // A bulk payload whose trailer is not CRLF.
    let err = decode(b"$2\r\nabXY").unwrap_err();
    assert!(matches!(err, DecodeError::InvalidCrlf));
}

#[test]
fn test_decode_reports_bytes_consumed() {
    let bytes = b"+OK\r\n:12\r\n";
    let (first, used) = decode(bytes).unwrap();
    assert_eq!(first, Data::SimpleString("OK".to_string()));
    assert_eq!(used, 5);
    let (second, used2) = decode(&bytes[used..]).unwrap();
    assert_eq!(second, Data::Integer(12));
    assert_eq!(used2, 5);
}

#[test]
fn test_decode_array_cut_short_is_broken_pipe() {
    // The header promises one element and the stream ends: the next
    // frame starts on nothing, the clean-close failure.
    let err = decode(b"*1\r\n").unwrap_err();
    assert!(matches!(err, DecodeError::BrokenPipe));
    assert!(err.is_starved());
}

#[test]
fn test_decode_integer_with_plus_sign() {
    assert_eq!(decode_string(":+23\r\n".to_string()).unwrap(), Data::Integer(23));
    assert_eq!(decode_string(":-23\r\n".to_string()).unwrap(), Data::Integer(-23));
    assert!(matches!(
        decode_string(":+\r\n".to_string()).unwrap_err(),
        DecodeError::InvalidInteger
    ));
}

#[test]
fn test_decode_integer_overflow_is_invalid() {
    assert_eq!(
        decode_string(":9223372036854775807\r\n".to_string()).unwrap(),
        Data::Integer(i64::MAX)
    );
    assert_eq!(
        decode_string(":-9223372036854775808\r\n".to_string()).unwrap(),
        Data::Integer(i64::MIN)
    );
    assert!(matches!(
        decode_string(":9223372036854775808\r\n".to_string()).unwrap_err(),
        DecodeError::InvalidInteger
    ));
    assert!(matches!(
        decode_string(":-9223372036854775809\r\n".to_string()).unwrap_err(),
        DecodeError::InvalidInteger
    ));
}
