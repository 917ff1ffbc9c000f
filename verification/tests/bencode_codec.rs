use std::collections::HashMap;

use torrent_wire::{
    decode_canonical, decode_value, encode, BencodeValue, DecodeError, DecodeErrorKind, Error,
};

fn decode_error(kind: DecodeErrorKind, offset: usize) -> Error {
    Error::Decode(DecodeError { kind, offset })
}

fn text(s: &str) -> BencodeValue {
    BencodeValue::ByteString(s.as_bytes().to_vec())
}

#[test]
fn decodes_an_integer() {
    let (value, rest) = decode_value(b"i52e").unwrap();
    assert_eq!(value, BencodeValue::Integer(52));
    assert!(rest.is_empty());
}

#[test]
fn decodes_a_negative_integer() {
    let (value, rest) = decode_value(b"i-52e").unwrap();
    assert_eq!(value, BencodeValue::Integer(-52));
    assert!(rest.is_empty());
}

#[test]
fn decodes_the_smallest_and_the_largest_integer() {
    let (value, _) = decode_value(b"i-9223372036854775808e").unwrap();
    assert_eq!(value, BencodeValue::Integer(i64::MIN));
    let (value, _) = decode_value(b"i9223372036854775807e").unwrap();
    assert_eq!(value, BencodeValue::Integer(i64::MAX));
}

#[test]
fn decodes_a_byte_string_and_hands_back_the_rest() {
    let (value, rest) = decode_value(b"5:helloXYZ").unwrap();
    assert_eq!(value, text("hello"));
    assert_eq!(rest, b"XYZ");
}

#[test]
fn decodes_an_empty_byte_string() {
    let (value, rest) = decode_value(b"0:").unwrap();
    assert_eq!(value, BencodeValue::ByteString(vec![]));
    assert!(rest.is_empty());
}

#[test]
fn decodes_bytes_that_are_no_text() {
    let (value, _) = decode_value(b"3:\xff\x00\xfe").unwrap();
    assert_eq!(value, BencodeValue::ByteString(vec![0xff, 0x00, 0xfe]));
}

#[test]
fn decodes_a_list() {
    let (value, rest) = decode_value(b"l5:helloi52ee").unwrap();
    assert_eq!(value, BencodeValue::List(vec![text("hello"), BencodeValue::Integer(52)]));
    assert!(rest.is_empty());
}

#[test]
fn decodes_an_empty_list_and_an_empty_dictionary() {
    assert_eq!(decode_value(b"le").unwrap().0, BencodeValue::List(vec![]));
    assert_eq!(decode_value(b"de").unwrap().0, BencodeValue::Dictionary(vec![]));
}

#[test]
fn decodes_a_dictionary() {
    let (value, rest) = decode_value(b"d3:foo3:bar5:helloi52ee").unwrap();
    assert_eq!(
        value,
        BencodeValue::Dictionary(vec![
            ("foo".to_string(), text("bar")),
            ("hello".to_string(), BencodeValue::Integer(52)),
        ])
    );
    assert!(rest.is_empty());
}

#[test]
fn decodes_nested_values() {
    let (value, _) = decode_value(b"d4:listl1:ad1:xi1eeee").unwrap();
    assert_eq!(
        value,
        BencodeValue::Dictionary(vec![(
            "list".to_string(),
            BencodeValue::List(vec![
                text("a"),
                BencodeValue::Dictionary(vec![("x".to_string(), BencodeValue::Integer(1))]),
            ]),
        )])
    );
}

#[test]
fn sorts_the_keys_of_a_dictionary() {
    let (value, _) = decode_value(b"d1:bi2e1:ai1e2:abi3ee").unwrap();
    assert_eq!(
        value,
        BencodeValue::Dictionary(vec![
            ("a".to_string(), BencodeValue::Integer(1)),
            ("ab".to_string(), BencodeValue::Integer(3)),
            ("b".to_string(), BencodeValue::Integer(2)),
        ])
    );
    assert_eq!(encode(&value), b"d1:ai1e2:abi3e1:bi2ee");
}

#[test]
fn looks_up_keys() {
    let (value, _) = decode_value(b"d1:bi2e1:ai1ee").unwrap();
    assert_eq!(value.get("a"), Some(&BencodeValue::Integer(1)));
    assert_eq!(value.get("b"), Some(&BencodeValue::Integer(2)));
    assert_eq!(value.get("c"), None);
    assert_eq!(BencodeValue::Integer(1).get("a"), None);
}

#[test]
fn accepts_numerals_that_are_not_minimal() {
    assert_eq!(decode_value(b"i03e").unwrap().0, BencodeValue::Integer(3));
    assert_eq!(decode_value(b"i-0e").unwrap().0, BencodeValue::Integer(0));
    assert_eq!(decode_value(b"05:hello").unwrap().0, text("hello"));
}

#[test]
fn canonical_form_refuses_what_is_not_minimal() {
    assert_eq!(
        decode_canonical(b"i03e").unwrap_err(),
        decode_error(DecodeErrorKind::NotCanonical, 0)
    );
    assert_eq!(
        decode_canonical(b"i-0e").unwrap_err(),
        decode_error(DecodeErrorKind::NotCanonical, 0)
    );
    assert_eq!(
        decode_canonical(b"li1e05:helloe").unwrap_err(),
        decode_error(DecodeErrorKind::NotCanonical, 4)
    );
}

#[test]
fn canonical_form_refuses_keys_out_of_order() {
    assert_eq!(
        decode_canonical(b"d1:bi2e1:ai1ee").unwrap_err(),
        decode_error(DecodeErrorKind::NotCanonical, 7)
    );
}

#[test]
fn canonical_form_accepts_what_the_encoder_writes() {
    let input: &[u8] = b"d3:fooli-7e0:e5:helloi52ee";
    let (strict, rest) = decode_canonical(input).unwrap();
    assert!(rest.is_empty());
    let (lenient, _) = decode_value(input).unwrap();
    assert_eq!(strict, lenient);
}

#[test]
fn fails_on_empty_input() {
    assert_eq!(decode_value(b"").unwrap_err(), decode_error(DecodeErrorKind::UnexpectedEnd, 0));
}

#[test]
fn fails_on_an_integer_without_terminator() {
    assert_eq!(decode_value(b"i42").unwrap_err(), decode_error(DecodeErrorKind::UnexpectedEnd, 3));
    assert_eq!(
        decode_value(b"i4xe").unwrap_err(),
        decode_error(DecodeErrorKind::ExpectedTerminator, 2)
    );
}

#[test]
fn fails_on_an_integer_without_digits() {
    assert_eq!(decode_value(b"ie").unwrap_err(), decode_error(DecodeErrorKind::ExpectedDigit, 1));
    assert_eq!(decode_value(b"i-e").unwrap_err(), decode_error(DecodeErrorKind::ExpectedDigit, 2));
    assert_eq!(decode_value(b"i+3e").unwrap_err(), decode_error(DecodeErrorKind::ExpectedDigit, 1));
    assert_eq!(decode_value(b"i").unwrap_err(), decode_error(DecodeErrorKind::UnexpectedEnd, 1));
}

#[test]
fn fails_on_an_integer_that_does_not_fit() {
    assert_eq!(
        decode_value(b"i9223372036854775808e").unwrap_err(),
        decode_error(DecodeErrorKind::IntegerOverflow, 0)
    );
    assert_eq!(
        decode_value(b"i-9223372036854775809e").unwrap_err(),
        decode_error(DecodeErrorKind::IntegerOverflow, 0)
    );
    assert_eq!(
        decode_value(b"i123456789012345678901234567890e").unwrap_err(),
        decode_error(DecodeErrorKind::IntegerOverflow, 0)
    );
}

#[test]
fn fails_on_a_length_that_is_no_number() {
    assert_eq!(decode_value(b"x").unwrap_err(), decode_error(DecodeErrorKind::UnexpectedByte, 0));
    assert_eq!(decode_value(b"e").unwrap_err(), decode_error(DecodeErrorKind::UnexpectedByte, 0));
    assert_eq!(
        decode_value(b"5x:hello").unwrap_err(),
        decode_error(DecodeErrorKind::ExpectedColon, 1)
    );
}

#[test]
fn fails_on_a_byte_string_that_is_cut_short() {
    assert_eq!(decode_value(b"5:ab").unwrap_err(), decode_error(DecodeErrorKind::UnexpectedEnd, 4));
    assert_eq!(decode_value(b"5").unwrap_err(), decode_error(DecodeErrorKind::UnexpectedEnd, 1));
    assert_eq!(
        decode_value(b"99999999999999999999999999:a").unwrap_err(),
        decode_error(DecodeErrorKind::UnexpectedEnd, 28)
    );
}

#[test]
fn fails_on_a_list_without_terminator() {
    assert_eq!(decode_value(b"l").unwrap_err(), decode_error(DecodeErrorKind::UnexpectedEnd, 1));
    assert_eq!(
        decode_value(b"li1ei2e").unwrap_err(),
        decode_error(DecodeErrorKind::UnexpectedEnd, 7)
    );
    assert_eq!(
        decode_value(b"d1:ai1e").unwrap_err(),
        decode_error(DecodeErrorKind::UnexpectedEnd, 7)
    );
}

#[test]
fn fails_on_a_key_without_value() {
    assert_eq!(
        decode_value(b"d3:fooe").unwrap_err(),
        decode_error(DecodeErrorKind::OddDictionary, 6)
    );
    assert_eq!(
        decode_value(b"d3:foo").unwrap_err(),
        decode_error(DecodeErrorKind::UnexpectedEnd, 6)
    );
}

#[test]
fn fails_on_a_key_that_is_no_byte_string() {
    assert_eq!(
        decode_value(b"di1e1:ae").unwrap_err(),
        decode_error(DecodeErrorKind::KeyNotString, 1)
    );
}

#[test]
fn fails_on_a_key_that_is_no_text() {
    assert_eq!(
        decode_value(b"d1:\xff1:ae").unwrap_err(),
        decode_error(DecodeErrorKind::KeyNotUtf8, 1)
    );
}

#[test]
fn fails_on_a_key_that_comes_twice() {
    assert_eq!(
        decode_value(b"d1:a1:b1:a1:ce").unwrap_err(),
        decode_error(DecodeErrorKind::DuplicateKey, 7)
    );
}

#[test]
fn reports_the_offset_inside_nested_values() {
    assert_eq!(
        decode_value(b"d1:ali1ei2xee").unwrap_err(),
        decode_error(DecodeErrorKind::ExpectedTerminator, 10)
    );
}

#[test]
fn encodes_every_kind_of_value() {
    assert_eq!(encode(&BencodeValue::Integer(0)), b"i0e");
    assert_eq!(encode(&BencodeValue::Integer(52)), b"i52e");
    assert_eq!(encode(&BencodeValue::Integer(-52)), b"i-52e");
    assert_eq!(encode(&BencodeValue::Integer(i64::MIN)), b"i-9223372036854775808e");
    assert_eq!(encode(&BencodeValue::Integer(i64::MAX)), b"i9223372036854775807e");
    assert_eq!(encode(&text("hello")), b"5:hello");
    assert_eq!(encode(&text("")), b"0:");
    assert_eq!(encode(&text("0123456789")), b"10:0123456789");
    assert_eq!(
        encode(&BencodeValue::List(vec![text("hello"), BencodeValue::Integer(52)])),
        b"l5:helloi52ee"
    );
    assert_eq!(
        encode(&BencodeValue::Dictionary(vec![
            ("foo".to_string(), text("bar")),
            ("hello".to_string(), BencodeValue::Integer(52)),
        ])),
        b"d3:foo3:bar5:helloi52ee"
    );
}

#[test]
fn canonical_bytes_come_back_from_decoding_and_encoding() {
    let inputs: Vec<&[u8]> = vec![
        b"i0e",
        b"i-1e",
        b"0:",
        b"4:spam",
        b"le",
        b"de",
        b"l4:spami42eli1eee",
        b"d3:bar4:spam3:fooi42ee",
        b"d1:ad1:bd1:cleeee",
        b"d4:infod6:lengthi20000e4:name10:sample.txt12:piece lengthi32768eee",
    ];
    for input in inputs {
        let (value, rest) = decode_value(input).unwrap();
        assert!(rest.is_empty());
        assert_eq!(encode(&value), input);
        let (strict, _) = decode_canonical(input).unwrap();
        assert_eq!(strict, value);
    }
}

#[test]
fn decoding_what_was_encoded_gives_the_value_back() {
    let value = BencodeValue::Dictionary(vec![
        ("a".to_string(), BencodeValue::List(vec![BencodeValue::Integer(-3), text("x")])),
        ("b".to_string(), BencodeValue::Dictionary(vec![])),
        ("c".to_string(), BencodeValue::ByteString(vec![0, 255, 7])),
    ]);
    let bytes = encode(&value);
    let (back, rest) = decode_value(&bytes).unwrap();
    assert!(rest.is_empty());
    assert_eq!(back, value);
}

fn as_outside_value(value: &BencodeValue) -> serde_bencode::value::Value {
    match value {
        BencodeValue::Integer(i) => serde_bencode::value::Value::Int(*i),
        BencodeValue::ByteString(b) => serde_bencode::value::Value::Bytes(b.clone()),
        BencodeValue::List(items) => {
            serde_bencode::value::Value::List(items.iter().map(as_outside_value).collect())
        }
        BencodeValue::Dictionary(entries) => {
            let mut map = HashMap::new();
            for (key, value) in entries {
                map.insert(key.as_bytes().to_vec(), as_outside_value(value));
            }
            serde_bencode::value::Value::Dict(map)
        }
    }
}

#[test]
fn writes_what_serde_bencode_writes() {
    let inputs: Vec<&[u8]> = vec![
        b"i-17e",
        b"11:hello world",
        b"l4:spami42eli1eee",
        b"d1:bi2e1:ai1e2:abi3ee",
        b"d5:filesld6:lengthi10e4:pathl1:a5:b.txteee4:name3:dir12:piece lengthi16ee",
    ];
    for input in inputs {
        let (value, _) = decode_value(input).unwrap();
        let theirs = serde_bencode::to_bytes(&as_outside_value(&value)).unwrap();
        assert_eq!(encode(&value), theirs);
    }
}

#[test]
fn reads_what_serde_bencode_reads() {
    let input: &[u8] = b"d1:ai1e2:abl3:xyzi-4ee1:bd1:ci0eee";
    let (value, _) = decode_value(input).unwrap();
    let theirs: serde_bencode::value::Value = serde_bencode::from_bytes(input).unwrap();
    assert_eq!(as_outside_value(&value), theirs);
}

#[test]
fn keys_beyond_ascii_are_text_and_sort_by_their_bytes() {
    let input = "d2:\u{e9}i1e1:zi2e3:\u{65e5}i3ee";
    let (value, rest) = decode_value(input.as_bytes()).unwrap();
    assert!(rest.is_empty());
    assert_eq!(
        value,
        BencodeValue::Dictionary(vec![
            ("z".to_string(), BencodeValue::Integer(2)),
            ("\u{e9}".to_string(), BencodeValue::Integer(1)),
            ("\u{65e5}".to_string(), BencodeValue::Integer(3)),
        ])
    );
    assert_eq!(value.get("\u{e9}"), Some(&BencodeValue::Integer(1)));
    assert_eq!(encode(&value), "d1:zi2e2:\u{e9}i1e3:\u{65e5}i3ee".as_bytes());
}
