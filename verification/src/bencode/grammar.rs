//! The bencode grammar: which bytes spell which value, and which bytes a
//! value is written as.
//!
//! Reading is stated twice over one definition. The lenient reading accepts
//! numerals with leading zeros, a negative zero, and dictionary keys in any
//! order. The strict reading accepts canonical form only: minimal numerals
//! and keys in ascending order.

use crate::bencode::digits::{decimal, decimal_value, digit_run, is_digit, is_minimal};
use crate::bencode::value::{bytes_lt, has_key, insert_entry, key_bytes, Bencode};
use crate::error::DecodeErrorKind;
use vstd::prelude::*;
use vstd::utf8::{decode_utf8, valid_utf8};

verus! {

/// `i`, which opens an integer.
pub const INTEGER_START: u8 = 0x69;

/// `l`, which opens a list.
pub const LIST_START: u8 = 0x6c;

/// `d`, which opens a dictionary.
pub const DICTIONARY_START: u8 = 0x64;

/// `e`, which closes an integer, a list or a dictionary.
pub const END: u8 = 0x65;

/// `:`, which parts the length of a byte string from its bytes.
pub const COLON: u8 = 0x3a;

/// `-`, the sign of a negative integer.
pub const MINUS: u8 = 0x2d;

/// The outcome of reading from some offset of an input: what was read and
/// the offset behind it, or what is wrong and where.
pub enum Parsed<T> {
    Done(T, int),
    Failed(DecodeErrorKind, int),
}

/// Reads the byte string that starts at `pos`: a length in decimal, `:`, and
/// as many bytes as the length says.
pub open spec fn parse_string(s: Seq<u8>, pos: int, strict: bool) -> Parsed<Seq<u8>> {
    let end = digit_run(s, pos);
    let numeral = s.subrange(pos, end);
    let len = decimal_value(numeral);
    if pos < 0 || pos >= s.len() {
        Parsed::Failed(DecodeErrorKind::UnexpectedEnd, s.len() as int)
    } else if end == pos {
        Parsed::Failed(DecodeErrorKind::ExpectedDigit, pos)
    } else if end >= s.len() {
        Parsed::Failed(DecodeErrorKind::UnexpectedEnd, s.len() as int)
    } else if s[end] != COLON {
        Parsed::Failed(DecodeErrorKind::ExpectedColon, end)
    } else if strict && !is_minimal(numeral) {
        Parsed::Failed(DecodeErrorKind::NotCanonical, pos)
    } else if end + 1 + len > s.len() {
        Parsed::Failed(DecodeErrorKind::UnexpectedEnd, s.len() as int)
    } else {
        Parsed::Done(s.subrange(end + 1, end + 1 + len), end + 1 + len)
    }
}

/// Reads the integer whose `i` stands at `pos`: an optional `-`, decimal
/// digits, and `e`.
pub open spec fn parse_integer(s: Seq<u8>, pos: int, strict: bool) -> Parsed<int> {
    let negative = pos + 1 < s.len() && s[pos + 1] == MINUS;
    let start = if negative {
        pos + 2
    } else {
        pos + 1
    };
    let end = digit_run(s, start);
    let numeral = s.subrange(start, end);
    let magnitude = decimal_value(numeral);
    if pos < 0 || start >= s.len() {
        Parsed::Failed(DecodeErrorKind::UnexpectedEnd, s.len() as int)
    } else if end == start {
        Parsed::Failed(DecodeErrorKind::ExpectedDigit, start)
    } else if end >= s.len() {
        Parsed::Failed(DecodeErrorKind::UnexpectedEnd, s.len() as int)
    } else if s[end] != END {
        Parsed::Failed(DecodeErrorKind::ExpectedTerminator, end)
    } else if strict && (!is_minimal(numeral) || (negative && magnitude == 0)) {
        Parsed::Failed(DecodeErrorKind::NotCanonical, pos)
    } else if negative && magnitude > 0x8000_0000_0000_0000 {
        Parsed::Failed(DecodeErrorKind::IntegerOverflow, pos)
    } else if !negative && magnitude > 0x7fff_ffff_ffff_ffff {
        Parsed::Failed(DecodeErrorKind::IntegerOverflow, pos)
    } else if negative {
        Parsed::Done(-(magnitude as int), end + 1)
    } else {
        Parsed::Done(magnitude as int, end + 1)
    }
}

/// Reads the value that starts at `pos`.
pub open spec fn parse_value(s: Seq<u8>, pos: int, strict: bool) -> Parsed<Bencode>
    decreases s.len() - pos, 0int,
{
    if pos < 0 || pos >= s.len() {
        Parsed::Failed(DecodeErrorKind::UnexpectedEnd, s.len() as int)
    } else if s[pos] == INTEGER_START {
        match parse_integer(s, pos, strict) {
            Parsed::Done(i, end) => Parsed::Done(Bencode::Integer(i), end),
            Parsed::Failed(kind, at) => Parsed::Failed(kind, at),
        }
    } else if s[pos] == LIST_START {
        match parse_items(s, pos + 1, strict, Seq::empty()) {
            Parsed::Done(items, end) => Parsed::Done(Bencode::List(items), end),
            Parsed::Failed(kind, at) => Parsed::Failed(kind, at),
        }
    } else if s[pos] == DICTIONARY_START {
        match parse_entries(s, pos + 1, strict, Seq::empty()) {
            Parsed::Done(entries, end) => Parsed::Done(Bencode::Dictionary(entries), end),
            Parsed::Failed(kind, at) => Parsed::Failed(kind, at),
        }
    } else if is_digit(s[pos]) {
        match parse_string(s, pos, strict) {
            Parsed::Done(bytes, end) => Parsed::Done(Bencode::ByteString(bytes), end),
            Parsed::Failed(kind, at) => Parsed::Failed(kind, at),
        }
    } else {
        Parsed::Failed(DecodeErrorKind::UnexpectedByte, pos)
    }
}

/// Reads the rest of a list from `pos`, where `read` holds the items before
/// `pos`: values up to the closing `e`.
pub open spec fn parse_items(s: Seq<u8>, pos: int, strict: bool, read: Seq<Bencode>) -> Parsed<
    Seq<Bencode>,
>
    decreases s.len() - pos, 1int,
{
    if pos < 0 || pos >= s.len() {
        Parsed::Failed(DecodeErrorKind::UnexpectedEnd, s.len() as int)
    } else if s[pos] == END {
        Parsed::Done(read, pos + 1)
    } else {
        match parse_value(s, pos, strict) {
            Parsed::Failed(kind, at) => Parsed::Failed(kind, at),
            Parsed::Done(item, end) => if end <= pos || end > s.len() {
                Parsed::Failed(DecodeErrorKind::UnexpectedEnd, s.len() as int)
            } else {
                parse_items(s, end, strict, read.push(item))
            },
        }
    }
}

/// Reads the rest of a dictionary from `pos`, where `read` holds the entries
/// before `pos`, sorted: keys, each a UTF-8 byte string followed by its value,
/// up to the closing `e`.
pub open spec fn parse_entries(
    s: Seq<u8>,
    pos: int,
    strict: bool,
    read: Seq<(Seq<char>, Bencode)>,
) -> Parsed<Seq<(Seq<char>, Bencode)>>
    decreases s.len() - pos, 1int,
{
    if pos < 0 || pos >= s.len() {
        Parsed::Failed(DecodeErrorKind::UnexpectedEnd, s.len() as int)
    } else if s[pos] == END {
        Parsed::Done(read, pos + 1)
    } else if !is_digit(s[pos]) {
        Parsed::Failed(DecodeErrorKind::KeyNotString, pos)
    } else {
        match parse_string(s, pos, strict) {
            Parsed::Failed(kind, at) => Parsed::Failed(kind, at),
            Parsed::Done(kb, key_end) => {
                let key = if valid_utf8(kb) {
                    decode_utf8(kb)
                } else {
                    Seq::empty()
                };
                if !valid_utf8(kb) {
                    Parsed::Failed(DecodeErrorKind::KeyNotUtf8, pos)
                } else if has_key(read, key) {
                    Parsed::Failed(DecodeErrorKind::DuplicateKey, pos)
                } else if strict && read.len() > 0 && !bytes_lt(key_bytes(read.last().0), kb) {
                    Parsed::Failed(DecodeErrorKind::NotCanonical, pos)
                } else if key_end <= pos || key_end >= s.len() {
                    Parsed::Failed(DecodeErrorKind::UnexpectedEnd, s.len() as int)
                } else if s[key_end] == END {
                    Parsed::Failed(DecodeErrorKind::OddDictionary, key_end)
                } else {
                    match parse_value(s, key_end, strict) {
                        Parsed::Failed(kind, at) => Parsed::Failed(kind, at),
                        Parsed::Done(value, end) => if end <= key_end || end > s.len() {
                            Parsed::Failed(DecodeErrorKind::UnexpectedEnd, s.len() as int)
                        } else {
                            parse_entries(s, end, strict, insert_entry(read, key, value))
                        },
                    }
                }
            },
        }
    }
}

/// A byte string as bencode writes it.
pub open spec fn encode_string(bytes: Seq<u8>) -> Seq<u8> {
    decimal(bytes.len()) + seq![COLON] + bytes
}

/// An integer as bencode writes it.
pub open spec fn encode_integer(i: int) -> Seq<u8> {
    if i < 0 {
        seq![INTEGER_START, MINUS] + decimal((-i) as nat) + seq![END]
    } else {
        seq![INTEGER_START] + decimal(i as nat) + seq![END]
    }
}

/// A value as bencode writes it. The entries of a dictionary are written in
/// the order in which the value lists them.
pub open spec fn encode_value(value: Bencode) -> Seq<u8>
    decreases value, 0int,
{
    match value {
        Bencode::Integer(i) => encode_integer(i),
        Bencode::ByteString(bytes) => encode_string(bytes),
        Bencode::List(items) => seq![LIST_START] + encode_items(items, 0) + seq![END],
        Bencode::Dictionary(entries) => seq![DICTIONARY_START] + encode_entries(entries, 0)
            + seq![END],
    }
}

/// The items of a list from the index `from` on, each as bencode writes it.
pub open spec fn encode_items(items: Seq<Bencode>, from: int) -> Seq<u8>
    decreases items, items.len() - from,
{
    if 0 <= from < items.len() {
        encode_value(items[from]) + encode_items(items, from + 1)
    } else {
        Seq::empty()
    }
}

/// The entries of a dictionary from the index `from` on: each key as a byte
/// string, followed by its value.
pub open spec fn encode_entries(entries: Seq<(Seq<char>, Bencode)>, from: int) -> Seq<u8>
    decreases entries, entries.len() - from,
{
    if 0 <= from < entries.len() {
        encode_string(key_bytes(entries[from].0)) + encode_value(entries[from].1) + encode_entries(
            entries,
            from + 1,
        )
    } else {
        Seq::empty()
    }
}

/// `s` is one value in canonical form and nothing else.
pub open spec fn is_canonical(s: Seq<u8>) -> bool {
    parse_value(s, 0, true) matches Parsed::Done(_, end) && end == s.len()
}

} // verus!
