//! The decoder: from bytes to a value, as the grammar reads them.

use crate::bencode::digits::{is_digit_byte, scan_number};
use crate::bencode::grammar::{
    parse_entries, parse_integer, parse_items, parse_string, parse_value, Parsed, COLON,
    DICTIONARY_START, END, INTEGER_START, LIST_START, MINUS,
};
use crate::bencode::value::{
    compare_bytes, entries_view, has_key, insert_entry, insert_position, items_view, key_bytes,
    keys_ascending, lemma_bytes_lt_irreflexive, lemma_bytes_lt_total, lemma_insert_entry,
    lemma_insert_position, lemma_key_bytes_injective, lemma_view_dictionary, lemma_view_list,
    Bencode, BencodeValue, KeyOrder,
};
use crate::error::{DecodeError, DecodeErrorKind, Error};
use crate::text::string_from_utf8;
use vstd::prelude::*;
use vstd::slice::{slice_subrange, slice_to_vec};
use vstd::utf8::{decode_utf8, encode_utf8_decode_utf8};

verus! {

/// Finds the byte string that starts at `pos`: returns where its bytes start
/// and where they end.
fn decode_string(input: &[u8], pos: usize, strict: bool) -> (r: Result<
    (usize, usize),
    DecodeError,
>)
    ensures
        match parse_string(input@, pos as int, strict) {
            Parsed::Done(bytes, end) => r matches Ok((from, to)) && to == end && pos < from <= to
                <= input.len() && input@.subrange(from as int, to as int) == bytes,
            Parsed::Failed(kind, at) => r matches Err(e) && e.kind == kind && e.offset == at,
        },
{
    let len = input.len();
    if pos >= len {
        return Err(DecodeError { kind: DecodeErrorKind::UnexpectedEnd, offset: len });
    }
    let (end, length) = scan_number(input, pos, (len - pos) as u64);
    if end == pos {
        return Err(DecodeError { kind: DecodeErrorKind::ExpectedDigit, offset: pos });
    }
    if end >= len {
        return Err(DecodeError { kind: DecodeErrorKind::UnexpectedEnd, offset: len });
    }
    if input[end] != COLON {
        return Err(DecodeError { kind: DecodeErrorKind::ExpectedColon, offset: end });
    }
    proof {
        let numeral = input@.subrange(pos as int, end as int);
        assert(numeral.len() == end - pos);
        assert(numeral[0] == input@[pos as int]);
    }
    if strict && end - pos > 1 && input[pos] == 0x30 {
        return Err(DecodeError { kind: DecodeErrorKind::NotCanonical, offset: pos });
    }
    match length {
        None => Err(DecodeError { kind: DecodeErrorKind::UnexpectedEnd, offset: len }),
        Some(n) => {
            if n > (len - end - 1) as u64 {
                Err(DecodeError { kind: DecodeErrorKind::UnexpectedEnd, offset: len })
            } else {
                Ok((end + 1, end + 1 + n as usize))
            }
        },
    }
}

/// Reads the integer whose `i` stands at `pos`.
fn decode_integer(input: &[u8], pos: usize, strict: bool) -> (r: Result<
    (i64, usize),
    DecodeError,
>)
    requires
        pos < input.len(),
    ensures
        match parse_integer(input@, pos as int, strict) {
            Parsed::Done(i, end) => r matches Ok((value, to)) && value == i && to == end && pos
                < to <= input.len(),
            Parsed::Failed(kind, at) => r matches Err(e) && e.kind == kind && e.offset == at,
        },
{
    let len = input.len();
    let negative = pos + 1 < len && input[pos + 1] == MINUS;
    let start = if negative {
        pos + 2
    } else {
        pos + 1
    };
    if start >= len {
        return Err(DecodeError { kind: DecodeErrorKind::UnexpectedEnd, offset: len });
    }
    let limit: u64 = if negative {
        0x8000_0000_0000_0000
    } else {
        0x7fff_ffff_ffff_ffff
    };
    let (end, magnitude) = scan_number(input, start, limit);
    if end == start {
        return Err(DecodeError { kind: DecodeErrorKind::ExpectedDigit, offset: start });
    }
    if end >= len {
        return Err(DecodeError { kind: DecodeErrorKind::UnexpectedEnd, offset: len });
    }
    if input[end] != END {
        return Err(DecodeError { kind: DecodeErrorKind::ExpectedTerminator, offset: end });
    }
    proof {
        let numeral = input@.subrange(start as int, end as int);
        assert(numeral.len() == end - start);
        assert(numeral[0] == input@[start as int]);
    }
    if strict {
        if end - start > 1 && input[start] == 0x30 {
            return Err(DecodeError { kind: DecodeErrorKind::NotCanonical, offset: pos });
        }
        if negative {
            match magnitude {
                Some(m) => {
                    if m == 0 {
                        return Err(
                            DecodeError { kind: DecodeErrorKind::NotCanonical, offset: pos },
                        );
                    }
                },
                None => {},
            }
        }
    }
    match magnitude {
        None => Err(DecodeError { kind: DecodeErrorKind::IntegerOverflow, offset: pos }),
        Some(m) => {
            let value: i64 = if negative {
                if m == 0x8000_0000_0000_0000 {
                    i64::MIN
                } else {
                    -(m as i64)
                }
            } else {
                m as i64
            };
            Ok((value, end + 1))
        },
    }
}

/// Finds where a new key belongs among sorted entries, unless they hold it
/// already.
fn find_slot(entries: &Vec<(String, BencodeValue)>, key: &str) -> (slot: Option<usize>)
    requires
        keys_ascending(entries_view(entries@)),
    ensures
        match slot {
            Some(at) => !has_key(entries_view(entries@), key@) && at == insert_position(
                entries_view(entries@),
                key_bytes(key@),
            ) && at <= entries.len(),
            None => has_key(entries_view(entries@), key@),
        },
{
    let kb = key.as_bytes();
    let ghost model = entries_view(entries@);
    let mut i: usize = entries.len();
    proof {
        assert(model.subrange(0, i as int) =~= model);
        lemma_insert_position(model, kb@);
    }
    while i > 0
        invariant
            i <= entries.len(),
            model == entries_view(entries@),
            keys_ascending(model),
            kb@ == key_bytes(key@),
            insert_position(model, kb@) == insert_position(model.subrange(0, i as int), kb@),
            forall|j: int| i <= j < model.len() ==> (#[trigger] model[j]).0 != key@,
        decreases i,
    {
        let other = entries[i - 1].0.as_str().as_bytes();
        proof {
            let front = model.subrange(0, i as int);
            assert(front.last() == model[i - 1]);
            assert(front.drop_last() =~= model.subrange(0, i - 1));
            assert(other@ == key_bytes(model[i - 1].0));
            lemma_bytes_lt_total(other@, kb@);
            lemma_bytes_lt_irreflexive(kb@);
        }
        match compare_bytes(other, kb) {
            KeyOrder::Before => {
                proof {
                    lemma_insert_position(model, kb@);
                    assert forall|j: int| 0 <= j < model.len() implies (#[trigger] model[j]).0
                        != key@ by {
                        if j < i {
                            assert(key_bytes(model[j].0) != kb@);
                        }
                    }
                }
                return Some(i);
            },
            KeyOrder::Same => {
                proof {
                    lemma_key_bytes_injective(model[i - 1].0, key@);
                }
                return None;
            },
            KeyOrder::After => {
                i = i - 1;
            },
        }
    }
    proof {
        assert(model.subrange(0, 0) =~= Seq::empty());
    }
    Some(0)
}

/// Reads the value that starts at `pos`: returns it with the offset behind
/// it.
pub fn decode_at(input: &[u8], pos: usize, strict: bool) -> (r: Result<
    (BencodeValue, usize),
    DecodeError,
>)
    ensures
        match parse_value(input@, pos as int, strict) {
            Parsed::Done(model, end) => r matches Ok((value, to)) && value@ == model && to == end
                && pos < to <= input.len() && model.well_formed(),
            Parsed::Failed(kind, at) => r matches Err(e) && e.kind == kind && e.offset == at,
        },
    decreases input.len() - pos,
{
    let len = input.len();
    if pos >= len {
        return Err(DecodeError { kind: DecodeErrorKind::UnexpectedEnd, offset: len });
    }
    let first = input[pos];
    if first == INTEGER_START {
        match decode_integer(input, pos, strict) {
            Ok((i, end)) => Ok((BencodeValue::Integer(i), end)),
            Err(e) => Err(e),
        }
    } else if first == LIST_START {
        let mut items: Vec<BencodeValue> = Vec::new();
        let mut cur: usize = pos + 1;
        proof {
            assert(items_view(items@) =~= Seq::<Bencode>::empty());
        }
        loop
            invariant
                pos < cur <= input.len(),
                len == input.len(),
                input@[pos as int] == LIST_START,
                parse_items(input@, pos + 1, strict, Seq::empty()) == parse_items(
                    input@,
                    cur as int,
                    strict,
                    items_view(items@),
                ),
                forall|i: int|
                    0 <= i < items.len() ==> (#[trigger] items_view(items@)[i]).well_formed(),
            decreases input.len() - cur,
        {
            if cur >= len {
                return Err(DecodeError { kind: DecodeErrorKind::UnexpectedEnd, offset: len });
            }
            if input[cur] == END {
                proof {
                    lemma_view_list(items);
                }
                return Ok((BencodeValue::List(items), cur + 1));
            }
            match decode_at(input, cur, strict) {
                Err(e) => {
                    return Err(e);
                },
                Ok((item, end)) => {
                    proof {
                        assert(items_view(items@.push(item)) =~= items_view(items@).push(item@));
                    }
                    items.push(item);
                    cur = end;
                },
            }
        }
    } else if first == DICTIONARY_START {
        let mut entries: Vec<(String, BencodeValue)> = Vec::new();
        let mut cur: usize = pos + 1;
        proof {
            assert(entries_view(entries@) =~= Seq::<(Seq<char>, Bencode)>::empty());
        }
        loop
            invariant
                pos < cur <= input.len(),
                len == input.len(),
                input@[pos as int] == DICTIONARY_START,
                parse_entries(input@, pos + 1, strict, Seq::empty()) == parse_entries(
                    input@,
                    cur as int,
                    strict,
                    entries_view(entries@),
                ),
                keys_ascending(entries_view(entries@)),
                forall|i: int|
                    0 <= i < entries.len() ==> (#[trigger] entries_view(
                        entries@,
                    )[i]).1.well_formed(),
            decreases input.len() - cur,
        {
            if cur >= len {
                return Err(DecodeError { kind: DecodeErrorKind::UnexpectedEnd, offset: len });
            }
            if input[cur] == END {
                proof {
                    lemma_view_dictionary(entries);
                }
                return Ok((BencodeValue::Dictionary(entries), cur + 1));
            }
            if !is_digit_byte(input[cur]) {
                return Err(DecodeError { kind: DecodeErrorKind::KeyNotString, offset: cur });
            }
            let (from, key_end) = match decode_string(input, cur, strict) {
                Err(e) => {
                    return Err(e);
                },
                Ok(range) => range,
            };
            let key = match string_from_utf8(slice_to_vec(slice_subrange(input, from, key_end))) {
                None => {
                    return Err(DecodeError { kind: DecodeErrorKind::KeyNotUtf8, offset: cur });
                },
                Some(key) => key,
            };
            proof {
                encode_utf8_decode_utf8(key@);
                assert(key@ == decode_utf8(input@.subrange(from as int, key_end as int)));
            }
            let slot = match find_slot(&entries, key.as_str()) {
                None => {
                    return Err(DecodeError { kind: DecodeErrorKind::DuplicateKey, offset: cur });
                },
                Some(slot) => slot,
            };
            proof {
                lemma_insert_position(entries_view(entries@), key_bytes(key@));
            }
            if strict && entries.len() > 0 && slot != entries.len() {
                return Err(DecodeError { kind: DecodeErrorKind::NotCanonical, offset: cur });
            }
            if key_end >= len {
                return Err(DecodeError { kind: DecodeErrorKind::UnexpectedEnd, offset: len });
            }
            if input[key_end] == END {
                return Err(DecodeError { kind: DecodeErrorKind::OddDictionary, offset: key_end });
            }
            match decode_at(input, key_end, strict) {
                Err(e) => {
                    return Err(e);
                },
                Ok((value, end)) => {
                    proof {
                        let before = entries_view(entries@);
                        lemma_insert_entry(before, key@, value@);
                        let after = entries_view(entries@.insert(slot as int, (key, value)));
                        assert(after =~= insert_entry(before, key@, value@));
                        assert forall|i: int| 0 <= i < after.len() implies (#[trigger] after[i]).1.well_formed() by {
                            if i < slot {
                                assert(after[i] == before[i]);
                            } else if i > slot {
                                assert(after[i] == before[i - 1]);
                            }
                        }
                    }
                    entries.insert(slot, (key, value));
                    cur = end;
                },
            }
        }
    } else if is_digit_byte(first) {
        match decode_string(input, pos, strict) {
            Ok((from, to)) => Ok(
                (BencodeValue::ByteString(slice_to_vec(slice_subrange(input, from, to))), to),
            ),
            Err(e) => Err(e),
        }
    } else {
        Err(DecodeError { kind: DecodeErrorKind::UnexpectedByte, offset: pos })
    }
}

/// Decodes the value that `input` starts with, and returns it with the
/// bytes behind it.
///
/// Numerals may have leading zeros and the keys of a dictionary may come in
/// any order; the dictionary that is returned has them sorted. Fails, with
/// the offset of the offending byte, exactly where the grammar does.
pub fn decode_value<'a>(input: &'a [u8]) -> (r: Result<(BencodeValue, &'a [u8]), Error>)
    ensures
        match parse_value(input@, 0, false) {
            Parsed::Done(model, end) => r matches Ok((value, rest)) && value@ == model && rest@
                == input@.subrange(end, input@.len() as int) && model.well_formed(),
            Parsed::Failed(kind, at) => r == Err::<(BencodeValue, &[u8]), Error>(
                Error::Decode(DecodeError { kind, offset: at as usize }),
            ),
        },
{
    match decode_at(input, 0, false) {
        Ok((value, end)) => Ok((value, slice_subrange(input, end, input.len()))),
        Err(e) => Err(Error::Decode(e)),
    }
}

/// Decodes the value that `input` starts with, if it is in canonical form,
/// and returns it with the bytes behind it.
///
/// Canonical form has no numeral with a leading zero, no negative zero, and
/// the keys of every dictionary in ascending order. It is the one form that
/// the encoder writes.
pub fn decode_canonical<'a>(input: &'a [u8]) -> (r: Result<(BencodeValue, &'a [u8]), Error>)
    ensures
        match parse_value(input@, 0, true) {
            Parsed::Done(model, end) => r matches Ok((value, rest)) && value@ == model && rest@
                == input@.subrange(end, input@.len() as int) && model.well_formed(),
            Parsed::Failed(kind, at) => r == Err::<(BencodeValue, &[u8]), Error>(
                Error::Decode(DecodeError { kind, offset: at as usize }),
            ),
        },
{
    match decode_at(input, 0, true) {
        Ok((value, end)) => Ok((value, slice_subrange(input, end, input.len()))),
        Err(e) => Err(Error::Decode(e)),
    }
}

} // verus!
