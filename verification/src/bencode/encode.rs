//! The encoder: from a value to the bytes that bencode writes it as.

use crate::bencode::digits::push_decimal;
use crate::bencode::grammar::{
    encode_entries, encode_integer, encode_items, encode_string, encode_value, COLON,
    DICTIONARY_START, END, INTEGER_START, LIST_START, MINUS,
};
use crate::bencode::value::{
    entries_view, items_view, lemma_view_dictionary, lemma_view_list, BencodeValue,
};
use vstd::prelude::*;

verus! {

/// Appends a byte string: its length, `:`, its bytes.
pub fn write_string(out: &mut Vec<u8>, bytes: &[u8])
    ensures
        final(out)@ == old(out)@ + encode_string(bytes@),
{
    push_decimal(out, bytes.len() as u64);
    out.push(COLON);
    out.extend_from_slice(bytes);
    proof {
        assert(out@ =~= old(out)@ + encode_string(bytes@));
    }
}

/// Appends an integer that is not negative.
pub fn write_unsigned(out: &mut Vec<u8>, n: u64)
    ensures
        final(out)@ == old(out)@ + encode_integer(n as int),
{
    out.push(INTEGER_START);
    push_decimal(out, n);
    out.push(END);
    proof {
        assert(out@ =~= old(out)@ + encode_integer(n as int));
    }
}

/// Appends an integer.
pub fn write_integer(out: &mut Vec<u8>, i: i64)
    ensures
        final(out)@ == old(out)@ + encode_integer(i as int),
{
    if i < 0 {
        let magnitude: u64 = if i == i64::MIN {
            0x8000_0000_0000_0000
        } else {
            (-i) as u64
        };
        out.push(INTEGER_START);
        out.push(MINUS);
        push_decimal(out, magnitude);
        out.push(END);
        proof {
            assert(out@ =~= old(out)@ + encode_integer(i as int));
        }
    } else {
        write_unsigned(out, i as u64);
    }
}

/// Appends a value. The entries of a dictionary are written in the order in
/// which the value holds them.
pub fn write_value(out: &mut Vec<u8>, value: &BencodeValue)
    ensures
        final(out)@ == old(out)@ + encode_value(value@),
    decreases value,
{
    let ghost start = out@;
    match value {
        BencodeValue::Integer(i) => {
            write_integer(out, *i);
        },
        BencodeValue::ByteString(bytes) => {
            write_string(out, bytes.as_slice());
        },
        BencodeValue::List(items) => {
            let ghost models = items_view(items@);
            proof {
                lemma_view_list(*items);
            }
            out.push(LIST_START);
            let mut i: usize = 0;
            while i < items.len()
                invariant
                    i <= items.len(),
                    *value == BencodeValue::List(*items),
                    models == items_view(items@),
                    out@ + encode_items(models, i as int) == start + seq![LIST_START]
                        + encode_items(models, 0),
                decreases items.len() - i,
            {
                let ghost before = out@;
                let item = &items[i];
                proof {
                    assert(decreases_to!(*items => items[i as int]));
                    assert(value->List_0 == *items);
                    assert(decreases_to!(*value => value->List_0));
                }
                write_value(out, item);
                proof {
                    assert(models[i as int] == items@[i as int]@);
                    assert(out@ + encode_items(models, i + 1) =~= before + encode_items(
                        models,
                        i as int,
                    ));
                }
                i = i + 1;
            }
            out.push(END);
            proof {
                assert(encode_items(models, i as int) =~= Seq::<u8>::empty());
                assert(out@ =~= start + encode_value(value@));
            }
        },
        BencodeValue::Dictionary(entries) => {
            let ghost models = entries_view(entries@);
            proof {
                lemma_view_dictionary(*entries);
            }
            out.push(DICTIONARY_START);
            let mut i: usize = 0;
            while i < entries.len()
                invariant
                    i <= entries.len(),
                    *value == BencodeValue::Dictionary(*entries),
                    models == entries_view(entries@),
                    out@ + encode_entries(models, i as int) == start + seq![DICTIONARY_START]
                        + encode_entries(models, 0),
                decreases entries.len() - i,
            {
                let ghost before = out@;
                write_string(out, entries[i].0.as_str().as_bytes());
                let entry = &entries[i];
                proof {
                    assert(decreases_to!(*entries => entries[i as int]));
                    assert(value->Dictionary_0 == *entries);
                    assert(decreases_to!(*value => value->Dictionary_0));
                    assert(decreases_to!(*entry => entry.1));
                }
                write_value(out, &entry.1);
                proof {
                    assert(models[i as int] == (entries@[i as int].0@, entries@[i as int].1@));
                    assert(out@ + encode_entries(models, i + 1) =~= before + encode_entries(
                        models,
                        i as int,
                    ));
                }
                i = i + 1;
            }
            out.push(END);
            proof {
                assert(encode_entries(models, i as int) =~= Seq::<u8>::empty());
                assert(out@ =~= start + encode_value(value@));
            }
        },
    }
}

/// The bytes that bencode writes `value` as.
pub fn encode(value: &BencodeValue) -> (bytes: Vec<u8>)
    ensures
        bytes@ == encode_value(value@),
{
    let mut out: Vec<u8> = Vec::new();
    write_value(&mut out, value);
    proof {
        assert(out@ =~= encode_value(value@));
    }
    out
}

} // verus!
