//! What holds between reading and writing: the two are inverse to each other
//! on canonical form.

use crate::bencode::digits::{
    decimal, digit_run, is_digit, lemma_decimal, lemma_decimal_of_value, lemma_digit_run,
    lemma_digit_run_is,
};
use crate::bencode::grammar::{
    encode_entries, encode_integer, encode_items, encode_string, encode_value, is_canonical,
    parse_entries, parse_integer, parse_items, parse_string, parse_value, Parsed, COLON,
    DICTIONARY_START, END, INTEGER_START, LIST_START, MINUS,
};
use crate::bencode::value::{
    bytes_lt, has_key, insert_entry, insert_position, key_bytes, keys_ascending,
    lemma_bytes_lt_irreflexive, lemma_insert_entry, lemma_insert_position, Bencode,
};
use vstd::prelude::*;
use vstd::utf8::{
    decode_utf8, decode_utf8_encode_utf8, encode_utf8_decode_utf8, encode_utf8_valid_utf8,
};

verus! {

/// An input that holds `a + b` from `pos` on holds `a` at `pos` and `b`
/// behind it.
pub proof fn lemma_window_split(s: Seq<u8>, pos: int, a: Seq<u8>, b: Seq<u8>)
    requires
        0 <= pos,
        pos + a.len() + b.len() <= s.len(),
        s.subrange(pos, pos + a.len() + b.len()) == a + b,
    ensures
        s.subrange(pos, pos + a.len()) == a,
        s.subrange(pos + a.len(), pos + a.len() + b.len()) == b,
{
    let w = s.subrange(pos, pos + a.len() + b.len());
    assert(s.subrange(pos, pos + a.len()) =~= w.subrange(0, a.len() as int));
    assert(w.subrange(0, a.len() as int) =~= a);
    assert(s.subrange(pos + a.len(), pos + a.len() + b.len()) =~= w.subrange(
        a.len() as int,
        (a.len() + b.len()) as int,
    ));
    assert(w.subrange(a.len() as int, (a.len() + b.len()) as int) =~= b);
}

/// Every value is written with at least two bytes, the first of which tells
/// its kind and is no `e`.
pub proof fn lemma_encode_start(value: Bencode)
    ensures
        encode_value(value).len() >= 2,
        match value {
            Bencode::Integer(_) => encode_value(value)[0] == INTEGER_START,
            Bencode::ByteString(_) => is_digit(encode_value(value)[0]),
            Bencode::List(_) => encode_value(value)[0] == LIST_START,
            Bencode::Dictionary(_) => encode_value(value)[0] == DICTIONARY_START,
        },
        encode_value(value)[0] != END,
{
    match value {
        Bencode::Integer(i) => {
            if i < 0 {
                lemma_decimal((-i) as nat);
            } else {
                lemma_decimal(i as nat);
            }
        },
        Bencode::ByteString(bytes) => {
            lemma_decimal(bytes.len());
            let numeral = decimal(bytes.len());
            assert(is_digit(numeral[0]));
            assert(encode_value(value)[0] == numeral[0]);
        },
        Bencode::List(_) => {},
        Bencode::Dictionary(_) => {},
    }
}

/// Reading what a byte string was written as gives the byte string back.
pub proof fn lemma_parse_encoded_string(s: Seq<u8>, pos: int, strict: bool, bytes: Seq<u8>)
    requires
        0 <= pos,
        pos + encode_string(bytes).len() <= s.len(),
        s.subrange(pos, pos + encode_string(bytes).len()) == encode_string(bytes),
    ensures
        parse_string(s, pos, strict) == Parsed::Done(bytes, pos + encode_string(bytes).len()),
{
    let numeral = decimal(bytes.len());
    let k = numeral.len() as int;
    lemma_decimal(bytes.len());
    let tail = seq![COLON] + bytes;
    assert(encode_string(bytes) =~= numeral + tail);
    lemma_window_split(s, pos, numeral, tail);
    lemma_window_split(s, pos + k, seq![COLON], bytes);
    assert forall|i: int| pos <= i < pos + k implies is_digit(#[trigger] s[i]) by {
        assert(s.subrange(pos, pos + k)[i - pos] == s[i]);
    }
    assert(s.subrange(pos + k, pos + k + 1)[0] == s[pos + k]);
    lemma_digit_run_is(s, pos, pos + k);
}

/// Reading what an integer was written as gives the integer back.
pub proof fn lemma_parse_encoded_integer(s: Seq<u8>, pos: int, strict: bool, i: int)
    requires
        i64::MIN <= i <= i64::MAX,
        0 <= pos,
        pos + encode_integer(i).len() <= s.len(),
        s.subrange(pos, pos + encode_integer(i).len()) == encode_integer(i),
    ensures
        parse_integer(s, pos, strict) == Parsed::Done(i, pos + encode_integer(i).len()),
{
    let magnitude: nat = if i < 0 {
        (-i) as nat
    } else {
        i as nat
    };
    let numeral = decimal(magnitude);
    let k = numeral.len() as int;
    lemma_decimal(magnitude);
    let head = if i < 0 {
        seq![INTEGER_START, MINUS]
    } else {
        seq![INTEGER_START]
    };
    let start = pos + head.len();
    let tail = numeral + seq![END];
    assert(encode_integer(i) =~= head + tail);
    lemma_window_split(s, pos, head, tail);
    lemma_window_split(s, start, numeral, seq![END]);
    assert forall|j: int| start <= j < start + k implies is_digit(#[trigger] s[j]) by {
        assert(s.subrange(start, start + k)[j - start] == s[j]);
    }
    assert(s.subrange(start + k, start + k + 1)[0] == s[start + k]);
    lemma_digit_run_is(s, start, start + k);
    if i < 0 {
        assert(s.subrange(pos, pos + 2)[1] == s[pos + 1]);
    } else {
        assert(is_digit(s[pos + 1]));
    }
}

/// Reading what a value was written as gives the value back, whatever stands
/// before it and behind it, in the lenient and in the strict reading.
pub proof fn lemma_parse_encoded(s: Seq<u8>, pos: int, strict: bool, value: Bencode)
    requires
        value.well_formed(),
        value.in_range(),
        0 <= pos,
        pos + encode_value(value).len() <= s.len(),
        s.subrange(pos, pos + encode_value(value).len()) == encode_value(value),
    ensures
        parse_value(s, pos, strict) == Parsed::Done(value, pos + encode_value(value).len()),
    decreases value, 0int,
{
    let written = encode_value(value);
    lemma_encode_start(value);
    assert(s.subrange(pos, pos + written.len())[0] == s[pos]);
    match value {
        Bencode::Integer(i) => {
            lemma_parse_encoded_integer(s, pos, strict, i);
        },
        Bencode::ByteString(bytes) => {
            lemma_parse_encoded_string(s, pos, strict, bytes);
        },
        Bencode::List(items) => {
            let inner = encode_items(items, 0) + seq![END];
            assert(written =~= seq![LIST_START] + inner);
            lemma_window_split(s, pos, seq![LIST_START], inner);
            assert(items.take(0) =~= Seq::<Bencode>::empty());
            lemma_parse_encoded_items(s, pos + 1, strict, items, 0);
        },
        Bencode::Dictionary(entries) => {
            let inner = encode_entries(entries, 0) + seq![END];
            assert(written =~= seq![DICTIONARY_START] + inner);
            lemma_window_split(s, pos, seq![DICTIONARY_START], inner);
            assert(entries.take(0) =~= Seq::<(Seq<char>, Bencode)>::empty());
            lemma_parse_encoded_entries(s, pos + 1, strict, entries, 0);
        },
    }
}

/// Reading the items of a list from the `k`-th on, as they were written,
/// completes the list.
pub proof fn lemma_parse_encoded_items(
    s: Seq<u8>,
    pos: int,
    strict: bool,
    items: Seq<Bencode>,
    k: int,
)
    requires
        0 <= k <= items.len(),
        forall|i: int| 0 <= i < items.len() ==> (#[trigger] items[i]).well_formed(),
        forall|i: int| 0 <= i < items.len() ==> (#[trigger] items[i]).in_range(),
        0 <= pos,
        pos + encode_items(items, k).len() + 1 <= s.len(),
        s.subrange(pos, pos + encode_items(items, k).len() + 1) == encode_items(items, k)
            + seq![END],
    ensures
        parse_items(s, pos, strict, items.take(k)) == Parsed::Done(
            items,
            pos + encode_items(items, k).len() + 1,
        ),
    decreases items, items.len() - k,
{
    let rest = encode_items(items, k);
    assert(s.subrange(pos, pos + rest.len() + 1)[0] == s[pos]);
    if k == items.len() {
        assert(rest =~= Seq::<u8>::empty());
        assert(items.take(k) =~= items);
    } else {
        let item = items[k];
        let written = encode_value(item);
        let tail = encode_items(items, k + 1) + seq![END];
        lemma_encode_start(item);
        assert(rest + seq![END] =~= written + tail);
        lemma_window_split(s, pos, written, tail);
        assert((written + tail)[0] == written[0]);
        lemma_parse_encoded(s, pos, strict, item);
        lemma_parse_encoded_items(s, pos + written.len(), strict, items, k + 1);
        assert(items.take(k).push(item) =~= items.take(k + 1));
    }
}

/// Reading the entries of a dictionary from the `k`-th on, as they were
/// written, completes the dictionary.
pub proof fn lemma_parse_encoded_entries(
    s: Seq<u8>,
    pos: int,
    strict: bool,
    entries: Seq<(Seq<char>, Bencode)>,
    k: int,
)
    requires
        0 <= k <= entries.len(),
        keys_ascending(entries),
        forall|i: int| 0 <= i < entries.len() ==> (#[trigger] entries[i]).1.well_formed(),
        forall|i: int| 0 <= i < entries.len() ==> (#[trigger] entries[i]).1.in_range(),
        0 <= pos,
        pos + encode_entries(entries, k).len() + 1 <= s.len(),
        s.subrange(pos, pos + encode_entries(entries, k).len() + 1) == encode_entries(entries, k)
            + seq![END],
    ensures
        parse_entries(s, pos, strict, entries.take(k)) == Parsed::Done(
            entries,
            pos + encode_entries(entries, k).len() + 1,
        ),
    decreases entries, entries.len() - k,
{
    let rest = encode_entries(entries, k);
    let read = entries.take(k);
    assert(s.subrange(pos, pos + rest.len() + 1)[0] == s[pos]);
    if k == entries.len() {
        assert(rest =~= Seq::<u8>::empty());
        assert(read =~= entries);
    } else {
        let key = entries[k].0;
        let value = entries[k].1;
        let kb = key_bytes(key);
        let key_written = encode_string(kb);
        let written = encode_value(value);
        let tail = encode_entries(entries, k + 1) + seq![END];
        lemma_decimal(kb.len());
        assert(is_digit(key_written[0])) by {
            assert(key_written[0] == decimal(kb.len())[0]);
        }
        lemma_encode_start(value);
        assert(rest + seq![END] =~= key_written + (written + tail));
        lemma_window_split(s, pos, key_written, written + tail);
        lemma_window_split(s, pos + key_written.len(), written, tail);
        assert((key_written + (written + tail))[0] == key_written[0]);
        lemma_parse_encoded_string(s, pos, strict, kb);
        encode_utf8_valid_utf8(key);
        encode_utf8_decode_utf8(key);
        assert(!has_key(read, key)) by {
            assert forall|i: int| 0 <= i < read.len() implies (#[trigger] read[i]).0 != key by {
                assert(read[i] == entries[i]);
                assert(bytes_lt(key_bytes(entries[i].0), key_bytes(entries[k].0)));
                lemma_bytes_lt_irreflexive(kb);
            }
        }
        assert(keys_ascending(read)) by {
            assert forall|i: int, j: int|
                #![trigger read[i], read[j]]
                0 <= i < j < read.len() implies bytes_lt(
                key_bytes(read[i].0),
                key_bytes(read[j].0),
            ) by {
                assert(read[i] == entries[i] && read[j] == entries[j]);
            }
        }
        if read.len() > 0 {
            assert(read.last() == entries[k - 1]);
            assert(bytes_lt(key_bytes(entries[k - 1].0), key_bytes(entries[k].0)));
        }
        let value_at = pos + key_written.len();
        assert(s.subrange(value_at, value_at + written.len())[0] == s[value_at]);
        lemma_parse_encoded(s, value_at, strict, value);
        lemma_insert_entry(read, key, value);
        assert(read.push((key, value)) =~= entries.take(k + 1));
        lemma_parse_encoded_entries(s, value_at + written.len(), strict, entries, k + 1);
    }
}

/// What the strict reading accepts as a byte string is what that byte string
/// is written as.
pub proof fn lemma_strict_string(s: Seq<u8>, pos: int, bytes: Seq<u8>, end: int)
    requires
        parse_string(s, pos, true) == Parsed::Done(bytes, end),
    ensures
        0 <= pos < end <= s.len(),
        s.subrange(pos, end) == encode_string(bytes),
        is_digit(s[pos]),
{
    lemma_digit_run(s, pos);
    let stop = digit_run(s, pos);
    let numeral = s.subrange(pos, stop);
    assert forall|i: int| 0 <= i < numeral.len() implies is_digit(#[trigger] numeral[i]) by {
        assert(numeral[i] == s[pos + i]);
    }
    assert(numeral[0] == s[pos]);
    lemma_decimal_of_value(numeral);
    assert(s.subrange(pos, end) =~= numeral + seq![COLON] + bytes);
}

/// What the strict reading accepts as an integer is what that integer is
/// written as.
pub proof fn lemma_strict_integer(s: Seq<u8>, pos: int, i: int, end: int)
    requires
        0 <= pos < s.len(),
        s[pos] == INTEGER_START,
        parse_integer(s, pos, true) == Parsed::Done(i, end),
    ensures
        pos < end <= s.len(),
        i64::MIN <= i <= i64::MAX,
        s.subrange(pos, end) == encode_integer(i),
{
    let negative = pos + 1 < s.len() && s[pos + 1] == MINUS;
    let start = if negative {
        pos + 2
    } else {
        pos + 1
    };
    lemma_digit_run(s, start);
    let stop = digit_run(s, start);
    let numeral = s.subrange(start, stop);
    assert forall|j: int| 0 <= j < numeral.len() implies is_digit(#[trigger] numeral[j]) by {
        assert(numeral[j] == s[start + j]);
    }
    lemma_decimal_of_value(numeral);
    if negative {
        assert(s.subrange(pos, end) =~= seq![INTEGER_START, MINUS] + numeral + seq![END]);
    } else {
        assert(s.subrange(pos, end) =~= seq![INTEGER_START] + numeral + seq![END]);
    }
}

/// What the strict reading accepts as a value is what that value is written
/// as, and the value is well formed.
pub proof fn lemma_strict_parse(s: Seq<u8>, pos: int, value: Bencode, end: int)
    requires
        parse_value(s, pos, true) == Parsed::Done(value, end),
    ensures
        0 <= pos < end <= s.len(),
        s.subrange(pos, end) == encode_value(value),
        value.well_formed(),
        value.in_range(),
    decreases s.len() - pos, 0int,
{
    if s[pos] == INTEGER_START {
        lemma_strict_integer(s, pos, value->Integer_0, end);
    } else if s[pos] == LIST_START {
        let items = value->List_0;
        lemma_strict_items(s, pos + 1, Seq::empty(), items, end);
        assert(s.subrange(pos, end) =~= seq![LIST_START] + s.subrange(pos + 1, end));
    } else if s[pos] == DICTIONARY_START {
        let entries = value->Dictionary_0;
        lemma_strict_entries(s, pos + 1, Seq::empty(), entries, end);
        assert(s.subrange(pos, end) =~= seq![DICTIONARY_START] + s.subrange(pos + 1, end));
    } else {
        lemma_strict_string(s, pos, value->ByteString_0, end);
    }
}

/// What the strict reading accepts as the rest of a list is what the
/// remaining items are written as.
pub proof fn lemma_strict_items(
    s: Seq<u8>,
    pos: int,
    read: Seq<Bencode>,
    items: Seq<Bencode>,
    end: int,
)
    requires
        parse_items(s, pos, true, read) == Parsed::Done(items, end),
    ensures
        0 <= pos < end <= s.len(),
        read.len() <= items.len(),
        items.take(read.len() as int) == read,
        s.subrange(pos, end) == encode_items(items, read.len() as int) + seq![END],
        forall|i: int|
            read.len() <= i < items.len() ==> (#[trigger] items[i]).well_formed() && items[i].in_range(),
    decreases s.len() - pos, 1int,
{
    if s[pos] == END {
        assert(items.take(read.len() as int) =~= read);
        assert(encode_items(items, read.len() as int) =~= Seq::<u8>::empty());
        assert(s.subrange(pos, end) =~= seq![END]);
    } else {
        match parse_value(s, pos, true) {
            Parsed::Done(item, next) => {
                lemma_strict_parse(s, pos, item, next);
                let more = read.push(item);
                lemma_strict_items(s, next, more, items, end);
                let n = read.len() as int;
                assert(items.take(n + 1)[n] == item);
                assert(items.take(n) =~= items.take(n + 1).take(n));
                assert(more.take(n) =~= read);
                assert(s.subrange(pos, end) =~= s.subrange(pos, next) + s.subrange(next, end));
                assert(encode_items(items, n) + seq![END] =~= encode_value(item) + (encode_items(
                    items,
                    n + 1,
                ) + seq![END]));
            },
            Parsed::Failed(_, _) => {},
        }
    }
}

/// What the strict reading accepts as the rest of a dictionary is what the
/// remaining entries are written as, and their keys ascend.
pub proof fn lemma_strict_entries(
    s: Seq<u8>,
    pos: int,
    read: Seq<(Seq<char>, Bencode)>,
    entries: Seq<(Seq<char>, Bencode)>,
    end: int,
)
    requires
        parse_entries(s, pos, true, read) == Parsed::Done(entries, end),
        keys_ascending(read),
    ensures
        0 <= pos < end <= s.len(),
        read.len() <= entries.len(),
        entries.take(read.len() as int) == read,
        keys_ascending(entries),
        s.subrange(pos, end) == encode_entries(entries, read.len() as int) + seq![END],
        forall|i: int|
            read.len() <= i < entries.len() ==> (#[trigger] entries[i]).1.well_formed()
                && entries[i].1.in_range(),
    decreases s.len() - pos, 1int,
{
    if s[pos] == END {
        assert(entries.take(read.len() as int) =~= read);
        assert(encode_entries(entries, read.len() as int) =~= Seq::<u8>::empty());
        assert(s.subrange(pos, end) =~= seq![END]);
    } else {
        match parse_string(s, pos, true) {
            Parsed::Done(kb, key_end) => {
                lemma_strict_string(s, pos, kb, key_end);
                let key = decode_utf8(kb);
                decode_utf8_encode_utf8(kb);
                match parse_value(s, key_end, true) {
                    Parsed::Done(value, next) => {
                        lemma_strict_parse(s, key_end, value, next);
                        lemma_insert_entry(read, key, value);
                        let more = read.push((key, value));
                        lemma_strict_entries(s, next, more, entries, end);
                        let n = read.len() as int;
                        assert(entries.take(n + 1)[n] == (key, value));
                        assert(entries.take(n) =~= entries.take(n + 1).take(n));
                        assert(more.take(n) =~= read);
                        assert(s.subrange(pos, end) =~= s.subrange(pos, key_end) + s.subrange(
                            key_end,
                            next,
                        ) + s.subrange(next, end));
                        assert(encode_entries(entries, n) + seq![END] =~= encode_string(kb)
                            + encode_value(value) + (encode_entries(entries, n + 1) + seq![END]));
                    },
                    Parsed::Failed(_, _) => {},
                }
            },
            Parsed::Failed(_, _) => {},
        }
    }
}

/// What either reading accepts lies inside the input and is a well-formed
/// value whose integers fit in 64 bits.
pub proof fn lemma_parse_well_formed(s: Seq<u8>, pos: int, strict: bool, value: Bencode, end: int)
    requires
        parse_value(s, pos, strict) == Parsed::Done(value, end),
    ensures
        0 <= pos < end <= s.len(),
        value.well_formed(),
        value.in_range(),
    decreases s.len() - pos, 0int,
{
    if s[pos] == INTEGER_START {
        lemma_digit_run(
            s,
            if pos + 1 < s.len() && s[pos + 1] == MINUS {
                pos + 2
            } else {
                pos + 1
            },
        );
    } else if s[pos] == LIST_START {
        lemma_parse_items_well_formed(s, pos + 1, strict, Seq::empty(), value->List_0, end);
    } else if s[pos] == DICTIONARY_START {
        lemma_parse_entries_well_formed(
            s,
            pos + 1,
            strict,
            Seq::empty(),
            value->Dictionary_0,
            end,
        );
    } else {
        lemma_digit_run(s, pos);
    }
}

/// What either reading accepts as the rest of a list completes well-formed
/// items to well-formed items.
pub proof fn lemma_parse_items_well_formed(
    s: Seq<u8>,
    pos: int,
    strict: bool,
    read: Seq<Bencode>,
    items: Seq<Bencode>,
    end: int,
)
    requires
        parse_items(s, pos, strict, read) == Parsed::Done(items, end),
        forall|i: int| 0 <= i < read.len() ==> (#[trigger] read[i]).well_formed(),
        forall|i: int| 0 <= i < read.len() ==> (#[trigger] read[i]).in_range(),
    ensures
        0 <= pos < end <= s.len(),
        forall|i: int| 0 <= i < items.len() ==> (#[trigger] items[i]).well_formed(),
        forall|i: int| 0 <= i < items.len() ==> (#[trigger] items[i]).in_range(),
    decreases s.len() - pos, 1int,
{
    if s[pos] != END {
        match parse_value(s, pos, strict) {
            Parsed::Done(item, next) => {
                lemma_parse_well_formed(s, pos, strict, item, next);
                lemma_parse_items_well_formed(s, next, strict, read.push(item), items, end);
            },
            Parsed::Failed(_, _) => {},
        }
    }
}

/// What either reading accepts as the rest of a dictionary completes sorted
/// entries with well-formed values to such entries.
pub proof fn lemma_parse_entries_well_formed(
    s: Seq<u8>,
    pos: int,
    strict: bool,
    read: Seq<(Seq<char>, Bencode)>,
    entries: Seq<(Seq<char>, Bencode)>,
    end: int,
)
    requires
        parse_entries(s, pos, strict, read) == Parsed::Done(entries, end),
        keys_ascending(read),
        forall|i: int| 0 <= i < read.len() ==> (#[trigger] read[i]).1.well_formed(),
        forall|i: int| 0 <= i < read.len() ==> (#[trigger] read[i]).1.in_range(),
    ensures
        0 <= pos < end <= s.len(),
        keys_ascending(entries),
        forall|i: int| 0 <= i < entries.len() ==> (#[trigger] entries[i]).1.well_formed(),
        forall|i: int| 0 <= i < entries.len() ==> (#[trigger] entries[i]).1.in_range(),
    decreases s.len() - pos, 1int,
{
    if s[pos] != END {
        match parse_string(s, pos, strict) {
            Parsed::Done(kb, key_end) => {
                let key = decode_utf8(kb);
                match parse_value(s, key_end, strict) {
                    Parsed::Done(value, next) => {
                        lemma_parse_well_formed(s, key_end, strict, value, next);
                        lemma_insert_entry(read, key, value);
                        let more = insert_entry(read, key, value);
                        let at = insert_position(read, key_bytes(key));
                        lemma_insert_position(read, key_bytes(key));
                        assert forall|i: int| 0 <= i < more.len() implies (#[trigger] more[i]).1.well_formed()
                            && more[i].1.in_range() by {
                            if i < at {
                                assert(more[i] == read[i]);
                            } else if i > at {
                                assert(more[i] == read[i - 1]);
                            }
                        }
                        lemma_parse_entries_well_formed(s, next, strict, more, entries, end);
                    },
                    Parsed::Failed(_, _) => {},
                }
            },
            Parsed::Failed(_, _) => {},
        }
    }
}

/// Writing whatever was read gives canonical bytes, and reading those gives
/// the same value again: writing normalises.
pub proof fn lemma_encode_normalises(s: Seq<u8>, value: Bencode, end: int)
    requires
        parse_value(s, 0, false) == Parsed::Done(value, end),
    ensures
        is_canonical(encode_value(value)),
        parse_value(encode_value(value), 0, false) == Parsed::Done(
            value,
            encode_value(value).len() as int,
        ),
{
    lemma_parse_well_formed(s, 0, false, value, end);
    lemma_decode_encode(value, false);
}

/// Writing a well-formed value and reading the bytes gives the value back,
/// and the reading uses up all the bytes. The bytes are canonical.
pub proof fn lemma_decode_encode(value: Bencode, strict: bool)
    requires
        value.well_formed(),
        value.in_range(),
    ensures
        parse_value(encode_value(value), 0, strict) == Parsed::Done(
            value,
            encode_value(value).len() as int,
        ),
        is_canonical(encode_value(value)),
{
    let s = encode_value(value);
    assert(s.subrange(0, s.len() as int) =~= s);
    lemma_parse_encoded(s, 0, strict, value);
    lemma_parse_encoded(s, 0, true, value);
}

/// Reading canonical bytes and writing the value gives the bytes back.
pub proof fn lemma_encode_decode(s: Seq<u8>)
    requires
        is_canonical(s),
    ensures
        parse_value(s, 0, false) matches Parsed::Done(value, end) && end == s.len()
            && encode_value(value) == s && value.well_formed(),
{
    match parse_value(s, 0, true) {
        Parsed::Done(value, end) => {
            lemma_strict_parse(s, 0, value, end);
            assert(s.subrange(0, end) =~= s);
            lemma_parse_encoded(s, 0, false, value);
        },
        Parsed::Failed(_, _) => {},
    }
}

/// What the strict reading accepts, the lenient reading accepts as the same
/// value.
pub proof fn lemma_strict_is_lenient(s: Seq<u8>, pos: int)
    requires
        parse_value(s, pos, true) is Done,
    ensures
        parse_value(s, pos, false) == parse_value(s, pos, true),
{
    match parse_value(s, pos, true) {
        Parsed::Done(value, end) => {
            lemma_strict_parse(s, pos, value, end);
            lemma_parse_encoded(s, pos, false, value);
        },
        Parsed::Failed(_, _) => {},
    }
}

/// Two well-formed values that are written as the same bytes are the same
/// value.
pub proof fn lemma_encode_injective(a: Bencode, b: Bencode)
    requires
        a.well_formed(),
        a.in_range(),
        b.well_formed(),
        b.in_range(),
        encode_value(a) == encode_value(b),
    ensures
        a == b,
{
    lemma_decode_encode(a, true);
    lemma_decode_encode(b, true);
}

} // verus!
