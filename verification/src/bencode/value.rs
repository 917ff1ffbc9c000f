//! Bencode values and their mathematical model.

use vstd::prelude::*;
use vstd::utf8::{encode_utf8, encode_utf8_decode_utf8};

verus! {

/// The mathematical model of a bencode value.
///
/// A dictionary is the sequence of its entries. In a well-formed value the
/// entries stand by ascending key, so that no key occurs twice and equal
/// dictionaries are equal sequences.
pub enum Bencode {
    Integer(int),
    ByteString(Seq<u8>),
    List(Seq<Bencode>),
    Dictionary(Seq<(Seq<char>, Bencode)>),
}

/// A bencode value.
///
/// The decoder hands out dictionaries with their entries sorted by key.
#[derive(Debug, PartialEq, Eq)]
pub enum BencodeValue {
    Integer(i64),
    ByteString(Vec<u8>),
    List(Vec<BencodeValue>),
    Dictionary(Vec<(String, BencodeValue)>),
}

/// How one key stands to another in the order of their bytes.
#[derive(Debug, Clone, Copy, PartialEq, Eq, Structural)]
pub enum KeyOrder {
    Before,
    Same,
    After,
}

/// The bytes by which a dictionary key is ordered and written: its UTF-8
/// encoding.
pub open spec fn key_bytes(key: Seq<char>) -> Seq<u8> {
    encode_utf8(key)
}

/// `a` comes before `b` in lexicographic byte order.
pub open spec fn bytes_lt(a: Seq<u8>, b: Seq<u8>) -> bool
    decreases a.len(),
{
    if b.len() == 0 {
        false
    } else if a.len() == 0 {
        true
    } else if a[0] != b[0] {
        a[0] < b[0]
    } else {
        bytes_lt(a.drop_first(), b.drop_first())
    }
}

/// The keys of `entries` ascend strictly from each entry to the next.
pub open spec fn keys_ascending(entries: Seq<(Seq<char>, Bencode)>) -> bool {
    forall|i: int, j: int|
        #![trigger entries[i], entries[j]]
        0 <= i < j < entries.len() ==> bytes_lt(key_bytes(entries[i].0), key_bytes(entries[j].0))
}

/// Some entry of `entries` has the key `key`.
pub open spec fn has_key(entries: Seq<(Seq<char>, Bencode)>, key: Seq<char>) -> bool {
    exists|i: int| 0 <= i < entries.len() && (#[trigger] entries[i]).0 == key
}

/// The value of the first entry with the key `key`.
pub open spec fn lookup(entries: Seq<(Seq<char>, Bencode)>, key: Seq<char>) -> Option<Bencode>
    decreases entries.len(),
{
    if entries.len() == 0 {
        None
    } else if entries[0].0 == key {
        Some(entries[0].1)
    } else {
        lookup(entries.drop_first(), key)
    }
}

/// Where an entry whose key has the bytes `kb` belongs: behind the last
/// entry whose key comes before it.
pub open spec fn insert_position(entries: Seq<(Seq<char>, Bencode)>, kb: Seq<u8>) -> int
    decreases entries.len(),
{
    if entries.len() == 0 || bytes_lt(key_bytes(entries.last().0), kb) {
        entries.len() as int
    } else {
        insert_position(entries.drop_last(), kb)
    }
}

/// `entries` with one more entry, put where its key belongs.
pub open spec fn insert_entry(
    entries: Seq<(Seq<char>, Bencode)>,
    key: Seq<char>,
    value: Bencode,
) -> Seq<(Seq<char>, Bencode)> {
    entries.insert(insert_position(entries, key_bytes(key)), (key, value))
}

impl Bencode {
    /// Every dictionary inside this value lists its entries by ascending key.
    pub open spec fn well_formed(self) -> bool
        decreases self,
    {
        match self {
            Bencode::Integer(_) => true,
            Bencode::ByteString(_) => true,
            Bencode::List(items) => forall|i: int|
                0 <= i < items.len() ==> (#[trigger] items[i]).well_formed(),
            Bencode::Dictionary(entries) => keys_ascending(entries) && forall|i: int|
                0 <= i < entries.len() ==> (#[trigger] entries[i]).1.well_formed(),
        }
    }
}

impl Bencode {
    /// Every integer inside this value fits in 64 bits.
    pub open spec fn in_range(self) -> bool
        decreases self,
    {
        match self {
            Bencode::Integer(i) => i64::MIN <= i <= i64::MAX,
            Bencode::ByteString(_) => true,
            Bencode::List(items) => forall|i: int|
                0 <= i < items.len() ==> (#[trigger] items[i]).in_range(),
            Bencode::Dictionary(entries) => forall|i: int|
                0 <= i < entries.len() ==> (#[trigger] entries[i]).1.in_range(),
        }
    }
}

/// The models of a vector of values.
pub open spec fn items_view(items: Seq<BencodeValue>) -> Seq<Bencode> {
    Seq::new(items.len(), |i: int| items[i]@)
}

/// The models of a vector of dictionary entries.
pub open spec fn entries_view(entries: Seq<(String, BencodeValue)>) -> Seq<(Seq<char>, Bencode)> {
    Seq::new(entries.len(), |i: int| (entries[i].0@, entries[i].1@))
}

/// The model of a value.
pub open spec fn model_of(value: BencodeValue) -> Bencode
    decreases value,
{
    match value {
        BencodeValue::Integer(i) => Bencode::Integer(i as int),
        BencodeValue::ByteString(b) => Bencode::ByteString(b@),
        BencodeValue::List(items) => Bencode::List(
            Seq::new(
                items.len() as nat,
                |i: int|
                    if 0 <= i < items.len() {
                        model_of(items[i])
                    } else {
                        Bencode::Integer(0)
                    },
            ),
        ),
        BencodeValue::Dictionary(entries) => Bencode::Dictionary(
            Seq::new(
                entries.len() as nat,
                |i: int|
                    if 0 <= i < entries.len() {
                        (entries[i].0@, model_of(entries[i].1))
                    } else {
                        (Seq::<char>::empty(), Bencode::Integer(0))
                    },
            ),
        ),
    }
}

impl View for BencodeValue {
    type V = Bencode;

    open spec fn view(&self) -> Bencode {
        model_of(*self)
    }
}

/// The model of a list is the list of its items' models.
pub proof fn lemma_view_list(items: Vec<BencodeValue>)
    ensures
        BencodeValue::List(items)@ == Bencode::List(items_view(items@)),
{
    assert(BencodeValue::List(items)@->List_0 =~= items_view(items@));
}

/// The model of a dictionary is the list of its entries' models.
pub proof fn lemma_view_dictionary(entries: Vec<(String, BencodeValue)>)
    ensures
        BencodeValue::Dictionary(entries)@ == Bencode::Dictionary(entries_view(entries@)),
{
    assert(BencodeValue::Dictionary(entries)@->Dictionary_0 =~= entries_view(entries@));
}

/// Compares two byte strings in lexicographic order.
pub fn compare_bytes(a: &[u8], b: &[u8]) -> (order: KeyOrder)
    ensures
        order is Before <==> bytes_lt(a@, b@),
        order is Same <==> a@ == b@,
        order is After <==> bytes_lt(b@, a@),
{
    let mut i: usize = 0;
    proof {
        assert(a@.skip(0) =~= a@);
        assert(b@.skip(0) =~= b@);
        lemma_bytes_lt_total(a@, b@);
    }
    while i < a.len() && i < b.len()
        invariant
            i <= a.len(),
            i <= b.len(),
            a@.subrange(0, i as int) == b@.subrange(0, i as int),
            bytes_lt(a@, b@) == bytes_lt(a@.skip(i as int), b@.skip(i as int)),
            bytes_lt(b@, a@) == bytes_lt(b@.skip(i as int), a@.skip(i as int)),
            bytes_lt(a@, b@) || a@ == b@ || bytes_lt(b@, a@),
            !(bytes_lt(a@, b@) && bytes_lt(b@, a@)),
            !(bytes_lt(a@, b@) && a@ == b@),
            !(bytes_lt(b@, a@) && a@ == b@),
        decreases a.len() - i,
    {
        let x = a[i];
        let y = b[i];
        proof {
            assert(a@.skip(i as int)[0] == x);
            assert(b@.skip(i as int)[0] == y);
            assert(a@.skip(i as int).drop_first() =~= a@.skip(i + 1));
            assert(b@.skip(i as int).drop_first() =~= b@.skip(i + 1));
        }
        if x < y {
            return KeyOrder::Before;
        }
        if y < x {
            return KeyOrder::After;
        }
        proof {
            assert(a@.subrange(0, i + 1) =~= a@.subrange(0, i as int).push(x));
            assert(b@.subrange(0, i + 1) =~= b@.subrange(0, i as int).push(y));
        }
        i = i + 1;
    }
    proof {
        assert(a@.skip(i as int).len() == a.len() - i);
        assert(b@.skip(i as int).len() == b.len() - i);
    }
    if i < b.len() {
        KeyOrder::Before
    } else if i < a.len() {
        KeyOrder::After
    } else {
        proof {
            assert(a@ =~= a@.subrange(0, i as int));
            assert(b@ =~= b@.subrange(0, i as int));
        }
        KeyOrder::Same
    }
}

/// The integers of a value that a program holds fit in 64 bits.
pub proof fn lemma_model_in_range(value: BencodeValue)
    ensures
        value@.in_range(),
    decreases value,
{
    match value {
        BencodeValue::Integer(_) => {},
        BencodeValue::ByteString(_) => {},
        BencodeValue::List(items) => {
            let models = value@->List_0;
            assert forall|i: int| 0 <= i < models.len() implies (#[trigger] models[i]).in_range() by {
                lemma_model_in_range(items[i]);
            }
        },
        BencodeValue::Dictionary(entries) => {
            let models = value@->Dictionary_0;
            assert forall|i: int| 0 <= i < models.len() implies (#[trigger] models[i]).1.in_range() by {
                lemma_model_in_range(entries[i].1);
            }
        },
    }
}

impl BencodeValue {
    /// The value under `key`, if this is a dictionary that holds the key.
    pub fn get(&self, key: &str) -> (found: Option<&BencodeValue>)
        ensures
            match self@ {
                Bencode::Dictionary(entries) => match lookup(entries, key@) {
                    Some(model) => found matches Some(value) && value@ == model,
                    None => found is None,
                },
                _ => found is None,
            },
    {
        match self {
            BencodeValue::Dictionary(entries) => {
                let ghost models = entries_view(entries@);
                proof {
                    lemma_view_dictionary(*entries);
                    assert(models.skip(0) =~= models);
                }
                let mut i: usize = 0;
                while i < entries.len()
                    invariant
                        i <= entries.len(),
                        self@ == Bencode::Dictionary(models),
                        models == entries_view(entries@),
                        lookup(models, key@) == lookup(models.skip(i as int), key@),
                    decreases entries.len() - i,
                {
                    proof {
                        let rest = models.skip(i as int);
                        assert(rest[0] == models[i as int]);
                        assert(models[i as int] == (entries@[i as int].0@, entries@[i as int].1@));
                        assert(rest.drop_first() =~= models.skip(i + 1));
                        if key_bytes(models[i as int].0) == key_bytes(key@) {
                            lemma_key_bytes_injective(models[i as int].0, key@);
                        }
                    }
                    match compare_bytes(entries[i].0.as_str().as_bytes(), key.as_bytes()) {
                        KeyOrder::Same => {
                            return Some(&entries[i].1);
                        },
                        _ => {},
                    }
                    i = i + 1;
                }
                None
            },
            _ => None,
        }
    }
}

/// No byte string comes before itself.
pub proof fn lemma_bytes_lt_irreflexive(a: Seq<u8>)
    ensures
        !bytes_lt(a, a),
    decreases a.len(),
{
    if a.len() > 0 {
        lemma_bytes_lt_irreflexive(a.drop_first());
    }
}

/// Of two byte strings exactly one holds: the first comes before the second,
/// they are equal, or the second comes before the first.
pub proof fn lemma_bytes_lt_total(a: Seq<u8>, b: Seq<u8>)
    ensures
        bytes_lt(a, b) || a == b || bytes_lt(b, a),
        !(bytes_lt(a, b) && bytes_lt(b, a)),
        !(bytes_lt(a, b) && a == b),
    decreases a.len(),
{
    lemma_bytes_lt_irreflexive(a);
    if a.len() == 0 || b.len() == 0 {
        if a.len() == 0 && b.len() == 0 {
            assert(a =~= b);
        }
    } else if a[0] == b[0] {
        lemma_bytes_lt_total(a.drop_first(), b.drop_first());
        if a.drop_first() == b.drop_first() {
            assert(a =~= seq![a[0]] + a.drop_first());
            assert(b =~= seq![b[0]] + b.drop_first());
        }
    }
}

/// The byte order is transitive.
pub proof fn lemma_bytes_lt_transitive(a: Seq<u8>, b: Seq<u8>, c: Seq<u8>)
    requires
        bytes_lt(a, b),
        bytes_lt(b, c),
    ensures
        bytes_lt(a, c),
    decreases a.len(),
{
    if a.len() > 0 && a[0] == b[0] && b[0] == c[0] {
        lemma_bytes_lt_transitive(a.drop_first(), b.drop_first(), c.drop_first());
    }
}

/// Keys with the same bytes are the same key.
pub proof fn lemma_key_bytes_injective(a: Seq<char>, b: Seq<char>)
    requires
        key_bytes(a) == key_bytes(b),
    ensures
        a == b,
{
    encode_utf8_decode_utf8(a);
    encode_utf8_decode_utf8(b);
}

/// What `insert_position` finds in a sorted dictionary: every entry before it
/// has a smaller key, and every entry from it on has none that is smaller.
pub proof fn lemma_insert_position(entries: Seq<(Seq<char>, Bencode)>, kb: Seq<u8>)
    requires
        keys_ascending(entries),
    ensures
        0 <= insert_position(entries, kb) <= entries.len(),
        insert_position(entries, kb) == entries.len() <==> (entries.len() == 0 || bytes_lt(
            key_bytes(entries.last().0),
            kb,
        )),
        forall|i: int|
            0 <= i < insert_position(entries, kb) ==> bytes_lt(
                key_bytes((#[trigger] entries[i]).0),
                kb,
            ),
        forall|i: int|
            insert_position(entries, kb) <= i < entries.len() ==> !bytes_lt(
                key_bytes((#[trigger] entries[i]).0),
                kb,
            ),
    decreases entries.len(),
{
    if entries.len() == 0 {
    } else if bytes_lt(key_bytes(entries.last().0), kb) {
        let last = entries.len() - 1;
        assert forall|i: int| 0 <= i < entries.len() implies bytes_lt(
            key_bytes((#[trigger] entries[i]).0),
            kb,
        ) by {
            if i < last {
                assert(bytes_lt(key_bytes(entries[i].0), key_bytes(entries[last].0)));
                lemma_bytes_lt_transitive(key_bytes(entries[i].0), key_bytes(entries[last].0), kb);
            }
        }
    } else {
        let front = entries.drop_last();
        assert forall|i: int, j: int|
            #![trigger front[i], front[j]]
            0 <= i < j < front.len() implies bytes_lt(
            key_bytes(front[i].0),
            key_bytes(front[j].0),
        ) by {
            assert(front[i] == entries[i] && front[j] == entries[j]);
        }
        lemma_insert_position(front, kb);
        assert forall|i: int| 0 <= i < insert_position(entries, kb) implies bytes_lt(
            key_bytes((#[trigger] entries[i]).0),
            kb,
        ) by {
            assert(front[i] == entries[i]);
        }
        assert forall|i: int|
            insert_position(entries, kb) <= i < entries.len() implies !bytes_lt(
            key_bytes((#[trigger] entries[i]).0),
            kb,
        ) by {
            if i < front.len() {
                assert(front[i] == entries[i]);
            }
        }
    }
}

/// Putting a new key into a sorted dictionary leaves it sorted; a key that
/// sorts behind all others goes to the end.
pub proof fn lemma_insert_entry(entries: Seq<(Seq<char>, Bencode)>, key: Seq<char>, value: Bencode)
    requires
        keys_ascending(entries),
        !has_key(entries, key),
    ensures
        keys_ascending(insert_entry(entries, key, value)),
        insert_entry(entries, key, value).len() == entries.len() + 1,
        entries.len() == 0 || bytes_lt(key_bytes(entries.last().0), key_bytes(key))
            ==> insert_entry(entries, key, value) == entries.push((key, value)),
{
    let kb = key_bytes(key);
    let pos = insert_position(entries, kb);
    let out = insert_entry(entries, key, value);
    lemma_insert_position(entries, kb);
    assert forall|i: int, j: int|
        #![trigger out[i], out[j]]
        0 <= i < j < out.len() implies bytes_lt(key_bytes(out[i].0), key_bytes(out[j].0)) by {
        if j < pos {
            assert(out[i] == entries[i] && out[j] == entries[j]);
        } else if j == pos {
            assert(out[i] == entries[i]);
        } else if i == pos {
            assert(out[j] == entries[j - 1]);
            let other = key_bytes(entries[j - 1].0);
            lemma_bytes_lt_total(other, kb);
            if other == kb {
                lemma_key_bytes_injective(entries[j - 1].0, key);
            }
        } else if i < pos {
            assert(out[i] == entries[i] && out[j] == entries[j - 1]);
        } else {
            assert(out[i] == entries[i - 1] && out[j] == entries[j - 1]);
        }
    }
    if entries.len() == 0 || bytes_lt(key_bytes(entries.last().0), kb) {
        assert(out =~= entries.push((key, value)));
    }
}

} // verus!
