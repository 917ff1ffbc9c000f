//! What holds of metadata in canonical bencode: it is well formed, reading
//! it gives the metadata back, and different metadata is written
//! differently.

use crate::bencode::grammar::{encode_value, is_canonical, parse_value, Parsed};
use crate::bencode::laws::{lemma_decode_encode, lemma_encode_injective};
use crate::bencode::value::{bytes_lt, key_bytes, keys_ascending, lookup, Bencode};
use crate::error::FormatError;
use crate::hashes::{all_hash_sized, join_hashes, lemma_split_join};
use crate::metainfo::{file_of, files_of, info_of, path_of, torrent_of};
use crate::torrent::{
    file_value, file_values, info_hash, info_value, path_values, text_value, torrent_value,
    FileModel, Info, InfoModel, KeysModel, TorrentModel,
};
use vstd::prelude::*;
use vstd::utf8::{encode_utf8_decode_utf8, encode_utf8_valid_utf8, is_ascii_chars_encode_utf8};

verus! {

impl FileModel {
    /// The length fits this machine's `usize` and the path is not empty.
    pub open spec fn well_formed(self) -> bool {
        self.length <= usize::MAX && self.path.len() > 0
    }
}

impl InfoModel {
    /// Metadata as a program can hold it and a file can tell it: every hash
    /// is 20 bytes long, every length fits this machine's `usize`, and no
    /// file has an empty path.
    pub open spec fn well_formed(self) -> bool {
        &&& all_hash_sized(self.pieces)
        &&& self.piece_length <= usize::MAX
        &&& match self.keys {
            KeysModel::SingleFile { length } => length <= usize::MAX,
            KeysModel::MultiFile { files } => forall|i: int|
                0 <= i < files.len() ==> (#[trigger] files[i]).well_formed(),
        }
    }

    /// Every length fits in 64 bits with a sign, as a decoder wants it.
    pub open spec fn portable(self) -> bool {
        &&& self.piece_length <= i64::MAX
        &&& match self.keys {
            KeysModel::SingleFile { length } => length <= i64::MAX,
            KeysModel::MultiFile { files } => forall|i: int|
                0 <= i < files.len() ==> (#[trigger] files[i]).length <= i64::MAX,
        }
    }
}

/// The keys of the metadata by their bytes: `announce` before `info`;
/// `files` and `length` before `name`, that before `piece length`, that
/// before `pieces`; `length` before `path`.
pub proof fn lemma_key_order()
    ensures
        bytes_lt(key_bytes("announce"@), key_bytes("info"@)),
        bytes_lt(key_bytes("files"@), key_bytes("name"@)),
        bytes_lt(key_bytes("files"@), key_bytes("piece length"@)),
        bytes_lt(key_bytes("files"@), key_bytes("pieces"@)),
        bytes_lt(key_bytes("length"@), key_bytes("name"@)),
        bytes_lt(key_bytes("length"@), key_bytes("piece length"@)),
        bytes_lt(key_bytes("length"@), key_bytes("pieces"@)),
        bytes_lt(key_bytes("length"@), key_bytes("path"@)),
        bytes_lt(key_bytes("name"@), key_bytes("piece length"@)),
        bytes_lt(key_bytes("name"@), key_bytes("pieces"@)),
        bytes_lt(key_bytes("piece length"@), key_bytes("pieces"@)),
{
    reveal_strlit("announce");
    reveal_strlit("info");
    reveal_strlit("files");
    reveal_strlit("length");
    reveal_strlit("name");
    reveal_strlit("path");
    reveal_strlit("piece length");
    reveal_strlit("pieces");
    is_ascii_chars_encode_utf8("announce"@);
    is_ascii_chars_encode_utf8("info"@);
    is_ascii_chars_encode_utf8("files"@);
    is_ascii_chars_encode_utf8("length"@);
    is_ascii_chars_encode_utf8("name"@);
    is_ascii_chars_encode_utf8("path"@);
    is_ascii_chars_encode_utf8("piece length"@);
    is_ascii_chars_encode_utf8("pieces"@);
    assert(bytes_lt(key_bytes("piece length"@), key_bytes("pieces"@))) by {
        let a = key_bytes("piece length"@);
        let b = key_bytes("pieces"@);
        assert(a.len() == 12 && b.len() == 6);
        assert(a[0] == b[0] && a[1] == b[1] && a[2] == b[2] && a[3] == b[3] && a[4] == b[4]);
        assert(a[5] < b[5]);
        let a1 = a.drop_first();
        let b1 = b.drop_first();
        let a2 = a1.drop_first();
        let b2 = b1.drop_first();
        let a3 = a2.drop_first();
        let b3 = b2.drop_first();
        let a4 = a3.drop_first();
        let b4 = b3.drop_first();
        let a5 = a4.drop_first();
        let b5 = b4.drop_first();
        assert(a5[0] == a[5] && b5[0] == b[5]);
        assert(bytes_lt(a5, b5));
        assert(a4[0] == a[4] && b4[0] == b[4]);
        assert(bytes_lt(a4, b4));
        assert(a3[0] == a[3] && b3[0] == b[3]);
        assert(bytes_lt(a3, b3));
        assert(a2[0] == a[2] && b2[0] == b[2]);
        assert(bytes_lt(a2, b2));
        assert(a1[0] == a[1] && b1[0] == b[1]);
        assert(bytes_lt(a1, b1));
    }
}

/// The keys of the metadata are eight different texts.
pub proof fn lemma_keys_differ()
    ensures
        "announce"@ != "info"@,
        "files"@ != "length"@,
        "files"@ != "name"@,
        "files"@ != "piece length"@,
        "files"@ != "pieces"@,
        "length"@ != "name"@,
        "length"@ != "piece length"@,
        "length"@ != "pieces"@,
        "length"@ != "path"@,
        "name"@ != "piece length"@,
        "name"@ != "pieces"@,
        "piece length"@ != "pieces"@,
{
    reveal_strlit("announce");
    reveal_strlit("info");
    reveal_strlit("files");
    reveal_strlit("length");
    reveal_strlit("name");
    reveal_strlit("path");
    reveal_strlit("piece length");
    reveal_strlit("pieces");
    assert("announce"@.len() == 8);
    assert("info"@.len() == 4);
    assert("files"@.len() == 5);
    assert("length"@.len() == 6);
    assert("name"@.len() == 4);
    assert("path"@.len() == 4);
    assert("piece length"@.len() == 12);
    assert("pieces"@.len() == 6);
    assert("length"@[0] != "pieces"@[0]);
}

/// A file as a bencode value is well formed, and reading it gives the file
/// back.
pub proof fn lemma_file_round_trip(file: FileModel)
    requires
        file.well_formed(),
    ensures
        file_value(file).well_formed(),
        file_of(file_value(file)) == Ok::<FileModel, FormatError>(file),
{
    lemma_key_order();
    lemma_keys_differ();
    let entries = file_value(file)->Dictionary_0;
    let parts = path_values(file.path);
    assert forall|i: int| 0 <= i < parts.len() implies (#[trigger] parts[i]).well_formed() by {
        assert(parts[i] == text_value(file.path[i]));
    }
    assert(entries[0].1.well_formed());
    assert(entries[1].1.well_formed());
    assert(file_value(file).well_formed());
    reveal_with_fuel(lookup, 3);
    assert(entries.drop_first()[0] == entries[1]);
    assert(lookup(entries, "length"@) == Some(Bencode::Integer(file.length as int)));
    assert(lookup(entries, "path"@) == Some(Bencode::List(parts)));
    lemma_path_round_trip(file.path, file.path.len() as int);
    assert(file.path.take(file.path.len() as int) =~= file.path);
}

/// Reading the first `upto` components of a path as bencode holds it gives
/// them back.
pub proof fn lemma_path_round_trip(path: Seq<Seq<char>>, upto: int)
    requires
        0 <= upto <= path.len(),
    ensures
        path_of(path_values(path), upto) == Ok::<Seq<Seq<char>>, FormatError>(path.take(upto)),
    decreases upto,
{
    if upto > 0 {
        lemma_path_round_trip(path, upto - 1);
        let part = path[upto - 1];
        encode_utf8_valid_utf8(part);
        encode_utf8_decode_utf8(part);
        assert(path_values(path)[upto - 1] == text_value(part));
        assert(path.take(upto - 1).push(part) =~= path.take(upto));
    } else {
        assert(path.take(upto) =~= Seq::<Seq<char>>::empty());
    }
}

/// Reading the first `upto` files of a list as bencode holds it gives them
/// back.
pub proof fn lemma_files_round_trip(files: Seq<FileModel>, upto: int)
    requires
        0 <= upto <= files.len(),
        forall|i: int| 0 <= i < files.len() ==> (#[trigger] files[i]).well_formed(),
    ensures
        files_of(file_values(files), upto) == Ok::<Seq<FileModel>, FormatError>(files.take(upto)),
    decreases upto,
{
    if upto > 0 {
        lemma_files_round_trip(files, upto - 1);
        lemma_file_round_trip(files[upto - 1]);
        assert(file_values(files)[upto - 1] == file_value(files[upto - 1]));
        assert(files.take(upto - 1).push(files[upto - 1]) =~= files.take(upto));
    } else {
        assert(files.take(upto) =~= Seq::<FileModel>::empty());
    }
}

/// The info section as a bencode value is well formed: its keys ascend.
pub proof fn lemma_info_value_well_formed(info: InfoModel)
    requires
        info.well_formed(),
    ensures
        info_value(info).well_formed(),
{
    lemma_key_order();
    let entries = info_value(info)->Dictionary_0;
    match info.keys {
        KeysModel::SingleFile { length } => {},
        KeysModel::MultiFile { files } => {
            let values = file_values(files);
            assert forall|i: int| 0 <= i < values.len() implies (#[trigger] values[i]).well_formed() by {
                lemma_file_round_trip(files[i]);
            }
            assert(entries[0].1.well_formed());
        },
    }
    assert(entries[0].1.well_formed());
    assert(entries[1].1.well_formed());
    assert(entries[2].1.well_formed());
    assert(entries[3].1.well_formed());
    assert(keys_ascending(entries));
}

/// Reading the info section as a bencode value gives the metadata back.
pub proof fn lemma_info_round_trip(info: InfoModel)
    requires
        info.well_formed(),
    ensures
        info_of(info_value(info)) == Ok::<InfoModel, FormatError>(info),
{
    lemma_keys_differ();
    let entries = info_value(info)->Dictionary_0;
    let rest1 = entries.drop_first();
    let rest2 = rest1.drop_first();
    let rest3 = rest2.drop_first();
    let rest4 = rest3.drop_first();
    assert(rest1[0] == entries[1] && rest2[0] == entries[2] && rest3[0] == entries[3]);
    assert(rest4.len() == 0);
    reveal_with_fuel(lookup, 5);
    assert(lookup(entries, "name"@) == Some(text_value(info.name)));
    assert(lookup(entries, "piece length"@) == Some(Bencode::Integer(info.piece_length as int)));
    assert(lookup(entries, "pieces"@) == Some(Bencode::ByteString(join_hashes(info.pieces))));
    encode_utf8_valid_utf8(info.name);
    encode_utf8_decode_utf8(info.name);
    lemma_split_join(info.pieces);
    match info.keys {
        KeysModel::SingleFile { length } => {
            assert(lookup(entries, "length"@) == Some(Bencode::Integer(length as int)));
            assert(lookup(entries, "files"@) is None);
        },
        KeysModel::MultiFile { files } => {
            assert(lookup(entries, "length"@) is None);
            assert(lookup(entries, "files"@) == Some(Bencode::List(file_values(files))));
            lemma_files_round_trip(files, files.len() as int);
            assert(files.take(files.len() as int) =~= files);
        },
    }
}

/// Writing metadata and reading the bytes gives the metadata back, and the
/// bytes are canonical: writing what was read gives the same bytes again.
pub proof fn lemma_read_written_info(info: InfoModel)
    requires
        info.well_formed(),
        info.portable(),
    ensures
        is_canonical(encode_value(info_value(info))),
        parse_value(encode_value(info_value(info)), 0, false) matches Parsed::Done(value, _)
            && info_of(value) == Ok::<InfoModel, FormatError>(info) && encode_value(value)
            == encode_value(info_value(info)),
{
    lemma_info_value_well_formed(info);
    lemma_info_round_trip(info);
    lemma_info_value_in_range(info);
    lemma_decode_encode(info_value(info), false);
}

/// Reading a metainfo file as a bencode value gives the metainfo back.
pub proof fn lemma_torrent_round_trip(torrent: TorrentModel)
    requires
        torrent.info.well_formed(),
    ensures
        torrent_value(torrent).well_formed(),
        torrent_of(torrent_value(torrent)) == Ok::<TorrentModel, FormatError>(torrent),
{
    lemma_key_order();
    lemma_keys_differ();
    lemma_info_value_well_formed(torrent.info);
    lemma_info_round_trip(torrent.info);
    let entries = torrent_value(torrent)->Dictionary_0;
    assert(entries[0].1.well_formed());
    assert(entries[1].1.well_formed());
    reveal_with_fuel(lookup, 3);
    assert(entries.drop_first()[0] == entries[1]);
    assert(lookup(entries, "announce"@) == Some(text_value(torrent.announce)));
    assert(lookup(entries, "info"@) == Some(info_value(torrent.info)));
    encode_utf8_valid_utf8(torrent.announce);
    encode_utf8_decode_utf8(torrent.announce);
}

/// The integers of portable metadata fit in 64 bits.
pub proof fn lemma_info_value_in_range(info: InfoModel)
    requires
        info.portable(),
    ensures
        info_value(info).in_range(),
{
    let entries = info_value(info)->Dictionary_0;
    match info.keys {
        KeysModel::SingleFile { length } => {},
        KeysModel::MultiFile { files } => {
            let values = file_values(files);
            assert forall|i: int| 0 <= i < values.len() implies (#[trigger] values[i]).in_range() by {
                let inner = file_value(files[i])->Dictionary_0;
                let parts = path_values(files[i].path);
                assert forall|k: int| 0 <= k < parts.len() implies (#[trigger] parts[k]).in_range() by {
                    assert(parts[k] == text_value(files[i].path[k]));
                }
                assert(inner[0].1.in_range());
                assert(inner[1].1.in_range());
            }
        },
    }
    assert(entries[0].1.in_range());
    assert(entries[1].1.in_range());
    assert(entries[2].1.in_range());
    assert(entries[3].1.in_range());
}

/// The info-hash depends on what the metadata says and on nothing else:
/// equal metadata has the same info-hash, whenever and wherever it is taken.
pub proof fn lemma_info_hash_deterministic(a: Info, b: Info)
    requires
        a@ == b@,
    ensures
        info_hash(a@) == info_hash(b@),
        encode_value(info_value(a@)) == encode_value(info_value(b@)),
{
}

/// Different metadata is written as different bytes: what the info-hash is
/// taken of tells the metadata apart.
pub proof fn lemma_info_encoding_injective(a: InfoModel, b: InfoModel)
    requires
        a.well_formed(),
        a.portable(),
        b.well_formed(),
        b.portable(),
        encode_value(info_value(a)) == encode_value(info_value(b)),
    ensures
        a == b,
{
    lemma_info_value_well_formed(a);
    lemma_info_value_well_formed(b);
    lemma_info_value_in_range(a);
    lemma_info_value_in_range(b);
    lemma_encode_injective(info_value(a), info_value(b));
    lemma_info_round_trip(a);
    lemma_info_round_trip(b);
}

} // verus!
