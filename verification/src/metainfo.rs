//! Reading a metainfo file: from bencode to the typed metadata.

use crate::bencode::decode::decode_at;
use crate::bencode::grammar::{parse_value, Parsed};
use crate::bencode::value::{items_view, lemma_view_list, lookup, Bencode, BencodeValue};
use crate::error::{DecodeError, Error, Field, FormatError};
use crate::hashes::{split_hashes, Hashes};
use crate::text::string_from_utf8;
use crate::torrent::{
    files_view, path_view, File, FileModel, Info, InfoModel, Keys, KeysModel, Torrent,
    TorrentModel,
};
use vstd::prelude::*;
use vstd::slice::slice_to_vec;
use vstd::utf8::{decode_utf8, encode_utf8_decode_utf8, valid_utf8};

verus! {

/// The text under a key: a byte string that is UTF-8.
pub open spec fn text_of(value: Option<Bencode>, field: Field) -> Result<Seq<char>, FormatError> {
    match value {
        None => Err(FormatError::MissingKey(field)),
        Some(Bencode::ByteString(bytes)) => if valid_utf8(bytes) {
            Ok(decode_utf8(bytes))
        } else {
            Err(FormatError::NotUtf8(field))
        },
        Some(_) => Err(FormatError::WrongType(field)),
    }
}

/// The length under a key: an integer that is not negative and fits this
/// machine's `usize`.
pub open spec fn length_of(value: Option<Bencode>, field: Field) -> Result<nat, FormatError> {
    match value {
        None => Err(FormatError::MissingKey(field)),
        Some(Bencode::Integer(i)) => if 0 <= i <= usize::MAX {
            Ok(i as nat)
        } else {
            Err(FormatError::OutOfRange(field))
        },
        Some(_) => Err(FormatError::WrongType(field)),
    }
}

/// The piece hashes under the key `pieces`: a byte string of a multiple of
/// 20 bytes.
pub open spec fn pieces_of(value: Option<Bencode>) -> Result<Seq<Seq<u8>>, FormatError> {
    match value {
        None => Err(FormatError::MissingKey(Field::Pieces)),
        Some(Bencode::ByteString(bytes)) => if bytes.len() % 20 == 0 {
            Ok(split_hashes(bytes))
        } else {
            Err(FormatError::PiecesLength { len: bytes.len() as usize })
        },
        Some(_) => Err(FormatError::WrongType(Field::Pieces)),
    }
}

/// The first `upto` components of a path, or what is wrong with the first
/// of them that is no text.
pub open spec fn path_of(items: Seq<Bencode>, upto: int) -> Result<Seq<Seq<char>>, FormatError>
    decreases upto,
{
    if upto <= 0 {
        Ok(Seq::empty())
    } else {
        match path_of(items, upto - 1) {
            Err(e) => Err(e),
            Ok(parts) => match text_of(Some(items[upto - 1]), Field::Path) {
                Err(e) => Err(e),
                Ok(part) => Ok(parts.push(part)),
            },
        }
    }
}

/// A file of a multi-file torrent: a dictionary with a `length` and a `path`
/// that is a list of at least one component.
pub open spec fn file_of(value: Bencode) -> Result<FileModel, FormatError> {
    match value {
        Bencode::Dictionary(entries) => match length_of(lookup(entries, "length"@), Field::Length) {
            Err(e) => Err(e),
            Ok(length) => match lookup(entries, "path"@) {
                None => Err(FormatError::MissingKey(Field::Path)),
                Some(Bencode::List(items)) => if items.len() == 0 {
                    Err(FormatError::EmptyPath)
                } else {
                    match path_of(items, items.len() as int) {
                        Err(e) => Err(e),
                        Ok(path) => Ok(FileModel { length, path }),
                    }
                },
                Some(_) => Err(FormatError::WrongType(Field::Path)),
            },
        },
        _ => Err(FormatError::WrongType(Field::Files)),
    }
}

/// The first `upto` files of a list, or what is wrong with the first of them
/// that is none.
pub open spec fn files_of(items: Seq<Bencode>, upto: int) -> Result<Seq<FileModel>, FormatError>
    decreases upto,
{
    if upto <= 0 {
        Ok(Seq::empty())
    } else {
        match files_of(items, upto - 1) {
            Err(e) => Err(e),
            Ok(files) => match file_of(items[upto - 1]) {
                Err(e) => Err(e),
                Ok(file) => Ok(files.push(file)),
            },
        }
    }
}

/// The layout that an info dictionary tells: it holds `length` or `files`,
/// not both and not neither.
pub open spec fn keys_of(entries: Seq<(Seq<char>, Bencode)>) -> Result<KeysModel, FormatError> {
    match (lookup(entries, "length"@), lookup(entries, "files"@)) {
        (Some(_), Some(_)) => Err(FormatError::BothLayouts),
        (None, None) => Err(FormatError::NoLayout),
        (Some(value), None) => match length_of(Some(value), Field::Length) {
            Err(e) => Err(e),
            Ok(length) => Ok(KeysModel::SingleFile { length }),
        },
        (None, Some(Bencode::List(items))) => match files_of(items, items.len() as int) {
            Err(e) => Err(e),
            Ok(files) => Ok(KeysModel::MultiFile { files }),
        },
        (None, Some(_)) => Err(FormatError::WrongType(Field::Files)),
    }
}

/// The info section that a bencode value holds: a dictionary with `name`,
/// `piece length`, `pieces` and a layout. The first of these that is wrong,
/// in this order, is the error. Other keys are ignored.
pub open spec fn info_of(value: Bencode) -> Result<InfoModel, FormatError> {
    match value {
        Bencode::Dictionary(entries) => match text_of(lookup(entries, "name"@), Field::Name) {
            Err(e) => Err(e),
            Ok(name) => match length_of(lookup(entries, "piece length"@), Field::PieceLength) {
                Err(e) => Err(e),
                Ok(piece_length) => match pieces_of(lookup(entries, "pieces"@)) {
                    Err(e) => Err(e),
                    Ok(pieces) => match keys_of(entries) {
                        Err(e) => Err(e),
                        Ok(keys) => Ok(InfoModel { name, piece_length, pieces, keys }),
                    },
                },
            },
        },
        _ => Err(FormatError::WrongType(Field::Info)),
    }
}

/// The metainfo that a bencode value holds: a dictionary with `announce` and
/// `info`. Other keys are ignored.
pub open spec fn torrent_of(value: Bencode) -> Result<TorrentModel, FormatError> {
    match value {
        Bencode::Dictionary(entries) => match text_of(
            lookup(entries, "announce"@),
            Field::Announce,
        ) {
            Err(e) => Err(e),
            Ok(announce) => match lookup(entries, "info"@) {
                None => Err(FormatError::MissingKey(Field::Info)),
                Some(info) => match info_of(info) {
                    Err(e) => Err(e),
                    Ok(info) => Ok(TorrentModel { announce, info }),
                },
            },
        },
        _ => Err(FormatError::NotADictionary),
    }
}

/// The metainfo that a file holds: what the value says that the file starts
/// with. What follows that value is ignored.
pub open spec fn torrent_of_bytes(bytes: Seq<u8>) -> Result<TorrentModel, Error> {
    match parse_value(bytes, 0, false) {
        Parsed::Failed(kind, at) => Err(Error::Decode(DecodeError { kind, offset: at as usize })),
        Parsed::Done(value, _) => match torrent_of(value) {
            Err(e) => Err(Error::Format(e)),
            Ok(torrent) => Ok(torrent),
        },
    }
}

/// The model of a value that may be missing.
pub open spec fn found_view(found: Option<&BencodeValue>) -> Option<Bencode> {
    match found {
        Some(value) => Some(value@),
        None => None,
    }
}

/// Reads the text under a key.
fn read_text(found: Option<&BencodeValue>, field: Field) -> (r: Result<String, FormatError>)
    ensures
        match text_of(found_view(found), field) {
            Ok(text) => r matches Ok(s) && s@ == text,
            Err(e) => r == Err::<String, FormatError>(e),
        },
{
    match found {
        None => Err(FormatError::MissingKey(field)),
        Some(BencodeValue::ByteString(bytes)) => {
            match string_from_utf8(slice_to_vec(bytes.as_slice())) {
                Some(text) => {
                    proof {
                        encode_utf8_decode_utf8(text@);
                    }
                    Ok(text)
                },
                None => Err(FormatError::NotUtf8(field)),
            }
        },
        Some(_) => Err(FormatError::WrongType(field)),
    }
}

/// Reads the length under a key.
fn read_length(found: Option<&BencodeValue>, field: Field) -> (r: Result<usize, FormatError>)
    ensures
        match length_of(found_view(found), field) {
            Ok(length) => r matches Ok(n) && n == length,
            Err(e) => r == Err::<usize, FormatError>(e),
        },
{
    match found {
        None => Err(FormatError::MissingKey(field)),
        Some(BencodeValue::Integer(i)) => {
            if *i < 0 || *i as u64 > usize::MAX as u64 {
                Err(FormatError::OutOfRange(field))
            } else {
                Ok(*i as usize)
            }
        },
        Some(_) => Err(FormatError::WrongType(field)),
    }
}

/// Reads the piece hashes under the key `pieces`.
fn read_pieces(found: Option<&BencodeValue>) -> (r: Result<Hashes, FormatError>)
    ensures
        match pieces_of(found_view(found)) {
            Ok(pieces) => r matches Ok(hashes) && hashes@ == pieces,
            Err(e) => r == Err::<Hashes, FormatError>(e),
        },
{
    match found {
        None => Err(FormatError::MissingKey(Field::Pieces)),
        Some(BencodeValue::ByteString(bytes)) => {
            match Hashes::from_bytes(bytes.as_slice()) {
                Ok(hashes) => Ok(hashes),
                Err(_) => Err(FormatError::PiecesLength { len: bytes.len() }),
            }
        },
        Some(_) => Err(FormatError::WrongType(Field::Pieces)),
    }
}

/// Reads the components of a path.
fn read_path(items: &Vec<BencodeValue>) -> (r: Result<Vec<String>, FormatError>)
    ensures
        match path_of(items_view(items@), items.len() as int) {
            Ok(path) => r matches Ok(parts) && path_view(parts@) == path,
            Err(e) => r == Err::<Vec<String>, FormatError>(e),
        },
{
    let ghost models = items_view(items@);
    let mut parts: Vec<String> = Vec::new();
    let mut i: usize = 0;
    proof {
        assert(path_view(parts@) =~= Seq::<Seq<char>>::empty());
    }
    while i < items.len()
        invariant
            i <= items.len(),
            models == items_view(items@),
            path_of(models, i as int) == Ok::<Seq<Seq<char>>, FormatError>(path_view(parts@)),
        decreases items.len() - i,
    {
        proof {
            assert(models[i as int] == items@[i as int]@);
        }
        match read_text(Some(&items[i]), Field::Path) {
            Err(e) => {
                proof {
                    lemma_path_of_fails(models, i + 1, items.len() as int);
                }
                return Err(e);
            },
            Ok(part) => {
                proof {
                    assert(path_view(parts@.push(part)) =~= path_view(parts@).push(part@));
                }
                parts.push(part);
            },
        }
        i = i + 1;
    }
    Ok(parts)
}

/// Once a component of a path is wrong, the path is: with the same error.
pub proof fn lemma_path_of_fails(items: Seq<Bencode>, i: int, j: int)
    requires
        0 <= i <= j,
        path_of(items, i) is Err,
    ensures
        path_of(items, j) == path_of(items, i),
    decreases j - i,
{
    if i < j {
        lemma_path_of_fails(items, i, j - 1);
    }
}

/// Once a file of a list is wrong, the list is: with the same error.
pub proof fn lemma_files_of_fails(items: Seq<Bencode>, i: int, j: int)
    requires
        0 <= i <= j,
        files_of(items, i) is Err,
    ensures
        files_of(items, j) == files_of(items, i),
    decreases j - i,
{
    if i < j {
        lemma_files_of_fails(items, i, j - 1);
    }
}

impl File {
    /// Reads a file of a multi-file torrent out of its dictionary.
    pub fn from_value(value: &BencodeValue) -> (r: Result<File, FormatError>)
        ensures
            match file_of(value@) {
                Ok(file) => r matches Ok(f) && f@ == file,
                Err(e) => r == Err::<File, FormatError>(e),
            },
    {
        match value {
            BencodeValue::Dictionary(_) => {},
            _ => {
                return Err(FormatError::WrongType(Field::Files));
            },
        }
        let length = match read_length(value.get("length"), Field::Length) {
            Ok(length) => length,
            Err(e) => {
                return Err(e);
            },
        };
        match value.get("path") {
            None => Err(FormatError::MissingKey(Field::Path)),
            Some(BencodeValue::List(items)) => {
                proof {
                    lemma_view_list(*items);
                }
                if items.len() == 0 {
                    return Err(FormatError::EmptyPath);
                }
                match read_path(items) {
                    Ok(path) => Ok(File { length, path }),
                    Err(e) => Err(e),
                }
            },
            Some(_) => Err(FormatError::WrongType(Field::Path)),
        }
    }
}

/// Reads the files of a multi-file torrent.
fn read_files(items: &Vec<BencodeValue>) -> (r: Result<Vec<File>, FormatError>)
    ensures
        match files_of(items_view(items@), items.len() as int) {
            Ok(files) => r matches Ok(fs) && files_view(fs@) == files,
            Err(e) => r == Err::<Vec<File>, FormatError>(e),
        },
{
    let ghost models = items_view(items@);
    let mut files: Vec<File> = Vec::new();
    let mut i: usize = 0;
    proof {
        assert(files_view(files@) =~= Seq::<FileModel>::empty());
    }
    while i < items.len()
        invariant
            i <= items.len(),
            models == items_view(items@),
            files_of(models, i as int) == Ok::<Seq<FileModel>, FormatError>(files_view(files@)),
        decreases items.len() - i,
    {
        proof {
            assert(models[i as int] == items@[i as int]@);
        }
        match File::from_value(&items[i]) {
            Err(e) => {
                proof {
                    lemma_files_of_fails(models, i + 1, items.len() as int);
                }
                return Err(e);
            },
            Ok(file) => {
                proof {
                    assert(files_view(files@.push(file)) =~= files_view(files@).push(file@));
                }
                files.push(file);
            },
        }
        i = i + 1;
    }
    Ok(files)
}

impl Keys {
    /// Reads the layout out of an info dictionary: `length` or `files`, not
    /// both and not neither.
    pub fn from_value(value: &BencodeValue) -> (r: Result<Keys, FormatError>)
        ensures
            match value@ {
                Bencode::Dictionary(entries) => match keys_of(entries) {
                    Ok(keys) => r matches Ok(k) && k@ == keys,
                    Err(e) => r == Err::<Keys, FormatError>(e),
                },
                _ => r == Err::<Keys, FormatError>(FormatError::WrongType(Field::Info)),
            },
    {
        match value {
            BencodeValue::Dictionary(_) => {},
            _ => {
                return Err(FormatError::WrongType(Field::Info));
            },
        }
        match (value.get("length"), value.get("files")) {
            (Some(_), Some(_)) => Err(FormatError::BothLayouts),
            (None, None) => Err(FormatError::NoLayout),
            (Some(length), None) => {
                match read_length(Some(length), Field::Length) {
                    Ok(length) => Ok(Keys::SingleFile { length }),
                    Err(e) => Err(e),
                }
            },
            (None, Some(BencodeValue::List(items))) => {
                proof {
                    lemma_view_list(*items);
                }
                match read_files(items) {
                    Ok(files) => Ok(Keys::MultiFile { files }),
                    Err(e) => Err(e),
                }
            },
            (None, Some(_)) => Err(FormatError::WrongType(Field::Files)),
        }
    }
}

impl Info {
    /// Reads the info section out of its dictionary.
    pub fn from_value(value: &BencodeValue) -> (r: Result<Info, FormatError>)
        ensures
            match info_of(value@) {
                Ok(info) => r matches Ok(i) && i@ == info,
                Err(e) => r == Err::<Info, FormatError>(e),
            },
    {
        match value {
            BencodeValue::Dictionary(_) => {},
            _ => {
                return Err(FormatError::WrongType(Field::Info));
            },
        }
        let name = match read_text(value.get("name"), Field::Name) {
            Ok(name) => name,
            Err(e) => {
                return Err(e);
            },
        };
        let piece_length = match read_length(value.get("piece length"), Field::PieceLength) {
            Ok(piece_length) => piece_length,
            Err(e) => {
                return Err(e);
            },
        };
        let pieces = match read_pieces(value.get("pieces")) {
            Ok(pieces) => pieces,
            Err(e) => {
                return Err(e);
            },
        };
        match Keys::from_value(value) {
            Ok(keys) => Ok(Info { name, piece_length, pieces, keys }),
            Err(e) => Err(e),
        }
    }
}

impl Torrent {
    /// Reads the metainfo out of its dictionary.
    pub fn from_value(value: &BencodeValue) -> (r: Result<Torrent, FormatError>)
        ensures
            match torrent_of(value@) {
                Ok(torrent) => r matches Ok(t) && t@ == torrent,
                Err(e) => r == Err::<Torrent, FormatError>(e),
            },
    {
        match value {
            BencodeValue::Dictionary(_) => {},
            _ => {
                return Err(FormatError::NotADictionary);
            },
        }
        let announce = match read_text(value.get("announce"), Field::Announce) {
            Ok(announce) => announce,
            Err(e) => {
                return Err(e);
            },
        };
        match value.get("info") {
            None => Err(FormatError::MissingKey(Field::Info)),
            Some(info) => {
                match Info::from_value(info) {
                    Ok(info) => Ok(Torrent { announce, info }),
                    Err(e) => Err(e),
                }
            },
        }
    }
}

/// Reads a metainfo file: a bencoded dictionary with the keys `announce` and
/// `info`. Keys that this library does not know are ignored, and so is what
/// follows the dictionary.
pub fn parse_torrent(bytes: &[u8]) -> (r: Result<Torrent, Error>)
    ensures
        match torrent_of_bytes(bytes@) {
            Ok(torrent) => r matches Ok(t) && t@ == torrent,
            Err(e) => r == Err::<Torrent, Error>(e),
        },
{
    let value = match decode_at(bytes, 0, false) {
        Ok((value, _)) => value,
        Err(e) => {
            return Err(Error::Decode(e));
        },
    };
    match Torrent::from_value(&value) {
        Ok(torrent) => Ok(torrent),
        Err(e) => Err(Error::Format(e)),
    }
}

} // verus!
