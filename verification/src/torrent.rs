//! Torrent metadata: what a metainfo file says, how its info section is
//! written in canonical bencode, and the info-hash that follows from that.

use crate::bencode::encode::{write_string, write_unsigned};
use crate::bencode::grammar::{
    encode_entries, encode_items, encode_string, encode_value, DICTIONARY_START, END, LIST_START,
};
use crate::bencode::value::{key_bytes, Bencode};
use crate::digest::{sha1, sha1_digest};
use crate::error::Error;
use crate::hashes::{join_hashes, Hashes};
use vstd::prelude::*;
use vstd::utf8::encode_utf8;

verus! {

/// Metainfo files (also known as .torrent files)
#[derive(Debug, Clone, PartialEq, Eq)]
pub struct Torrent {
    /// The URL of the tracker.
    pub announce: String,
    pub info: Info,
}

/// What a torrent holds and how it is cut into pieces.
#[derive(Debug, Clone, PartialEq, Eq)]
pub struct Info {
    /// The suggested name to save the file (or directory) as.
    pub name: String,
    /// The number of bytes in each piece. All pieces have this length but
    /// possibly the last one, which may be shorter.
    pub piece_length: usize,
    /// Each entry of `pieces` is the SHA-1 hash of the piece at the
    /// corresponding index.
    pub pieces: Hashes,
    pub keys: Keys,
}

/// There is a key `length` or a key `files`, but not both or neither.
#[derive(Debug, Clone, PartialEq, Eq)]
pub enum Keys {
    /// If `length` is present then the download represents a single file.
    SingleFile {
        /// The length of the file in bytes.
        length: usize,
    },
    /// Otherwise it represents a set of files which go in a directory
    /// structure. For the purposes of the other keys, the files count as one
    /// file: all of them, one after the other, in the order of this list.
    MultiFile { files: Vec<File> },
}

/// One file of a multi-file torrent.
#[derive(Debug, Clone, PartialEq, Eq)]
pub struct File {
    /// The length of the file, in bytes.
    pub length: usize,
    /// Subdirectory names, the last of which is the actual file name. An
    /// empty path is not valid.
    pub path: Vec<String>,
}

/// The model of a [`File`].
pub struct FileModel {
    pub length: nat,
    pub path: Seq<Seq<char>>,
}

/// The model of [`Keys`].
pub enum KeysModel {
    SingleFile { length: nat },
    MultiFile { files: Seq<FileModel> },
}

/// The model of an [`Info`].
pub struct InfoModel {
    pub name: Seq<char>,
    pub piece_length: nat,
    pub pieces: Seq<Seq<u8>>,
    pub keys: KeysModel,
}

/// The model of a [`Torrent`].
pub struct TorrentModel {
    pub announce: Seq<char>,
    pub info: InfoModel,
}

/// The models of the components of a path.
pub open spec fn path_view(path: Seq<String>) -> Seq<Seq<char>> {
    Seq::new(path.len(), |i: int| path[i]@)
}

/// The models of a vector of files.
pub open spec fn files_view(files: Seq<File>) -> Seq<FileModel> {
    Seq::new(files.len(), |i: int| files[i]@)
}

impl View for File {
    type V = FileModel;

    open spec fn view(&self) -> FileModel {
        FileModel { length: self.length as nat, path: path_view(self.path@) }
    }
}

impl View for Keys {
    type V = KeysModel;

    open spec fn view(&self) -> KeysModel {
        match self {
            Keys::SingleFile { length } => KeysModel::SingleFile { length: *length as nat },
            Keys::MultiFile { files } => KeysModel::MultiFile { files: files_view(files@) },
        }
    }
}

impl View for Info {
    type V = InfoModel;

    open spec fn view(&self) -> InfoModel {
        InfoModel {
            name: self.name@,
            piece_length: self.piece_length as nat,
            pieces: self.pieces@,
            keys: self.keys@,
        }
    }
}

impl View for Torrent {
    type V = TorrentModel;

    open spec fn view(&self) -> TorrentModel {
        TorrentModel { announce: self.announce@, info: self.info@ }
    }
}

/// Text as bencode holds it: the byte string of its UTF-8 encoding.
pub open spec fn text_value(text: Seq<char>) -> Bencode {
    Bencode::ByteString(encode_utf8(text))
}

/// The components of a path, each as bencode holds it.
pub open spec fn path_values(path: Seq<Seq<char>>) -> Seq<Bencode> {
    Seq::new(path.len(), |i: int| text_value(path[i]))
}

/// A file of a multi-file torrent as a bencode value.
pub open spec fn file_value(file: FileModel) -> Bencode {
    Bencode::Dictionary(
        seq![
            ("length"@, Bencode::Integer(file.length as int)),
            ("path"@, Bencode::List(path_values(file.path))),
        ],
    )
}

/// The files of a multi-file torrent, each as a bencode value.
pub open spec fn file_values(files: Seq<FileModel>) -> Seq<Bencode> {
    Seq::new(files.len(), |i: int| file_value(files[i]))
}

/// The one entry of an info dictionary that tells the layout: `length` for a
/// single file, `files` for several.
pub open spec fn layout_entry(keys: KeysModel) -> (Seq<char>, Bencode) {
    match keys {
        KeysModel::SingleFile { length } => ("length"@, Bencode::Integer(length as int)),
        KeysModel::MultiFile { files } => ("files"@, Bencode::List(file_values(files))),
    }
}

/// The info section as a bencode value, its keys in ascending order.
pub open spec fn info_value(info: InfoModel) -> Bencode {
    Bencode::Dictionary(
        seq![
            layout_entry(info.keys),
            ("name"@, text_value(info.name)),
            ("piece length"@, Bencode::Integer(info.piece_length as int)),
            ("pieces"@, Bencode::ByteString(join_hashes(info.pieces))),
        ],
    )
}

/// A metainfo file as a bencode value.
pub open spec fn torrent_value(torrent: TorrentModel) -> Bencode {
    Bencode::Dictionary(
        seq![("announce"@, text_value(torrent.announce)), ("info"@, info_value(torrent.info))],
    )
}

/// The info-hash: the SHA-1 digest of the info section in canonical bencode.
pub open spec fn info_hash(info: InfoModel) -> Seq<u8> {
    sha1_digest(encode_value(info_value(info)))
}

/// The lengths of the first `upto` files, added up.
pub open spec fn files_length(files: Seq<FileModel>, upto: int) -> nat
    decreases upto,
{
    if upto <= 0 {
        0
    } else {
        files_length(files, upto - 1) + files[upto - 1].length
    }
}

/// The number of bytes that a torrent holds: the length of its single file,
/// or the lengths of all its files together.
pub open spec fn total_length(keys: KeysModel) -> nat {
    match keys {
        KeysModel::SingleFile { length } => length,
        KeysModel::MultiFile { files } => files_length(files, files.len() as int),
    }
}

/// Adding up more files never gives less.
pub proof fn lemma_files_length_grows(files: Seq<FileModel>, i: int, j: int)
    requires
        0 <= i <= j,
    ensures
        files_length(files, i) <= files_length(files, j),
    decreases j - i,
{
    if i < j {
        lemma_files_length_grows(files, i, j - 1);
    }
}

/// An entry of a dictionary is written as its key, its value, and the
/// entries behind it.
pub proof fn lemma_encode_entries_step(entries: Seq<(Seq<char>, Bencode)>, k: int)
    requires
        0 <= k < entries.len(),
    ensures
        encode_entries(entries, k) == encode_string(key_bytes(entries[k].0)) + encode_value(
            entries[k].1,
        ) + encode_entries(entries, k + 1),
        encode_entries(entries, entries.len() as int) == Seq::<u8>::empty(),
{
}

/// Appends a file of a multi-file torrent, as a dictionary.
fn write_file(out: &mut Vec<u8>, file: &File)
    ensures
        final(out)@ == old(out)@ + encode_value(file_value(file@)),
{
    let ghost start = out@;
    let ghost parts = path_values(file@.path);
    out.push(DICTIONARY_START);
    write_string(out, "length".as_bytes());
    write_unsigned(out, file.length as u64);
    write_string(out, "path".as_bytes());
    out.push(LIST_START);
    let ghost at_items = out@;
    let mut i: usize = 0;
    while i < file.path.len()
        invariant
            i <= file.path.len(),
            parts == path_values(file@.path),
            out@ + encode_items(parts, i as int) == at_items + encode_items(parts, 0),
        decreases file.path.len() - i,
    {
        let ghost before = out@;
        write_string(out, file.path[i].as_str().as_bytes());
        proof {
            let text = file.path@[i as int]@;
            assert(file@.path[i as int] == text);
            assert(parts[i as int] == text_value(text));
            assert(encode_value(parts[i as int]) == encode_string(encode_utf8(text)));
            assert(out@ == before + encode_value(parts[i as int]));
            assert(encode_items(parts, i as int) == encode_value(parts[i as int]) + encode_items(
                parts,
                i + 1,
            ));
            assert(out@ + encode_items(parts, i + 1) =~= before + encode_items(parts, i as int));
        }
        i = i + 1;
    }
    out.push(END);
    out.push(END);
    proof {
        let entries = file_value(file@)->Dictionary_0;
        lemma_encode_entries_step(entries, 0);
        lemma_encode_entries_step(entries, 1);
        assert(encode_items(parts, i as int) =~= Seq::<u8>::empty());
        assert(encode_value(entries[1].1) =~= seq![LIST_START] + encode_items(parts, 0)
            + seq![END]);
        assert(out@ =~= start + encode_value(file_value(file@)));
    }
}

/// Appends the files of a multi-file torrent, as a list.
fn write_files(out: &mut Vec<u8>, files: &Vec<File>)
    ensures
        final(out)@ == old(out)@ + encode_value(Bencode::List(file_values(files_view(files@)))),
{
    let ghost start = out@;
    let ghost models = file_values(files_view(files@));
    out.push(LIST_START);
    let ghost at_items = out@;
    let mut i: usize = 0;
    while i < files.len()
        invariant
            i <= files.len(),
            models == file_values(files_view(files@)),
            out@ + encode_items(models, i as int) == at_items + encode_items(models, 0),
        decreases files.len() - i,
    {
        let ghost before = out@;
        write_file(out, &files[i]);
        proof {
            assert(models[i as int] == file_value(files@[i as int]@));
            assert(encode_items(models, i as int) == encode_value(models[i as int])
                + encode_items(models, i + 1));
            assert(out@ + encode_items(models, i + 1) =~= before + encode_items(models, i as int));
        }
        i = i + 1;
    }
    out.push(END);
    proof {
        assert(encode_items(models, i as int) =~= Seq::<u8>::empty());
        assert(out@ =~= start + encode_value(Bencode::List(models)));
    }
}

/// Appends the entry that tells the layout: its key and its value.
fn write_layout(out: &mut Vec<u8>, keys: &Keys)
    ensures
        final(out)@ == old(out)@ + encode_string(key_bytes(layout_entry(keys@).0)) + encode_value(
            layout_entry(keys@).1,
        ),
{
    match keys {
        Keys::SingleFile { length } => {
            write_string(out, "length".as_bytes());
            write_unsigned(out, *length as u64);
        },
        Keys::MultiFile { files } => {
            write_string(out, "files".as_bytes());
            write_files(out, files);
        },
    }
}

impl Info {
    /// Writes the info section in canonical bencode: a dictionary with the
    /// keys `files` or `length`, `name`, `piece length` and `pieces`, in
    /// this order, which is their order by bytes.
    pub fn to_bencode(&self) -> (bytes: Vec<u8>)
        ensures
            bytes@ == encode_value(info_value(self@)),
    {
        let mut out: Vec<u8> = Vec::new();
        let ghost entries = info_value(self@)->Dictionary_0;
        out.push(DICTIONARY_START);
        write_layout(&mut out, &self.keys);
        let ghost after_layout = out@;
        write_string(&mut out, "name".as_bytes());
        write_string(&mut out, self.name.as_str().as_bytes());
        let ghost after_name = out@;
        write_string(&mut out, "piece length".as_bytes());
        write_unsigned(&mut out, self.piece_length as u64);
        let ghost after_piece_length = out@;
        write_string(&mut out, "pieces".as_bytes());
        let joined = self.pieces.to_bytes();
        write_string(&mut out, joined.as_slice());
        let ghost after_pieces = out@;
        out.push(END);
        proof {
            lemma_encode_entries_step(entries, 0);
            lemma_encode_entries_step(entries, 1);
            lemma_encode_entries_step(entries, 2);
            lemma_encode_entries_step(entries, 3);
            assert(after_pieces =~= after_piece_length + encode_entries(entries, 3));
            assert(after_pieces =~= after_name + encode_entries(entries, 2));
            assert(after_pieces =~= after_layout + encode_entries(entries, 1));
            assert(after_pieces =~= seq![DICTIONARY_START] + encode_entries(entries, 0));
            assert(out@ =~= encode_value(info_value(self@)));
        }
        out
    }

    /// The info-hash of the torrent: the SHA-1 digest of the info section in
    /// canonical bencode. Equal metadata has equal info-hashes.
    pub fn hash(&self) -> (digest: [u8; 20])
        ensures
            digest@ == info_hash(self@),
    {
        let encoded = self.to_bencode();
        sha1(encoded.as_slice())
    }

    /// The number of bytes that the torrent holds: the length of its single
    /// file, or the lengths of all its files together.
    ///
    /// Fails as unsupported exactly when that number does not fit this
    /// machine's `usize`.
    pub fn total_length(&self) -> (r: Result<usize, Error>)
        ensures
            match r {
                Ok(n) => n == total_length(self@.keys),
                Err(e) => e == Error::Unsupported && total_length(self@.keys) > usize::MAX,
            },
    {
        match &self.keys {
            Keys::SingleFile { length } => Ok(*length),
            Keys::MultiFile { files } => {
                let ghost models = self@.keys->files;
                let mut total: usize = 0;
                let mut i: usize = 0;
                while i < files.len()
                    invariant
                        i <= files.len(),
                        self@.keys == (KeysModel::MultiFile { files: models }),
                        models.len() == files.len(),
                        forall|k: int|
                            0 <= k < files.len() ==> (#[trigger] models[k]).length
                                == files@[k].length,
                        total == files_length(models, i as int),
                    decreases files.len() - i,
                {
                    match total.checked_add(files[i].length) {
                        Some(sum) => {
                            total = sum;
                        },
                        None => {
                            proof {
                                assert(files_length(models, i + 1) == files_length(
                                    models,
                                    i as int,
                                ) + models[i as int].length);
                                lemma_files_length_grows(models, i + 1, models.len() as int);
                            }
                            return Err(Error::Unsupported);
                        },
                    }
                    i = i + 1;
                }
                Ok(total)
            },
        }
    }
}

} // verus!
