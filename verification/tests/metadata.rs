use torrent_wire::{
    parse_torrent, DecodeError, DecodeErrorKind, Error, Field, File, FormatError, Hashes, Info,
    Keys, Torrent,
};

fn sample_pieces() -> Vec<u8> {
    (1u8..=20).collect()
}

fn sample_info_bytes() -> Vec<u8> {
    let mut bytes =
        b"d6:lengthi20000e4:name10:sample.txt12:piece lengthi32768e6:pieces20:".to_vec();
    bytes.extend_from_slice(&sample_pieces());
    bytes.push(b'e');
    bytes
}

fn sample_torrent_bytes() -> Vec<u8> {
    let mut bytes = b"d8:announce35:http://tracker.example.com/announce4:info".to_vec();
    bytes.extend_from_slice(&sample_info_bytes());
    bytes.push(b'e');
    bytes
}

fn sample_info() -> Info {
    let mut hash = [0u8; 20];
    hash.copy_from_slice(&sample_pieces());
    Info {
        name: "sample.txt".to_string(),
        piece_length: 32768,
        pieces: Hashes(vec![hash]),
        keys: Keys::SingleFile { length: 20000 },
    }
}

fn multi_file_info() -> Info {
    let mut first = [0u8; 20];
    let mut second = [0u8; 20];
    for i in 0..20 {
        first[i] = i as u8;
        second[i] = 20 + i as u8;
    }
    Info {
        name: "dir".to_string(),
        piece_length: 16,
        pieces: Hashes(vec![first, second]),
        keys: Keys::MultiFile {
            files: vec![
                File { length: 10, path: vec!["a".to_string(), "b.txt".to_string()] },
                File { length: 22, path: vec!["c.bin".to_string()] },
            ],
        },
    }
}

fn multi_file_info_bytes() -> Vec<u8> {
    let mut bytes = b"d5:filesld6:lengthi10e4:pathl1:a5:b.txteed6:lengthi22e4:pathl5:c.bineee4:name3:dir12:piece lengthi16e6:pieces40:".to_vec();
    bytes.extend((0u8..40).collect::<Vec<u8>>());
    bytes.push(b'e');
    bytes
}

fn torrent_with_info(info: &[u8]) -> Vec<u8> {
    let mut bytes = b"d8:announce3:url4:info".to_vec();
    bytes.extend_from_slice(info);
    bytes.push(b'e');
    bytes
}

#[test]
fn parses_a_single_file_torrent() {
    let torrent = parse_torrent(&sample_torrent_bytes()).unwrap();
    assert_eq!(
        torrent,
        Torrent { announce: "http://tracker.example.com/announce".to_string(), info: sample_info() }
    );
}

#[test]
fn parses_a_multi_file_torrent() {
    let torrent = parse_torrent(&torrent_with_info(&multi_file_info_bytes())).unwrap();
    assert_eq!(torrent.announce, "url");
    assert_eq!(torrent.info, multi_file_info());
}

#[test]
fn ignores_keys_it_does_not_know_and_what_follows() {
    let mut bytes = b"d8:announce3:url7:comment2:hi4:info".to_vec();
    bytes.extend_from_slice(&sample_info_bytes());
    bytes.extend_from_slice(b"e trailing");
    let torrent = parse_torrent(&bytes).unwrap();
    assert_eq!(torrent.info, sample_info());
}

#[test]
fn accepts_keys_in_any_order() {
    let mut info = b"d6:pieces20:".to_vec();
    info.extend_from_slice(&sample_pieces());
    info.extend_from_slice(b"4:name10:sample.txt6:lengthi20000e12:piece lengthi32768ee");
    let torrent = parse_torrent(&torrent_with_info(&info)).unwrap();
    assert_eq!(torrent.info, sample_info());
}

#[test]
fn writes_the_info_section_in_canonical_form() {
    assert_eq!(sample_info().to_bencode(), sample_info_bytes());
    assert_eq!(multi_file_info().to_bencode(), multi_file_info_bytes());
}

#[test]
fn written_info_reads_back() {
    for info in [sample_info(), multi_file_info()] {
        let torrent = parse_torrent(&torrent_with_info(&info.to_bencode())).unwrap();
        assert_eq!(torrent.info, info);
        assert_eq!(torrent.info.to_bencode(), info.to_bencode());
    }
}

#[test]
fn info_hash_of_the_sample_torrent() {
    let expected: [u8; 20] = [
        166, 82, 206, 214, 99, 155, 215, 107, 12, 132, 164, 243, 187, 187, 230, 197, 12, 210, 188,
        149,
    ];
    assert_eq!(sample_info().hash(), expected);
    let torrent = parse_torrent(&sample_torrent_bytes()).unwrap();
    assert_eq!(torrent.info.hash(), expected);
}

#[test]
fn info_hash_of_a_multi_file_torrent() {
    let expected: [u8; 20] = [
        179, 236, 28, 56, 10, 221, 206, 43, 113, 182, 115, 241, 241, 86, 157, 208, 86, 108, 251,
        138,
    ];
    assert_eq!(multi_file_info().hash(), expected);
}

#[test]
fn info_hash_is_the_same_for_equal_metadata() {
    let a = sample_info();
    let b = sample_info();
    assert_eq!(a.hash(), b.hash());
    assert_eq!(a.hash(), a.hash());
}

#[test]
fn info_hash_tells_metadata_apart() {
    let base = sample_info();
    let mut renamed = sample_info();
    renamed.name = "sample.tx".to_string();
    let mut resized = sample_info();
    resized.piece_length = 32769;
    let mut longer = sample_info();
    longer.keys = Keys::SingleFile { length: 20001 };
    let mut rehashed = sample_info();
    rehashed.pieces.0[0][19] = 0;
    for other in [renamed, resized, longer, rehashed] {
        assert_ne!(other.to_bencode(), base.to_bencode());
        assert_ne!(other.hash(), base.hash());
    }
}

#[test]
fn pieces_split_into_hashes_and_join_back() {
    let bytes: Vec<u8> = (0u8..60).collect();
    let hashes = Hashes::from_bytes(&bytes).unwrap();
    assert_eq!(hashes.0.len(), 3);
    assert_eq!(hashes.0[0].to_vec(), (0u8..20).collect::<Vec<u8>>());
    assert_eq!(hashes.0[1].to_vec(), (20u8..40).collect::<Vec<u8>>());
    assert_eq!(hashes.0[2].to_vec(), (40u8..60).collect::<Vec<u8>>());
    let joined = hashes.to_bytes();
    assert_eq!(joined, bytes);
    assert_eq!(joined.len() % 20, 0);
    assert_eq!(Hashes::from_bytes(&joined).unwrap(), hashes);
}

#[test]
fn no_pieces_are_no_hashes() {
    let hashes = Hashes::from_bytes(&[]).unwrap();
    assert!(hashes.0.is_empty());
    assert!(hashes.to_bytes().is_empty());
}

#[test]
fn pieces_of_a_wrong_length_are_refused() {
    assert_eq!(
        Hashes::from_bytes(&[0u8; 21]).unwrap_err(),
        Error::Format(FormatError::PiecesLength { len: 21 })
    );
    assert_eq!(
        Hashes::from_bytes(&[0u8; 19]).unwrap_err(),
        Error::Format(FormatError::PiecesLength { len: 19 })
    );
}

#[test]
fn a_torrent_with_pieces_of_a_wrong_length_is_refused() {
    let info = b"d6:lengthi1e4:name1:n12:piece lengthi16e6:pieces21:012345678901234567890e";
    assert_eq!(
        parse_torrent(&torrent_with_info(info)).unwrap_err(),
        Error::Format(FormatError::PiecesLength { len: 21 })
    );
}

#[test]
fn both_layouts_are_refused() {
    let info = b"d5:filesle6:lengthi1e4:name1:n12:piece lengthi16e6:pieces0:e";
    assert_eq!(
        parse_torrent(&torrent_with_info(info)).unwrap_err(),
        Error::Format(FormatError::BothLayouts)
    );
}

#[test]
fn no_layout_is_refused() {
    let info = b"d4:name1:n12:piece lengthi16e6:pieces0:e";
    assert_eq!(
        parse_torrent(&torrent_with_info(info)).unwrap_err(),
        Error::Format(FormatError::NoLayout)
    );
}

#[test]
fn an_empty_path_is_refused() {
    let info = b"d5:filesld6:lengthi1e4:pathleee4:name1:n12:piece lengthi16e6:pieces0:e";
    assert_eq!(
        parse_torrent(&torrent_with_info(info)).unwrap_err(),
        Error::Format(FormatError::EmptyPath)
    );
}

#[test]
fn missing_keys_are_named() {
    assert_eq!(
        parse_torrent(b"d4:infodee").unwrap_err(),
        Error::Format(FormatError::MissingKey(Field::Announce))
    );
    assert_eq!(
        parse_torrent(b"d8:announce3:urle").unwrap_err(),
        Error::Format(FormatError::MissingKey(Field::Info))
    );
    assert_eq!(
        parse_torrent(&torrent_with_info(b"d6:lengthi1ee")).unwrap_err(),
        Error::Format(FormatError::MissingKey(Field::Name))
    );
    assert_eq!(
        parse_torrent(&torrent_with_info(b"d6:lengthi1e4:name1:ne")).unwrap_err(),
        Error::Format(FormatError::MissingKey(Field::PieceLength))
    );
    assert_eq!(
        parse_torrent(&torrent_with_info(b"d6:lengthi1e4:name1:n12:piece lengthi16ee"))
            .unwrap_err(),
        Error::Format(FormatError::MissingKey(Field::Pieces))
    );
    assert_eq!(
        parse_torrent(&torrent_with_info(
            b"d5:filesld6:lengthi1eee4:name1:n12:piece lengthi16e6:pieces0:e"
        ))
        .unwrap_err(),
        Error::Format(FormatError::MissingKey(Field::Path))
    );
}

#[test]
fn values_of_the_wrong_kind_are_named() {
    assert_eq!(parse_torrent(b"i1e").unwrap_err(), Error::Format(FormatError::NotADictionary));
    assert_eq!(
        parse_torrent(b"d8:announcei1e4:infodee").unwrap_err(),
        Error::Format(FormatError::WrongType(Field::Announce))
    );
    assert_eq!(
        parse_torrent(b"d8:announce3:url4:infoi1ee").unwrap_err(),
        Error::Format(FormatError::WrongType(Field::Info))
    );
    assert_eq!(
        parse_torrent(&torrent_with_info(
            b"d6:length1:x4:name1:n12:piece lengthi16e6:pieces0:e"
        ))
        .unwrap_err(),
        Error::Format(FormatError::WrongType(Field::Length))
    );
    assert_eq!(
        parse_torrent(&torrent_with_info(b"d5:filesi1e4:name1:n12:piece lengthi16e6:pieces0:e"))
            .unwrap_err(),
        Error::Format(FormatError::WrongType(Field::Files))
    );
    assert_eq!(
        parse_torrent(&torrent_with_info(b"d6:lengthi1e4:name1:n12:piece lengthi16e6:piecesi0ee"))
            .unwrap_err(),
        Error::Format(FormatError::WrongType(Field::Pieces))
    );
}

#[test]
fn a_path_of_the_wrong_kind_is_refused() {
    assert_eq!(
        parse_torrent(&torrent_with_info(
            b"d5:filesld6:lengthi1e4:path1:aee4:name1:n12:piece lengthi16e6:pieces0:e"
        ))
        .unwrap_err(),
        Error::Format(FormatError::WrongType(Field::Path))
    );
    assert_eq!(
        parse_torrent(&torrent_with_info(
            b"d5:filesld6:lengthi1e4:pathl1:ai2eeee4:name1:n12:piece lengthi16e6:pieces0:e"
        ))
        .unwrap_err(),
        Error::Format(FormatError::WrongType(Field::Path))
    );
    assert_eq!(
        parse_torrent(&torrent_with_info(
            b"d5:filesld6:lengthi1e4:pathl1:\xffeee4:name1:n12:piece lengthi16e6:pieces0:e"
        ))
        .unwrap_err(),
        Error::Format(FormatError::NotUtf8(Field::Path))
    );
    assert_eq!(
        parse_torrent(&torrent_with_info(
            b"d5:filesli1ee4:name1:n12:piece lengthi16e6:pieces0:e"
        ))
        .unwrap_err(),
        Error::Format(FormatError::WrongType(Field::Files))
    );
}

#[test]
fn text_that_is_no_text_is_refused() {
    assert_eq!(
        parse_torrent(&torrent_with_info(
            b"d6:lengthi1e4:name1:\xff12:piece lengthi16e6:pieces0:e"
        ))
        .unwrap_err(),
        Error::Format(FormatError::NotUtf8(Field::Name))
    );
}

#[test]
fn negative_lengths_are_refused() {
    assert_eq!(
        parse_torrent(&torrent_with_info(
            b"d6:lengthi-1e4:name1:n12:piece lengthi16e6:pieces0:e"
        ))
        .unwrap_err(),
        Error::Format(FormatError::OutOfRange(Field::Length))
    );
    assert_eq!(
        parse_torrent(&torrent_with_info(
            b"d6:lengthi1e4:name1:n12:piece lengthi-16e6:pieces0:e"
        ))
        .unwrap_err(),
        Error::Format(FormatError::OutOfRange(Field::PieceLength))
    );
}

#[test]
fn what_is_no_bencode_is_a_decode_error() {
    assert_eq!(
        parse_torrent(b"d8:announce3:url").unwrap_err(),
        Error::Decode(DecodeError { kind: DecodeErrorKind::UnexpectedEnd, offset: 16 })
    );
    assert_eq!(
        parse_torrent(b"").unwrap_err(),
        Error::Decode(DecodeError { kind: DecodeErrorKind::UnexpectedEnd, offset: 0 })
    );
}

#[test]
fn total_length_is_the_length_or_the_sum() {
    assert_eq!(sample_info().total_length(), Ok(20000));
    assert_eq!(multi_file_info().total_length(), Ok(32));
    let mut empty = multi_file_info();
    empty.keys = Keys::MultiFile { files: vec![] };
    assert_eq!(empty.total_length(), Ok(0));
}

#[test]
fn total_length_that_does_not_fit_is_unsupported() {
    let mut info = multi_file_info();
    info.keys = Keys::MultiFile {
        files: vec![
            File { length: usize::MAX, path: vec!["a".to_string()] },
            File { length: 1, path: vec!["b".to_string()] },
        ],
    };
    assert_eq!(info.total_length(), Err(Error::Unsupported));
}

#[test]
fn lengths_up_to_the_largest_are_written_in_full() {
    let mut info = sample_info();
    info.keys = Keys::SingleFile { length: usize::MAX };
    info.pieces = Hashes(vec![]);
    let expected = format!(
        "d6:lengthi{}e4:name10:sample.txt12:piece lengthi32768e6:pieces0:e",
        usize::MAX
    );
    assert_eq!(info.to_bencode(), expected.as_bytes());
}

#[test]
fn text_beyond_ascii_is_read_and_written() {
    let name = "r\u{e9}sum\u{e9} \u{65e5}\u{672c}.txt";
    let mut info_bytes = format!("d6:lengthi1e4:name{}:{}", name.len(), name).into_bytes();
    info_bytes.extend_from_slice(b"12:piece lengthi16e6:pieces0:e");
    let torrent = parse_torrent(&torrent_with_info(&info_bytes)).unwrap();
    assert_eq!(torrent.info.name, name);
    assert_eq!(torrent.info.name.chars().count(), 13);
    assert_eq!(torrent.info.to_bencode(), info_bytes);
}
