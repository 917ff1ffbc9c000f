//! Every failure that the library reports, by kind.

use vstd::prelude::*;

verus! {

/// What is wrong with a byte string that is no bencode.
#[derive(Debug, Clone, Copy, PartialEq, Eq, Structural)]
pub enum DecodeErrorKind {
    /// The input stops where more is needed: a value, a digit, the bytes of a
    /// string, or the `e` that closes a list or a dictionary.
    UnexpectedEnd,
    /// A value starts with a byte that is neither `i`, `l`, `d` nor a digit.
    UnexpectedByte,
    /// An integer has no digit where one is due.
    ExpectedDigit,
    /// The length of a byte string is not followed by `:`.
    ExpectedColon,
    /// The digits of an integer are not followed by `e`.
    ExpectedTerminator,
    /// An integer does not fit in 64 bits.
    IntegerOverflow,
    /// A dictionary ends after a key, before that key's value.
    OddDictionary,
    /// A dictionary key is not a byte string.
    KeyNotString,
    /// A dictionary key is not UTF-8.
    KeyNotUtf8,
    /// A dictionary holds the same key twice.
    DuplicateKey,
    /// Only where canonical form is asked for: a numeral with a leading
    /// zero, a negative zero, or a key that does not sort after the one
    /// before it.
    NotCanonical,
}

/// A malformed input, with the offset of the byte that gives it away.
#[derive(Debug, Clone, Copy, PartialEq, Eq, Structural)]
pub struct DecodeError {
    pub kind: DecodeErrorKind,
    pub offset: usize,
}

/// The part of a torrent file or of a tracker's reply that an error is about.
#[derive(Debug, Clone, Copy, PartialEq, Eq, Structural)]
pub enum Field {
    Announce,
    Info,
    Name,
    PieceLength,
    Pieces,
    Length,
    Files,
    Path,
    Peers,
}

/// Well-formed bencode that is no torrent file, or no tracker reply.
#[derive(Debug, Clone, Copy, PartialEq, Eq, Structural)]
pub enum FormatError {
    /// The value that should hold the fields is no dictionary.
    NotADictionary,
    /// A dictionary lacks a key that it must have.
    MissingKey(Field),
    /// The value under a key is of the wrong kind.
    WrongType(Field),
    /// The bytes under a key that holds text are not UTF-8.
    NotUtf8(Field),
    /// The integer under a key is negative or too large for this machine.
    OutOfRange(Field),
    /// The piece hashes take a number of bytes that is no multiple of 20.
    PiecesLength { len: usize },
    /// The compact peer list takes a number of bytes that is no multiple of 6.
    PeersLength { len: usize },
    /// The info dictionary holds both `length` and `files`.
    BothLayouts,
    /// The info dictionary holds neither `length` nor `files`.
    NoLayout,
    /// A file of a multi-file torrent has an empty path.
    EmptyPath,
    /// More bytes are said to be downloaded than the torrent holds.
    DownloadedExceedsLength,
}

/// A peer that does not keep to the handshake.
#[derive(Debug, Clone, Copy, PartialEq, Eq, Structural)]
pub enum ProtocolError {
    /// The reply's first byte is not 19.
    BadLength { actual: u8 },
    /// The reply does not name the BitTorrent protocol.
    BadProtocolTag,
    /// The reply is about another torrent than the one asked for.
    InfoHashMismatch,
    /// Something happened that the exchange does not expect in its state.
    OutOfTurn,
}

/// Every failure of the library, by kind.
#[derive(Debug, Clone, Copy, PartialEq, Eq, Structural)]
pub enum Error {
    /// The input is no bencode.
    Decode(DecodeError),
    /// The input is bencode but breaks a rule of the metadata or of the
    /// tracker's reply.
    Format(FormatError),
    /// The peer's handshake reply is not acceptable.
    Protocol(ProtocolError),
    /// The transport failed. The library never retries.
    Io,
    /// The other side did not answer within the time that the caller allows.
    Timeout,
    /// The input asks for what this library, on this machine, cannot do.
    Unsupported,
}

} // verus!
