//! Protocol-facing core of a small BitTorrent client: the bencode codec,
//! torrent metadata and its info-hash, the tracker announce exchange and the
//! peer handshake.
//!
//! Everything here is a function on plain values. Reading files, talking to
//! trackers and moving bytes over sockets is left to the caller.

pub mod bencode;
pub mod bytes;
pub mod canonical;
pub mod digest;
pub mod error;
pub mod hashes;
pub mod metainfo;
pub mod peer;
pub mod text;
pub mod torrent;
pub mod tracker;

pub use bencode::decode::{decode_canonical, decode_value};
pub use bencode::encode::encode;
pub use bencode::value::BencodeValue;
pub use error::{DecodeError, DecodeErrorKind, Error, Field, FormatError, ProtocolError};
pub use hashes::Hashes;
pub use metainfo::parse_torrent;
pub use peer::{
    check_reply, Handshake, HandshakeAction, HandshakeEvent, HandshakeExchange, HandshakeState,
};
pub use torrent::{File, Info, Keys, Torrent};
pub use tracker::{
    build_tracker_request, decode_peers, parse_tracker_response, urlencode, Peer, TrackerRequest,
    TrackerResponse,
};
