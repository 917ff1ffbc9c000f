//! The announce exchange with a tracker: the query that asks for peers and
//! the compact peer list that answers it.

use crate::bencode::decode::decode_at;
use crate::bencode::digits::{decimal, is_digit, lemma_decimal, push_decimal};
use crate::bencode::grammar::{parse_value, Parsed};
use crate::bencode::value::{lookup, Bencode, BencodeValue};
use crate::bytes::read_array;
use crate::error::{DecodeError, Error, Field, FormatError};
use crate::text::string_from_utf8;
use crate::torrent::{total_length, Info};
use vstd::prelude::*;
use vstd::slice::slice_to_vec;
use vstd::string::StringExecFns;
use vstd::utf8::{
    decode_utf8, encode_utf8, encode_utf8_decode_utf8, encode_utf8_valid_utf8, is_ascii_chars,
    is_ascii_chars_encode_utf8, valid_utf8,
};

verus! {

/// One peer of a compact peer list.
#[derive(Debug, Clone, Copy, PartialEq, Eq)]
pub struct Peer {
    /// The IPv4 address, first octet first.
    pub ip: [u8; 4],
    pub port: u16,
}

/// The model of a [`Peer`].
pub struct PeerModel {
    pub ip: Seq<u8>,
    pub port: u16,
}

impl View for Peer {
    type V = PeerModel;

    open spec fn view(&self) -> PeerModel {
        PeerModel { ip: self.ip@, port: self.port }
    }
}

/// What a tracker answers: the peers to talk to.
#[derive(Debug, Clone, PartialEq, Eq)]
pub struct TrackerResponse {
    pub peers: Vec<Peer>,
}

/// What a tracker is asked.
#[derive(Debug, Clone, PartialEq, Eq)]
pub struct TrackerRequest {
    /// The identifier that this client chose for itself.
    pub peer_id: [u8; 20],
    /// The port that this client listens on.
    pub port: u16,
    /// The number of bytes uploaded so far.
    pub uploaded: usize,
    /// The number of bytes downloaded so far.
    pub downloaded: usize,
    /// The number of bytes that are still to be downloaded.
    pub left: usize,
    /// Whether the peer list is wanted in its compact form.
    pub compact: bool,
}

/// The lowercase hexadecimal digit for a number below 16.
pub open spec fn hex_digit(n: u8) -> char {
    if n < 10 {
        ((0x30 + n) as u8) as char
    } else {
        ((0x57 + n) as u8) as char
    }
}

/// Bytes in lowercase hexadecimal: two digits for each byte, the high half
/// first.
pub open spec fn hex_lower(data: Seq<u8>) -> Seq<char> {
    Seq::new(
        2 * data.len(),
        |i: int|
            if i % 2 == 0 {
                hex_digit(data[i / 2] / 16)
            } else {
                hex_digit(data[i / 2] % 16)
            },
    )
}

/// Bytes with every one of them percent-encoded: `%` and two lowercase
/// hexadecimal digits for each byte, whether it needs escaping or not.
pub open spec fn percent_encoded(data: Seq<u8>) -> Seq<char> {
    Seq::new(
        3 * data.len(),
        |i: int|
            if i % 3 == 0 {
                '%'
            } else if i % 3 == 1 {
                hex_digit(data[i / 3] / 16)
            } else {
                hex_digit(data[i / 3] % 16)
            },
    )
}

/// The peers of a compact peer list: for each group of 6 bytes an IPv4
/// address of 4 bytes and a port of 2, both in network byte order.
pub open spec fn compact_peers(bytes: Seq<u8>) -> Seq<PeerModel> {
    Seq::new(
        (bytes.len() / 6) as nat,
        |i: int|
            PeerModel {
                ip: bytes.subrange(6 * i, 6 * i + 4),
                port: (bytes[6 * i + 4] * 256 + bytes[6 * i + 5]) as u16,
            },
    )
}

/// The models of a vector of peers.
pub open spec fn peers_view(peers: Seq<Peer>) -> Seq<PeerModel> {
    Seq::new(peers.len(), |i: int| peers[i]@)
}

/// A number in decimal, as text.
pub open spec fn decimal_text(n: nat) -> Seq<char> {
    Seq::new(decimal(n).len(), |i: int| decimal(n)[i] as char)
}

/// The fields of a request as the pairs of a form, in the order in which
/// they are sent. The peer id goes as the text that its bytes spell.
pub open spec fn request_pairs(
    peer_id: Seq<u8>,
    port: u16,
    uploaded: nat,
    downloaded: nat,
    left: nat,
    compact: bool,
) -> Seq<(Seq<char>, Seq<char>)> {
    seq![
        ("peer_id"@, decode_utf8(peer_id)),
        ("port"@, decimal_text(port as nat)),
        ("uploaded"@, decimal_text(uploaded)),
        ("downloaded"@, decimal_text(downloaded)),
        ("left"@, decimal_text(left)),
        ("compact"@, decimal_text(if compact { 1 } else { 0 })),
    ]
}

/// What `serde_urlencoded` writes a sequence of pairs as: the pairs in the
/// `application/x-www-form-urlencoded` format, or `None` where it refuses
/// them.
pub uninterp spec fn form_urlencoded(pairs: Seq<(Seq<char>, Seq<char>)>) -> Option<Seq<char>>;

/// The models of a vector of pairs of text.
pub open spec fn pairs_view(pairs: Seq<(String, String)>) -> Seq<(Seq<char>, Seq<char>)> {
    Seq::new(pairs.len(), |i: int| (pairs[i].0@, pairs[i].1@))
}

/// The address that asks a tracker for peers: the announce URL, `?`, the
/// form-encoded fields, and the info-hash as one more field, percent-encoded
/// byte by byte.
pub open spec fn tracker_url(announce: Seq<char>, params: Seq<char>, info_hash: Seq<u8>) -> Seq<
    char,
> {
    announce + seq!['?'] + params + "&info_hash="@ + percent_encoded(info_hash)
}

/// Writes bytes in lowercase hexadecimal.
///
/// Trusted: `hex::encode`, which writes each byte as two digits taken from
/// `0123456789abcdef`, the high half of the byte first.
#[verifier::external_body]
pub(crate) fn hex_encode(data: &[u8]) -> (text: String)
    ensures
        text@ == hex_lower(data@),
{
    hex::encode(data)
}

/// Writes pairs of text as a form.
///
/// Trusted: `serde_urlencoded::to_string` on a sequence of pairs. What it
/// writes depends on the pairs alone. Nothing is claimed about when it
/// refuses.
#[verifier::external_body]
pub(crate) fn urlencode_pairs(pairs: &Vec<(String, String)>) -> (text: Option<String>)
    ensures
        match text {
            Some(t) => form_urlencoded(pairs_view(pairs@)) == Some(t@),
            None => form_urlencoded(pairs_view(pairs@)) is None,
        },
{
    serde_urlencoded::to_string(pairs).ok()
}

/// Percent-encodes every byte of an info-hash: 60 characters.
pub fn urlencode(t: &[u8; 20]) -> (encoded: String)
    ensures
        encoded@ == percent_encoded(t@),
        encoded@.len() == 60,
{
    let mut encoded = String::new();
    let mut i: usize = 0;
    proof {
        reveal_strlit("%");
    }
    while i < 20
        invariant
            i <= 20,
            "%"@ == seq!['%'],
            encoded@.len() == 3 * i,
            forall|j: int| 0 <= j < 3 * i ==> encoded@[j] == percent_encoded(t@)[j],
        decreases 20 - i,
    {
        let byte = t[i];
        let one = [byte;1];
        let ghost before = encoded@;
        encoded.append("%");
        let digits = hex_encode(one.as_slice());
        encoded.append(digits.as_str());
        proof {
            assert(one@[0] == byte);
            assert(digits@.len() == 2);
            assert(digits@[0] == hex_digit(byte / 16));
            assert(digits@[1] == hex_digit(byte % 16));
            assert(encoded@ =~= before + seq!['%'] + digits@);
            assert forall|j: int| 0 <= j < 3 * (i + 1) implies encoded@[j] == percent_encoded(
                t@,
            )[j] by {
                if j >= 3 * i {
                    let k = j - 3 * i;
                    assert(j / 3 == i && j % 3 == k);
                }
            }
        }
        i = i + 1;
    }
    proof {
        assert(encoded@ =~= percent_encoded(t@));
    }
    encoded
}

/// Reads a compact peer list.
///
/// Fails, and says how long the list is, exactly when its length is no
/// multiple of 6.
pub fn decode_peers(bytes: &[u8]) -> (r: Result<Vec<Peer>, Error>)
    ensures
        match r {
            Ok(peers) => bytes@.len() % 6 == 0 && peers@.len() == bytes@.len() / 6 && peers_view(
                peers@,
            ) == compact_peers(bytes@),
            Err(e) => bytes@.len() % 6 != 0 && e == Error::Format(
                FormatError::PeersLength { len: bytes.len() },
            ),
        },
{
    if bytes.len() % 6 != 0 {
        return Err(Error::Format(FormatError::PeersLength { len: bytes.len() }));
    }
    let count = bytes.len() / 6;
    let mut peers: Vec<Peer> = Vec::new();
    let mut i: usize = 0;
    while i < count
        invariant
            i <= count,
            count == bytes.len() / 6,
            bytes.len() % 6 == 0,
            peers.len() == i,
            forall|k: int| 0 <= k < i ==> (#[trigger] peers@[k])@ == compact_peers(bytes@)[k],
        decreases count - i,
    {
        let ip = read_array::<4>(bytes, 6 * i);
        let high = bytes[6 * i + 4];
        let low = bytes[6 * i + 5];
        let port: u16 = high as u16 * 256 + low as u16;
        peers.push(Peer { ip, port });
        i = i + 1;
    }
    proof {
        assert(peers_view(peers@) =~= compact_peers(bytes@));
    }
    Ok(peers)
}

/// A number in decimal, as text.
pub fn decimal_string(n: u64) -> (text: String)
    ensures
        text@ == decimal_text(n as nat),
{
    let mut digits: Vec<u8> = Vec::new();
    push_decimal(&mut digits, n);
    proof {
        let chars = decimal_text(n as nat);
        lemma_decimal(n as nat);
        assert(digits@ =~= decimal(n as nat));
        assert(is_ascii_chars(chars)) by {
            assert forall|i: int| 0 <= i < chars.len() implies '\0' <= #[trigger] chars[i]
                <= '\u{7f}' by {
                assert(is_digit(decimal(n as nat)[i]));
            }
        }
        is_ascii_chars_encode_utf8(chars);
        assert(encode_utf8(chars) =~= digits@) by {
            assert forall|i: int| 0 <= i < chars.len() implies encode_utf8(chars)[i]
                == digits@[i] by {
                assert(chars[i] as u8 == encode_utf8(chars)[i]);
            }
        }
        encode_utf8_valid_utf8(chars);
        encode_utf8_decode_utf8(chars);
    }
    let text = string_from_utf8(digits).unwrap();
    proof {
        encode_utf8_decode_utf8(text@);
    }
    text
}

/// Puts the address together that asks a tracker for peers.
pub fn assemble_tracker_url(announce: &str, params: &str, info_hash: &[u8; 20]) -> (url: String)
    ensures
        url@ == tracker_url(announce@, params@, info_hash@),
{
    proof {
        reveal_strlit("?");
    }
    let mut url = String::from_str(announce);
    url.append("?");
    url.append(params);
    url.append("&info_hash=");
    let encoded = urlencode(info_hash);
    url.append(encoded.as_str());
    proof {
        assert("?"@ =~= seq!['?']);
        assert(url@ =~= tracker_url(announce@, params@, info_hash@));
    }
    url
}

impl TrackerRequest {
    /// The query part of the announce, where there is one: the fields of the
    /// request, form encoded.
    pub open spec fn query(&self) -> Option<Seq<char>> {
        if valid_utf8(self.peer_id@) {
            form_urlencoded(
                request_pairs(
                    self.peer_id@,
                    self.port,
                    self.uploaded as nat,
                    self.downloaded as nat,
                    self.left as nat,
                    self.compact,
                ),
            )
        } else {
            None
        }
    }

    /// The request that announces a torrent of which `downloaded` bytes are
    /// there already: what is left is the torrent's length less that, and the
    /// peer list is asked for in compact form.
    ///
    /// Fails as unsupported when the torrent's length does not fit this
    /// machine's `usize`, and else as a format error when `downloaded` is
    /// more than the torrent holds.
    pub fn new(peer_id: [u8; 20], port: u16, info: &Info, uploaded: usize, downloaded: usize) -> (r:
        Result<TrackerRequest, Error>)
        ensures
            match r {
                Ok(request) => downloaded <= total_length(info@.keys) <= usize::MAX && request
                    == (TrackerRequest {
                    peer_id,
                    port,
                    uploaded,
                    downloaded,
                    left: (total_length(info@.keys) - downloaded) as usize,
                    compact: true,
                }),
                Err(e) => if total_length(info@.keys) > usize::MAX {
                    e == Error::Unsupported
                } else {
                    downloaded > total_length(info@.keys) && e == Error::Format(
                        FormatError::DownloadedExceedsLength,
                    )
                },
            },
    {
        let total = match info.total_length() {
            Ok(total) => total,
            Err(e) => {
                return Err(e);
            },
        };
        if downloaded > total {
            return Err(Error::Format(FormatError::DownloadedExceedsLength));
        }
        Ok(
            TrackerRequest {
                peer_id,
                port,
                uploaded,
                downloaded,
                left: total - downloaded,
                compact: true,
            },
        )
    }

    /// The query part of the announce: the fields of the request in the order
    /// `peer_id`, `port`, `uploaded`, `downloaded`, `left`, `compact`, form
    /// encoded.
    ///
    /// Fails as unsupported when the peer id is no UTF-8 text, and when the
    /// form encoder refuses the fields.
    pub fn to_query(&self) -> (r: Result<String, Error>)
        ensures
            match r {
                Ok(query) => self.query() == Some(query@),
                Err(e) => e == Error::Unsupported && self.query() is None,
            },
    {
        let id = match string_from_utf8(slice_to_vec(self.peer_id.as_slice())) {
            Some(id) => id,
            None => {
                return Err(Error::Unsupported);
            },
        };
        proof {
            encode_utf8_decode_utf8(id@);
        }
        let compact: u64 = if self.compact {
            1
        } else {
            0
        };
        let mut pairs: Vec<(String, String)> = Vec::new();
        pairs.push((String::from_str("peer_id"), id));
        pairs.push((String::from_str("port"), decimal_string(self.port as u64)));
        pairs.push((String::from_str("uploaded"), decimal_string(self.uploaded as u64)));
        pairs.push((String::from_str("downloaded"), decimal_string(self.downloaded as u64)));
        pairs.push((String::from_str("left"), decimal_string(self.left as u64)));
        pairs.push((String::from_str("compact"), decimal_string(compact)));
        proof {
            assert(pairs_view(pairs@) =~= request_pairs(
                self.peer_id@,
                self.port,
                self.uploaded as nat,
                self.downloaded as nat,
                self.left as nat,
                self.compact,
            ));
        }
        match urlencode_pairs(&pairs) {
            Some(query) => Ok(query),
            None => Err(Error::Unsupported),
        }
    }
}

/// The address that asks the tracker at `announce` for peers of the torrent
/// with the given info-hash.
///
/// Fails as unsupported when the peer id is no UTF-8 text, and when the form
/// encoder refuses the fields.
pub fn build_tracker_request(announce: &str, request: &TrackerRequest, info_hash: &[u8; 20]) -> (r:
    Result<String, Error>)
    ensures
        match request.query() {
            Some(query) => r matches Ok(url) && url@ == tracker_url(announce@, query, info_hash@),
            None => r == Err::<String, Error>(Error::Unsupported),
        },
{
    match request.to_query() {
        Ok(query) => Ok(assemble_tracker_url(announce, query.as_str(), info_hash)),
        Err(e) => Err(e),
    }
}

/// What a tracker's reply says, as a function of its bytes: the peers of the
/// compact list under the key `peers` of the dictionary that the bytes start
/// with.
pub open spec fn tracker_reply(bytes: Seq<u8>) -> Result<Seq<PeerModel>, Error> {
    match parse_value(bytes, 0, false) {
        Parsed::Failed(kind, at) => Err(Error::Decode(DecodeError { kind, offset: at as usize })),
        Parsed::Done(Bencode::Dictionary(entries), _) => match lookup(entries, "peers"@) {
            None => Err(Error::Format(FormatError::MissingKey(Field::Peers))),
            Some(Bencode::ByteString(list)) => if list.len() % 6 == 0 {
                Ok(compact_peers(list))
            } else {
                Err(Error::Format(FormatError::PeersLength { len: list.len() as usize }))
            },
            Some(_) => Err(Error::Format(FormatError::WrongType(Field::Peers))),
        },
        Parsed::Done(_, _) => Err(Error::Format(FormatError::NotADictionary)),
    }
}

/// Reads a tracker's reply: a bencoded dictionary whose key `peers` holds a
/// compact peer list. Other keys are ignored, and so is what follows the
/// dictionary.
pub fn parse_tracker_response(bytes: &[u8]) -> (r: Result<TrackerResponse, Error>)
    ensures
        match tracker_reply(bytes@) {
            Ok(peers) => r matches Ok(response) && peers_view(response.peers@) == peers,
            Err(e) => r == Err::<TrackerResponse, Error>(e),
        },
{
    let value = match decode_at(bytes, 0, false) {
        Ok((value, _)) => value,
        Err(e) => {
            return Err(Error::Decode(e));
        },
    };
    match &value {
        BencodeValue::Dictionary(_) => {},
        _ => {
            return Err(Error::Format(FormatError::NotADictionary));
        },
    }
    match value.get("peers") {
        None => Err(Error::Format(FormatError::MissingKey(Field::Peers))),
        Some(BencodeValue::ByteString(list)) => {
            match decode_peers(list.as_slice()) {
                Ok(peers) => Ok(TrackerResponse { peers }),
                Err(e) => Err(e),
            }
        },
        Some(_) => Err(Error::Format(FormatError::WrongType(Field::Peers))),
    }
}

} // verus!
