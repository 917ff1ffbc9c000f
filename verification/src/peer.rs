//! The handshake that opens the talk with a peer: 68 bytes each way.

use crate::bencode::value::{compare_bytes, KeyOrder};
use crate::bytes::read_array;
use crate::error::{Error, ProtocolError};
use vstd::prelude::*;

verus! {

/// The number of bytes of a handshake message.
pub const HANDSHAKE_LEN: usize = 68;

/// The number of bytes of the protocol's name, which opens every handshake.
pub const PROTOCOL_TAG_LEN: u8 = 19;

/// The protocol's name, `BitTorrent protocol`, in ASCII.
pub open spec fn protocol_tag() -> Seq<u8> {
    seq![
        0x42, 0x69, 0x74, 0x54, 0x6f, 0x72, 0x72, 0x65, 0x6e, 0x74, 0x20, 0x70, 0x72, 0x6f, 0x74,
        0x6f, 0x63, 0x6f, 0x6c,
    ]
}

/// The protocol's name, `BitTorrent protocol`, in ASCII.
pub fn protocol_tag_bytes() -> (tag: [u8; 19])
    ensures
        tag@ == protocol_tag(),
{
    let tag: [u8; 19] = [
        0x42, 0x69, 0x74, 0x54, 0x6f, 0x72, 0x72, 0x65, 0x6e, 0x74, 0x20, 0x70, 0x72, 0x6f, 0x74,
        0x6f, 0x63, 0x6f, 0x6c,
    ];
    proof {
        assert(tag@ =~= protocol_tag());
    }
    tag
}

/// The handshake message, field by field in the order of the wire.
#[derive(Debug, Clone, Copy, PartialEq, Eq)]
pub struct Handshake {
    /// The length of the protocol's name: always 19.
    pub length: u8,
    /// The protocol's name.
    pub bittorrent: [u8; 19],
    /// Eight bytes kept for extensions: all zero.
    pub reserved: [u8; 8],
    /// The info-hash of the torrent that the talk is about.
    pub info_hash: [u8; 20],
    /// The identifier of the peer that sends the message.
    pub peer_id: [u8; 20],
}

/// Whether two byte strings are the same.
pub fn same_bytes(a: &[u8], b: &[u8]) -> (same: bool)
    ensures
        same == (a@ == b@),
{
    match compare_bytes(a, b) {
        KeyOrder::Same => true,
        _ => false,
    }
}

/// Copies `src` into `out` from the offset `at` on.
fn put(out: &mut [u8; 68], at: usize, src: &[u8])
    requires
        at + src.len() <= 68,
    ensures
        forall|j: int| 0 <= j < at ==> final(out)@[j] == old(out)@[j],
        forall|j: int| at <= j < at + src.len() ==> final(out)@[j] == src@[j - at],
        forall|j: int| at + src.len() <= j < 68 ==> final(out)@[j] == old(out)@[j],
{
    let mut k: usize = 0;
    while k < src.len()
        invariant
            k <= src.len(),
            at + src.len() <= 68,
            forall|j: int| 0 <= j < at ==> out@[j] == old(out)@[j],
            forall|j: int| at <= j < at + k ==> out@[j] == src@[j - at],
            forall|j: int| at + k <= j < 68 ==> out@[j] == old(out)@[j],
        decreases src.len() - k,
    {
        out[at + k] = src[k];
        k = k + 1;
    }
}

/// What is wrong with a handshake reply, if anything: its length byte is not
/// 19, it does not name the protocol, or it is about another torrent than
/// `expected`. The first of these that holds is the fault.
pub open spec fn reply_fault(reply: Handshake, expected: Seq<u8>) -> Option<ProtocolError> {
    if reply.length != 19 {
        Some(ProtocolError::BadLength { actual: reply.length })
    } else if reply.bittorrent@ != protocol_tag() {
        Some(ProtocolError::BadProtocolTag)
    } else if reply.info_hash@ != expected {
        Some(ProtocolError::InfoHashMismatch)
    } else {
        None
    }
}

impl Handshake {
    /// The message as it goes over the wire: 68 bytes.
    pub open spec fn wire(&self) -> Seq<u8> {
        seq![self.length] + self.bittorrent@ + self.reserved@ + self.info_hash@ + self.peer_id@
    }

    /// The message that opens the talk about the torrent with the given
    /// info-hash.
    pub fn new(info_hash: [u8; 20], peer_id: [u8; 20]) -> (message: Self)
        ensures
            message.length == 19,
            message.bittorrent@ == protocol_tag(),
            message.reserved@ == Seq::new(8, |i: int| 0u8),
            message.info_hash == info_hash,
            message.peer_id == peer_id,
    {
        let reserved = [0u8;8];
        proof {
            assert(reserved@ =~= Seq::new(8, |i: int| 0u8));
        }
        Handshake {
            length: PROTOCOL_TAG_LEN,
            bittorrent: protocol_tag_bytes(),
            reserved,
            info_hash,
            peer_id,
        }
    }

    /// Writes the message as it goes over the wire.
    pub fn to_bytes(&self) -> (bytes: [u8; 68])
        ensures
            bytes@ == self.wire(),
    {
        let mut out = [0u8;68];
        out[0] = self.length;
        put(&mut out, 1, self.bittorrent.as_slice());
        put(&mut out, 20, self.reserved.as_slice());
        put(&mut out, 28, self.info_hash.as_slice());
        put(&mut out, 48, self.peer_id.as_slice());
        proof {
            assert(out@ =~= self.wire());
        }
        out
    }

    /// Reads a message off the wire, field by field. Nothing is checked.
    pub fn from_bytes(bytes: &[u8; 68]) -> (message: Self)
        ensures
            message.wire() == bytes@,
            message.length == bytes@[0],
            message.bittorrent@ == bytes@.subrange(1, 20),
            message.reserved@ == bytes@.subrange(20, 28),
            message.info_hash@ == bytes@.subrange(28, 48),
            message.peer_id@ == bytes@.subrange(48, 68),
    {
        let all = bytes.as_slice();
        let message = Handshake {
            length: all[0],
            bittorrent: read_array::<19>(all, 1),
            reserved: read_array::<8>(all, 20),
            info_hash: read_array::<20>(all, 28),
            peer_id: read_array::<20>(all, 48),
        };
        proof {
            assert(message.wire() =~= bytes@);
        }
        message
    }

    /// Checks a reply: accepts it, and returns the peer's identifier, exactly
    /// when it has no fault.
    pub fn validate(&self, info_hash: &[u8; 20]) -> (r: Result<[u8; 20], Error>)
        ensures
            match reply_fault(*self, info_hash@) {
                None => r == Ok::<[u8; 20], Error>(self.peer_id),
                Some(fault) => r == Err::<[u8; 20], Error>(Error::Protocol(fault)),
            },
    {
        if self.length != PROTOCOL_TAG_LEN {
            return Err(Error::Protocol(ProtocolError::BadLength { actual: self.length }));
        }
        let tag = protocol_tag_bytes();
        if !same_bytes(self.bittorrent.as_slice(), tag.as_slice()) {
            return Err(Error::Protocol(ProtocolError::BadProtocolTag));
        }
        if !same_bytes(self.info_hash.as_slice(), info_hash.as_slice()) {
            return Err(Error::Protocol(ProtocolError::InfoHashMismatch));
        }
        Ok(self.peer_id)
    }
}

/// What a reply of 68 bytes amounts to for one who asked about the torrent
/// `expected`: the peer's identifier, which is the last 20 bytes, or the
/// fault. The first byte must be 19, the next 19 bytes the protocol's name,
/// and the bytes 28 to 47 the info-hash that was asked about.
pub open spec fn reply_verdict(reply: Seq<u8>, expected: Seq<u8>) -> Result<Seq<u8>, ProtocolError> {
    if reply[0] != 19 {
        Err(ProtocolError::BadLength { actual: reply[0] })
    } else if reply.subrange(1, 20) != protocol_tag() {
        Err(ProtocolError::BadProtocolTag)
    } else if reply.subrange(28, 48) != expected {
        Err(ProtocolError::InfoHashMismatch)
    } else {
        Ok(reply.subrange(48, 68))
    }
}

/// Checks the 68 bytes that a peer sent back.
pub fn check_reply(reply: &[u8; 68], info_hash: &[u8; 20]) -> (r: Result<[u8; 20], Error>)
    ensures
        match reply_verdict(reply@, info_hash@) {
            Ok(id) => r matches Ok(peer_id) && peer_id@ == id,
            Err(fault) => r == Err::<[u8; 20], Error>(Error::Protocol(fault)),
        },
{
    Handshake::from_bytes(reply).validate(info_hash)
}

/// Where a handshake exchange stands.
#[derive(Debug, Clone, Copy, PartialEq, Eq, Structural)]
pub enum HandshakeState {
    /// The message is not written yet, or not in full.
    Unsent,
    /// The message was written in full; the reply is awaited.
    AwaitingReply,
    /// The reply was accepted. The exchange is over.
    Validated,
    /// The reply was refused or the transport failed. The exchange is over
    /// and the connection is of no more use.
    Rejected,
}

/// What happened outside, as the one who runs the exchange reports it.
#[derive(Debug, Clone, Copy, PartialEq, Eq)]
pub enum HandshakeEvent {
    /// The connection stands; the exchange may begin.
    Start,
    /// The message was written in full.
    Sent,
    /// These 68 bytes came back.
    Reply([u8; 68]),
    /// Writing or reading failed.
    TransportFailed,
    /// Writing or reading took longer than the caller allows.
    TimedOut,
}

/// What the one who runs the exchange is to do next.
#[derive(Debug, Clone, Copy, PartialEq, Eq)]
pub enum HandshakeAction {
    /// Write all of these 68 bytes, and report `Sent`, or the failure.
    Send([u8; 68]),
    /// Read exactly 68 bytes, and report them, or the failure.
    Receive,
    /// Done: the peer is the one with this identifier.
    Accept([u8; 20]),
    /// Done: give up on this peer, for the reason given.
    Reject(Error),
}

/// One handshake exchange over a connection that the caller owns. The message
/// that is sent and the reply that comes back share one record: the reply
/// overwrites the message.
#[derive(Debug, Clone, Copy, PartialEq, Eq)]
pub struct HandshakeExchange {
    pub state: HandshakeState,
    /// The message to send, and later the reply.
    pub message: Handshake,
    /// The info-hash that was asked about.
    pub info_hash: [u8; 20],
}

/// What `event` makes of the exchange `before`: the exchange `after` and the
/// `action` to take.
///
/// Reading is asked for only once the message is reported as written, so the
/// two never overlap. An event that does not fit the state ends the exchange
/// as rejected, unless it was over already.
pub open spec fn handshake_step(
    before: HandshakeExchange,
    event: HandshakeEvent,
    after: HandshakeExchange,
    action: HandshakeAction,
) -> bool {
    &&& after.info_hash == before.info_hash
    &&& match (before.state, event) {
        (HandshakeState::Unsent, HandshakeEvent::Start) => {
            &&& after.state == HandshakeState::Unsent
            &&& after.message == before.message
            &&& action matches HandshakeAction::Send(bytes) && bytes@ == before.message.wire()
        },
        (HandshakeState::Unsent, HandshakeEvent::Sent) => {
            &&& after.state == HandshakeState::AwaitingReply
            &&& after.message == before.message
            &&& action == HandshakeAction::Receive
        },
        (HandshakeState::AwaitingReply, HandshakeEvent::Reply(bytes)) => {
            &&& after.message.wire() == bytes@
            &&& match reply_verdict(bytes@, before.info_hash@) {
                Ok(id) => {
                    &&& after.state == HandshakeState::Validated
                    &&& action matches HandshakeAction::Accept(peer_id) && peer_id@ == id
                },
                Err(fault) => {
                    &&& after.state == HandshakeState::Rejected
                    &&& action == HandshakeAction::Reject(Error::Protocol(fault))
                },
            }
        },
        (HandshakeState::Unsent, HandshakeEvent::TransportFailed) | (
            HandshakeState::AwaitingReply,
            HandshakeEvent::TransportFailed,
        ) => {
            &&& after.state == HandshakeState::Rejected
            &&& after.message == before.message
            &&& action == HandshakeAction::Reject(Error::Io)
        },
        (HandshakeState::Unsent, HandshakeEvent::TimedOut) | (
            HandshakeState::AwaitingReply,
            HandshakeEvent::TimedOut,
        ) => {
            &&& after.state == HandshakeState::Rejected
            &&& after.message == before.message
            &&& action == HandshakeAction::Reject(Error::Timeout)
        },
        (HandshakeState::Validated, _) => {
            &&& after.state == HandshakeState::Validated
            &&& after.message == before.message
            &&& action == HandshakeAction::Reject(Error::Protocol(ProtocolError::OutOfTurn))
        },
        _ => {
            &&& after.state == HandshakeState::Rejected
            &&& after.message == before.message
            &&& action == HandshakeAction::Reject(Error::Protocol(ProtocolError::OutOfTurn))
        },
    }
}

impl HandshakeExchange {
    /// An exchange about the torrent with the given info-hash, with nothing
    /// sent yet.
    pub fn new(info_hash: [u8; 20], peer_id: [u8; 20]) -> (exchange: Self)
        ensures
            exchange.state == HandshakeState::Unsent,
            exchange.info_hash == info_hash,
            exchange.message.length == 19,
            exchange.message.bittorrent@ == protocol_tag(),
            exchange.message.reserved@ == Seq::new(8, |i: int| 0u8),
            exchange.message.info_hash == info_hash,
            exchange.message.peer_id == peer_id,
    {
        HandshakeExchange {
            state: HandshakeState::Unsent,
            message: Handshake::new(info_hash, peer_id),
            info_hash,
        }
    }

    /// Takes in what happened and says what to do next.
    pub fn step(&mut self, event: HandshakeEvent) -> (action: HandshakeAction)
        ensures
            handshake_step(*old(self), event, *final(self), action),
    {
        let out_of_turn = HandshakeAction::Reject(Error::Protocol(ProtocolError::OutOfTurn));
        match self.state {
            HandshakeState::Unsent => match event {
                HandshakeEvent::Start => HandshakeAction::Send(self.message.to_bytes()),
                HandshakeEvent::Sent => {
                    self.state = HandshakeState::AwaitingReply;
                    HandshakeAction::Receive
                },
                HandshakeEvent::TransportFailed => {
                    self.state = HandshakeState::Rejected;
                    HandshakeAction::Reject(Error::Io)
                },
                HandshakeEvent::TimedOut => {
                    self.state = HandshakeState::Rejected;
                    HandshakeAction::Reject(Error::Timeout)
                },
                HandshakeEvent::Reply(_) => {
                    self.state = HandshakeState::Rejected;
                    out_of_turn
                },
            },
            HandshakeState::AwaitingReply => match event {
                HandshakeEvent::Reply(bytes) => {
                    self.message = Handshake::from_bytes(&bytes);
                    match self.message.validate(&self.info_hash) {
                        Ok(peer_id) => {
                            self.state = HandshakeState::Validated;
                            HandshakeAction::Accept(peer_id)
                        },
                        Err(e) => {
                            self.state = HandshakeState::Rejected;
                            HandshakeAction::Reject(e)
                        },
                    }
                },
                HandshakeEvent::TransportFailed => {
                    self.state = HandshakeState::Rejected;
                    HandshakeAction::Reject(Error::Io)
                },
                HandshakeEvent::TimedOut => {
                    self.state = HandshakeState::Rejected;
                    HandshakeAction::Reject(Error::Timeout)
                },
                _ => {
                    self.state = HandshakeState::Rejected;
                    out_of_turn
                },
            },
            HandshakeState::Validated => out_of_turn,
            HandshakeState::Rejected => out_of_turn,
        }
    }
}

} // verus!
