use torrent_wire::{
    check_reply, Error, Handshake, HandshakeAction, HandshakeEvent, HandshakeExchange,
    HandshakeState, ProtocolError,
};

const INFO_HASH: [u8; 20] = [
    166, 82, 206, 214, 99, 155, 215, 107, 12, 132, 164, 243, 187, 187, 230, 197, 12, 210, 188, 149,
];
const OUR_ID: [u8; 20] = *b"00112233445566778899";
const THEIR_ID: [u8; 20] = *b"-XY0001-abcdefghijkl";

fn reply_bytes() -> [u8; 68] {
    let mut bytes = [0u8; 68];
    bytes[0] = 19;
    bytes[1..20].copy_from_slice(b"BitTorrent protocol");
    bytes[28..48].copy_from_slice(&INFO_HASH);
    bytes[48..68].copy_from_slice(&THEIR_ID);
    bytes
}

#[test]
fn a_new_handshake_names_the_protocol() {
    let message = Handshake::new(INFO_HASH, OUR_ID);
    assert_eq!(message.length, 19);
    assert_eq!(&message.bittorrent, b"BitTorrent protocol");
    assert_eq!(message.reserved, [0u8; 8]);
    assert_eq!(message.info_hash, INFO_HASH);
    assert_eq!(message.peer_id, OUR_ID);
}

#[test]
fn a_handshake_is_68_bytes_in_the_order_of_the_wire() {
    let bytes = Handshake::new(INFO_HASH, OUR_ID).to_bytes();
    assert_eq!(bytes.len(), 68);
    assert_eq!(bytes[0], 19);
    assert_eq!(&bytes[1..20], b"BitTorrent protocol");
    assert_eq!(&bytes[20..28], &[0u8; 8]);
    assert_eq!(&bytes[28..48], &INFO_HASH);
    assert_eq!(&bytes[48..68], &OUR_ID);
}

#[test]
fn a_handshake_reads_back_from_its_bytes() {
    let message = Handshake::new(INFO_HASH, OUR_ID);
    assert_eq!(Handshake::from_bytes(&message.to_bytes()), message);
    let mut bytes = [0u8; 68];
    for i in 0..68 {
        bytes[i] = i as u8;
    }
    let odd = Handshake::from_bytes(&bytes);
    assert_eq!(odd.length, 0);
    assert_eq!(odd.bittorrent.to_vec(), (1u8..20).collect::<Vec<u8>>());
    assert_eq!(odd.reserved.to_vec(), (20u8..28).collect::<Vec<u8>>());
    assert_eq!(odd.info_hash.to_vec(), (28u8..48).collect::<Vec<u8>>());
    assert_eq!(odd.peer_id.to_vec(), (48u8..68).collect::<Vec<u8>>());
    assert_eq!(odd.to_bytes(), bytes);
}

#[test]
fn a_good_reply_gives_the_peer_id() {
    assert_eq!(check_reply(&reply_bytes(), &INFO_HASH), Ok(THEIR_ID));
    assert_eq!(Handshake::from_bytes(&reply_bytes()).validate(&INFO_HASH), Ok(THEIR_ID));
}

#[test]
fn reserved_bytes_of_a_reply_may_be_set() {
    let mut bytes = reply_bytes();
    bytes[25] = 0x10;
    bytes[27] = 0x04;
    assert_eq!(check_reply(&bytes, &INFO_HASH), Ok(THEIR_ID));
}

#[test]
fn a_reply_with_length_20_is_refused() {
    let mut bytes = reply_bytes();
    bytes[0] = 20;
    assert_eq!(
        check_reply(&bytes, &INFO_HASH),
        Err(Error::Protocol(ProtocolError::BadLength { actual: 20 }))
    );
}

#[test]
fn a_reply_with_another_tag_is_refused() {
    let mut bytes = reply_bytes();
    bytes[1..20].copy_from_slice(b"BitTorrent protocoL");
    assert_eq!(check_reply(&bytes, &INFO_HASH), Err(Error::Protocol(ProtocolError::BadProtocolTag)));
    let mut bytes = reply_bytes();
    bytes[1] = b'b';
    assert_eq!(check_reply(&bytes, &INFO_HASH), Err(Error::Protocol(ProtocolError::BadProtocolTag)));
}

#[test]
fn a_reply_about_another_torrent_is_refused() {
    let mut bytes = reply_bytes();
    bytes[47] ^= 1;
    assert_eq!(
        check_reply(&bytes, &INFO_HASH),
        Err(Error::Protocol(ProtocolError::InfoHashMismatch))
    );
}

#[test]
fn the_first_fault_is_the_one_reported() {
    let mut bytes = reply_bytes();
    bytes[0] = 0;
    bytes[1] = 0;
    bytes[28] ^= 1;
    assert_eq!(
        check_reply(&bytes, &INFO_HASH),
        Err(Error::Protocol(ProtocolError::BadLength { actual: 0 }))
    );
}

#[test]
fn an_exchange_that_goes_well() {
    let mut exchange = HandshakeExchange::new(INFO_HASH, OUR_ID);
    assert_eq!(exchange.state, HandshakeState::Unsent);
    let action = exchange.step(HandshakeEvent::Start);
    assert_eq!(action, HandshakeAction::Send(Handshake::new(INFO_HASH, OUR_ID).to_bytes()));
    assert_eq!(exchange.state, HandshakeState::Unsent);
    let action = exchange.step(HandshakeEvent::Sent);
    assert_eq!(action, HandshakeAction::Receive);
    assert_eq!(exchange.state, HandshakeState::AwaitingReply);
    let action = exchange.step(HandshakeEvent::Reply(reply_bytes()));
    assert_eq!(action, HandshakeAction::Accept(THEIR_ID));
    assert_eq!(exchange.state, HandshakeState::Validated);
    assert_eq!(exchange.message.peer_id, THEIR_ID);
    assert_eq!(exchange.message.to_bytes(), reply_bytes());
}

fn exchange_awaiting_reply() -> HandshakeExchange {
    let mut exchange = HandshakeExchange::new(INFO_HASH, OUR_ID);
    exchange.step(HandshakeEvent::Start);
    exchange.step(HandshakeEvent::Sent);
    exchange
}

#[test]
fn an_exchange_with_a_bad_reply() {
    let mut exchange = exchange_awaiting_reply();
    let mut bytes = reply_bytes();
    bytes[0] = 20;
    let action = exchange.step(HandshakeEvent::Reply(bytes));
    assert_eq!(
        action,
        HandshakeAction::Reject(Error::Protocol(ProtocolError::BadLength { actual: 20 }))
    );
    assert_eq!(exchange.state, HandshakeState::Rejected);

    let mut exchange = exchange_awaiting_reply();
    let mut bytes = reply_bytes();
    bytes[30] ^= 0x80;
    let action = exchange.step(HandshakeEvent::Reply(bytes));
    assert_eq!(action, HandshakeAction::Reject(Error::Protocol(ProtocolError::InfoHashMismatch)));
    assert_eq!(exchange.state, HandshakeState::Rejected);
}

#[test]
fn an_exchange_over_a_transport_that_fails() {
    let mut exchange = exchange_awaiting_reply();
    assert_eq!(exchange.step(HandshakeEvent::TransportFailed), HandshakeAction::Reject(Error::Io));
    assert_eq!(exchange.state, HandshakeState::Rejected);

    let mut exchange = HandshakeExchange::new(INFO_HASH, OUR_ID);
    exchange.step(HandshakeEvent::Start);
    assert_eq!(exchange.step(HandshakeEvent::TransportFailed), HandshakeAction::Reject(Error::Io));
    assert_eq!(exchange.state, HandshakeState::Rejected);
}

#[test]
fn an_exchange_that_takes_too_long() {
    let mut exchange = exchange_awaiting_reply();
    assert_eq!(exchange.step(HandshakeEvent::TimedOut), HandshakeAction::Reject(Error::Timeout));
    assert_eq!(exchange.state, HandshakeState::Rejected);

    let mut exchange = HandshakeExchange::new(INFO_HASH, OUR_ID);
    exchange.step(HandshakeEvent::Start);
    assert_eq!(exchange.step(HandshakeEvent::TimedOut), HandshakeAction::Reject(Error::Timeout));
    assert_eq!(exchange.state, HandshakeState::Rejected);
}

#[test]
fn events_out_of_turn_are_refused() {
    let out_of_turn = HandshakeAction::Reject(Error::Protocol(ProtocolError::OutOfTurn));

    let mut exchange = HandshakeExchange::new(INFO_HASH, OUR_ID);
    assert_eq!(exchange.step(HandshakeEvent::Reply(reply_bytes())), out_of_turn);
    assert_eq!(exchange.state, HandshakeState::Rejected);
    assert_eq!(exchange.step(HandshakeEvent::Start), out_of_turn);
    assert_eq!(exchange.state, HandshakeState::Rejected);

    let mut exchange = exchange_awaiting_reply();
    assert_eq!(exchange.step(HandshakeEvent::Start), out_of_turn);
    assert_eq!(exchange.state, HandshakeState::Rejected);

    let mut exchange = exchange_awaiting_reply();
    assert_eq!(exchange.step(HandshakeEvent::Sent), out_of_turn);
    assert_eq!(exchange.state, HandshakeState::Rejected);

    let mut exchange = exchange_awaiting_reply();
    exchange.step(HandshakeEvent::Reply(reply_bytes()));
    assert_eq!(exchange.step(HandshakeEvent::Reply(reply_bytes())), out_of_turn);
    assert_eq!(exchange.state, HandshakeState::Validated);
    assert_eq!(exchange.step(HandshakeEvent::TransportFailed), out_of_turn);
    assert_eq!(exchange.state, HandshakeState::Validated);
}

#[test]
fn reading_is_asked_for_only_after_writing() {
    let mut exchange = HandshakeExchange::new(INFO_HASH, OUR_ID);
    let first = exchange.step(HandshakeEvent::Start);
    let again = exchange.step(HandshakeEvent::Start);
    assert_eq!(first, again);
    assert!(matches!(first, HandshakeAction::Send(_)));
    assert_eq!(exchange.state, HandshakeState::Unsent);
    assert_eq!(exchange.step(HandshakeEvent::Sent), HandshakeAction::Receive);
}
