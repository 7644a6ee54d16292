use sbus::{
    next_sequence_number, Message, PendingTable, ReceiverAction, SBusError, TelegramAttribute,
};

fn response_datagram(sequence_number: u16, body: Vec<u8>) -> Vec<u8> {
    Message {
        sequence_number,
        telegram_attribute: TelegramAttribute::Response,
        body,
    }
    .encode_to_bytes()
    .unwrap()
}

#[test]
fn sequence_counter_increments_and_wraps() {
    let mut counter: u16 = 0;
    assert_eq!(next_sequence_number(&mut counter), 0);
    assert_eq!(next_sequence_number(&mut counter), 1);
    let mut counter: u16 = u16::MAX;
    assert_eq!(next_sequence_number(&mut counter), u16::MAX);
    assert_eq!(next_sequence_number(&mut counter), 0);
}

#[test]
fn reordered_replies_reach_their_own_awaiters() {
    let mut pending = PendingTable::new();
    pending.register(5, 100);
    pending.register(6, 200);

    // The reply to the later request arrives first.
    match pending.on_datagram(&response_datagram(6, vec![0, 0, 0, 7])) {
        ReceiverAction::Deliver { token, message } => {
            assert_eq!(token, 200);
            assert_eq!(message.sequence_number, 6);
            assert_eq!(message.body, vec![0, 0, 0, 7]);
        }
        ReceiverAction::Fatal { .. } => panic!("expected delivery"),
    }
    match pending.on_datagram(&response_datagram(5, vec![0, 0, 0, 9])) {
        ReceiverAction::Deliver { token, message } => {
            assert_eq!(token, 100);
            assert_eq!(message.sequence_number, 5);
            assert_eq!(message.body, vec![0, 0, 0, 9]);
        }
        ReceiverAction::Fatal { .. } => panic!("expected delivery"),
    }
}

#[test]
fn decode_failure_fans_out_to_every_awaiter() {
    let mut pending = PendingTable::new();
    pending.register(5, 100);
    pending.register(6, 200);

    match pending.on_datagram(&[0xDE, 0xAD]) {
        ReceiverAction::Fatal { error, mut tokens } => {
            assert!(matches!(error, SBusError::InvalidResponse(_)));
            tokens.sort();
            assert_eq!(tokens, vec![100, 200]);
        }
        ReceiverAction::Deliver { .. } => panic!("expected fatal fan-out"),
    }
}

#[test]
fn tampered_crc_fans_out_checksum_mismatch() {
    let mut pending = PendingTable::new();
    pending.register(5, 100);
    let mut datagram = response_datagram(5, vec![1, 2]);
    let last = datagram.len() - 1;
    datagram[last] ^= 0xFF;
    match pending.on_datagram(&datagram) {
        ReceiverAction::Fatal { error, tokens } => {
            assert_eq!(
                error,
                SBusError::InvalidResponse("Checksum mismatch".to_string())
            );
            assert_eq!(tokens, vec![100]);
        }
        ReceiverAction::Deliver { .. } => panic!("expected fatal fan-out"),
    }
}

#[test]
fn unknown_sequence_number_is_fatal() {
    let mut pending = PendingTable::new();
    pending.register(5, 100);
    match pending.on_datagram(&response_datagram(9, vec![])) {
        ReceiverAction::Fatal { error, tokens } => {
            assert_eq!(
                error,
                SBusError::InvalidResponse("The server sent an unexpected response".to_string())
            );
            assert_eq!(tokens, vec![100]);
        }
        ReceiverAction::Deliver { .. } => panic!("expected fatal"),
    }
}

#[test]
fn late_reply_does_not_reach_an_unrelated_awaiter() {
    // One caller keeps its slot while another's reply arrives: the
    // delivery goes to the reply's own registered token, and the
    // other slot stays untouched for its own reply.
    let mut pending = PendingTable::new();
    pending.register(5, 100);
    pending.register(6, 200);
    match pending.on_datagram(&response_datagram(5, vec![])) {
        ReceiverAction::Deliver { token, .. } => assert_eq!(token, 100),
        ReceiverAction::Fatal { .. } => panic!("expected delivery"),
    }
    match pending.on_datagram(&response_datagram(6, vec![])) {
        ReceiverAction::Deliver { token, .. } => assert_eq!(token, 200),
        ReceiverAction::Fatal { .. } => panic!("expected delivery"),
    }
}

#[test]
fn cancelled_slot_is_reclaimed() {
    let mut pending = PendingTable::new();
    pending.register(5, 100);
    pending.register(6, 200);
    assert_eq!(pending.cancel(5), Some(100));
    assert_eq!(pending.cancel(5), None);
    // A late reply to the cancelled number can no longer be matched;
    // the remaining awaiter is reported for fan-out, never handed the
    // stale reply.
    match pending.on_datagram(&response_datagram(5, vec![])) {
        ReceiverAction::Fatal { error, tokens } => {
            assert_eq!(
                error,
                SBusError::InvalidResponse("The server sent an unexpected response".to_string())
            );
            assert_eq!(tokens, vec![200]);
        }
        ReceiverAction::Deliver { .. } => panic!("stale reply must not be delivered"),
    }
}

#[test]
fn register_replaces_stale_awaiter() {
    let mut pending = PendingTable::new();
    pending.register(5, 100);
    pending.register(5, 300);
    match pending.on_datagram(&response_datagram(5, vec![])) {
        ReceiverAction::Deliver { token, .. } => assert_eq!(token, 300),
        ReceiverAction::Fatal { .. } => panic!("expected delivery"),
    }
}
