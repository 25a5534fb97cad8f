use raft_records::codec::{DecodeError, Field};
use raft_records::records::{
    ConfChange, ConfChangeType, ConfState, Entry, EntryType, HardState, Message, MessageType,
    Snapshot, SnapshotMetadata,
};

fn sample_entry(index: u64) -> Entry {
    let mut e = Entry::new();
    e.entry_type = EntryType::EntryConfChange;
    e.term = 7;
    e.index = index;
    e.data = vec![1, 2, 3];
    e.context = b"ctx".to_vec();
    e
}

fn sample_snapshot() -> Snapshot {
    let mut s = Snapshot::new();
    s.data = b"state".to_vec();
    s.metadata.index = 42;
    s.metadata.term = 5;
    s.metadata.conf_state.nodes = vec![1, 2, 3];
    s.metadata.conf_state.learners = vec![9];
    s
}

fn sample_message() -> Message {
    let mut m = Message::new();
    m.msg_type = MessageType::MsgRequestPreVoteResponse;
    m.to = 2;
    m.from = 1;
    m.term = 9;
    m.log_term = 8;
    m.index = 100;
    m.entries = vec![sample_entry(101), Entry::new(), sample_entry(102)];
    m.commit = 99;
    m.snapshot = sample_snapshot();
    m.reject = true;
    m.reject_hint = 77;
    m.context = vec![0xff];
    m
}

#[test]
fn entry_round_trip() {
    for e in [Entry::new(), sample_entry(1)] {
        assert_eq!(Entry::deserialize(&e.serialize()), Ok(e));
    }
}

#[test]
fn default_entry_encoding_is_exact() {
    let b = Entry::new().serialize();
    assert_eq!(b, vec![0u8; 33]);
}

#[test]
fn hard_state_encoding_is_exact() {
    let h = HardState { term: 1, vote: 2, commit: 0x0102 };
    let b = h.serialize();
    let mut want = vec![1, 0, 0, 0, 0, 0, 0, 0, 2, 0, 0, 0, 0, 0, 0, 0];
    want.extend_from_slice(&[2, 1, 0, 0, 0, 0, 0, 0]);
    assert_eq!(b, want);
    assert_eq!(HardState::deserialize(&b), Ok(h));
    assert_eq!(HardState::deserialize(&HardState::new().serialize()), Ok(HardState::new()));
}

#[test]
fn conf_state_round_trip_keeps_order() {
    let mut c = ConfState::new();
    c.nodes = vec![3, 1, 2];
    c.learners = vec![7];
    assert_eq!(ConfState::deserialize(&c.serialize()), Ok(c));
    assert_eq!(ConfState::deserialize(&ConfState::new().serialize()), Ok(ConfState::new()));
}

#[test]
fn snapshot_round_trip() {
    let s = sample_snapshot();
    assert_eq!(Snapshot::deserialize(&s.serialize()), Ok(s.clone()));
    assert_eq!(Snapshot::deserialize(&Snapshot::new().serialize()), Ok(Snapshot::new()));
    let m = s.metadata;
    assert_eq!(SnapshotMetadata::deserialize(&m.serialize()), Ok(m));
}

#[test]
fn conf_change_round_trip() {
    let mut c = ConfChange::new();
    c.id = 12;
    c.change_type = ConfChangeType::AddLearnerNode;
    c.node_id = 4;
    c.context = b"why".to_vec();
    assert_eq!(ConfChange::deserialize(&c.serialize()), Ok(c));
    assert_eq!(ConfChange::deserialize(&ConfChange::new().serialize()), Ok(ConfChange::new()));
}

#[test]
fn message_round_trip() {
    let m = sample_message();
    assert_eq!(Message::deserialize(&m.serialize()), Ok(m));
    assert_eq!(Message::deserialize(&Message::new().serialize()), Ok(Message::new()));
}

#[test]
fn every_message_type_round_trips() {
    let kinds = [
        MessageType::MsgHup,
        MessageType::MsgBeat,
        MessageType::MsgPropose,
        MessageType::MsgAppend,
        MessageType::MsgAppendResponse,
        MessageType::MsgRequestVote,
        MessageType::MsgRequestVoteResponse,
        MessageType::MsgSnapshot,
        MessageType::MsgHeartbeat,
        MessageType::MsgHeartbeatResponse,
        MessageType::MsgUnreachable,
        MessageType::MsgSnapStatus,
        MessageType::MsgCheckQuorum,
        MessageType::MsgTransferLeader,
        MessageType::MsgTimeoutNow,
        MessageType::MsgReadIndex,
        MessageType::MsgReadIndexResp,
        MessageType::MsgRequestPreVote,
        MessageType::MsgRequestPreVoteResponse,
    ];
    for (i, k) in kinds.iter().enumerate() {
        assert_eq!(k.code() as usize, i);
        assert_eq!(MessageType::from_code(i as u8), Some(*k));
        let mut m = Message::new();
        m.msg_type = *k;
        assert_eq!(Message::deserialize(&m.serialize()), Ok(m));
    }
    assert_eq!(MessageType::from_code(19), None);
}

#[test]
fn truncated_input_names_the_field() {
    assert_eq!(Entry::deserialize(&[]), Err(DecodeError::Truncated(Field::EntryType)));
    assert_eq!(Entry::deserialize(&[0, 1, 2]), Err(DecodeError::Truncated(Field::Term)));
    let b = sample_entry(1).serialize();
    assert_eq!(Entry::deserialize(&b[..b.len() - 1]), Err(DecodeError::Truncated(Field::Context)));
    // tag, five integers and the entry count, then the first entry's tag
    let m = sample_message().serialize();
    assert_eq!(Message::deserialize(&m[..50]), Err(DecodeError::Truncated(Field::Term)));
    assert_eq!(Message::deserialize(&m[..49]), Err(DecodeError::Truncated(Field::EntryType)));
    assert_eq!(HardState::deserialize(&[0; 20]), Err(DecodeError::Truncated(Field::Commit)));
}

#[test]
fn unknown_tags_are_refused() {
    let mut b = Entry::new().serialize();
    b[0] = 5;
    assert_eq!(Entry::deserialize(&b), Err(DecodeError::UnknownTag(Field::EntryType, 5)));
    let mut m = Message::new().serialize();
    m[0] = 19;
    assert_eq!(Message::deserialize(&m), Err(DecodeError::UnknownTag(Field::MsgType, 19)));
    let mut c = ConfChange::new().serialize();
    c[8] = 3;
    assert_eq!(ConfChange::deserialize(&c), Err(DecodeError::UnknownTag(Field::ChangeType, 3)));
}

#[test]
fn bad_bool_is_refused() {
    let mut m = Message::new().serialize();
    // tag, five integers, entry count, commit, snapshot (data, nodes, learners, index, term)
    let at = 1 + 5 * 8 + 8 + 8 + 5 * 8;
    assert_eq!(m[at], 0);
    m[at] = 2;
    assert_eq!(Message::deserialize(&m), Err(DecodeError::UnknownTag(Field::Reject, 2)));
}

#[test]
fn trailing_bytes_are_refused() {
    let mut b = HardState::new().serialize();
    b.push(0);
    assert_eq!(HardState::deserialize(&b), Err(DecodeError::TrailingBytes));
    let mut e = Entry::new().serialize();
    e.push(1);
    assert_eq!(Entry::deserialize(&e), Err(DecodeError::TrailingBytes));
}

#[test]
fn oversized_length_is_truncation() {
    let mut b = vec![0u8; 17];
    b.extend_from_slice(&u64::MAX.to_le_bytes());
    assert_eq!(Entry::deserialize(&b), Err(DecodeError::Truncated(Field::Data)));
    let mut l = u64::MAX.to_le_bytes().to_vec();
    l.extend_from_slice(&[0; 8]);
    assert_eq!(ConfState::deserialize(&l), Err(DecodeError::Truncated(Field::Nodes)));
}

#[test]
fn tag_codes_are_fixed() {
    assert_eq!(EntryType::EntryNormal.code(), 0);
    assert_eq!(EntryType::EntryConfChange.code(), 1);
    assert_eq!(EntryType::from_code(2), None);
    assert_eq!(ConfChangeType::RemoveNode.code(), 1);
    assert_eq!(ConfChangeType::from_code(2), Some(ConfChangeType::AddLearnerNode));
    assert_eq!(ConfChangeType::from_code(3), None);
}
