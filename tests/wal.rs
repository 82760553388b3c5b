use blue::ipc::message::SetKey;
use blue::store::wal::{WalError, WriteAheadLog};

fn set(k: &str, v: &str) -> SetKey {
    SetKey { key: k.to_string(), value: v.to_string() }
}

#[test]
fn fresh_log_opens_with_next_sequence_one_and_replays_nothing() {
    let wal = WriteAheadLog::new("wal.log".to_string());
    let file = wal.header();
    assert_eq!(file, vec![b'B', b'L', b'U', b'E', 1, 3, 1, 0, 0, 0, 0, 0, 0, 0]);
    let opened = WriteAheadLog::open("wal.log".to_string(), &file).unwrap();
    assert_eq!(opened.next_sequence, 1);
    assert_eq!(opened.messages(&file).unwrap(), vec![]);
}

#[test]
fn bad_magic_is_corrupt() {
    let mut file = WriteAheadLog::new("w".to_string()).header();
    file[0] = b'X';
    assert_eq!(WriteAheadLog::open("w".to_string(), &file).unwrap_err(), WalError::CorruptLog);
    assert_eq!(WriteAheadLog::open("w".to_string(), b"BLU").unwrap_err(), WalError::CorruptLog);
}

#[test]
fn appended_writes_replay_in_order_with_sequences() {
    let mut wal = WriteAheadLog::new("w".to_string());
    let mut file = wal.header();
    let sets = vec![set("a", "1"), set("b", "2"), set("a", "3")];
    for s in &sets {
        file.extend(wal.append_message(s).unwrap());
    }
    assert_eq!(wal.next_sequence, 4);
    let reopened = WriteAheadLog::open("w".to_string(), &file).unwrap();
    assert_eq!(reopened.next_sequence, 4);
    let items = reopened.messages(&file).unwrap();
    assert_eq!(items, vec![(1, sets[0].clone()), (2, sets[1].clone()), (3, sets[2].clone())]);
}

#[test]
fn record_layout_is_length_payload_next_sequence() {
    let mut wal = WriteAheadLog::new("w".to_string());
    let record = wal.append_message(&set("a", "1")).unwrap();
    assert_eq!(record, vec![6, 0x0a, 1, b'a', 0x12, 1, b'1', 2, 0, 0, 0, 0, 0, 0, 0]);
}

#[test]
fn oversized_write_is_refused_and_log_unchanged() {
    let mut wal = WriteAheadLog::new("w".to_string());
    let big = "x".repeat(300);
    assert_eq!(wal.append_message(&set("k", &big)).unwrap_err(), WalError::RecordTooLarge);
    assert_eq!(wal.next_sequence, 1);
}

#[test]
fn sequence_overflow_is_refused() {
    let mut wal = WriteAheadLog::new("w".to_string());
    wal.next_sequence = u64::MAX;
    assert_eq!(wal.append_message(&set("k", "v")).unwrap_err(), WalError::SequenceOverflow);
}

#[test]
fn replicated_write_must_carry_next_sequence() {
    let mut wal = WriteAheadLog::new("w".to_string());
    assert_eq!(
        wal.append_replicated(&set("k", "v"), 2).unwrap_err(),
        WalError::SequenceMismatch
    );
    assert!(wal.append_replicated(&set("k", "v"), 1).is_ok());
    assert_eq!(wal.next_sequence, 2);
}

#[test]
fn truncated_record_is_corrupt() {
    let mut wal = WriteAheadLog::new("w".to_string());
    let mut file = wal.header();
    file.extend(wal.append_message(&set("a", "1")).unwrap());
    file.extend(wal.append_message(&set("b", "2")).unwrap());
    let cut = &file[..file.len() - 3];
    let reopened = WriteAheadLog { path: "w".to_string(), next_sequence: 3 };
    assert_eq!(reopened.messages(cut).unwrap_err(), WalError::CorruptLog);
}

#[test]
fn undecodable_payload_is_corrupt() {
    let mut wal = WriteAheadLog::new("w".to_string());
    let mut file = wal.header();
    file.extend(wal.append_message(&set("a", "1")).unwrap());
    // the key's bytes are no longer UTF-8
    file[14 + 3] = 0xff;
    assert_eq!(wal.messages(&file).unwrap_err(), WalError::CorruptLog);
}
