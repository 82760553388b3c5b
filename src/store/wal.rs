//! The write-ahead log, as bytes.
//!
//! A log file is a header (the tag "BLUE", a format version and a payload
//! version), an 8-byte little-endian snapshot of the next sequence, then one
//! record per logged write: a 1-byte payload length, the payload (the write,
//! protobuf-encoded) and the 8-byte next sequence after the write. So the
//! 8 bytes before each record hold the sequence that record was given.
//! Reading and writing the file is left to the caller: these functions say
//! which bytes to write and what bytes read back mean.

use vstd::prelude::*;
use vstd::bytes::{
    spec_u64_to_le_bytes, spec_u64_from_le_bytes, u64_to_le_bytes, u64_from_le_bytes,
    lemma_auto_spec_u64_to_from_le_bytes,
};
use crate::ipc::message::{SetKey, SetKeyModel, set_bytes, set_decode, lemma_set_round_trip};
use crate::ipc::wire::text_ok;

verus! {

pub const WAL_VERSION: u8 = 1;

pub const PAYLOAD_VERSION: u8 = 3;

/// The length of the tag and the two versions.
pub const HEADER_LEN: usize = 6;

/// The largest payload a record can hold: its length takes one byte.
pub const MAX_PAYLOAD_LEN: usize = 255;

/// Why a log could not be opened, read or written.
#[derive(Debug, Clone, Copy, PartialEq, Eq)]
pub enum WalError {
    /// The tag does not match, or the file is cut short or holds an undecodable record.
    CorruptLog,
    /// The encoded write does not fit in a record.
    RecordTooLarge,
    /// The next sequence would not fit in 64 bits.
    SequenceOverflow,
    /// A replicated write does not carry the sequence this log would give next.
    SequenceMismatch,
}

/// One logged write: its sequence and the write.
pub type WalItem = (u64, SetKey);

pub open spec fn magic() -> Seq<u8> {
    seq![0x42u8, 0x4cu8, 0x55u8, 0x45u8]
}

pub open spec fn header_bytes(next_sequence: u64) -> Seq<u8> {
    magic() + seq![WAL_VERSION, PAYLOAD_VERSION] + spec_u64_to_le_bytes(next_sequence)
}

pub open spec fn record_bytes(payload: Seq<u8>, next_sequence: u64) -> Seq<u8> {
    seq![payload.len() as u8] + payload + spec_u64_to_le_bytes(next_sequence)
}

/// What opening a log whose file holds `c` gives: its next sequence, read from
/// the last 8 bytes. A file without the tag, too short to hold a header and a
/// snapshot, or whose snapshot is 0, is corrupt.
pub open spec fn open_spec(c: Seq<u8>) -> Result<u64, WalError> {
    if c.len() < HEADER_LEN + 8 || c.subrange(0, 4) != magic() {
        Err(WalError::CorruptLog)
    } else {
        let n = spec_u64_from_le_bytes(c.subrange(c.len() - 8, c.len() as int));
        if n == 0 {
            Err(WalError::CorruptLog)
        } else {
            Ok(n)
        }
    }
}

/// The records of `s`, where `s` starts with the 8-byte sequence of its first
/// record and ends with the 8-byte snapshot after the last.
pub open spec fn records_from(s: Seq<u8>) -> Option<Seq<(u64, SetKeyModel)>>
    decreases s.len(),
{
    if s.len() < 9 {
        None
    } else {
        let q = spec_u64_from_le_bytes(s.subrange(0, 8));
        let n = s[8] as int;
        if s.len() < 9 + n {
            None
        } else {
            match set_decode(s.subrange(9, 9 + n)) {
                None => None,
                Some(m) => {
                    let rest = s.subrange(9 + n, s.len() as int);
                    if rest.len() == 8 {
                        Some(seq![(q, m)])
                    } else {
                        match records_from(rest) {
                            Some(es) => Some(seq![(q, m)] + es),
                            None => None,
                        }
                    }
                },
            }
        }
    }
}

/// The writes that a log file holding `c` replays, where the log's next sequence
/// is `next_sequence`.
pub open spec fn replay_spec(next_sequence: u64, c: Seq<u8>) -> Option<Seq<(u64, SetKeyModel)>> {
    if next_sequence == 1 {
        Some(seq![])
    } else if c.len() < HEADER_LEN {
        None
    } else {
        records_from(c.subrange(HEADER_LEN as int, c.len() as int))
    }
}

pub open spec fn item_models(items: Seq<WalItem>) -> Seq<(u64, SetKeyModel)> {
    items.map_values(|it: WalItem| (it.0, it.1@))
}

/// The write-ahead log of a node: where it lives and the sequence it gives next.
#[derive(Debug, Clone)]
pub struct WriteAheadLog {
    pub path: String,
    pub next_sequence: u64,
}

impl WriteAheadLog {
    pub open spec fn wf(&self) -> bool {
        self.next_sequence >= 1
    }

    /// A fresh log at `path`; its file is to hold `header()`.
    pub fn new(path: String) -> (r: WriteAheadLog)
        ensures
            r.path@ == path@,
            r.next_sequence == 1,
            r.wf(),
    {
        WriteAheadLog { path, next_sequence: 1 }
    }

    /// The bytes a new log file starts with.
    pub fn header(&self) -> (r: Vec<u8>)
        ensures
            r@ == header_bytes(self.next_sequence),
    {
        let mut out: Vec<u8> = vec![0x42u8, 0x4cu8, 0x55u8, 0x45u8, WAL_VERSION, PAYLOAD_VERSION];
        let tail = u64_to_le_bytes(self.next_sequence);
        out.extend_from_slice(tail.as_slice());
        proof {
            assert(out@ =~= header_bytes(self.next_sequence));
        }
        out
    }

    /// Opens the log at `path` whose file holds `contents`.
    pub fn open(path: String, contents: &[u8]) -> (r: Result<WriteAheadLog, WalError>)
        ensures
            match open_spec(contents@) {
                Ok(n) => r matches Ok(w) && w.next_sequence == n && w.path@ == path@ && w.wf(),
                Err(e) => r == Err::<WriteAheadLog, WalError>(e),
            },
    {
        let len = contents.len();
        if len < HEADER_LEN + 8 {
            return Err(WalError::CorruptLog);
        }
        if !(contents[0] == 0x42u8 && contents[1] == 0x4cu8 && contents[2] == 0x55u8
            && contents[3] == 0x45u8) {
            proof {
                assert(contents@.subrange(0, 4) != magic()) by {
                    if contents@.subrange(0, 4) == magic() {
                        assert(contents@.subrange(0, 4)[0] == contents@[0]);
                        assert(contents@.subrange(0, 4)[1] == contents@[1]);
                        assert(contents@.subrange(0, 4)[2] == contents@[2]);
                        assert(contents@.subrange(0, 4)[3] == contents@[3]);
                    }
                }
            }
            return Err(WalError::CorruptLog);
        }
        proof {
            assert(contents@.subrange(0, 4) =~= magic());
        }
        let n = u64_from_le_bytes(vstd::slice::slice_subrange(contents, len - 8, len));
        if n == 0 {
            return Err(WalError::CorruptLog);
        }
        Ok(WriteAheadLog { path, next_sequence: n })
    }

    /// Logs `set` under the next sequence, and gives the bytes to append to the file.
    pub fn append_message(&mut self, set: &SetKey) -> (r: Result<Vec<u8>, WalError>)
        requires
            old(self).wf(),
        ensures
            final(self).path == old(self).path,
            final(self).wf(),
            set_bytes(set@).len() > MAX_PAYLOAD_LEN ==> r == Err::<Vec<u8>, WalError>(
                WalError::RecordTooLarge,
            ) && *final(self) == *old(self),
            set_bytes(set@).len() <= MAX_PAYLOAD_LEN && old(self).next_sequence == u64::MAX ==> r
                == Err::<Vec<u8>, WalError>(WalError::SequenceOverflow) && *final(self) == *old(
                self,
            ),
            set_bytes(set@).len() <= MAX_PAYLOAD_LEN && old(self).next_sequence < u64::MAX ==> r
                is Ok && final(self).next_sequence == old(self).next_sequence + 1 && r->Ok_0@
                == record_bytes(set_bytes(set@), final(self).next_sequence),
    {
        let payload = set.encode();
        if payload.len() > MAX_PAYLOAD_LEN {
            return Err(WalError::RecordTooLarge);
        }
        if self.next_sequence == u64::MAX {
            return Err(WalError::SequenceOverflow);
        }
        self.next_sequence = self.next_sequence + 1;
        let mut out: Vec<u8> = vec![payload.len() as u8];
        out.extend_from_slice(payload.as_slice());
        let tail = u64_to_le_bytes(self.next_sequence);
        out.extend_from_slice(tail.as_slice());
        proof {
            assert(out@ =~= record_bytes(set_bytes(set@), self.next_sequence));
        }
        Ok(out)
    }

    /// Logs a write that the leader gave `sequence`; it must be the sequence
    /// this log gives next, so that the log stays gap-free.
    pub fn append_replicated(&mut self, set: &SetKey, sequence: u64) -> (r: Result<
        Vec<u8>,
        WalError,
    >)
        requires
            old(self).wf(),
        ensures
            sequence != old(self).next_sequence ==> r == Err::<Vec<u8>, WalError>(
                WalError::SequenceMismatch,
            ) && *final(self) == *old(self),
            sequence == old(self).next_sequence ==> {
                &&& final(self).path == old(self).path
                &&& final(self).wf()
                &&& set_bytes(set@).len() > MAX_PAYLOAD_LEN ==> r == Err::<Vec<u8>, WalError>(
                    WalError::RecordTooLarge,
                ) && *final(self) == *old(self)
                &&& set_bytes(set@).len() <= MAX_PAYLOAD_LEN && sequence == u64::MAX ==> r
                    == Err::<Vec<u8>, WalError>(WalError::SequenceOverflow) && *final(self)
                    == *old(self)
                &&& set_bytes(set@).len() <= MAX_PAYLOAD_LEN && sequence < u64::MAX ==> r is Ok
                    && final(self).next_sequence == sequence + 1 && r->Ok_0@ == record_bytes(
                    set_bytes(set@),
                    final(self).next_sequence,
                )
            },
    {
        if sequence != self.next_sequence {
            return Err(WalError::SequenceMismatch);
        }
        self.append_message(set)
    }

    /// Replays the log whose file holds `contents`: every logged write with its
    /// sequence, in order.
    pub fn messages(&self, contents: &[u8]) -> (r: Result<Vec<WalItem>, WalError>)
        ensures
            match replay_spec(self.next_sequence, contents@) {
                Some(items) => r matches Ok(v) && item_models(v@) == items,
                None => r == Err::<Vec<WalItem>, WalError>(WalError::CorruptLog),
            },
    {
        let mut out: Vec<WalItem> = Vec::new();
        if self.next_sequence == 1 {
            proof {
                assert(item_models(out@) =~= Seq::<(u64, SetKeyModel)>::empty());
            }
            return Ok(out);
        }
        let len = contents.len();
        if len < HEADER_LEN {
            return Err(WalError::CorruptLog);
        }
        let ghost whole = contents@.subrange(HEADER_LEN as int, len as int);
        let mut pos: usize = HEADER_LEN;
        proof {
            assert(item_models(out@) =~= Seq::<(u64, SetKeyModel)>::empty());
            assert(contents@.subrange(pos as int, len as int) == whole);
            assert forall|es: Seq<(u64, SetKeyModel)>| Seq::<(u64, SetKeyModel)>::empty() + es
                =~= es by {}
        }
        loop
            invariant
                HEADER_LEN <= pos <= len,
                len == contents@.len(),
                whole == contents@.subrange(HEADER_LEN as int, len as int),
                replay_spec(self.next_sequence, contents@) == records_from(whole),
                records_from(whole) == match records_from(contents@.subrange(pos as int, len as int)) {
                    Some(es) => Some(item_models(out@) + es),
                    None => None,
                },
            decreases len - pos,
        {
            let ghost s = contents@.subrange(pos as int, len as int);
            if len - pos < 9 {
                return Err(WalError::CorruptLog);
            }
            let q = u64_from_le_bytes(vstd::slice::slice_subrange(contents, pos, pos + 8));
            let n = contents[pos + 8] as usize;
            proof {
                assert(contents@.subrange(pos as int, pos + 8) =~= s.subrange(0, 8));
                assert(s[8] == contents@[pos + 8]);
            }
            if len - pos - 9 < n {
                return Err(WalError::CorruptLog);
            }
            let payload = vstd::slice::slice_subrange(contents, pos + 9, pos + 9 + n);
            proof {
                assert(payload@ =~= s.subrange(9, 9 + n));
            }
            let m = match SetKey::decode(payload) {
                Some(m) => m,
                None => return Err(WalError::CorruptLog),
            };
            let ghost old_out = out@;
            out.push((q, m));
            proof {
                assert(item_models(out@) =~= item_models(old_out) + seq![(q, m@)]);
                assert(contents@.subrange((pos + 9 + n) as int, len as int) =~= s.subrange(
                    9 + n,
                    s.len() as int,
                ));
            }
            pos = pos + 9 + n;
            if len - pos == 8 {
                proof {
                    assert(item_models(out@) =~= item_models(old_out) + seq![(q, m@)]);
                }
                return Ok(out);
            }
        }
    }
}

/// The file of a fresh log after `sets` were appended to it in order: each
/// append adds the record that `append_message` gives.
pub open spec fn log_bytes(sets: Seq<SetKeyModel>) -> Seq<u8>
    decreases sets.len(),
{
    if sets.len() == 0 {
        header_bytes(1)
    } else {
        log_bytes(sets.drop_last()) + record_bytes(
            set_bytes(sets.last()),
            (sets.len() + 1) as u64,
        )
    }
}

/// The records for `sets`, the first given sequence `k`.
pub open spec fn records_bytes(sets: Seq<SetKeyModel>, k: nat) -> Seq<u8>
    decreases sets.len(),
{
    if sets.len() == 0 {
        seq![]
    } else {
        record_bytes(set_bytes(sets[0]), (k + 1) as u64) + records_bytes(sets.drop_first(), k + 1)
    }
}

/// `sets` numbered from `k`.
pub open spec fn numbered(sets: Seq<SetKeyModel>, k: nat) -> Seq<(u64, SetKeyModel)> {
    Seq::new(sets.len(), |i: int| ((k + i) as u64, sets[i]))
}

/// A write that a record can hold.
pub open spec fn loggable(m: SetKeyModel) -> bool {
    &&& set_bytes(m).len() <= MAX_PAYLOAD_LEN
    &&& text_ok(m.key)
    &&& text_ok(m.value)
}

proof fn lemma_records_bytes_push(sets: Seq<SetKeyModel>, m: SetKeyModel, k: nat)
    ensures
        records_bytes(sets.push(m), k) == records_bytes(sets, k) + record_bytes(
            set_bytes(m),
            (k + sets.len() + 1) as u64,
        ),
    decreases sets.len(),
{
    if sets.len() == 0 {
        assert(sets.push(m).drop_first() =~= Seq::<SetKeyModel>::empty());
        assert(sets.push(m)[0] == m);
        assert(records_bytes(Seq::<SetKeyModel>::empty(), k + 1) =~= Seq::<u8>::empty());
        assert(records_bytes(sets, k) =~= Seq::<u8>::empty());
        assert(records_bytes(sets.push(m), k) =~= record_bytes(set_bytes(m), (k + 1) as u64));
    } else {
        assert(sets.push(m).drop_first() =~= sets.drop_first().push(m));
        lemma_records_bytes_push(sets.drop_first(), m, k + 1);
        assert(records_bytes(sets.push(m), k) =~= records_bytes(sets, k) + record_bytes(
            set_bytes(m),
            (k + sets.len() + 1) as u64,
        ));
    }
}

proof fn lemma_log_bytes_front(sets: Seq<SetKeyModel>)
    ensures
        log_bytes(sets) == header_bytes(1) + records_bytes(sets, 1),
    decreases sets.len(),
{
    if sets.len() == 0 {
        assert(header_bytes(1) + records_bytes(sets, 1) =~= header_bytes(1));
    } else {
        let init = sets.drop_last();
        lemma_log_bytes_front(init);
        assert(init.push(sets.last()) =~= sets);
        lemma_records_bytes_push(init, sets.last(), 1);
        assert(log_bytes(sets) =~= header_bytes(1) + records_bytes(sets, 1));
    }
}

proof fn lemma_records_replay(sets: Seq<SetKeyModel>, k: nat)
    requires
        sets.len() > 0,
        k >= 1,
        k + sets.len() < 0x1_0000_0000_0000_0000,
        forall|i: int| 0 <= i < sets.len() ==> loggable(#[trigger] sets[i]),
    ensures
        records_from(spec_u64_to_le_bytes(k as u64) + records_bytes(sets, k)) == Some(
            numbered(sets, k),
        ),
    decreases sets.len(),
{
    lemma_auto_spec_u64_to_from_le_bytes();
    let s = spec_u64_to_le_bytes(k as u64) + records_bytes(sets, k);
    let m = sets[0];
    assert(loggable(m));
    let p = set_bytes(m);
    let n = p.len() as int;
    let rest = sets.drop_first();
    let tail = spec_u64_to_le_bytes((k + 1) as u64) + records_bytes(rest, k + 1);
    assert(s =~= spec_u64_to_le_bytes(k as u64) + seq![p.len() as u8] + p + tail);
    assert(s.subrange(0, 8) =~= spec_u64_to_le_bytes(k as u64));
    assert(s[8] == p.len() as u8);
    assert(s.subrange(9, 9 + n) =~= p);
    assert(s.subrange(9 + n, s.len() as int) =~= tail);
    lemma_set_round_trip(m);
    if rest.len() == 0 {
        assert(records_bytes(rest, k + 1) =~= Seq::<u8>::empty());
        assert(tail =~= spec_u64_to_le_bytes((k + 1) as u64));
        assert(numbered(sets, k) =~= seq![(k as u64, m)]);
    } else {
        assert forall|i: int| 0 <= i < rest.len() implies loggable(#[trigger] rest[i]) by {
            assert(rest[i] == sets[i + 1]);
        }
        lemma_records_replay(rest, k + 1);
        assert(records_bytes(rest, k + 1).len() > 8);
        assert(numbered(sets, k) =~= seq![(k as u64, m)] + numbered(rest, k + 1));
    }
}

/// A fresh log to which the writes `sets` were appended opens with next
/// sequence N + 1, and replays exactly those N writes, in order, with the
/// sequences 1 to N.
pub proof fn lemma_log_replays_appends(sets: Seq<SetKeyModel>)
    requires
        forall|i: int| 0 <= i < sets.len() ==> loggable(#[trigger] sets[i]),
        sets.len() < u64::MAX,
    ensures
        open_spec(log_bytes(sets)) == Ok::<u64, WalError>((sets.len() + 1) as u64),
        replay_spec((sets.len() + 1) as u64, log_bytes(sets)) == Some(numbered(sets, 1)),
{
    lemma_auto_spec_u64_to_from_le_bytes();
    lemma_log_bytes_front(sets);
    let c = log_bytes(sets);
    assert(c.subrange(0, 4) =~= magic());
    if sets.len() == 0 {
        assert(c.subrange(c.len() - 8, c.len() as int) =~= spec_u64_to_le_bytes(1));
        assert(numbered(sets, 1) =~= Seq::<(u64, SetKeyModel)>::empty());
    } else {
        let init = sets.drop_last();
        assert(c =~= log_bytes(init) + record_bytes(set_bytes(sets.last()), (sets.len() + 1) as u64));
        assert(c.subrange(c.len() - 8, c.len() as int) =~= spec_u64_to_le_bytes(
            (sets.len() + 1) as u64,
        ));
        lemma_records_replay(sets, 1);
        assert(c.subrange(HEADER_LEN as int, c.len() as int) =~= spec_u64_to_le_bytes(1)
            + records_bytes(sets, 1));
    }
}

/// A file whose tag is not "BLUE" never opens as a log.
pub proof fn lemma_bad_tag_is_corrupt(c: Seq<u8>)
    requires
        c.len() < 4 || c.subrange(0, 4) != magic(),
    ensures
        open_spec(c) == Err::<u64, WalError>(WalError::CorruptLog),
{
}

/// A fresh log, with no record appended, opens with next sequence 1 and
/// replays nothing.
pub proof fn lemma_fresh_log_is_empty()
    ensures
        open_spec(header_bytes(1)) == Ok::<u64, WalError>(1),
        replay_spec(1, header_bytes(1)) == Some(Seq::<(u64, SetKeyModel)>::empty()),
{
    lemma_log_replays_appends(Seq::<SetKeyModel>::empty());
    assert(numbered(Seq::<SetKeyModel>::empty(), 1) =~= Seq::<(u64, SetKeyModel)>::empty());
}

} // verus!
