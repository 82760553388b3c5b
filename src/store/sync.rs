//! The catch-up protocol. A follower sends its next sequence; the leader
//! answers with the sequence of its last logged write and then, unless the
//! follower is already current, streams every logged write from the follower's
//! next sequence on, each as an 8-byte little-endian sequence followed by the
//! framed write. The follower applies them in order until it has applied the
//! leader's last one, and checks that each carries the sequence it expects.

use vstd::prelude::*;
use vstd::bytes::{spec_u64_to_le_bytes, u64_to_le_bytes};
use crate::ipc::frame::{frame, frame_bytes, FrameError, MAX_FRAME_LEN};
use crate::ipc::message::{SetKey, SetKeyModel, SynchronizeRequest, SynchronizeResponse, set_bytes};
use crate::ipc::message::request::{Request, Command};
use crate::store::kv::Store;
use crate::store::handler::synchronize_handler;
use crate::store::serialize::{serialize_store, store_bytes};
use crate::store::wal::{
    WriteAheadLog, WalError, WalItem, replay_spec, record_bytes, item_models, MAX_PAYLOAD_LEN,
    log_bytes, numbered, loggable, lemma_log_replays_appends,
};

verus! {

/// The request a follower sends to catch up.
pub fn synchronize_request(wal: &WriteAheadLog) -> (r: Request)
    ensures
        r.command matches Some(Command::SynchronizeRequest(s)) && s.next_sequence
            == wal.next_sequence,
{
    Request {
        command: Some(
            Command::SynchronizeRequest(SynchronizeRequest { next_sequence: wal.next_sequence }),
        ),
    }
}

/// The leader's answer: the sequence of its last logged write (0 for an empty log).
pub fn synchronize_response(wal: &WriteAheadLog) -> (r: SynchronizeResponse)
    requires
        wal.wf(),
    ensures
        r.latest_sequence == wal.next_sequence - 1,
{
    SynchronizeResponse { latest_sequence: wal.next_sequence - 1 }
}

/// The logged writes from sequence `from` on.
pub open spec fn items_from(items: Seq<(u64, SetKeyModel)>, from: u64) -> Seq<(u64, SetKeyModel)> {
    items.filter(|it: (u64, SetKeyModel)| it.0 >= from)
}

/// What the leader streams to a follower whose next sequence is `from`, where
/// its log's next sequence is `next` and its file holds `contents`.
pub open spec fn catch_up_spec(next: u64, contents: Seq<u8>, from: u64) -> Option<
    Seq<(u64, SetKeyModel)>,
> {
    if from == next {
        Some(seq![])
    } else {
        match replay_spec(next, contents) {
            Some(items) => Some(items_from(items, from)),
            None => None,
        }
    }
}

/// The logged writes the leader streams to a follower whose next sequence is
/// `from`: none where the follower is current, else every write of the log
/// whose sequence is `from` or later, in log order.
pub fn synchronize_request_handler(wal: &WriteAheadLog, contents: &[u8], from: u64) -> (r: Result<
    Vec<WalItem>,
    WalError,
>)
    ensures
        match catch_up_spec(wal.next_sequence, contents@, from) {
            Some(items) => r matches Ok(v) && item_models(v@) == items,
            None => r == Err::<Vec<WalItem>, WalError>(WalError::CorruptLog),
        },
{
    let mut out: Vec<WalItem> = Vec::new();
    if from == wal.next_sequence {
        proof {
            assert(item_models(out@) =~= Seq::<(u64, SetKeyModel)>::empty());
        }
        return Ok(out);
    }
    let items = match wal.messages(contents) {
        Ok(v) => v,
        Err(e) => return Err(e),
    };
    let ghost all = item_models(items@);
    let mut i: usize = 0;
    proof {
        assert(all.take(0) =~= Seq::<(u64, SetKeyModel)>::empty());
        assert(item_models(out@) =~= items_from(all.take(0), from));
    }
    while i < items.len()
        invariant
            i <= items@.len(),
            all == item_models(items@),
            item_models(out@) == items_from(all.take(i as int), from),
        decreases items@.len() - i,
    {
        let ghost before = out@;
        proof {
            assert(all.take(i + 1) =~= all.take(i as int).push(all[i as int]));
            all.take(i as int).lemma_filter_push(all[i as int], |it: (u64, SetKeyModel)| it.0 >= from);
        }
        if items[i].0 >= from {
            out.push(
                (
                    items[i].0,
                    SetKey { key: items[i].1.key.clone(), value: items[i].1.value.clone() },
                ),
            );
            proof {
                assert(item_models(out@) =~= item_models(before).push(all[i as int]));
            }
        }
        i = i + 1;
    }
    proof {
        assert(all.take(i as int) =~= all);
    }
    Ok(out)
}

/// The bytes of one streamed write: its sequence, then the framed write.
pub open spec fn entry_bytes(sequence: u64, set: SetKeyModel) -> Seq<u8> {
    spec_u64_to_le_bytes(sequence) + frame_bytes(set_bytes(set))
}

/// The bytes the leader writes for one streamed write.
pub fn catch_up_entry(sequence: u64, set: &SetKey) -> (r: Result<Vec<u8>, FrameError>)
    ensures
        set_bytes(set@).len() <= MAX_FRAME_LEN ==> (r matches Ok(v) && v@ == entry_bytes(
            sequence,
            set@,
        )),
        set_bytes(set@).len() > MAX_FRAME_LEN ==> r == Err::<Vec<u8>, FrameError>(
            FrameError::TooLarge,
        ),
{
    let framed = match frame(&set.encode()) {
        Ok(f) => f,
        Err(e) => return Err(e),
    };
    let mut out = u64_to_le_bytes(sequence);
    out.extend_from_slice(framed.as_slice());
    Ok(out)
}

/// Why a follower stopped catching up.
#[derive(Debug, Clone, Copy, PartialEq, Eq)]
pub enum SyncError {
    /// A streamed write does not carry the sequence the follower's log gives next.
    OutOfSequence,
    /// A streamed write comes after the leader's last one.
    BeyondLatest,
    /// The follower's log could not take the write.
    Wal(WalError),
}

/// A follower's progress in catching up with the leader.
#[derive(Debug, Clone, Copy, PartialEq, Eq)]
pub struct CatchUp {
    /// The sequence of the leader's last logged write.
    pub latest: u64,
    /// Whether the follower holds every write up to `latest`.
    pub done: bool,
}

/// What a follower does with one applied write: append `wal_bytes` to its log
/// file and write `snapshot` as its store snapshot.
#[derive(Debug, Clone)]
pub struct CatchUpStep {
    pub wal_bytes: Vec<u8>,
    pub snapshot: Vec<u8>,
}

/// Whether a follower whose log's next sequence is `next` already holds every
/// write up to the leader's last, `latest`.
pub open spec fn caught_up(next: u64, latest: u64) -> bool {
    latest < next
}

impl CatchUp {
    /// The state after the leader's answer: done at once where the follower's
    /// log already holds every write up to the leader's last.
    pub fn start(wal: &WriteAheadLog, response: &SynchronizeResponse) -> (r: CatchUp)
        ensures
            r.latest == response.latest_sequence,
            r.done == caught_up(wal.next_sequence, response.latest_sequence),
    {
        CatchUp {
            latest: response.latest_sequence,
            done: response.latest_sequence < wal.next_sequence,
        }
    }

    /// Applies the streamed write `set` with `sequence`: to the store, then to
    /// the log under that sequence, which must be the one the log gives next.
    pub fn apply(&mut self, sequence: u64, set: &SetKey, store: &mut Store, wal: &mut WriteAheadLog) -> (r:
        Result<CatchUpStep, SyncError>)
        requires
            old(wal).wf(),
            !old(self).done,
        ensures
            final(wal).wf(),
            final(self).latest == old(self).latest,
            sequence != old(wal).next_sequence ==> r == Err::<CatchUpStep, SyncError>(
                SyncError::OutOfSequence,
            ),
            sequence == old(wal).next_sequence && sequence > old(self).latest ==> r == Err::<
                CatchUpStep,
                SyncError,
            >(SyncError::BeyondLatest),
            sequence == old(wal).next_sequence && sequence <= old(self).latest && set_bytes(set@).len()
                > MAX_PAYLOAD_LEN ==> r == Err::<CatchUpStep, SyncError>(
                SyncError::Wal(WalError::RecordTooLarge),
            ),
            sequence == old(wal).next_sequence && sequence <= old(self).latest && set_bytes(set@).len()
                <= MAX_PAYLOAD_LEN && sequence == u64::MAX ==> r == Err::<CatchUpStep, SyncError>(
                SyncError::Wal(WalError::SequenceOverflow),
            ),
            takes(
                Follower { store: old(store)@, next: old(wal).next_sequence, done: old(self).done },
                old(self).latest,
                (sequence, set@),
            ) ==> r is Ok && took(
                Follower { store: old(store)@, next: old(wal).next_sequence, done: old(self).done },
                old(self).latest,
                (sequence, set@),
            ) == (Follower {
                store: final(store)@,
                next: final(wal).next_sequence,
                done: final(self).done,
            }),
            r is Err ==> *final(self) == *old(self) && *final(store) == *old(store) && *final(wal)
                == *old(wal),
            sequence == old(wal).next_sequence && sequence <= old(self).latest && set_bytes(set@).len()
                <= MAX_PAYLOAD_LEN && sequence < u64::MAX ==> (r matches Ok(step) && final(self).done == (sequence
                == old(self).latest) && final(store)@ == old(store)@.insert(set.key@, set.value@)
                && final(wal).next_sequence == sequence + 1 && final(wal).path == old(wal).path
                && step.wal_bytes@ == record_bytes(set_bytes(set@), (sequence + 1) as u64)
                && step.snapshot@ == store_bytes(final(store).entries())),
    {
        if sequence != wal.next_sequence {
            return Err(SyncError::OutOfSequence);
        }
        if sequence > self.latest {
            return Err(SyncError::BeyondLatest);
        }
        let wal_bytes = match wal.append_replicated(set, sequence) {
            Ok(b) => b,
            Err(e) => return Err(SyncError::Wal(e)),
        };
        synchronize_handler(set, store);
        let snapshot = serialize_store(store);
        self.done = sequence == self.latest;
        Ok(CatchUpStep { wal_bytes, snapshot })
    }
}

/// A follower whose log's next sequence is the leader's is sent no write, and
/// expects none.
pub proof fn lemma_current_follower_gets_nothing(leader_next: u64, contents: Seq<u8>, follower_next: u64)
    requires
        leader_next >= 1,
        follower_next == leader_next,
    ensures
        catch_up_spec(leader_next, contents, follower_next) == Some(Seq::<(u64, SetKeyModel)>::empty()),
        caught_up(follower_next, (leader_next - 1) as u64),
{
}

proof fn lemma_numbered_from_one(sets: Seq<SetKeyModel>)
    requires
        sets.len() < u64::MAX,
    ensures
        items_from(numbered(sets, 1), 1) == numbered(sets, 1),
    decreases sets.len(),
{
    let all = numbered(sets, 1);
    if sets.len() > 0 {
        let init = sets.drop_last();
        lemma_numbered_from_one(init);
        assert(all =~= numbered(init, 1).push(all.last()));
        numbered(init, 1).lemma_filter_push(all.last(), |it: (u64, SetKeyModel)| it.0 >= 1u64);
    } else {
        assert(all =~= Seq::<(u64, SetKeyModel)>::empty());
    }
}

/// A follower with an empty log, against a leader whose log holds the writes
/// `sets` (appended in order to a fresh log), is streamed exactly those writes,
/// in order, with the sequences 1 to N.
pub proof fn lemma_new_follower_gets_every_write(sets: Seq<SetKeyModel>)
    requires
        sets.len() >= 1,
        sets.len() < u64::MAX,
        forall|i: int| 0 <= i < sets.len() ==> loggable(#[trigger] sets[i]),
    ensures
        catch_up_spec((sets.len() + 1) as u64, log_bytes(sets), 1) == Some(numbered(sets, 1)),
{
    lemma_log_replays_appends(sets);
    lemma_numbered_from_one(sets);
}

/// The map after writing `sets` into `m`, in order.
pub open spec fn apply_writes(m: Map<Seq<char>, Seq<char>>, sets: Seq<SetKeyModel>) -> Map<
    Seq<char>,
    Seq<char>,
>
    decreases sets.len(),
{
    if sets.len() == 0 {
        m
    } else {
        apply_writes(m, sets.drop_last()).insert(sets.last().key, sets.last().value)
    }
}

/// A follower during catch-up: its store, its log's next sequence, and whether
/// it is done.
pub ghost struct Follower {
    pub store: Map<Seq<char>, Seq<char>>,
    pub next: u64,
    pub done: bool,
}

/// Whether `CatchUp::apply` takes the streamed write `item`.
pub open spec fn takes(f: Follower, latest: u64, item: (u64, SetKeyModel)) -> bool {
    &&& !f.done
    &&& item.0 == f.next
    &&& item.0 <= latest
    &&& item.0 < u64::MAX
    &&& set_bytes(item.1).len() <= MAX_PAYLOAD_LEN
}

/// The follower after `CatchUp::apply` took `item`.
pub open spec fn took(f: Follower, latest: u64, item: (u64, SetKeyModel)) -> Follower {
    Follower {
        store: f.store.insert(item.1.key, item.1.value),
        next: (item.0 + 1) as u64,
        done: item.0 == latest,
    }
}

/// The follower after it was streamed `items` in order; `None` where a write is
/// not taken.
pub open spec fn catch_up_run(f: Follower, latest: u64, items: Seq<(u64, SetKeyModel)>) -> Option<
    Follower,
>
    decreases items.len(),
{
    if items.len() == 0 {
        Some(f)
    } else {
        match catch_up_run(f, latest, items.drop_last()) {
            Some(g) => if takes(g, latest, items.last()) {
                Some(took(g, latest, items.last()))
            } else {
                None
            },
            None => None,
        }
    }
}

proof fn lemma_catch_up_prefix(sets: Seq<SetKeyModel>, k: nat)
    requires
        1 <= sets.len() < u64::MAX,
        k <= sets.len(),
        forall|i: int| 0 <= i < sets.len() ==> loggable(#[trigger] sets[i]),
    ensures
        catch_up_run(
            Follower { store: Map::empty(), next: 1, done: false },
            sets.len() as u64,
            numbered(sets, 1).take(k as int),
        ) == Some(
            Follower {
                store: apply_writes(Map::empty(), sets.take(k as int)),
                next: (k + 1) as u64,
                done: k == sets.len(),
            },
        ),
    decreases k,
{
    let start = Follower { store: Map::empty(), next: 1, done: false };
    let items = numbered(sets, 1);
    if k == 0 {
        assert(items.take(0) =~= Seq::<(u64, SetKeyModel)>::empty());
        assert(sets.take(0) =~= Seq::<SetKeyModel>::empty());
    } else {
        lemma_catch_up_prefix(sets, (k - 1) as nat);
        assert(items.take(k as int).drop_last() =~= items.take(k - 1));
        assert(items.take(k as int).last() == ((k as u64), sets[k - 1]));
        assert(sets.take(k as int).drop_last() =~= sets.take(k - 1));
        assert(sets.take(k as int).last() == sets[k - 1]);
        assert(loggable(sets[k - 1]));
    }
}

/// A follower with an empty store and a fresh log, streamed the writes of a
/// leader whose log holds `sets`, takes every one of them: it ends done, with
/// next sequence N + 1 and the map the leader built by writing `sets` in order.
pub proof fn lemma_catch_up_reaches_leader(sets: Seq<SetKeyModel>)
    requires
        1 <= sets.len() < u64::MAX,
        forall|i: int| 0 <= i < sets.len() ==> loggable(#[trigger] sets[i]),
    ensures
        !caught_up(1, sets.len() as u64),
        catch_up_spec((sets.len() + 1) as u64, log_bytes(sets), 1) matches Some(items) && catch_up_run(
            Follower { store: Map::empty(), next: 1, done: false },
            sets.len() as u64,
            items,
        ) == Some(
            Follower {
                store: apply_writes(Map::empty(), sets),
                next: (sets.len() + 1) as u64,
                done: true,
            },
        ),
{
    lemma_new_follower_gets_every_write(sets);
    lemma_catch_up_prefix(sets, sets.len());
    assert(numbered(sets, 1).take(sets.len() as int) =~= numbered(sets, 1));
    assert(sets.take(sets.len() as int) =~= sets);
}

} // verus!
