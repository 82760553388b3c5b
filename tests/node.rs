use blue::ipc::message::request::{Command, Request};
use blue::ipc::message::{
    FollowRequest, FollowResponse, Get, InitiateSession, ReplicateResponse, ReplicateSet,
    Response, SetKey, SynchronizeRequest, SynchronizeResponse,
};
use blue::store::cluster::{Cluster, ClusterError, NodeRole, Replication};
use blue::store::handler::{handle_request, Action, NodeState, Outgoing};
use blue::store::kv::Store;
use blue::store::serialize::{deserialize_store, records_json, serialize_store};
use blue::store::sync::{
    catch_up_entry, synchronize_request, synchronize_request_handler, CatchUp, SyncError,
};
use blue::store::wal::WriteAheadLog;

const LEADER: &str = "127.0.0.1:7878";

fn leader_state() -> NodeState {
    NodeState {
        role: NodeRole::Leader,
        store: Store::new(),
        wal: WriteAheadLog::new("leader.log".to_string()),
        cluster: Cluster::new(LEADER.to_string(), NodeRole::Leader, String::new(), None).unwrap(),
    }
}

fn follower_state(mode: u32) -> NodeState {
    let answer = FollowResponse { leader: LEADER.to_string(), replication: mode };
    NodeState {
        role: NodeRole::Follower,
        store: Store::new(),
        wal: WriteAheadLog::new("follower.log".to_string()),
        cluster: Cluster::new(
            "127.0.0.1:7879".to_string(),
            NodeRole::Follower,
            LEADER.to_string(),
            Some(&answer),
        )
        .unwrap(),
    }
}

fn req(c: Command) -> Request {
    Request { command: Some(c) }
}

fn set_req(k: &str, v: &str) -> Request {
    req(Command::SetKey(SetKey { key: k.to_string(), value: v.to_string() }))
}

fn get_req(k: &str) -> Request {
    req(Command::Get(Get { key: k.to_string() }))
}

fn only_response(actions: Vec<Action>) -> Response {
    assert_eq!(actions.len(), 1);
    match actions.into_iter().next().unwrap() {
        Action::Reply(Outgoing::Response(r)) => r,
        other => panic!("unexpected action {:?}", other),
    }
}

/// Writes to a leader, keeping its log file's bytes as the caller would.
fn write(state: &mut NodeState, file: &mut Vec<u8>, k: &str, v: &str) -> Vec<Action> {
    let actions = handle_request(state, &set_req(k, v), &"127.0.0.1:50000".to_string());
    for a in &actions {
        if let Action::AppendWal(b) = a {
            file.extend(b.iter().copied());
        }
    }
    actions
}

#[test]
fn leader_answers_reads_of_its_writes() {
    let mut state = leader_state();
    let mut file = state.wal.header();
    let actions = write(&mut state, &mut file, "a", "1");
    match actions.last().unwrap() {
        Action::Reply(Outgoing::Response(r)) => {
            assert!(r.success);
            assert_eq!(r.message, "Succesfully wrote key to in memory store");
        }
        other => panic!("unexpected action {:?}", other),
    }
    let peer = "127.0.0.1:50001".to_string();
    let r = only_response(handle_request(&mut state, &get_req("a"), &peer));
    assert_eq!(r, Response { success: true, message: "1".to_string() });
    let r = only_response(handle_request(&mut state, &get_req("missing"), &peer));
    assert_eq!(r, Response { success: false, message: "Unknown key 'missing'".to_string() });
}

#[test]
fn leader_write_actions_come_in_order() {
    let mut state = leader_state();
    register(&mut state, "127.0.0.1:7879", true);
    let mut file = state.wal.header();
    let actions = write(&mut state, &mut file, "a", "1");
    assert_eq!(actions.len(), 4);
    match &actions[0] {
        Action::PersistStore(b) => assert_eq!(*b, serialize_store(&state.store)),
        other => panic!("unexpected action {:?}", other),
    }
    assert!(matches!(actions[1], Action::AppendWal(_)));
    match &actions[2] {
        Action::Replicate(d) => {
            assert_eq!(d.sync_target, Some("127.0.0.1:7879".to_string()));
            assert!(d.async_targets.is_empty());
            let payload = &d.frame[4..];
            let forwarded = Request::decode(payload).unwrap();
            assert_eq!(
                forwarded,
                req(Command::ReplicateSet(ReplicateSet {
                    leader_addr: LEADER.to_string(),
                    set: Some(SetKey { key: "a".to_string(), value: "1".to_string() }),
                    sequence: 1,
                }))
            );
        }
        other => panic!("unexpected action {:?}", other),
    }
    assert!(matches!(actions[3], Action::Reply(_)));
    assert_eq!(state.wal.next_sequence, 2);
}

#[test]
fn empty_key_lists_every_record_as_json() {
    let mut state = leader_state();
    let mut file = state.wal.header();
    write(&mut state, &mut file, "a", "1");
    write(&mut state, &mut file, "b", "say \"hi\"");
    let r = only_response(handle_request(&mut state, &get_req(""), &String::new()));
    assert!(!r.success);
    assert_eq!(r.message, "{\"a\":\"1\",\"b\":\"say \\\"hi\\\"\"}");
    assert_eq!(records_json(&Store::new()), "{}");
    let mut odd = Store::new();
    odd.insert("t\tx".to_string(), "\u{1}\\é".to_string());
    assert_eq!(records_json(&odd), "{\"t\\tx\":\"\\u0001\\\\é\"}");
}

#[test]
fn follower_refuses_client_writes() {
    let mut state = follower_state(0);
    let r = only_response(handle_request(&mut state, &set_req("a", "1"), &String::new()));
    assert_eq!(r, Response { success: false, message: "Only the leader accepts writes".to_string() });
    assert_eq!(state.wal.next_sequence, 1);
}

#[test]
fn leader_refuses_replication() {
    let mut state = leader_state();
    let rs = req(Command::ReplicateSet(ReplicateSet {
        leader_addr: LEADER.to_string(),
        set: Some(SetKey { key: "a".to_string(), value: "1".to_string() }),
        sequence: 1,
    }));
    let r = only_response(handle_request(&mut state, &rs, &"127.0.0.1:40000".to_string()));
    assert!(!r.success);
    assert_eq!(r.message, "Leader does not accept replication requests");
}

#[test]
fn follower_takes_replication_only_from_the_leader() {
    let mut state = follower_state(0);
    let rs = req(Command::ReplicateSet(ReplicateSet {
        leader_addr: LEADER.to_string(),
        set: Some(SetKey { key: "a".to_string(), value: "1".to_string() }),
        sequence: 1,
    }));
    for peer in ["10.0.0.9:40000", "127.0.0.1:40000"] {
        let r = only_response(handle_request(&mut state, &rs, &peer.to_string()));
        assert_eq!(r.message, "Replication is only accepted from the leader");
        assert_eq!(state.store.get(&"a".to_string()), None);
        assert_eq!(state.wal.next_sequence, 1);
    }
    let actions = handle_request(&mut state, &rs, &LEADER.to_string());
    assert_eq!(actions.len(), 3);
    match &actions[2] {
        Action::SendTo(addr, ack) => {
            assert_eq!(addr, LEADER);
            assert_eq!(
                *ack,
                req(Command::ReplicateResponse(ReplicateResponse { success: true, sequence: 1 }))
            );
        }
        other => panic!("unexpected action {:?}", other),
    }
    assert_eq!(state.store.get(&"a".to_string()), Some("1".to_string()));
    assert_eq!(state.wal.next_sequence, 2);
    // the same sequence again does not fit the log
    let r = only_response(handle_request(&mut state, &rs, &LEADER.to_string()));
    assert_eq!(r.message, "Replicated write could not be logged");
}

/// Registers a follower as the caller does: answer, then confirm the slot
/// offered where the answer was `delivered`.
fn register(state: &mut NodeState, addr: &str, delivered: bool) -> u32 {
    let f = req(Command::FollowRequest(FollowRequest { follower_addr: addr.to_string() }));
    let mut mode = None;
    for action in handle_request(state, &f, &String::new()) {
        match action {
            Action::Reply(Outgoing::FollowResponse(r)) => {
                assert_eq!(r.leader, LEADER);
                mode = Some(r.replication);
            }
            Action::ConfirmSync(a) => state.cluster.confirm_sync(a, delivered),
            other => panic!("unexpected action {:?}", other),
        }
    }
    mode.unwrap()
}

#[test]
fn first_follower_is_sync_and_later_ones_async() {
    let mut state = leader_state();
    let modes: Vec<u32> =
        ["10.0.0.2:1", "10.0.0.3:1", "10.0.0.4:1"].iter().map(|a| register(&mut state, a, true)).collect();
    assert_eq!(modes, vec![0, 1, 1]);
    assert_eq!(state.cluster.sync_follower.as_ref().unwrap().addr, "10.0.0.2:1");
    assert_eq!(state.cluster.sync_follower.as_ref().unwrap().replication, Replication::Sync);
    let asyncs: Vec<String> =
        state.cluster.async_followers.as_ref().unwrap().iter().map(|n| n.addr.clone()).collect();
    assert_eq!(asyncs, vec!["10.0.0.3:1".to_string(), "10.0.0.4:1".to_string()]);
}

#[test]
fn undelivered_offer_leaves_the_sync_slot_free() {
    let mut state = leader_state();
    assert_eq!(register(&mut state, "10.0.0.2:1", false), 0);
    assert!(state.cluster.sync_follower.is_none());
    assert!(state.cluster.async_followers.is_none());
    assert_eq!(register(&mut state, "10.0.0.3:1", true), 0);
    assert_eq!(state.cluster.sync_follower.as_ref().unwrap().addr, "10.0.0.3:1");
    assert!(state.cluster.async_followers.is_none());
}

#[test]
fn follower_cluster_takes_mode_from_the_answer() {
    let f = follower_state(1);
    assert_eq!(f.cluster.leader.addr, LEADER);
    assert_eq!(f.cluster.leader.replication, Replication::Async);
    let bad = FollowResponse { leader: LEADER.to_string(), replication: 2 };
    let r = Cluster::new("a:1".to_string(), NodeRole::Follower, LEADER.to_string(), Some(&bad));
    assert_eq!(r.unwrap_err(), ClusterError::InvalidConfig);
    let r = Cluster::new("a:1".to_string(), NodeRole::Follower, LEADER.to_string(), None);
    assert_eq!(r.unwrap_err(), ClusterError::NoFollowResponse);
}

#[test]
fn node_role_words() {
    assert_eq!(NodeRole::from_str("leader"), Ok(NodeRole::Leader));
    assert_eq!(NodeRole::from_str("Follower"), Ok(NodeRole::Follower));
    assert_eq!(NodeRole::from_str("boss"), Err(()));
}

#[test]
fn session_greeting() {
    let mut state = leader_state();
    let s = req(Command::InitiateSession(InitiateSession { name: "me".to_string() }));
    match handle_request(&mut state, &s, &String::new()).pop().unwrap() {
        Action::Reply(Outgoing::Welcome(w)) => assert_eq!(w.message, "Welcome to Blue!\n"),
        other => panic!("unexpected action {:?}", other),
    }
    let none = handle_request(&mut state, &Request { command: None }, &String::new());
    assert!(matches!(none[..], [Action::Close]));
}

/// Catches `follower` up with the leader, as the two ends of the protocol do.
fn catch_up(leader: &mut NodeState, leader_file: &[u8], follower: &mut NodeState) -> Vec<u64> {
    let request = synchronize_request(&follower.wal);
    let actions = handle_request(leader, &request, &String::new());
    let latest = match &actions[0] {
        Action::Reply(Outgoing::SynchronizeResponse(s)) => s.latest_sequence,
        other => panic!("unexpected action {:?}", other),
    };
    let mut received = Vec::new();
    let mut state = CatchUp::start(&follower.wal, &SynchronizeResponse { latest_sequence: latest });
    if let Some(Action::CatchUp(from)) = actions.get(1) {
        let items = synchronize_request_handler(&leader.wal, leader_file, *from).unwrap();
        for (seq, set) in items {
            let bytes = catch_up_entry(seq, &set).unwrap();
            assert_eq!(bytes[..8], seq.to_le_bytes());
            received.push(seq);
            assert!(!state.done);
            state.apply(seq, &set, &mut follower.store, &mut follower.wal).unwrap();
        }
    }
    assert!(state.done);
    received
}

#[test]
fn current_follower_receives_nothing() {
    let mut leader = leader_state();
    let mut file = leader.wal.header();
    write(&mut leader, &mut file, "a", "1");
    let mut follower = follower_state(0);
    follower.wal.next_sequence = 2;
    let actions = handle_request(
        &mut leader,
        &synchronize_request(&follower.wal),
        &String::new(),
    );
    assert_eq!(actions.len(), 1);
    assert!(synchronize_request_handler(&leader.wal, &file, 2).unwrap().is_empty());
    let state = CatchUp::start(&follower.wal, &SynchronizeResponse { latest_sequence: 1 });
    assert!(state.done);
}

#[test]
fn new_follower_receives_all_five_writes_in_order() {
    let mut leader = leader_state();
    let mut file = leader.wal.header();
    for (k, v) in [("a", "1"), ("b", "2"), ("c", "3"), ("a", "4"), ("d", "5")] {
        write(&mut leader, &mut file, k, v);
    }
    let mut follower = follower_state(0);
    let received = catch_up(&mut leader, &file, &mut follower);
    assert_eq!(received, vec![1, 2, 3, 4, 5]);
    for k in ["a", "b", "c", "d"] {
        assert_eq!(follower.store.get(&k.to_string()), leader.store.get(&k.to_string()));
    }
    assert_eq!(follower.store.len(), leader.store.len());
    assert_eq!(serialize_store(&follower.store), serialize_store(&leader.store));
    assert_eq!(follower.wal.next_sequence, 6);
}

#[test]
fn late_follower_answers_reads_after_catch_up() {
    let mut leader = leader_state();
    let mut file = leader.wal.header();
    write(&mut leader, &mut file, "a", "1");
    write(&mut leader, &mut file, "b", "2");
    let mut follower = follower_state(1);
    catch_up(&mut leader, &file, &mut follower);
    let r = only_response(handle_request(&mut follower, &get_req("b"), &String::new()));
    assert_eq!(r, Response { success: true, message: "2".to_string() });
}

#[test]
fn catch_up_checks_sequences() {
    let mut wal = WriteAheadLog::new("f".to_string());
    let mut store = Store::new();
    let set = SetKey { key: "a".to_string(), value: "1".to_string() };
    let mut state = CatchUp::start(&wal, &SynchronizeResponse { latest_sequence: 2 });
    assert_eq!(state.apply(2, &set, &mut store, &mut wal).unwrap_err(), SyncError::OutOfSequence);
    state.apply(1, &set, &mut store, &mut wal).unwrap();
    assert!(!state.done);
    state.apply(2, &set, &mut store, &mut wal).unwrap();
    assert!(state.done);
    let mut over = CatchUp { latest: 2, done: false };
    assert_eq!(over.apply(3, &set, &mut store, &mut wal).unwrap_err(), SyncError::BeyondLatest);
}

#[test]
fn snapshot_round_trips() {
    let mut store = Store::new();
    store.insert("a".to_string(), "1".to_string());
    store.insert("b".to_string(), "2".to_string());
    store.insert("a".to_string(), "3".to_string());
    let bytes = serialize_store(&store);
    let back = deserialize_store(&bytes).unwrap();
    assert_eq!(back.get(&"a".to_string()), Some("3".to_string()));
    assert_eq!(back.get(&"b".to_string()), Some("2".to_string()));
    assert_eq!(back.len(), 2);
    assert!(deserialize_store(&[0x08, 0x01]).is_none());
}
