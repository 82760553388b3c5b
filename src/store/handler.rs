//! Handling of one decoded request: what it changes in the node's state, and the
//! actions (replies, file writes, sends to other nodes) the caller then carries
//! out, in order.

use vstd::prelude::*;
use vstd::string::StringExecFns;
use crate::ipc::frame::{frame, frame_bytes, unframe_spec, lemma_frame_round_trip, FrameError, MAX_FRAME_LEN};
use crate::ipc::wire::{fields_bytes, text_ok};
use crate::ipc::message::{
    SetKey, Response, ResponseModel, Welcome, FollowResponse, FollowResponseModel,
    SynchronizeResponse, ReplicateSet, ReplicateSetModel, ReplicateResponse, Get, set_bytes,
    SetKeyModel, response_fields, welcome_fields, follow_response_fields,
    synchronize_response_fields, response_decode, welcome_decode, follow_response_decode,
    synchronize_response_decode, lemma_response_round_trip, lemma_welcome_round_trip,
    lemma_follow_response_round_trip, lemma_synchronize_response_round_trip,
};
use crate::ipc::message::request::{
    Request, Command, CommandModel, request_bytes, request_decode, command_ok,
    lemma_request_round_trip,
};
use crate::store::cluster::{Cluster, NodeRole, register, next_mode, node_addrs_of};
use crate::store::kv::Store;
use crate::store::serialize::{serialize_store, store_bytes, records_json, json_object};
use crate::store::sync::synchronize_response;
use crate::store::wal::{WriteAheadLog, record_bytes, MAX_PAYLOAD_LEN};

verus! {

/// A message sent back on the connection a request came on.
#[derive(Debug, Clone)]
pub enum Outgoing {
    Response(Response),
    Welcome(Welcome),
    FollowResponse(FollowResponse),
    SynchronizeResponse(SynchronizeResponse),
}

pub ghost enum OutgoingModel {
    Response(ResponseModel),
    Welcome(Seq<char>),
    FollowResponse(FollowResponseModel),
    SynchronizeResponse(u64),
}

impl View for Outgoing {
    type V = OutgoingModel;

    open spec fn view(&self) -> OutgoingModel {
        match self {
            Outgoing::Response(r) => OutgoingModel::Response(r@),
            Outgoing::Welcome(w) => OutgoingModel::Welcome(w@),
            Outgoing::FollowResponse(f) => OutgoingModel::FollowResponse(f@),
            Outgoing::SynchronizeResponse(s) => OutgoingModel::SynchronizeResponse(s.latest_sequence),
        }
    }
}

/// Something the caller does after a request was handled.
#[derive(Debug, Clone)]
pub enum Action {
    /// Send this message back on the connection.
    Reply(Outgoing),
    /// Write these bytes as the store snapshot.
    PersistStore(Vec<u8>),
    /// Append these bytes to the log file.
    AppendWal(Vec<u8>),
    /// Send this frame to the followers it names.
    Replicate(crate::store::cluster::Delivery),
    /// Send this request to the node at this address, on a new connection.
    SendTo(String, Request),
    /// Stream the logged writes from this sequence on, on the connection.
    CatchUp(u64),
    /// Give the synchronous slot to the follower at this address where the
    /// reply before was delivered (`Cluster::confirm_sync`).
    ConfirmSync(String),
    /// End the connection without a reply.
    Close,
}

pub ghost enum ActionModel {
    Reply(OutgoingModel),
    PersistStore(Seq<u8>),
    AppendWal(Seq<u8>),
    Replicate(Seq<u8>, Option<Seq<char>>, Seq<Seq<char>>),
    SendTo(Seq<char>, Option<CommandModel>),
    CatchUp(u64),
    ConfirmSync(Seq<char>),
    Close,
}

impl View for Action {
    type V = ActionModel;

    open spec fn view(&self) -> ActionModel {
        match self {
            Action::Reply(o) => ActionModel::Reply(o@),
            Action::PersistStore(b) => ActionModel::PersistStore(b@),
            Action::AppendWal(b) => ActionModel::AppendWal(b@),
            Action::Replicate(d) => ActionModel::Replicate(
                d.frame@,
                match d.sync_target {
                    Some(a) => Some(a@),
                    None => None,
                },
                node_addrs_of(d.async_targets@),
            ),
            Action::SendTo(a, r) => ActionModel::SendTo(a@, r@),
            Action::CatchUp(n) => ActionModel::CatchUp(*n),
            Action::ConfirmSync(a) => ActionModel::ConfirmSync(a@),
            Action::Close => ActionModel::Close,
        }
    }
}

pub open spec fn action_models(v: Seq<Action>) -> Seq<ActionModel> {
    v.map_values(|a: Action| a@)
}

/// The state a node's requests work on.
pub struct NodeState {
    pub role: NodeRole,
    pub store: Store,
    pub wal: WriteAheadLog,
    pub cluster: Cluster,
}

impl NodeState {
    pub open spec fn wf(&self) -> bool {
        self.wal.wf() && self.cluster.wf()
    }
}

pub open spec fn reply(r: ResponseModel) -> ActionModel {
    ActionModel::Reply(OutgoingModel::Response(r))
}

pub open spec fn failure(message: Seq<char>) -> ResponseModel {
    ResponseModel { success: false, message }
}

/// The answer to a read of `key`: the value where there is one; for the empty
/// key every record as a JSON object, marked unsuccessful to tell it from a value.
pub open spec fn get_response(store: Store, key: Seq<char>) -> ResponseModel {
    if key.len() == 0 {
        ResponseModel { success: false, message: json_object(store.entries()) }
    } else if store@.contains_key(key) {
        ResponseModel { success: true, message: store@[key] }
    } else {
        failure("Unknown key '"@ + key + "'"@)
    }
}

/// Answers a read.
pub fn get_handler(get: &Get, store: &Store) -> (r: Response)
    ensures
        r@ == get_response(*store, get.key@),
{
    if get.key.as_str().is_empty() {
        return Response { success: false, message: records_json(store) };
    }
    match store.get(&get.key) {
        Some(v) => Response { success: true, message: v },
        None => {
            let mut m = String::from_str("Unknown key '");
            m.append(get.key.as_str());
            m.append("'");
            Response { success: false, message: m }
        },
    }
}

pub open spec fn write_ok() -> ResponseModel {
    ResponseModel { success: true, message: "Succesfully wrote key to in memory store"@ }
}

/// Applies a client's write to the store, and gives the answer.
pub fn set_handler(set: &SetKey, store: &mut Store) -> (r: Response)
    ensures
        final(store)@ == old(store)@.insert(set.key@, set.value@),
        r@ == write_ok(),
{
    store.insert(set.key.clone(), set.value.clone());
    Response {
        success: true,
        message: String::from_str("Succesfully wrote key to in memory store"),
    }
}

/// Applies a write streamed during catch-up to the store.
pub fn synchronize_handler(set: &SetKey, store: &mut Store)
    ensures
        final(store)@ == old(store)@.insert(set.key@, set.value@),
{
    store.insert(set.key.clone(), set.value.clone());
}

/// Applies a replicated write to the store (where it carries one), and gives
/// the acknowledgement to send the leader.
pub fn replicate_set_handler(replicate_set: &ReplicateSet, store: &mut Store) -> (r: Request)
    ensures
        match replicate_set.set {
            Some(s) => final(store)@ == old(store)@.insert(s.key@, s.value@),
            None => final(store)@ == old(store)@,
        },
        r@ == Some(
            CommandModel::ReplicateResponse(
                ReplicateResponse { success: true, sequence: replicate_set.sequence },
            ),
        ),
{
    match &replicate_set.set {
        Some(s) => {
            store.insert(s.key.clone(), s.value.clone());
        },
        None => {},
    }
    Request {
        command: Some(
            Command::ReplicateResponse(
                ReplicateResponse { success: true, sequence: replicate_set.sequence },
            ),
        ),
    }
}

/// Whether `peer` is the leader: replicated writes are taken only from the
/// leader's own address.
pub fn from_leader(peer: &String, leader: &String) -> (r: bool)
    ensures
        r == (peer@ == leader@),
{
    *peer == *leader
}

pub open spec fn not_leader_message() -> Seq<char> {
    "Only the leader accepts writes"@
}

/// The leader's handling of a client's write: log it, apply it, and forward it.
pub open spec fn leader_write_ok(old_state: NodeState, new_state: NodeState, set: SetKeyModel, actions: Seq<ActionModel>) -> bool {
    let seq_no = old_state.wal.next_sequence;
    let rs = Some(CommandModel::ReplicateSet(ReplicateSetModel {
        leader_addr: old_state.cluster.leader.addr@,
        set: Some(set),
        sequence: seq_no,
    }));
    let fwd = ActionModel::Replicate(
        frame_bytes(request_bytes(rs)),
        old_state.cluster.followers().sync,
        old_state.cluster.followers().asyncs,
    );
    &&& new_state.store@ == old_state.store@.insert(set.key, set.value)
    &&& new_state.wal.next_sequence == seq_no + 1
    &&& new_state.wal.path == old_state.wal.path
    &&& new_state.cluster == old_state.cluster
    &&& new_state.role == old_state.role
    &&& actions == seq![
        ActionModel::PersistStore(store_bytes(new_state.store.entries())),
        ActionModel::AppendWal(record_bytes(set_bytes(set), (seq_no + 1) as u64)),
    ] + (if request_bytes(rs).len() <= MAX_FRAME_LEN {
        seq![fwd]
    } else {
        seq![]
    }) + seq![reply(write_ok())]
}

/// The leader's handling of a client's write `set`.
fn leader_write(state: &mut NodeState, set: &SetKey) -> (r: Vec<Action>)
    requires
        old(state).wf(),
    ensures
        final(state).wf(),
        set_bytes(set@).len() <= MAX_PAYLOAD_LEN && old(state).wal.next_sequence < u64::MAX
            ==> leader_write_ok(*old(state), *final(state), set@, action_models(r@)),
        !(set_bytes(set@).len() <= MAX_PAYLOAD_LEN && old(state).wal.next_sequence < u64::MAX)
            ==> *final(state) == *old(state) && action_models(r@) == seq![
            reply(failure("Write could not be logged"@)),
        ],
{
    let sequence = state.wal.next_sequence;
    let wal_bytes = match state.wal.append_message(set) {
        Ok(b) => b,
        Err(_) => {
            let r = vec![
                Action::Reply(
                    Outgoing::Response(
                        Response {
                            success: false,
                            message: String::from_str("Write could not be logged"),
                        },
                    ),
                ),
            ];
            proof {
                assert(action_models(r@) =~= seq![reply(failure("Write could not be logged"@))]);
            }
            return r;
        },
    };
    let response = set_handler(set, &mut state.store);
    let snapshot = serialize_store(&state.store);
    let forward = Request {
        command: Some(
            Command::ReplicateSet(
                ReplicateSet {
                    leader_addr: state.cluster.leader.addr.clone(),
                    set: Some(SetKey { key: set.key.clone(), value: set.value.clone() }),
                    sequence,
                },
            ),
        ),
    };
    let mut r = vec![Action::PersistStore(snapshot), Action::AppendWal(wal_bytes)];
    let ghost first = action_models(r@);
    let ghost rs = Some(
        CommandModel::ReplicateSet(
            ReplicateSetModel {
                leader_addr: old(state).cluster.leader.addr@,
                set: Some(set@),
                sequence,
            },
        ),
    );
    proof {
        assert(forward@ == rs);
        assert(first =~= seq![
            ActionModel::PersistStore(store_bytes(state.store.entries())),
            ActionModel::AppendWal(record_bytes(set_bytes(set@), (sequence + 1) as u64)),
        ]);
    }
    match Cluster::replicate(
        &forward,
        &state.cluster.sync_follower,
        &state.cluster.async_followers,
    ) {
        Ok(d) => {
            r.push(Action::Replicate(d));
            proof {
                assert(action_models(r@) =~= first.push(
                    ActionModel::Replicate(
                        frame_bytes(request_bytes(rs)),
                        old(state).cluster.followers().sync,
                        old(state).cluster.followers().asyncs,
                    ),
                ));
            }
        },
        Err(_) => {
            proof {
                assert(action_models(r@) =~= first);
            }
        },
    }
    let ghost mid = action_models(r@);
    r.push(Action::Reply(Outgoing::Response(response)));
    proof {
        assert(action_models(r@) =~= mid.push(reply(write_ok())));
        if request_bytes(rs).len() <= MAX_FRAME_LEN {
            assert(action_models(r@) =~= first + seq![
                ActionModel::Replicate(
                    frame_bytes(request_bytes(rs)),
                    old(state).cluster.followers().sync,
                    old(state).cluster.followers().asyncs,
                ),
            ] + seq![reply(write_ok())]);
        } else {
            assert(action_models(r@) =~= first + Seq::<ActionModel>::empty() + seq![
                reply(write_ok()),
            ]);
        }
    }
    r
}

/// The follower's handling of a write the leader forwarded from `peer`.
fn follower_replicate(state: &mut NodeState, rs: &ReplicateSet, peer: &String) -> (r: Vec<Action>)
    requires
        old(state).wf(),
    ensures
        final(state).wf(),
        follower_replicate_ok(*old(state), *final(state), *rs, peer@, action_models(r@)),
{
    if !from_leader(peer, &state.cluster.leader.addr) {
        let r = vec![
            Action::Reply(
                Outgoing::Response(
                    Response {
                        success: false,
                        message: String::from_str("Replication is only accepted from the leader"),
                    },
                ),
            ),
        ];
        proof {
            assert(action_models(r@) =~= seq![
                reply(failure("Replication is only accepted from the leader"@)),
            ]);
        }
        return r;
    }
    let s = match &rs.set {
        Some(s) => s,
        None => {
            let r = vec![
                Action::Reply(
                    Outgoing::Response(
                        Response {
                            success: false,
                            message: String::from_str("Replication request without a write"),
                        },
                    ),
                ),
            ];
            proof {
                assert(action_models(r@) =~= seq![
                    reply(failure("Replication request without a write"@)),
                ]);
            }
            return r;
        },
    };
    let wal_bytes = match state.wal.append_replicated(s, rs.sequence) {
        Ok(b) => b,
        Err(_) => {
            let r = vec![
                Action::Reply(
                    Outgoing::Response(
                        Response {
                            success: false,
                            message: String::from_str("Replicated write could not be logged"),
                        },
                    ),
                ),
            ];
            proof {
                assert(action_models(r@) =~= seq![
                    reply(failure("Replicated write could not be logged"@)),
                ]);
            }
            return r;
        },
    };
    let ack = replicate_set_handler(rs, &mut state.store);
    let snapshot = serialize_store(&state.store);
    let r = vec![
        Action::PersistStore(snapshot),
        Action::AppendWal(wal_bytes),
        Action::SendTo(rs.leader_addr.clone(), ack),
    ];
    proof {
        assert(action_models(r@) =~= seq![
            ActionModel::PersistStore(store_bytes(state.store.entries())),
            ActionModel::AppendWal(record_bytes(set_bytes(s@), (rs.sequence + 1) as u64)),
            ActionModel::SendTo(
                rs.leader_addr@,
                Some(
                    CommandModel::ReplicateResponse(
                        ReplicateResponse { success: true, sequence: rs.sequence },
                    ),
                ),
            ),
        ]);
    }
    r
}

/// A single reply, with the state unchanged.
pub open spec fn only_reply(old_state: NodeState, new_state: NodeState, actions: Seq<ActionModel>, o: OutgoingModel) -> bool {
    new_state == old_state && actions == seq![ActionModel::Reply(o)]
}

/// Handles one request that came from `peer`:
/// - no command: the connection is closed, with no reply;
/// - a read: answered from the store, by any node;
/// - a greeting: answered with a welcome;
/// - a catch-up request: answered with the sequence of the last logged write,
///   then, unless the follower is current, the logged writes from its sequence on;
/// - a follower joining: answered by the leader with its mode; registered at once
///   as asynchronous, or, offered the synchronous slot, registered once the
///   caller confirms the answer was delivered;
/// - a client's write: on the leader, logged, applied, snapshotted and forwarded
///   to the followers before it is answered; refused by a follower;
/// - a forwarded write: taken by a follower only from the leader's address and
///   under the sequence its log gives next, then acknowledged to the leader;
///   refused by the leader;
/// - an acknowledgement: nothing to do.
pub fn handle_request(state: &mut NodeState, request: &Request, peer: &String) -> (r: Vec<Action>)
    requires
        old(state).wf(),
    ensures
        final(state).wf(),
        match request@ {
            None => *final(state) == *old(state) && action_models(r@) == seq![ActionModel::Close],
            Some(CommandModel::Get(k)) => only_reply(*old(state), *final(state), action_models(r@),
                OutgoingModel::Response(get_response(old(state).store, k))),
            Some(CommandModel::InitiateSession(_)) => only_reply(*old(state), *final(state),
                action_models(r@), OutgoingModel::Welcome("Welcome to Blue!\n"@)),
            Some(CommandModel::SynchronizeRequest(from)) => {
                &&& *final(state) == *old(state)
                &&& action_models(r@) == seq![
                    ActionModel::Reply(OutgoingModel::SynchronizeResponse(
                        (old(state).wal.next_sequence - 1) as u64,
                    )),
                ] + if from == old(state).wal.next_sequence {
                    Seq::<ActionModel>::empty()
                } else {
                    seq![ActionModel::CatchUp(from)]
                }
            },
            Some(CommandModel::FollowRequest(addr)) => if old(state).role == NodeRole::Leader {
                if old(state).cluster.sync_follower is None {
                    &&& *final(state) == *old(state)
                    &&& action_models(r@) == seq![
                        ActionModel::Reply(OutgoingModel::FollowResponse(FollowResponseModel {
                            leader: old(state).cluster.leader.addr@,
                            replication: 0,
                        })),
                        ActionModel::ConfirmSync(addr),
                    ]
                } else {
                    &&& final(state).cluster.followers() == register(old(state).cluster.followers(), addr)
                    &&& final(state).cluster.leader == old(state).cluster.leader
                    &&& final(state).cluster.sync_follower == old(state).cluster.sync_follower
                    &&& final(state).store == old(state).store
                    &&& final(state).wal == old(state).wal
                    &&& final(state).role == old(state).role
                    &&& action_models(r@) == seq![
                        ActionModel::Reply(OutgoingModel::FollowResponse(FollowResponseModel {
                            leader: old(state).cluster.leader.addr@,
                            replication: 1,
                        })),
                    ]
                }
            } else {
                only_reply(*old(state), *final(state), action_models(r@),
                    OutgoingModel::Response(failure("Only the leader accepts followers"@)))
            },
            Some(CommandModel::SetKey(s)) => if old(state).role == NodeRole::Follower {
                only_reply(*old(state), *final(state), action_models(r@),
                    OutgoingModel::Response(failure(not_leader_message())))
            } else if set_bytes(s).len() <= MAX_PAYLOAD_LEN && old(state).wal.next_sequence < u64::MAX {
                leader_write_ok(*old(state), *final(state), s, action_models(r@))
            } else {
                only_reply(*old(state), *final(state), action_models(r@),
                    OutgoingModel::Response(failure("Write could not be logged"@)))
            },
            Some(CommandModel::ReplicateSet(_)) => old(state).role == NodeRole::Leader ==> only_reply(
                *old(state), *final(state), action_models(r@),
                OutgoingModel::Response(failure("Leader does not accept replication requests"@))),
            Some(CommandModel::ReplicateResponse(_)) => *final(state) == *old(state) && r@.len() == 0,
        },
        match request.command {
            Some(Command::ReplicateSet(rs)) => old(state).role == NodeRole::Follower
                ==> follower_replicate_ok(*old(state), *final(state), rs, peer@, action_models(r@)),
            _ => true,
        },
{
    match &request.command {
        None => {
            let r = vec![Action::Close];
            proof {
                assert(action_models(r@) =~= seq![ActionModel::Close]);
            }
            r
        },
        Some(Command::Get(g)) => {
            let r = vec![Action::Reply(Outgoing::Response(get_handler(g, &state.store)))];
            proof {
                assert(action_models(r@) =~= seq![
                    ActionModel::Reply(OutgoingModel::Response(get_response(state.store, g@))),
                ]);
            }
            r
        },
        Some(Command::InitiateSession(_)) => {
            let r = vec![
                Action::Reply(
                    Outgoing::Welcome(Welcome { message: String::from_str("Welcome to Blue!\n") }),
                ),
            ];
            proof {
                assert(action_models(r@) =~= seq![
                    ActionModel::Reply(OutgoingModel::Welcome("Welcome to Blue!\n"@)),
                ]);
            }
            r
        },
        Some(Command::SynchronizeRequest(s)) => {
            let mut r = vec![
                Action::Reply(Outgoing::SynchronizeResponse(synchronize_response(&state.wal))),
            ];
            if s.next_sequence != state.wal.next_sequence {
                r.push(Action::CatchUp(s.next_sequence));
            }
            proof {
                if s.next_sequence != state.wal.next_sequence {
                    assert(action_models(r@) =~= seq![
                        ActionModel::Reply(OutgoingModel::SynchronizeResponse(
                            (state.wal.next_sequence - 1) as u64,
                        )),
                    ] + seq![ActionModel::CatchUp(s.next_sequence)]);
                } else {
                    assert(action_models(r@) =~= seq![
                        ActionModel::Reply(OutgoingModel::SynchronizeResponse(
                            (state.wal.next_sequence - 1) as u64,
                        )),
                    ] + Seq::<ActionModel>::empty());
                }
            }
            r
        },
        Some(Command::FollowRequest(f)) => {
            let r = if state.role == NodeRole::Leader {
                let offered = state.cluster.sync_follower.is_none();
                let answer = state.cluster.add_follower(f.follower_addr.clone());
                if offered {
                    let r = vec![
                        Action::Reply(Outgoing::FollowResponse(answer)),
                        Action::ConfirmSync(f.follower_addr.clone()),
                    ];
                    proof {
                        assert(action_models(r@) =~= seq![r@[0]@, r@[1]@]);
                    }
                    return r;
                }
                vec![Action::Reply(Outgoing::FollowResponse(answer))]
            } else {
                vec![
                    Action::Reply(
                        Outgoing::Response(
                            Response {
                                success: false,
                                message: String::from_str("Only the leader accepts followers"),
                            },
                        ),
                    ),
                ]
            };
            proof {
                assert(action_models(r@) =~= seq![r@[0]@]);
            }
            r
        },
        Some(Command::SetKey(s)) => {
            if state.role == NodeRole::Follower {
                let r = vec![
                    Action::Reply(
                        Outgoing::Response(
                            Response {
                                success: false,
                                message: String::from_str("Only the leader accepts writes"),
                            },
                        ),
                    ),
                ];
                proof {
                    assert(action_models(r@) =~= seq![reply(failure(not_leader_message()))]);
                }
                r
            } else {
                leader_write(state, s)
            }
        },
        Some(Command::ReplicateSet(rs)) => {
            if state.role == NodeRole::Leader {
                let r = vec![
                    Action::Reply(
                        Outgoing::Response(
                            Response {
                                success: false,
                                message: String::from_str(
                                    "Leader does not accept replication requests",
                                ),
                            },
                        ),
                    ),
                ];
                proof {
                    assert(action_models(r@) =~= seq![
                        reply(failure("Leader does not accept replication requests"@)),
                    ]);
                }
                r
            } else {
                follower_replicate(state, rs, peer)
            }
        },
        Some(Command::ReplicateResponse(_)) => Vec::new(),
    }
}

/// The follower's handling of a forwarded write: see `follower_replicate`.
pub open spec fn follower_replicate_ok(old_state: NodeState, new_state: NodeState, rs: ReplicateSet, peer: Seq<char>, actions: Seq<ActionModel>) -> bool {
    if peer != old_state.cluster.leader.addr@ {
        new_state == old_state && actions == seq![reply(failure("Replication is only accepted from the leader"@))]
    } else {
        match rs.set {
            None => new_state == old_state && actions == seq![
                reply(failure("Replication request without a write"@)),
            ],
            Some(s) => if rs.sequence == old_state.wal.next_sequence && set_bytes(s@).len()
                <= MAX_PAYLOAD_LEN && rs.sequence < u64::MAX {
                &&& new_state.store@ == old_state.store@.insert(s.key@, s.value@)
                &&& new_state.wal.next_sequence == rs.sequence + 1
                &&& new_state.wal.path == old_state.wal.path
                &&& new_state.cluster == old_state.cluster
                &&& new_state.role == old_state.role
                &&& actions == seq![
                    ActionModel::PersistStore(store_bytes(new_state.store.entries())),
                    ActionModel::AppendWal(record_bytes(set_bytes(s@), (rs.sequence + 1) as u64)),
                    ActionModel::SendTo(
                        rs.leader_addr@,
                        Some(
                            CommandModel::ReplicateResponse(
                                ReplicateResponse { success: true, sequence: rs.sequence },
                            ),
                        ),
                    ),
                ]
            } else {
                new_state == old_state && actions == seq![
                    reply(failure("Replicated write could not be logged"@)),
                ]
            },
        }
    }
}

/// The bytes of a reply.
pub open spec fn outgoing_bytes(o: OutgoingModel) -> Seq<u8> {
    match o {
        OutgoingModel::Response(m) => fields_bytes(response_fields(m)),
        OutgoingModel::Welcome(t) => fields_bytes(welcome_fields(t)),
        OutgoingModel::FollowResponse(m) => fields_bytes(follow_response_fields(m)),
        OutgoingModel::SynchronizeResponse(n) => fields_bytes(synchronize_response_fields(n)),
    }
}

impl Outgoing {
    pub fn encode(&self) -> (r: Vec<u8>)
        ensures
            r@ == outgoing_bytes(self@),
    {
        match self {
            Outgoing::Response(m) => m.encode(),
            Outgoing::Welcome(m) => m.encode(),
            Outgoing::FollowResponse(m) => m.encode(),
            Outgoing::SynchronizeResponse(m) => m.encode(),
        }
    }

    /// The reply as a frame on the connection.
    pub fn to_frame(&self) -> (r: Result<Vec<u8>, FrameError>)
        ensures
            outgoing_bytes(self@).len() <= MAX_FRAME_LEN ==> (r matches Ok(v) && v@ == frame_bytes(
                outgoing_bytes(self@),
            )),
            outgoing_bytes(self@).len() > MAX_FRAME_LEN ==> r == Err::<Vec<u8>, FrameError>(
                FrameError::TooLarge,
            ),
    {
        frame(&self.encode())
    }
}

/// The texts of a reply fit in fields.
pub open spec fn outgoing_ok(o: OutgoingModel) -> bool {
    match o {
        OutgoingModel::Response(m) => text_ok(m.message),
        OutgoingModel::Welcome(t) => text_ok(t),
        OutgoingModel::FollowResponse(m) => text_ok(m.leader),
        OutgoingModel::SynchronizeResponse(_) => true,
    }
}

/// Whether `bytes` decode, as the kind of reply `o` is, to `o`.
pub open spec fn decodes_as(bytes: Seq<u8>, o: OutgoingModel) -> bool {
    match o {
        OutgoingModel::Response(m) => response_decode(bytes) == Some(m),
        OutgoingModel::Welcome(t) => welcome_decode(bytes) == Some(t),
        OutgoingModel::FollowResponse(m) => follow_response_decode(bytes) == Some(m),
        OutgoingModel::SynchronizeResponse(n) => synchronize_response_decode(bytes) == Some(n),
    }
}

/// A request, framed and sent, is read back whole and decodes to itself.
pub proof fn lemma_request_wire_round_trip(m: Option<CommandModel>, rest: Seq<u8>)
    requires
        m matches Some(c) ==> command_ok(c),
        request_bytes(m).len() <= MAX_FRAME_LEN,
    ensures
        unframe_spec(frame_bytes(request_bytes(m)) + rest) == Ok::<(Seq<u8>, nat), FrameError>(
            (request_bytes(m), (request_bytes(m).len() + 4) as nat),
        ),
        request_decode(request_bytes(m)) == Some(m),
{
    lemma_frame_round_trip(request_bytes(m), rest);
    lemma_request_round_trip(m);
}

/// A reply, framed and sent, is read back whole and decodes to itself.
pub proof fn lemma_reply_wire_round_trip(o: OutgoingModel, rest: Seq<u8>)
    requires
        outgoing_ok(o),
        outgoing_bytes(o).len() <= MAX_FRAME_LEN,
    ensures
        unframe_spec(frame_bytes(outgoing_bytes(o)) + rest) == Ok::<(Seq<u8>, nat), FrameError>(
            (outgoing_bytes(o), (outgoing_bytes(o).len() + 4) as nat),
        ),
        decodes_as(outgoing_bytes(o), o),
{
    lemma_frame_round_trip(outgoing_bytes(o), rest);
    match o {
        OutgoingModel::Response(m) => lemma_response_round_trip(m),
        OutgoingModel::Welcome(t) => lemma_welcome_round_trip(t),
        OutgoingModel::FollowResponse(m) => lemma_follow_response_round_trip(m),
        OutgoingModel::SynchronizeResponse(n) => lemma_synchronize_response_round_trip(n),
    }
}

} // verus!
