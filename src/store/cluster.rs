//! Cluster topology: this node's role, the leader, and the followers the leader
//! registered: at most one synchronous follower (the first to register) and any
//! number of asynchronous ones, in order of registration.

use vstd::prelude::*;
use crate::ipc::frame::{frame, frame_bytes, FrameError, MAX_FRAME_LEN};
use crate::ipc::message::{FollowResponse, FollowRequest};
use crate::ipc::message::request::{Request, Command, request_bytes};

verus! {

/// Whether a node takes writes from clients (leader) or from the leader (follower).
#[derive(Debug, Clone, Copy, PartialEq, Eq, Structural)]
pub enum NodeRole {
    Leader,
    Follower,
}

/// How the leader forwards writes to a follower.
#[derive(Debug, Clone, Copy, PartialEq, Eq, Structural)]
pub enum Replication {
    Sync,
    Async,
}

/// The number a replication mode is written as: 0 synchronous, 1 asynchronous.
pub open spec fn mode_number(r: Replication) -> u32 {
    match r {
        Replication::Sync => 0,
        Replication::Async => 1,
    }
}

impl NodeRole {
    /// The role a configuration word names: "leader" or "follower", in lower
    /// case or capitalised.
    pub fn from_str(input: &str) -> (r: Result<NodeRole, ()>)
        ensures
            input@ == "leader"@ || input@ == "Leader"@ ==> r == Ok::<NodeRole, ()>(NodeRole::Leader),
            input@ == "follower"@ || input@ == "Follower"@ ==> r == Ok::<NodeRole, ()>(
                NodeRole::Follower,
            ),
            !(input@ == "leader"@ || input@ == "Leader"@ || input@ == "follower"@ || input@
                == "Follower"@) ==> r == Err::<NodeRole, ()>(()),
    {
        proof {
            reveal_strlit("leader");
            reveal_strlit("Leader");
            reveal_strlit("follower");
            reveal_strlit("Follower");
            assert("leader"@.len() == 6 && "Leader"@.len() == 6);
            assert("follower"@.len() == 8 && "Follower"@.len() == 8);
        }
        let s = String::from_str(input);
        if s == String::from_str("leader") || s == String::from_str("Leader") {
            Ok(NodeRole::Leader)
        } else if s == String::from_str("follower") || s == String::from_str("Follower") {
            Ok(NodeRole::Follower)
        } else {
            Err(())
        }
    }
}

/// A node of the cluster.
#[derive(Debug, Clone)]
pub struct Node {
    pub addr: String,
    pub role: NodeRole,
    pub replication: Replication,
}

/// Why a cluster could not be set up.
#[derive(Debug, Clone, Copy, PartialEq, Eq)]
pub enum ClusterError {
    /// A follower has no answer from the leader to join with.
    NoFollowResponse,
    /// The leader's answer names no known replication mode.
    InvalidConfig,
}

/// The cluster as this node knows it.
#[derive(Debug, Clone)]
pub struct Cluster {
    pub leader: Node,
    pub sync_follower: Option<Node>,
    pub async_followers: Option<Vec<Node>>,
}

/// The registered followers, by address.
pub ghost struct Followers {
    pub sync: Option<Seq<char>>,
    pub asyncs: Seq<Seq<char>>,
}

pub open spec fn no_followers() -> Followers {
    Followers { sync: None, asyncs: seq![] }
}

/// Registering `addr`: it takes the synchronous slot if that is free, else it
/// joins the asynchronous followers.
pub open spec fn register(f: Followers, addr: Seq<char>) -> Followers {
    if f.sync is None {
        Followers { sync: Some(addr), asyncs: f.asyncs }
    } else {
        Followers { sync: f.sync, asyncs: f.asyncs.push(addr) }
    }
}

/// The mode the next follower to register gets.
pub open spec fn next_mode(f: Followers) -> u32 {
    if f.sync is None {
        0
    } else {
        1
    }
}

pub open spec fn register_all(f: Followers, addrs: Seq<Seq<char>>) -> Followers
    decreases addrs.len(),
{
    if addrs.len() == 0 {
        f
    } else {
        register(register_all(f, addrs.drop_last()), addrs.last())
    }
}

pub open spec fn node_addrs(nodes: Seq<Node>) -> Seq<Seq<char>> {
    nodes.map_values(|n: Node| n.addr@)
}

impl Cluster {
    pub open spec fn followers(&self) -> Followers {
        Followers {
            sync: match self.sync_follower {
                Some(n) => Some(n.addr@),
                None => None,
            },
            asyncs: match self.async_followers {
                Some(v) => node_addrs(v@),
                None => seq![],
            },
        }
    }

    /// Followers are registered as followers, in the mode of their slot, and
    /// there are asynchronous followers only once the synchronous slot is taken.
    pub open spec fn wf(&self) -> bool {
        &&& self.sync_follower matches Some(n) ==> n.role == NodeRole::Follower && n.replication
            == Replication::Sync
        &&& self.async_followers matches Some(v) ==> self.sync_follower is Some && forall|i: int|
            0 <= i < v@.len() ==> (#[trigger] v@[i]).role == NodeRole::Follower && v@[i].replication
                == Replication::Async
    }

    /// The cluster of a node at start-up: a leader knows only itself; a follower
    /// knows the leader at `leader`, in the mode the leader's `response` gave it.
    pub fn new(addr: String, role: NodeRole, leader: String, response: Option<&FollowResponse>) -> (r:
        Result<Cluster, ClusterError>)
        ensures
            role == NodeRole::Leader ==> (r matches Ok(c) && c.leader.addr@ == addr@ && c.leader.role
                == NodeRole::Leader && c.leader.replication == Replication::Sync && c.followers()
                == no_followers() && c.wf()),
            role == NodeRole::Follower ==> match response {
                None => r == Err::<Cluster, ClusterError>(ClusterError::NoFollowResponse),
                Some(f) => if f.replication == 0 || f.replication == 1 {
                    r matches Ok(c) && c.leader.addr@ == leader@ && c.leader.role == NodeRole::Leader
                        && mode_number(c.leader.replication) == f.replication && c.followers()
                        == no_followers() && c.wf()
                } else {
                    r == Err::<Cluster, ClusterError>(ClusterError::InvalidConfig)
                },
            },
    {
        match role {
            NodeRole::Leader => Ok(
                Cluster {
                    leader: Node { addr, role: NodeRole::Leader, replication: Replication::Sync },
                    sync_follower: None,
                    async_followers: None,
                },
            ),
            NodeRole::Follower => match response {
                None => Err(ClusterError::NoFollowResponse),
                Some(f) => {
                    let replication = if f.replication == 0 {
                        Replication::Sync
                    } else if f.replication == 1 {
                        Replication::Async
                    } else {
                        return Err(ClusterError::InvalidConfig);
                    };
                    Ok(
                        Cluster {
                            leader: Node { addr: leader, role: NodeRole::Leader, replication },
                            sync_follower: None,
                            async_followers: None,
                        },
                    )
                },
            },
        }
    }

    /// Answers the follower at `addr` that asks to join. Where the synchronous
    /// slot is taken, the follower is registered as asynchronous at once; where
    /// it is free, the answer offers it and nothing changes until `confirm_sync`
    /// learns that the answer was delivered.
    pub fn add_follower(&mut self, addr: String) -> (r: FollowResponse)
        requires
            old(self).wf(),
        ensures
            final(self).wf(),
            r.leader@ == old(self).leader.addr@,
            r.replication == next_mode(old(self).followers()),
            old(self).sync_follower is None ==> *final(self) == *old(self),
            old(self).sync_follower is Some ==> {
                &&& final(self).leader == old(self).leader
                &&& final(self).sync_follower == old(self).sync_follower
                &&& final(self).followers() == register(old(self).followers(), addr@)
            },
    {
        let leader = self.leader.addr.clone();
        match &self.sync_follower {
            Some(_) => {
                let node = Node { addr, role: NodeRole::Follower, replication: Replication::Async };
                match &mut self.async_followers {
                    Some(v) => {
                        let ghost before = v@;
                        v.push(node);
                        proof {
                            assert(node_addrs(v@) =~= node_addrs(before).push(addr@));
                        }
                    },
                    None => {
                        let v = vec![node];
                        proof {
                            assert(node_addrs(v@) =~= seq![].push(addr@));
                        }
                        self.async_followers = Some(v);
                    },
                }
                FollowResponse { leader, replication: 1 }
            },
            None => FollowResponse { leader, replication: 0 },
        }
    }

    /// Takes the synchronous slot for the follower at `addr` once the answer
    /// offering it was delivered (`sent`); where it was not, or the slot is no
    /// longer free, nothing changes and the slot stays for the next follower.
    pub fn confirm_sync(&mut self, addr: String, sent: bool)
        requires
            old(self).wf(),
        ensures
            final(self).wf(),
            final(self).leader == old(self).leader,
            final(self).async_followers == old(self).async_followers,
            sent && old(self).sync_follower is None ==> final(self).sync_follower == Some(
                Node { addr, role: NodeRole::Follower, replication: Replication::Sync },
            ) && final(self).followers() == register(old(self).followers(), addr@),
            !(sent && old(self).sync_follower is None) ==> *final(self) == *old(self),
    {
        if sent && self.sync_follower.is_none() {
            self.sync_follower = Some(
                Node { addr, role: NodeRole::Follower, replication: Replication::Sync },
            );
        }
    }

    /// The bytes and the destinations of a write that the leader forwards:
    /// first the synchronous follower, then the asynchronous ones in order.
    pub fn replicate(message: &Request, sync_follower: &Option<Node>, async_followers: &Option<
        Vec<Node>,
    >) -> (r: Result<Delivery, FrameError>)
        ensures
            request_bytes(message@).len() > MAX_FRAME_LEN ==> r == Err::<Delivery, FrameError>(
                FrameError::TooLarge,
            ),
            request_bytes(message@).len() <= MAX_FRAME_LEN ==> (r matches Ok(d) && d.frame@
                == frame_bytes(request_bytes(message@)) && match sync_follower {
                Some(n) => d.sync_target matches Some(a) && a@ == n.addr@,
                None => d.sync_target is None,
            } && node_addrs_of(d.async_targets@) == match async_followers {
                Some(v) => node_addrs(v@),
                None => seq![],
            }),
    {
        let bytes = message.encode();
        let framed = match frame(&bytes) {
            Ok(f) => f,
            Err(e) => return Err(e),
        };
        let sync_target = match sync_follower {
            Some(n) => Some(n.addr.clone()),
            None => None,
        };
        let mut async_targets: Vec<String> = Vec::new();
        match async_followers {
            Some(v) => {
                let mut i: usize = 0;
                while i < v.len()
                    invariant
                        i <= v@.len(),
                        node_addrs_of(async_targets@) == node_addrs(v@.take(i as int)),
                    decreases v@.len() - i,
                {
                    let ghost before = async_targets@;
                    async_targets.push(v[i].addr.clone());
                    proof {
                        assert(v@.take(i + 1) =~= v@.take(i as int).push(v@[i as int]));
                        assert(node_addrs_of(async_targets@) =~= node_addrs_of(before).push(
                            v@[i as int].addr@,
                        ));
                        assert(node_addrs(v@.take(i + 1)) =~= node_addrs(v@.take(i as int)).push(
                            v@[i as int].addr@,
                        ));
                    }
                    i = i + 1;
                }
                proof {
                    assert(v@.take(i as int) =~= v@);
                }
            },
            None => {
                proof {
                    assert(node_addrs_of(async_targets@) =~= Seq::<Seq<char>>::empty());
                }
            },
        }
        Ok(Delivery { sync_target, async_targets, frame: framed })
    }
}

pub open spec fn node_addrs_of(addrs: Seq<String>) -> Seq<Seq<char>> {
    addrs.map_values(|a: String| a@)
}

/// A framed message and the followers to send it to.
#[derive(Debug, Clone)]
pub struct Delivery {
    pub sync_target: Option<String>,
    pub async_targets: Vec<String>,
    pub frame: Vec<u8>,
}

/// The request a follower at `addr` sends the leader to join.
pub fn follow_request(addr: &String) -> (r: Request)
    ensures
        r.command matches Some(Command::FollowRequest(f)) && f.follower_addr@ == addr@,
{
    Request { command: Some(Command::FollowRequest(FollowRequest { follower_addr: addr.clone() })) }
}

/// Whatever the order in which followers register (each answer delivered, so
/// that `add_follower` and `confirm_sync` together register it), the first one
/// takes the synchronous slot and every later one becomes asynchronous, in
/// order; the first is answered mode 0 and every later one mode 1.
pub proof fn lemma_first_registrant_is_sync(addrs: Seq<Seq<char>>)
    requires
        addrs.len() > 0,
    ensures
        register_all(no_followers(), addrs) == (Followers {
            sync: Some(addrs[0]),
            asyncs: addrs.drop_first(),
        }),
        forall|i: int|
            0 <= i < addrs.len() ==> next_mode(register_all(no_followers(), #[trigger] addrs.take(i)))
                == if i == 0 {
                0u32
            } else {
                1u32
            },
    decreases addrs.len(),
{
    if addrs.len() == 1 {
        assert(addrs.drop_last() =~= Seq::<Seq<char>>::empty());
        assert(addrs.drop_first() =~= Seq::<Seq<char>>::empty());
        assert(addrs.take(0) =~= Seq::<Seq<char>>::empty());
    } else {
        let init = addrs.drop_last();
        lemma_first_registrant_is_sync(init);
        assert(init.drop_first().push(addrs.last()) =~= addrs.drop_first());
        assert forall|i: int|
            0 <= i < addrs.len() implies next_mode(
            register_all(no_followers(), #[trigger] addrs.take(i)),
        ) == if i == 0 {
            0u32
        } else {
            1u32
        } by {
            if i < addrs.len() - 1 {
                assert(addrs.take(i) =~= init.take(i));
            } else {
                assert(addrs.take(i) =~= init);
            }
        }
    }
}

} // verus!
