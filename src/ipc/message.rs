//! The messages of the protocol and their protobuf encoding.
//!
//! Each message has a model (what it holds, in mathematical terms), the list of
//! fields it is written as, and a decoder that reads the last value of each field,
//! ignores fields it does not know, and fails on a field of the wrong wire type.

pub mod request;

use vstd::prelude::*;
use crate::ipc::wire::{
    FieldModel, field_models, fields_bytes, parse_fields, text_field, int_field,
    bytes_field, text_model, text_field_new, int_field_new, bytes_field_new, read_fields,
    read_text_field, read_int_field, read_bytes_field, encode_fields, lemma_parse_fields_bytes,
    text_ok,
};

verus! {

broadcast use vstd::utf8::encode_utf8_valid_utf8, vstd::utf8::encode_utf8_decode_utf8;

// ---------------------------------------------------------------- Get

/// A read of one key; the empty key asks for every record.
#[derive(Debug, Clone, PartialEq, Eq, Default)]
pub struct Get {
    pub key: String,
}

impl View for Get {
    type V = Seq<char>;

    open spec fn view(&self) -> Seq<char> {
        self.key@
    }
}

pub open spec fn get_fields(key: Seq<char>) -> Seq<FieldModel> {
    seq![text_model(1, key)]
}

pub open spec fn get_from_fields(fs: Seq<FieldModel>) -> Option<Seq<char>> {
    text_field(fs, 1)
}

pub open spec fn get_decode(bytes: Seq<u8>) -> Option<Seq<char>> {
    match parse_fields(bytes) {
        Some(fs) => get_from_fields(fs),
        None => None,
    }
}

impl Get {
    pub fn encode(&self) -> (r: Vec<u8>)
        ensures
            r@ == fields_bytes(get_fields(self@)),
    {
        let fields = vec![text_field_new(1, &self.key)];
        proof {
            assert(field_models(fields@) =~= get_fields(self@));
        }
        encode_fields(&fields)
    }

    pub fn decode(bytes: &[u8]) -> (r: Option<Get>)
        ensures
            match get_decode(bytes@) {
                Some(m) => r matches Some(g) && g@ == m,
                None => r is None,
            },
    {
        let fields = match read_fields(bytes) {
            Some(f) => f,
            None => return None,
        };
        match read_text_field(&fields, 1) {
            Some(key) => Some(Get { key }),
            None => None,
        }
    }
}

pub proof fn lemma_get_round_trip(key: Seq<char>)
    requires
        text_ok(key),
    ensures
        get_decode(fields_bytes(get_fields(key))) == Some(key),
{
    let fs = get_fields(key);
    lemma_parse_fields_bytes(fs);
    reveal_with_fuel(text_field, 2);
    assert(fs.drop_last() =~= Seq::<FieldModel>::empty());
}

// ---------------------------------------------------------------- SetKey

/// A write of `value` under `key`.
#[derive(Debug, Clone, PartialEq, Eq, Default)]
pub struct SetKey {
    pub key: String,
    pub value: String,
}

pub ghost struct SetKeyModel {
    pub key: Seq<char>,
    pub value: Seq<char>,
}

impl View for SetKey {
    type V = SetKeyModel;

    open spec fn view(&self) -> SetKeyModel {
        SetKeyModel { key: self.key@, value: self.value@ }
    }
}

pub open spec fn set_fields(m: SetKeyModel) -> Seq<FieldModel> {
    seq![text_model(1, m.key), text_model(2, m.value)]
}

pub open spec fn set_bytes(m: SetKeyModel) -> Seq<u8> {
    fields_bytes(set_fields(m))
}

pub open spec fn set_from_fields(fs: Seq<FieldModel>) -> Option<SetKeyModel> {
    match (text_field(fs, 1), text_field(fs, 2)) {
        (Some(key), Some(value)) => Some(SetKeyModel { key, value }),
        _ => None,
    }
}

pub open spec fn set_decode(bytes: Seq<u8>) -> Option<SetKeyModel> {
    match parse_fields(bytes) {
        Some(fs) => set_from_fields(fs),
        None => None,
    }
}

impl SetKey {
    pub fn encode(&self) -> (r: Vec<u8>)
        ensures
            r@ == set_bytes(self@),
    {
        let fields = vec![text_field_new(1, &self.key), text_field_new(2, &self.value)];
        proof {
            assert(field_models(fields@) =~= set_fields(self@));
        }
        encode_fields(&fields)
    }

    pub fn decode(bytes: &[u8]) -> (r: Option<SetKey>)
        ensures
            match set_decode(bytes@) {
                Some(m) => r matches Some(s) && s@ == m,
                None => r is None,
            },
    {
        let fields = match read_fields(bytes) {
            Some(f) => f,
            None => return None,
        };
        let key = match read_text_field(&fields, 1) {
            Some(k) => k,
            None => return None,
        };
        match read_text_field(&fields, 2) {
            Some(value) => Some(SetKey { key, value }),
            None => None,
        }
    }
}

pub proof fn lemma_set_round_trip(m: SetKeyModel)
    requires
        text_ok(m.key),
        text_ok(m.value),
    ensures
        set_decode(set_bytes(m)) == Some(m),
{
    let fs = set_fields(m);
    lemma_parse_fields_bytes(fs);
    reveal_with_fuel(text_field, 3);
    assert(fs.drop_last() =~= seq![text_model(1, m.key)]);
    assert(fs.drop_last().drop_last() =~= Seq::<FieldModel>::empty());
}

// ---------------------------------------------------------------- FollowRequest

/// A follower's request to join the cluster, with the address it listens on.
#[derive(Debug, Clone, PartialEq, Eq, Default)]
pub struct FollowRequest {
    pub follower_addr: String,
}

impl View for FollowRequest {
    type V = Seq<char>;

    open spec fn view(&self) -> Seq<char> {
        self.follower_addr@
    }
}

pub open spec fn follow_request_fields(t: Seq<char>) -> Seq<FieldModel> {
    seq![text_model(1, t)]
}

pub open spec fn follow_request_decode(bytes: Seq<u8>) -> Option<Seq<char>> {
    match parse_fields(bytes) {
        Some(fs) => text_field(fs, 1),
        None => None,
    }
}

impl FollowRequest {
    pub fn encode(&self) -> (r: Vec<u8>)
        ensures
            r@ == fields_bytes(follow_request_fields(self@)),
    {
        let fields = vec![text_field_new(1, &self.follower_addr)];
        proof {
            assert(field_models(fields@) =~= follow_request_fields(self@));
        }
        encode_fields(&fields)
    }

    pub fn decode(bytes: &[u8]) -> (r: Option<FollowRequest>)
        ensures
            match follow_request_decode(bytes@) {
                Some(m) => r matches Some(g) && g@ == m,
                None => r is None,
            },
    {
        let fields = match read_fields(bytes) {
            Some(f) => f,
            None => return None,
        };
        match read_text_field(&fields, 1) {
            Some(follower_addr) => Some(FollowRequest { follower_addr }),
            None => None,
        }
    }
}

pub proof fn lemma_follow_request_round_trip(t: Seq<char>)
    requires
        text_ok(t),
    ensures
        follow_request_decode(fields_bytes(follow_request_fields(t))) == Some(t),
{
    let fs = follow_request_fields(t);
    lemma_parse_fields_bytes(fs);
    reveal_with_fuel(text_field, 2);
    assert(fs.drop_last() =~= Seq::<FieldModel>::empty());
}

// ---------------------------------------------------------------- InitiateSession

/// A client's greeting, with its name.
#[derive(Debug, Clone, PartialEq, Eq, Default)]
pub struct InitiateSession {
    pub name: String,
}

impl View for InitiateSession {
    type V = Seq<char>;

    open spec fn view(&self) -> Seq<char> {
        self.name@
    }
}

pub open spec fn initiate_session_fields(t: Seq<char>) -> Seq<FieldModel> {
    seq![text_model(1, t)]
}

pub open spec fn initiate_session_decode(bytes: Seq<u8>) -> Option<Seq<char>> {
    match parse_fields(bytes) {
        Some(fs) => text_field(fs, 1),
        None => None,
    }
}

impl InitiateSession {
    pub fn encode(&self) -> (r: Vec<u8>)
        ensures
            r@ == fields_bytes(initiate_session_fields(self@)),
    {
        let fields = vec![text_field_new(1, &self.name)];
        proof {
            assert(field_models(fields@) =~= initiate_session_fields(self@));
        }
        encode_fields(&fields)
    }

    pub fn decode(bytes: &[u8]) -> (r: Option<InitiateSession>)
        ensures
            match initiate_session_decode(bytes@) {
                Some(m) => r matches Some(g) && g@ == m,
                None => r is None,
            },
    {
        let fields = match read_fields(bytes) {
            Some(f) => f,
            None => return None,
        };
        match read_text_field(&fields, 1) {
            Some(name) => Some(InitiateSession { name }),
            None => None,
        }
    }
}

pub proof fn lemma_initiate_session_round_trip(t: Seq<char>)
    requires
        text_ok(t),
    ensures
        initiate_session_decode(fields_bytes(initiate_session_fields(t))) == Some(t),
{
    let fs = initiate_session_fields(t);
    lemma_parse_fields_bytes(fs);
    reveal_with_fuel(text_field, 2);
    assert(fs.drop_last() =~= Seq::<FieldModel>::empty());
}

// ---------------------------------------------------------------- Welcome

/// The answer to a greeting.
#[derive(Debug, Clone, PartialEq, Eq, Default)]
pub struct Welcome {
    pub message: String,
}

impl View for Welcome {
    type V = Seq<char>;

    open spec fn view(&self) -> Seq<char> {
        self.message@
    }
}

pub open spec fn welcome_fields(t: Seq<char>) -> Seq<FieldModel> {
    seq![text_model(1, t)]
}

pub open spec fn welcome_decode(bytes: Seq<u8>) -> Option<Seq<char>> {
    match parse_fields(bytes) {
        Some(fs) => text_field(fs, 1),
        None => None,
    }
}

impl Welcome {
    pub fn encode(&self) -> (r: Vec<u8>)
        ensures
            r@ == fields_bytes(welcome_fields(self@)),
    {
        let fields = vec![text_field_new(1, &self.message)];
        proof {
            assert(field_models(fields@) =~= welcome_fields(self@));
        }
        encode_fields(&fields)
    }

    pub fn decode(bytes: &[u8]) -> (r: Option<Welcome>)
        ensures
            match welcome_decode(bytes@) {
                Some(m) => r matches Some(g) && g@ == m,
                None => r is None,
            },
    {
        let fields = match read_fields(bytes) {
            Some(f) => f,
            None => return None,
        };
        match read_text_field(&fields, 1) {
            Some(message) => Some(Welcome { message }),
            None => None,
        }
    }
}

pub proof fn lemma_welcome_round_trip(t: Seq<char>)
    requires
        text_ok(t),
    ensures
        welcome_decode(fields_bytes(welcome_fields(t))) == Some(t),
{
    let fs = welcome_fields(t);
    lemma_parse_fields_bytes(fs);
    reveal_with_fuel(text_field, 2);
    assert(fs.drop_last() =~= Seq::<FieldModel>::empty());
}

// ---------------------------------------------------------------- SynchronizeRequest

/// A follower's request to catch up, with the next sequence its log would assign.
#[derive(Debug, Clone, Copy, PartialEq, Eq, Default)]
pub struct SynchronizeRequest {
    pub next_sequence: u64,
}

pub open spec fn synchronize_request_fields(v: u64) -> Seq<FieldModel> {
    seq![FieldModel::Varint(1, v)]
}

pub open spec fn synchronize_request_decode(bytes: Seq<u8>) -> Option<u64> {
    match parse_fields(bytes) {
        Some(fs) => int_field(fs, 1),
        None => None,
    }
}

impl SynchronizeRequest {
    pub fn encode(&self) -> (r: Vec<u8>)
        ensures
            r@ == fields_bytes(synchronize_request_fields(self.next_sequence)),
    {
        let fields = vec![int_field_new(1, self.next_sequence)];
        proof {
            assert(field_models(fields@) =~= synchronize_request_fields(self.next_sequence));
        }
        encode_fields(&fields)
    }

    pub fn decode(bytes: &[u8]) -> (r: Option<SynchronizeRequest>)
        ensures
            match synchronize_request_decode(bytes@) {
                Some(v) => r == Some(SynchronizeRequest { next_sequence: v }),
                None => r is None,
            },
    {
        let fields = match read_fields(bytes) {
            Some(f) => f,
            None => return None,
        };
        match read_int_field(&fields, 1) {
            Some(next_sequence) => Some(SynchronizeRequest { next_sequence }),
            None => None,
        }
    }
}

pub proof fn lemma_synchronize_request_round_trip(v: u64)
    ensures
        synchronize_request_decode(fields_bytes(synchronize_request_fields(v))) == Some(v),
{
    let fs = synchronize_request_fields(v);
    lemma_parse_fields_bytes(fs);
    reveal_with_fuel(int_field, 2);
    assert(fs.drop_last() =~= Seq::<FieldModel>::empty());
}

// ---------------------------------------------------------------- SynchronizeResponse

/// The leader's answer to a catch-up request: the sequence of its last logged write.
#[derive(Debug, Clone, Copy, PartialEq, Eq, Default)]
pub struct SynchronizeResponse {
    pub latest_sequence: u64,
}

pub open spec fn synchronize_response_fields(v: u64) -> Seq<FieldModel> {
    seq![FieldModel::Varint(1, v)]
}

pub open spec fn synchronize_response_decode(bytes: Seq<u8>) -> Option<u64> {
    match parse_fields(bytes) {
        Some(fs) => int_field(fs, 1),
        None => None,
    }
}

impl SynchronizeResponse {
    pub fn encode(&self) -> (r: Vec<u8>)
        ensures
            r@ == fields_bytes(synchronize_response_fields(self.latest_sequence)),
    {
        let fields = vec![int_field_new(1, self.latest_sequence)];
        proof {
            assert(field_models(fields@) =~= synchronize_response_fields(self.latest_sequence));
        }
        encode_fields(&fields)
    }

    pub fn decode(bytes: &[u8]) -> (r: Option<SynchronizeResponse>)
        ensures
            match synchronize_response_decode(bytes@) {
                Some(v) => r == Some(SynchronizeResponse { latest_sequence: v }),
                None => r is None,
            },
    {
        let fields = match read_fields(bytes) {
            Some(f) => f,
            None => return None,
        };
        match read_int_field(&fields, 1) {
            Some(latest_sequence) => Some(SynchronizeResponse { latest_sequence }),
            None => None,
        }
    }
}

pub proof fn lemma_synchronize_response_round_trip(v: u64)
    ensures
        synchronize_response_decode(fields_bytes(synchronize_response_fields(v))) == Some(v),
{
    let fs = synchronize_response_fields(v);
    lemma_parse_fields_bytes(fs);
    reveal_with_fuel(int_field, 2);
    assert(fs.drop_last() =~= Seq::<FieldModel>::empty());
}

// ---------------------------------------------------------------- Response

/// The answer to a read or a write.
#[derive(Debug, Clone, PartialEq, Eq, Default)]
pub struct Response {
    pub success: bool,
    pub message: String,
}

pub ghost struct ResponseModel {
    pub success: bool,
    pub message: Seq<char>,
}

impl View for Response {
    type V = ResponseModel;

    open spec fn view(&self) -> ResponseModel {
        ResponseModel { success: self.success, message: self.message@ }
    }
}

pub open spec fn flag(b: bool) -> u64 {
    if b {
        1
    } else {
        0
    }
}

pub open spec fn response_fields(m: ResponseModel) -> Seq<FieldModel> {
    seq![FieldModel::Varint(1, flag(m.success)), text_model(2, m.message)]
}

pub open spec fn response_decode(bytes: Seq<u8>) -> Option<ResponseModel> {
    match parse_fields(bytes) {
        Some(fs) => match (int_field(fs, 1), text_field(fs, 2)) {
            (Some(b), Some(message)) => Some(ResponseModel { success: b != 0, message }),
            _ => None,
        },
        None => None,
    }
}

fn flag_of(b: bool) -> (r: u64)
    ensures
        r == flag(b),
{
    if b {
        1
    } else {
        0
    }
}

impl Response {
    pub fn encode(&self) -> (r: Vec<u8>)
        ensures
            r@ == fields_bytes(response_fields(self@)),
    {
        let fields = vec![int_field_new(1, flag_of(self.success)), text_field_new(2, &self.message)];
        proof {
            assert(field_models(fields@) =~= response_fields(self@));
        }
        encode_fields(&fields)
    }

    pub fn decode(bytes: &[u8]) -> (r: Option<Response>)
        ensures
            match response_decode(bytes@) {
                Some(m) => r matches Some(g) && g@ == m,
                None => r is None,
            },
    {
        let fields = match read_fields(bytes) {
            Some(f) => f,
            None => return None,
        };
        let b = match read_int_field(&fields, 1) {
            Some(b) => b,
            None => return None,
        };
        match read_text_field(&fields, 2) {
            Some(message) => Some(Response { success: b != 0, message }),
            None => None,
        }
    }
}

pub proof fn lemma_response_round_trip(m: ResponseModel)
    requires
        text_ok(m.message),
    ensures
        response_decode(fields_bytes(response_fields(m))) == Some(m),
{
    let fs = response_fields(m);
    lemma_parse_fields_bytes(fs);
    reveal_with_fuel(text_field, 3);
    reveal_with_fuel(int_field, 3);
    assert(fs.drop_last() =~= seq![FieldModel::Varint(1, flag(m.success))]);
    assert(fs.drop_last().drop_last() =~= Seq::<FieldModel>::empty());
}

// ---------------------------------------------------------------- ReplicateResponse

/// A follower's acknowledgement of a replicated write.
#[derive(Debug, Clone, Copy, PartialEq, Eq, Default)]
pub struct ReplicateResponse {
    pub success: bool,
    pub sequence: u64,
}

pub open spec fn replicate_response_fields(m: ReplicateResponse) -> Seq<FieldModel> {
    seq![FieldModel::Varint(1, flag(m.success)), FieldModel::Varint(2, m.sequence)]
}

pub open spec fn replicate_response_decode(bytes: Seq<u8>) -> Option<ReplicateResponse> {
    match parse_fields(bytes) {
        Some(fs) => match (int_field(fs, 1), int_field(fs, 2)) {
            (Some(b), Some(sequence)) => Some(ReplicateResponse { success: b != 0, sequence }),
            _ => None,
        },
        None => None,
    }
}

impl ReplicateResponse {
    pub fn encode(&self) -> (r: Vec<u8>)
        ensures
            r@ == fields_bytes(replicate_response_fields(*self)),
    {
        let fields = vec![int_field_new(1, flag_of(self.success)), int_field_new(2, self.sequence)];
        proof {
            assert(field_models(fields@) =~= replicate_response_fields(*self));
        }
        encode_fields(&fields)
    }

    pub fn decode(bytes: &[u8]) -> (r: Option<ReplicateResponse>)
        ensures
            r == replicate_response_decode(bytes@),
    {
        let fields = match read_fields(bytes) {
            Some(f) => f,
            None => return None,
        };
        let b = match read_int_field(&fields, 1) {
            Some(b) => b,
            None => return None,
        };
        match read_int_field(&fields, 2) {
            Some(sequence) => Some(ReplicateResponse { success: b != 0, sequence }),
            None => None,
        }
    }
}

pub proof fn lemma_replicate_response_round_trip(m: ReplicateResponse)
    ensures
        replicate_response_decode(fields_bytes(replicate_response_fields(m))) == Some(m),
{
    let fs = replicate_response_fields(m);
    lemma_parse_fields_bytes(fs);
    reveal_with_fuel(int_field, 3);
    assert(fs.drop_last() =~= seq![FieldModel::Varint(1, flag(m.success))]);
    assert(fs.drop_last().drop_last() =~= Seq::<FieldModel>::empty());
}

// ---------------------------------------------------------------- FollowResponse

/// The leader's answer to a follower that joins: the leader's address and the
/// replication mode the follower was given (0 synchronous, 1 asynchronous).
#[derive(Debug, Clone, PartialEq, Eq, Default)]
pub struct FollowResponse {
    pub leader: String,
    pub replication: u32,
}

pub ghost struct FollowResponseModel {
    pub leader: Seq<char>,
    pub replication: u32,
}

impl View for FollowResponse {
    type V = FollowResponseModel;

    open spec fn view(&self) -> FollowResponseModel {
        FollowResponseModel { leader: self.leader@, replication: self.replication }
    }
}

pub open spec fn follow_response_fields(m: FollowResponseModel) -> Seq<FieldModel> {
    seq![text_model(1, m.leader), FieldModel::Varint(2, m.replication as u64)]
}

pub open spec fn follow_response_decode(bytes: Seq<u8>) -> Option<FollowResponseModel> {
    match parse_fields(bytes) {
        Some(fs) => match (text_field(fs, 1), int_field(fs, 2)) {
            (Some(leader), Some(r)) => Some(FollowResponseModel { leader, replication: r as u32 }),
            _ => None,
        },
        None => None,
    }
}

impl FollowResponse {
    pub fn encode(&self) -> (r: Vec<u8>)
        ensures
            r@ == fields_bytes(follow_response_fields(self@)),
    {
        let fields = vec![text_field_new(1, &self.leader), int_field_new(2, self.replication as u64)];
        proof {
            assert(field_models(fields@) =~= follow_response_fields(self@));
        }
        encode_fields(&fields)
    }

    pub fn decode(bytes: &[u8]) -> (r: Option<FollowResponse>)
        ensures
            match follow_response_decode(bytes@) {
                Some(m) => r matches Some(g) && g@ == m,
                None => r is None,
            },
    {
        let fields = match read_fields(bytes) {
            Some(f) => f,
            None => return None,
        };
        let leader = match read_text_field(&fields, 1) {
            Some(t) => t,
            None => return None,
        };
        match read_int_field(&fields, 2) {
            Some(r) => Some(FollowResponse { leader, replication: r as u32 }),
            None => None,
        }
    }
}

pub proof fn lemma_follow_response_round_trip(m: FollowResponseModel)
    requires
        text_ok(m.leader),
    ensures
        follow_response_decode(fields_bytes(follow_response_fields(m))) == Some(m),
{
    let fs = follow_response_fields(m);
    lemma_parse_fields_bytes(fs);
    reveal_with_fuel(text_field, 3);
    reveal_with_fuel(int_field, 3);
    assert(fs.drop_last() =~= seq![text_model(1, m.leader)]);
    assert(fs.drop_last().drop_last() =~= Seq::<FieldModel>::empty());
}

// ---------------------------------------------------------------- ReplicateSet

/// A write that the leader forwards to its followers, with the sequence the
/// leader's log gave it.
#[derive(Debug, Clone, PartialEq, Eq, Default)]
pub struct ReplicateSet {
    pub leader_addr: String,
    pub set: Option<SetKey>,
    pub sequence: u64,
}

pub ghost struct ReplicateSetModel {
    pub leader_addr: Seq<char>,
    pub set: Option<SetKeyModel>,
    pub sequence: u64,
}

impl View for ReplicateSet {
    type V = ReplicateSetModel;

    open spec fn view(&self) -> ReplicateSetModel {
        ReplicateSetModel {
            leader_addr: self.leader_addr@,
            set: match self.set {
                Some(s) => Some(s@),
                None => None,
            },
            sequence: self.sequence,
        }
    }
}

pub open spec fn replicate_set_fields(m: ReplicateSetModel) -> Seq<FieldModel> {
    seq![text_model(1, m.leader_addr)] + match m.set {
        Some(s) => seq![FieldModel::Bytes(2, set_bytes(s))],
        None => Seq::<FieldModel>::empty(),
    } + seq![FieldModel::Varint(3, m.sequence)]
}

pub open spec fn replicate_set_decode(bytes: Seq<u8>) -> Option<ReplicateSetModel> {
    match parse_fields(bytes) {
        Some(fs) => match (text_field(fs, 1), bytes_field(fs, 2), int_field(fs, 3)) {
            (Some(leader_addr), Some(None), Some(sequence)) => Some(
                ReplicateSetModel { leader_addr, set: None, sequence },
            ),
            (Some(leader_addr), Some(Some(b)), Some(sequence)) => match set_decode(b) {
                Some(s) => Some(ReplicateSetModel { leader_addr, set: Some(s), sequence }),
                None => None,
            },
            _ => None,
        },
        None => None,
    }
}

impl ReplicateSet {
    pub fn encode(&self) -> (r: Vec<u8>)
        ensures
            r@ == fields_bytes(replicate_set_fields(self@)),
    {
        let mut fields = vec![text_field_new(1, &self.leader_addr)];
        match &self.set {
            Some(s) => {
                fields.push(bytes_field_new(2, s.encode()));
            },
            None => {},
        }
        fields.push(int_field_new(3, self.sequence));
        proof {
            assert(field_models(fields@) =~= replicate_set_fields(self@));
        }
        encode_fields(&fields)
    }

    pub fn decode(bytes: &[u8]) -> (r: Option<ReplicateSet>)
        ensures
            match replicate_set_decode(bytes@) {
                Some(m) => r matches Some(g) && g@ == m,
                None => r is None,
            },
    {
        let fields = match read_fields(bytes) {
            Some(f) => f,
            None => return None,
        };
        let leader_addr = match read_text_field(&fields, 1) {
            Some(t) => t,
            None => return None,
        };
        let inner = match read_bytes_field(&fields, 2) {
            Some(b) => b,
            None => return None,
        };
        let sequence = match read_int_field(&fields, 3) {
            Some(q) => q,
            None => return None,
        };
        match inner {
            None => Some(ReplicateSet { leader_addr, set: None, sequence }),
            Some(b) => match SetKey::decode(b.as_slice()) {
                Some(s) => Some(ReplicateSet { leader_addr, set: Some(s), sequence }),
                None => None,
            },
        }
    }
}

pub proof fn lemma_replicate_set_round_trip(m: ReplicateSetModel)
    requires
        text_ok(m.leader_addr),
        m.set matches Some(s) ==> text_ok(s.key) && text_ok(s.value) && set_bytes(s).len()
            < 0x1_0000_0000_0000_0000,
    ensures
        replicate_set_decode(fields_bytes(replicate_set_fields(m))) == Some(m),
{
    let fs = replicate_set_fields(m);
    lemma_parse_fields_bytes(fs);
    reveal_with_fuel(text_field, 4);
    reveal_with_fuel(int_field, 4);
    reveal_with_fuel(bytes_field, 4);
    match m.set {
        Some(s) => {
            lemma_set_round_trip(s);
            assert(fs.drop_last() =~= seq![text_model(1, m.leader_addr), FieldModel::Bytes(2, set_bytes(s))]);
            assert(fs.drop_last().drop_last() =~= seq![text_model(1, m.leader_addr)]);
            assert(fs.drop_last().drop_last().drop_last() =~= Seq::<FieldModel>::empty());
        },
        None => {
            assert(fs.drop_last() =~= seq![text_model(1, m.leader_addr)]);
            assert(fs.drop_last().drop_last() =~= Seq::<FieldModel>::empty());
        },
    }
}

} // verus!
