//! The request envelope: at most one command, written as the field whose number
//! names the command.

use vstd::prelude::*;
use crate::ipc::wire::{
    Field, FieldModel, field_models, fields_bytes, parse_fields, bytes_field_new, read_fields,
    encode_fields, lemma_parse_fields_bytes, text_ok,
};
use crate::ipc::message::{
    Get, SetKey, SetKeyModel, FollowRequest, SynchronizeRequest, ReplicateSet, ReplicateSetModel,
    InitiateSession, ReplicateResponse, get_fields, set_bytes, follow_request_fields,
    synchronize_request_fields, replicate_set_fields, initiate_session_fields,
    replicate_response_fields, get_decode, set_decode, follow_request_decode,
    synchronize_request_decode, replicate_set_decode, initiate_session_decode,
    replicate_response_decode, lemma_get_round_trip, lemma_set_round_trip,
    lemma_follow_request_round_trip, lemma_synchronize_request_round_trip,
    lemma_replicate_set_round_trip, lemma_initiate_session_round_trip,
    lemma_replicate_response_round_trip,
};

verus! {

/// What a request asks for.
#[derive(Debug, Clone, PartialEq, Eq)]
pub enum Command {
    Get(Get),
    SetKey(SetKey),
    FollowRequest(FollowRequest),
    SynchronizeRequest(SynchronizeRequest),
    ReplicateSet(ReplicateSet),
    InitiateSession(InitiateSession),
    ReplicateResponse(ReplicateResponse),
}

pub ghost enum CommandModel {
    Get(Seq<char>),
    SetKey(SetKeyModel),
    FollowRequest(Seq<char>),
    SynchronizeRequest(u64),
    ReplicateSet(ReplicateSetModel),
    InitiateSession(Seq<char>),
    ReplicateResponse(ReplicateResponse),
}

impl View for Command {
    type V = CommandModel;

    open spec fn view(&self) -> CommandModel {
        match self {
            Command::Get(g) => CommandModel::Get(g@),
            Command::SetKey(s) => CommandModel::SetKey(s@),
            Command::FollowRequest(f) => CommandModel::FollowRequest(f@),
            Command::SynchronizeRequest(s) => CommandModel::SynchronizeRequest(s.next_sequence),
            Command::ReplicateSet(r) => CommandModel::ReplicateSet(r@),
            Command::InitiateSession(i) => CommandModel::InitiateSession(i@),
            Command::ReplicateResponse(r) => CommandModel::ReplicateResponse(*r),
        }
    }
}

/// The field number of each command.
pub open spec fn command_tag(c: CommandModel) -> u64 {
    match c {
        CommandModel::Get(_) => 1,
        CommandModel::SetKey(_) => 2,
        CommandModel::FollowRequest(_) => 3,
        CommandModel::SynchronizeRequest(_) => 4,
        CommandModel::ReplicateSet(_) => 5,
        CommandModel::InitiateSession(_) => 6,
        CommandModel::ReplicateResponse(_) => 7,
    }
}

pub open spec fn command_bytes(c: CommandModel) -> Seq<u8> {
    match c {
        CommandModel::Get(k) => fields_bytes(get_fields(k)),
        CommandModel::SetKey(s) => set_bytes(s),
        CommandModel::FollowRequest(a) => fields_bytes(follow_request_fields(a)),
        CommandModel::SynchronizeRequest(n) => fields_bytes(synchronize_request_fields(n)),
        CommandModel::ReplicateSet(r) => fields_bytes(replicate_set_fields(r)),
        CommandModel::InitiateSession(n) => fields_bytes(initiate_session_fields(n)),
        CommandModel::ReplicateResponse(r) => fields_bytes(replicate_response_fields(r)),
    }
}

/// The command that field `tag` holds, where `b` is its bytes.
pub open spec fn command_decode(tag: u64, b: Seq<u8>) -> Option<CommandModel> {
    if tag == 1 {
        match get_decode(b) {
            Some(k) => Some(CommandModel::Get(k)),
            None => None,
        }
    } else if tag == 2 {
        match set_decode(b) {
            Some(s) => Some(CommandModel::SetKey(s)),
            None => None,
        }
    } else if tag == 3 {
        match follow_request_decode(b) {
            Some(a) => Some(CommandModel::FollowRequest(a)),
            None => None,
        }
    } else if tag == 4 {
        match synchronize_request_decode(b) {
            Some(n) => Some(CommandModel::SynchronizeRequest(n)),
            None => None,
        }
    } else if tag == 5 {
        match replicate_set_decode(b) {
            Some(r) => Some(CommandModel::ReplicateSet(r)),
            None => None,
        }
    } else if tag == 6 {
        match initiate_session_decode(b) {
            Some(n) => Some(CommandModel::InitiateSession(n)),
            None => None,
        }
    } else {
        match replicate_response_decode(b) {
            Some(r) => Some(CommandModel::ReplicateResponse(r)),
            None => None,
        }
    }
}

pub open spec fn is_command_tag(n: u64) -> bool {
    1 <= n <= 7
}

/// The command of the last field that names one; `Some(None)` where no field does.
pub open spec fn command_field(fs: Seq<FieldModel>) -> Option<Option<CommandModel>>
    decreases fs.len(),
{
    if fs.len() == 0 {
        Some(None)
    } else {
        match command_field(fs.drop_last()) {
            None => None,
            Some(prev) => match fs.last() {
                FieldModel::Bytes(n, b) => if !is_command_tag(n) {
                    Some(prev)
                } else {
                    match command_decode(n, b) {
                        Some(c) => Some(Some(c)),
                        None => None,
                    }
                },
                FieldModel::Varint(n, _) => if !is_command_tag(n) {
                    Some(prev)
                } else {
                    None
                },
            },
        }
    }
}

/// A request from a client or another node.
#[derive(Debug, Clone, PartialEq, Eq, Default)]
pub struct Request {
    pub command: Option<Command>,
}

impl View for Request {
    type V = Option<CommandModel>;

    open spec fn view(&self) -> Option<CommandModel> {
        match self.command {
            Some(c) => Some(c@),
            None => None,
        }
    }
}

pub open spec fn request_fields(m: Option<CommandModel>) -> Seq<FieldModel> {
    match m {
        Some(c) => seq![FieldModel::Bytes(command_tag(c), command_bytes(c))],
        None => Seq::<FieldModel>::empty(),
    }
}

pub open spec fn request_bytes(m: Option<CommandModel>) -> Seq<u8> {
    fields_bytes(request_fields(m))
}

pub open spec fn request_decode(bytes: Seq<u8>) -> Option<Option<CommandModel>> {
    match parse_fields(bytes) {
        Some(fs) => command_field(fs),
        None => None,
    }
}

/// The texts of a command fit in fields.
pub open spec fn command_ok(c: CommandModel) -> bool {
    &&& command_bytes(c).len() < 0x1_0000_0000_0000_0000
    &&& match c {
        CommandModel::Get(k) => text_ok(k),
        CommandModel::SetKey(s) => text_ok(s.key) && text_ok(s.value),
        CommandModel::FollowRequest(a) => text_ok(a),
        CommandModel::SynchronizeRequest(_) => true,
        CommandModel::ReplicateSet(r) => text_ok(r.leader_addr) && match r.set {
            Some(s) => text_ok(s.key) && text_ok(s.value) && set_bytes(s).len()
                < 0x1_0000_0000_0000_0000,
            None => true,
        },
        CommandModel::InitiateSession(n) => text_ok(n),
        CommandModel::ReplicateResponse(_) => true,
    }
}

fn encode_command(c: &Command) -> (r: (u64, Vec<u8>))
    ensures
        r.0 == command_tag(c@),
        r.1@ == command_bytes(c@),
{
    match c {
        Command::Get(g) => (1, g.encode()),
        Command::SetKey(s) => (2, s.encode()),
        Command::FollowRequest(f) => (3, f.encode()),
        Command::SynchronizeRequest(s) => (4, s.encode()),
        Command::ReplicateSet(r) => (5, r.encode()),
        Command::InitiateSession(i) => (6, i.encode()),
        Command::ReplicateResponse(r) => (7, r.encode()),
    }
}

fn decode_command(tag: u64, b: &[u8]) -> (r: Option<Command>)
    requires
        is_command_tag(tag),
    ensures
        match command_decode(tag, b@) {
            Some(c) => r matches Some(d) && d@ == c,
            None => r is None,
        },
{
    if tag == 1 {
        match Get::decode(b) {
            Some(g) => Some(Command::Get(g)),
            None => None,
        }
    } else if tag == 2 {
        match SetKey::decode(b) {
            Some(s) => Some(Command::SetKey(s)),
            None => None,
        }
    } else if tag == 3 {
        match FollowRequest::decode(b) {
            Some(f) => Some(Command::FollowRequest(f)),
            None => None,
        }
    } else if tag == 4 {
        match SynchronizeRequest::decode(b) {
            Some(s) => Some(Command::SynchronizeRequest(s)),
            None => None,
        }
    } else if tag == 5 {
        match ReplicateSet::decode(b) {
            Some(r) => Some(Command::ReplicateSet(r)),
            None => None,
        }
    } else if tag == 6 {
        match InitiateSession::decode(b) {
            Some(i) => Some(Command::InitiateSession(i)),
            None => None,
        }
    } else {
        match ReplicateResponse::decode(b) {
            Some(r) => Some(Command::ReplicateResponse(r)),
            None => None,
        }
    }
}

proof fn lemma_command_field_fails(fs: Seq<FieldModel>, i: int)
    requires
        0 <= i < fs.len(),
        command_field(fs.take(i + 1)) is None,
    ensures
        command_field(fs) is None,
    decreases fs.len() - i,
{
    if i + 1 == fs.len() {
        assert(fs.take(i + 1) =~= fs);
    } else {
        assert(fs.take(i + 2).drop_last() =~= fs.take(i + 1));
        lemma_command_field_fails(fs, i + 1);
    }
}

impl Request {
    pub fn encode(&self) -> (r: Vec<u8>)
        ensures
            r@ == request_bytes(self@),
    {
        let mut fields: Vec<Field> = Vec::new();
        match &self.command {
            Some(c) => {
                let (tag, b) = encode_command(c);
                fields.push(bytes_field_new(tag, b));
            },
            None => {},
        }
        proof {
            assert(field_models(fields@) =~= request_fields(self@));
        }
        encode_fields(&fields)
    }

    pub fn decode(bytes: &[u8]) -> (r: Option<Request>)
        ensures
            match request_decode(bytes@) {
                Some(m) => r matches Some(g) && g@ == m,
                None => r is None,
            },
    {
        let fields = match read_fields(bytes) {
            Some(f) => f,
            None => return None,
        };
        let ghost fs = field_models(fields@);
        let mut cur: Option<Command> = None;
        let mut i: usize = 0;
        proof {
            assert(fs.take(0) =~= Seq::<FieldModel>::empty());
        }
        while i < fields.len()
            invariant
                i <= fields@.len(),
                fs == field_models(fields@),
                parse_fields(bytes@) == Some(fs),
                command_field(fs.take(i as int)) == Some(
                    match cur {
                        Some(c) => Some(c@),
                        None => None,
                    },
                ),
            decreases fields@.len() - i,
        {
            proof {
                assert(fs.take(i + 1).drop_last() =~= fs.take(i as int));
                assert(fs.take(i + 1).last() == fs[i as int]);
                assert(fs[i as int] == fields@[i as int]@);
            }
            match &fields[i] {
                Field::Bytes(n, b) => {
                    if 1 <= *n && *n <= 7 {
                        match decode_command(*n, b.as_slice()) {
                            Some(c) => {
                                cur = Some(c);
                            },
                            None => {
                                proof {
                                    lemma_command_field_fails(fs, i as int);
                                }
                                return None;
                            },
                        }
                    }
                },
                Field::Varint(n, _) => {
                    if 1 <= *n && *n <= 7 {
                        proof {
                            lemma_command_field_fails(fs, i as int);
                        }
                        return None;
                    }
                },
            }
            i = i + 1;
        }
        proof {
            assert(fs.take(i as int) =~= fs);
        }
        Some(Request { command: cur })
    }
}

proof fn lemma_command_round_trip(c: CommandModel)
    requires
        command_ok(c),
    ensures
        command_decode(command_tag(c), command_bytes(c)) == Some(c),
{
    match c {
        CommandModel::Get(k) => lemma_get_round_trip(k),
        CommandModel::SetKey(s) => lemma_set_round_trip(s),
        CommandModel::FollowRequest(a) => lemma_follow_request_round_trip(a),
        CommandModel::SynchronizeRequest(n) => lemma_synchronize_request_round_trip(n),
        CommandModel::ReplicateSet(r) => lemma_replicate_set_round_trip(r),
        CommandModel::InitiateSession(n) => lemma_initiate_session_round_trip(n),
        CommandModel::ReplicateResponse(r) => lemma_replicate_response_round_trip(r),
    }
}

/// A request reads back as it was written.
pub proof fn lemma_request_round_trip(m: Option<CommandModel>)
    requires
        m matches Some(c) ==> command_ok(c),
    ensures
        request_decode(request_bytes(m)) == Some(m),
{
    let fs = request_fields(m);
    lemma_parse_fields_bytes(fs);
    reveal_with_fuel(command_field, 2);
    if let Some(c) = m {
        lemma_command_round_trip(c);
        assert(fs.drop_last() =~= Seq::<FieldModel>::empty());
    }
}

} // verus!
