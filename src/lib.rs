//! A small replicated key-value store node: wire framing, a write-ahead log,
//! cluster topology and the catch-up protocol between a leader and its followers.

pub mod client;
pub mod ipc;
pub mod store;
pub mod text;

use vstd::prelude::*;
use vstd::string::StringExecFns;
use crate::text::{split, trim, split_on, trimmed, lemma_split_nonempty};
use crate::store::kv::Store;
use crate::store::serialize::{records_json, json_object};

verus! {

/// A command of the line-oriented protocol.
#[derive(Debug, Clone, Copy, PartialEq, Eq, Structural)]
pub enum Command {
    Get,
    SetValue,
}

impl Command {
    /// The command a word names: "get", "Get" or "GET"; "set", "Set" or "SET ".
    pub fn from_str(input: &str) -> (r: Result<Command, ()>)
        ensures
            input@ == "get"@ || input@ == "Get"@ || input@ == "GET"@ ==> r == Ok::<Command, ()>(
                Command::Get,
            ),
            input@ == "set"@ || input@ == "Set"@ || input@ == "SET "@ ==> r == Ok::<Command, ()>(
                Command::SetValue,
            ),
            !(input@ == "get"@ || input@ == "Get"@ || input@ == "GET"@ || input@ == "set"@ || input@
                == "Set"@ || input@ == "SET "@) ==> r == Err::<Command, ()>(()),
    {
        proof {
            reveal_strlit("get");
            reveal_strlit("Get");
            reveal_strlit("GET");
            reveal_strlit("set");
            reveal_strlit("Set");
            reveal_strlit("SET ");
            assert("get"@[0] == 'g' && "Get"@[0] == 'G' && "GET"@[0] == 'G');
            assert("set"@[0] == 's' && "Set"@[0] == 'S' && "SET "@.len() == 4);
            assert("get"@ != "set"@ && "get"@ != "Set"@ && "get"@ != "SET "@);
            assert("Get"@ != "set"@ && "Get"@ != "Set"@ && "Get"@ != "SET "@);
            assert("GET"@ != "set"@ && "GET"@ != "Set"@ && "GET"@ != "SET "@);
        }
        let s = String::from_str(input);
        if s == String::from_str("get") || s == String::from_str("Get") || s == String::from_str(
            "GET",
        ) {
            Ok(Command::Get)
        } else if s == String::from_str("set") || s == String::from_str("Set") || s
            == String::from_str("SET ") {
            Ok(Command::SetValue)
        } else {
            Err(())
        }
    }
}

/// What a line of the line-oriented protocol says: whether it is a command, which
/// one, and the word after it.
pub open spec fn validate_spec(input: Seq<char>) -> (bool, Option<Command>, Option<Seq<char>>) {
    let tokens = split(input, ' ');
    if tokens.len() == 1 {
        if trim(tokens[0]) == "get"@ {
            (true, Some(Command::Get), None)
        } else {
            (false, None, None)
        }
    } else if tokens.len() == 2 {
        let c = trim(tokens[0]);
        if c == "get"@ {
            (true, Some(Command::Get), Some(trim(tokens[1])))
        } else if c == "set"@ {
            (true, Some(Command::SetValue), Some(trim(tokens[1])))
        } else {
            (false, None, None)
        }
    } else {
        (false, None, None)
    }
}

/// A line typed by a user, and what it says.
#[derive(Debug, Clone)]
pub struct UserInput {
    pub text: String,
    pub is_valid: bool,
    pub command: Option<Command>,
    pub value: Option<String>,
}

impl UserInput {
    pub fn new(input: String) -> (r: UserInput)
        ensures
            r.text@ == input@,
            r.is_valid == validate_spec(input@).0,
            r.command == validate_spec(input@).1,
            match validate_spec(input@).2 {
                Some(v) => r.value matches Some(w) && w@ == v,
                None => r.value is None,
            },
    {
        let (validity, command, value) = UserInput::validate(input.as_str());
        if validity {
            UserInput { text: input, is_valid: true, command, value }
        } else {
            UserInput { text: input, is_valid: false, command: None, value: None }
        }
    }

    fn validate(input: &str) -> (r: (bool, Option<Command>, Option<String>))
        ensures
            r.0 == validate_spec(input@).0,
            r.1 == validate_spec(input@).1,
            match validate_spec(input@).2 {
                Some(v) => r.2 matches Some(w) && w@ == v,
                None => r.2 is None,
            },
            !r.0 ==> r.1 is None && r.2 is None,
    {
        proof {
            reveal_strlit("get");
            reveal_strlit("set");
            assert("get"@[0] == 'g' && "set"@[0] == 's');
            assert("get"@ != "set"@);
        }
        let tokens = split_on(input, ' ');
        proof {
            lemma_split_nonempty(input@, ' ');
        }
        if tokens.len() == 1 {
            let command = trimmed(tokens[0].as_str());
            if command == String::from_str("get") {
                (true, Some(Command::Get), None)
            } else {
                (false, None, None)
            }
        } else if tokens.len() == 2 {
            let command = trimmed(tokens[0].as_str());
            if command == String::from_str("get") {
                (true, Some(Command::Get), Some(trimmed(tokens[1].as_str())))
            } else if command == String::from_str("set") {
                (true, Some(Command::SetValue), Some(trimmed(tokens[1].as_str())))
            } else {
                (false, None, None)
            }
        } else {
            (false, None, None)
        }
    }
}

/// What the line-oriented server writes back for a read: the value and a line
/// break, nothing for a missing key; without a key, every record as JSON.
pub open spec fn get_reply_spec(key: Option<Seq<char>>, store: Store) -> Option<Seq<char>> {
    match key {
        Some(k) => if store@.contains_key(k) {
            Some(store@[k] + seq!['\n'])
        } else {
            None
        },
        None => Some(json_object(store.entries()) + seq!['\n']),
    }
}

/// The reply of the line-oriented server to a read.
pub fn get_stream_input(input: &UserInput, store: &Store) -> (r: Option<String>)
    ensures
        match get_reply_spec(
            match input.value {
                Some(v) => Some(v@),
                None => None,
            },
            *store,
        ) {
            Some(t) => r matches Some(x) && x@ == t,
            None => r is None,
        },
{
    proof {
        reveal_strlit("\n");
        assert("\n"@ =~= seq!['\n']);
    }
    match &input.value {
        Some(key) => match store.get(key) {
            Some(v) => {
                let mut line = v;
                line.append("\n");
                Some(line)
            },
            None => None,
        },
        None => {
            let mut line = records_json(store);
            line.append("\n");
            Some(line)
        },
    }
}

/// Why the line-oriented server refused a write.
#[derive(Debug, Clone, Copy, PartialEq, Eq)]
pub enum LineError {
    /// The write is not of the form `key=val`.
    NotKeyValue,
}

/// The effect of a line-oriented write `key=val`: the key and the trimmed
/// value, where the text holds exactly one '='.
pub open spec fn store_input_spec(value: Seq<char>) -> Option<(Seq<char>, Seq<char>)> {
    let tokens = split(value, '=');
    if tokens.len() == 2 {
        Some((tokens[0], trim(tokens[1])))
    } else {
        None
    }
}

/// Applies a line-oriented write, and gives the line to write back.
pub fn store_stream_input(input: &UserInput, store: &mut Store) -> (r: Result<String, LineError>)
    requires
        input.value is Some,
    ensures
        match store_input_spec(input.value->Some_0@) {
            Some((k, v)) => final(store)@ == old(store)@.insert(k, v) && (r matches Ok(t) && t@
                == "Succesfully wrote key="@ + k + seq!['\n']),
            None => *final(store) == *old(store) && r == Err::<String, LineError>(
                LineError::NotKeyValue,
            ),
        },
{
    proof {
        reveal_strlit("\n");
        assert("\n"@ =~= seq!['\n']);
    }
    let set_value = match &input.value {
        Some(v) => v,
        None => return Err(LineError::NotKeyValue),
    };
    let tokens = split_on(set_value.as_str(), '=');
    if tokens.len() == 2 {
        let key = tokens[0].clone();
        let value = trimmed(tokens[1].as_str());
        let mut line = String::from_str("Succesfully wrote key=");
        line.append(key.as_str());
        line.append("\n");
        store.insert(key, value);
        Ok(line)
    } else {
        Err(LineError::NotKeyValue)
    }
}

impl LineError {
    pub fn message(&self) -> (r: String)
        ensures
            r@ == "Set commands must be of format key=val"@,
    {
        String::from_str("Set commands must be of format key=val")
    }
}

} // verus!
