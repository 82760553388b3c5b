//! Parsing of the client's command lines: `get`, `get <key>` or `set <key>=<value>`.

use vstd::prelude::*;
use crate::ipc::message::{Get, SetKey, SetKeyModel};
use crate::ipc::message::request::{Request, Command, CommandModel};
use crate::text::{split, trim, split_on, trimmed, views};

verus! {

/// Why a command line is not a request.
#[derive(Debug, Clone, Copy, PartialEq, Eq)]
pub enum ParseError {
    /// The first word names no command.
    InvalidCommand,
    /// The command has more words than it takes.
    TooManyTokens,
    /// A write has no '=' between key and value.
    MissingValue,
}

impl ParseError {
    pub fn message(&self) -> (r: String)
        ensures
            r@ == match self {
                ParseError::InvalidCommand => "Invalid command"@,
                ParseError::TooManyTokens => "Too many tokens for get command"@,
                ParseError::MissingValue => "Set commands must be of format key=val"@,
            },
    {
        match self {
            ParseError::InvalidCommand => String::from_str("Invalid command"),
            ParseError::TooManyTokens => String::from_str("Too many tokens for get command"),
            ParseError::MissingValue => String::from_str("Set commands must be of format key=val"),
        }
    }
}

pub open spec fn is_get_word(w: Seq<char>) -> bool {
    w == "get"@ || w == "Get"@ || w == "GET"@
}

pub open spec fn is_set_word(w: Seq<char>) -> bool {
    w == "set"@ || w == "Set"@ || w == "SET "@
}

/// A read from its words: the whole store, or one key.
pub open spec fn get_spec(tokens: Seq<Seq<char>>) -> Result<CommandModel, ParseError> {
    if tokens.len() == 1 {
        Ok(CommandModel::Get(seq![]))
    } else if tokens.len() == 2 {
        Ok(CommandModel::Get(trim(tokens[1])))
    } else {
        Err(ParseError::TooManyTokens)
    }
}

/// A write from its words: the key before the first '=', the value up to the
/// next '=', trimmed.
pub open spec fn set_spec(tokens: Seq<Seq<char>>) -> Result<CommandModel, ParseError> {
    if tokens.len() == 2 {
        let pairs = split(tokens[1], '=');
        if pairs.len() < 2 {
            Err(ParseError::MissingValue)
        } else {
            Ok(CommandModel::SetKey(SetKeyModel { key: pairs[0], value: trim(pairs[1]) }))
        }
    } else {
        Err(ParseError::TooManyTokens)
    }
}

pub open spec fn extract_spec(tokens: Seq<Seq<char>>) -> Result<CommandModel, ParseError> {
    let w = trim(tokens[0]);
    if is_get_word(w) {
        get_spec(tokens)
    } else if is_set_word(w) {
        set_spec(tokens)
    } else {
        Err(ParseError::InvalidCommand)
    }
}

/// The request a command line asks for.
pub open spec fn parse_spec(input: Seq<char>) -> Result<CommandModel, ParseError> {
    extract_spec(split(input, ' '))
}

fn word_is(w: &String, lit: &str) -> (r: bool)
    ensures
        r == (w@ == lit@),
{
    *w == String::from_str(lit)
}

/// A read from its words.
pub fn get_handler(tokens: &Vec<String>) -> (r: Result<Command, ParseError>)
    ensures
        match get_spec(views(tokens@)) {
            Ok(c) => r matches Ok(d) && d@ == c,
            Err(e) => r == Err::<Command, ParseError>(e),
        },
{
    if tokens.len() == 1 {
        let key = String::new();
        proof {
            assert(key@ =~= Seq::<char>::empty());
        }
        Ok(Command::Get(Get { key }))
    } else if tokens.len() == 2 {
        Ok(Command::Get(Get { key: trimmed(tokens[1].as_str()) }))
    } else {
        Err(ParseError::TooManyTokens)
    }
}

/// A write from its words.
pub fn set_handler(tokens: &Vec<String>) -> (r: Result<Command, ParseError>)
    ensures
        match set_spec(views(tokens@)) {
            Ok(c) => r matches Ok(d) && d@ == c,
            Err(e) => r == Err::<Command, ParseError>(e),
        },
{
    if tokens.len() == 2 {
        let pairs = split_on(tokens[1].as_str(), '=');
        if pairs.len() < 2 {
            return Err(ParseError::MissingValue);
        }
        let key = pairs[0].clone();
        let value = trimmed(pairs[1].as_str());
        Ok(Command::SetKey(SetKey { key, value }))
    } else {
        Err(ParseError::TooManyTokens)
    }
}

/// The command that the words of a line ask for.
pub fn extract_command(tokens: &Vec<String>) -> (r: Result<Command, ParseError>)
    requires
        tokens@.len() >= 1,
    ensures
        match extract_spec(views(tokens@)) {
            Ok(c) => r matches Ok(d) && d@ == c,
            Err(e) => r == Err::<Command, ParseError>(e),
        },
{
    let w = trimmed(tokens[0].as_str());
    if word_is(&w, "get") || word_is(&w, "Get") || word_is(&w, "GET") {
        get_handler(tokens)
    } else if word_is(&w, "set") || word_is(&w, "Set") || word_is(&w, "SET ") {
        set_handler(tokens)
    } else {
        Err(ParseError::InvalidCommand)
    }
}

/// The request a command line asks for.
pub fn parse_request(input: &str) -> (r: Result<Request, ParseError>)
    ensures
        match parse_spec(input@) {
            Ok(c) => r matches Ok(q) && q@ == Some(c),
            Err(e) => r == Err::<Request, ParseError>(e),
        },
{
    let tokens = split_on(input, ' ');
    proof {
        crate::text::lemma_split_nonempty(input@, ' ');
    }
    match extract_command(&tokens) {
        Ok(c) => Ok(Request { command: Some(c) }),
        Err(e) => Err(e),
    }
}

} // verus!
