//! The command parser: from one decoded protocol value to a typed command.
//!
//! A command is derivable only from an Array with at least one element.
//! The first element must be string-like (simple or bulk string); its bytes
//! are upper-cased ASCII-wise and matched case-insensitively against the
//! fixed dispatch table. Arity mismatches for a recognized name are
//! `Invalid`; a well-shaped array with an unrecognized name is not an
//! error, it parses to `Unknown` with the upper-cased name.

use vstd::prelude::*;

use crate::decode::ParseError;
use crate::text::lossy_text;
use crate::text::text_of;
use crate::text::to_upper;
use crate::text::upper_bytes;
use crate::value::RespSpec;
use crate::value::RespValue;
use crate::value::lemma_views_of;
use crate::value::views_of;

verus! {

/// A validated command. `key`, `message`, `section` and the unknown name
/// are text; `value` is an opaque byte sequence with no encoding
/// constraint.
#[derive(Debug, Clone, PartialEq)]
pub enum RedisCommand {
    Get { key: String },
    SetValue { key: String, value: Vec<u8> },
    Del { key: String },
    Exists { key: String },
    Ping { message: Option<String> },
    Info { section: Option<String> },
    Command,
    Quit,
    Unknown(String),
}

/// Mathematical model of a command: text as character sequences, bytes as
/// byte sequences.
pub enum CommandSpec {
    Get { key: Seq<char> },
    SetValue { key: Seq<char>, value: Seq<u8> },
    Del { key: Seq<char> },
    Exists { key: Seq<char> },
    Ping { message: Option<Seq<char>> },
    Info { section: Option<Seq<char>> },
    Command,
    Quit,
    Unknown(Seq<char>),
}

impl View for RedisCommand {
    type V = CommandSpec;

    open spec fn view(&self) -> CommandSpec {
        match self {
            RedisCommand::Get { key } => CommandSpec::Get { key: key@ },
            RedisCommand::SetValue { key, value } => CommandSpec::SetValue { key: key@, value: value@ },
            RedisCommand::Del { key } => CommandSpec::Del { key: key@ },
            RedisCommand::Exists { key } => CommandSpec::Exists { key: key@ },
            RedisCommand::Ping { message } => CommandSpec::Ping {
                message: match message {
                    Option::Some(m) => Option::Some(m@),
                    Option::None => Option::None,
                },
            },
            RedisCommand::Info { section } => CommandSpec::Info {
                section: match section {
                    Option::Some(m) => Option::Some(m@),
                    Option::None => Option::None,
                },
            },
            RedisCommand::Command => CommandSpec::Command,
            RedisCommand::Quit => CommandSpec::Quit,
            RedisCommand::Unknown(name) => CommandSpec::Unknown(name@),
        }
    }
}

pub open spec fn name_get() -> Seq<u8> {
    seq!['G' as u8, 'E' as u8, 'T' as u8]
}

pub open spec fn name_set() -> Seq<u8> {
    seq!['S' as u8, 'E' as u8, 'T' as u8]
}

pub open spec fn name_del() -> Seq<u8> {
    seq!['D' as u8, 'E' as u8, 'L' as u8]
}

pub open spec fn name_exists() -> Seq<u8> {
    seq!['E' as u8, 'X' as u8, 'I' as u8, 'S' as u8, 'T' as u8, 'S' as u8]
}

pub open spec fn name_ping() -> Seq<u8> {
    seq!['P' as u8, 'I' as u8, 'N' as u8, 'G' as u8]
}

pub open spec fn name_info() -> Seq<u8> {
    seq!['I' as u8, 'N' as u8, 'F' as u8, 'O' as u8]
}

pub open spec fn name_command() -> Seq<u8> {
    seq!['C' as u8, 'O' as u8, 'M' as u8, 'M' as u8, 'A' as u8, 'N' as u8, 'D' as u8]
}

pub open spec fn name_quit() -> Seq<u8> {
    seq!['Q' as u8, 'U' as u8, 'I' as u8, 'T' as u8]
}

/// The payload of a string-like value (simple or bulk string).
pub open spec fn spec_string_payload(v: RespSpec) -> Option<Seq<u8>> {
    match v {
        RespSpec::BulkString(b) => Option::Some(b),
        RespSpec::SimpleString(b) => Option::Some(b),
        _ => Option::None,
    }
}

/// Text extraction from an argument: a string-like element yields its text
/// under the lossy policy; a null or non-string element is an error.
pub open spec fn spec_extract_text(v: RespSpec) -> Result<Seq<char>, Seq<char>> {
    match v {
        RespSpec::BulkString(b) => Result::Ok(text_of(b)),
        RespSpec::SimpleString(b) => Result::Ok(text_of(b)),
        RespSpec::Null => Result::Err("Cannot use null as string argument"@),
        _ => Result::Err("Expected string argument"@),
    }
}

/// Byte extraction from an argument: a string-like element yields its raw
/// bytes unchanged; a null or non-string element is an error.
pub open spec fn spec_extract_raw(v: RespSpec) -> Result<Seq<u8>, Seq<char>> {
    match v {
        RespSpec::BulkString(b) => Result::Ok(b),
        RespSpec::SimpleString(b) => Result::Ok(b),
        RespSpec::Null => Result::Err("Cannot use null as byte argument"@),
        _ => Result::Err("Expected string/bytes argument"@),
    }
}

/// The dispatch table over a non-empty array: the first element names the
/// command, matched on its ASCII-upper-cased bytes; the required total
/// element count and the extraction of each argument follow the table.
pub open spec fn spec_parse_array(elts: Seq<RespSpec>) -> Result<CommandSpec, Seq<char>>
    recommends
        elts.len() >= 1,
{
    match spec_string_payload(elts[0]) {
        Option::None => Result::Err("Command name must be a string"@),
        Option::Some(raw) => {
            let name = upper_bytes(raw);
            if name == name_get() {
                if elts.len() != 2 {
                    Result::Err("GET requires exactly 1 argument"@)
                } else {
                    match spec_extract_text(elts[1]) {
                        Result::Ok(key) => Result::Ok(CommandSpec::Get { key }),
                        Result::Err(m) => Result::Err(m),
                    }
                }
            } else if name == name_set() {
                if elts.len() != 3 {
                    Result::Err("SET requires exactly 2 arguments"@)
                } else {
                    match spec_extract_text(elts[1]) {
                        Result::Ok(key) => match spec_extract_raw(elts[2]) {
                            Result::Ok(value) => Result::Ok(CommandSpec::SetValue { key, value }),
                            Result::Err(m) => Result::Err(m),
                        },
                        Result::Err(m) => Result::Err(m),
                    }
                }
            } else if name == name_del() {
                if elts.len() != 2 {
                    Result::Err("DEL requires exactly 1 argument"@)
                } else {
                    match spec_extract_text(elts[1]) {
                        Result::Ok(key) => Result::Ok(CommandSpec::Del { key }),
                        Result::Err(m) => Result::Err(m),
                    }
                }
            } else if name == name_exists() {
                if elts.len() != 2 {
                    Result::Err("EXISTS requires exactly 1 argument"@)
                } else {
                    match spec_extract_text(elts[1]) {
                        Result::Ok(key) => Result::Ok(CommandSpec::Exists { key }),
                        Result::Err(m) => Result::Err(m),
                    }
                }
            } else if name == name_ping() {
                if elts.len() > 1 {
                    match spec_extract_text(elts[1]) {
                        Result::Ok(m) => Result::Ok(
                            CommandSpec::Ping { message: Option::Some(m) },
                        ),
                        Result::Err(m) => Result::Err(m),
                    }
                } else {
                    Result::Ok(CommandSpec::Ping { message: Option::None })
                }
            } else if name == name_info() {
                if elts.len() > 1 {
                    match spec_extract_text(elts[1]) {
                        Result::Ok(m) => Result::Ok(
                            CommandSpec::Info { section: Option::Some(m) },
                        ),
                        Result::Err(m) => Result::Err(m),
                    }
                } else {
                    Result::Ok(CommandSpec::Info { section: Option::None })
                }
            } else if name == name_command() {
                Result::Ok(CommandSpec::Command)
            } else if name == name_quit() {
                Result::Ok(CommandSpec::Quit)
            } else {
                Result::Ok(CommandSpec::Unknown(text_of(name)))
            }
        },
    }
}

/// What parsing one decoded value yields: a command, or the exact
/// `Invalid` message. A non-array is rejected, an empty array is rejected,
/// and a non-empty array follows the dispatch table.
pub open spec fn spec_parse_command(v: RespSpec) -> Result<CommandSpec, Seq<char>> {
    match v {
        RespSpec::Array(elts) => if elts.len() == 0 {
            Result::Err("Empty command array"@)
        } else {
            spec_parse_array(elts)
        },
        _ => Result::Err("Commands must be arrays"@),
    }
}

fn eq3(v: &Vec<u8>, a: u8, b: u8, c: u8) -> (r: bool)
    ensures
        r == (v@ == seq![a, b, c]),
{
    let r = v.len() == 3 && v[0] == a && v[1] == b && v[2] == c;
    proof {
        if v@.len() == 3 && v@[0] == a && v@[1] == b && v@[2] == c {
            assert(v@ =~= seq![a, b, c]);
        }
    }
    r
}

fn eq4(v: &Vec<u8>, a: u8, b: u8, c: u8, d: u8) -> (r: bool)
    ensures
        r == (v@ == seq![a, b, c, d]),
{
    let r = v.len() == 4 && v[0] == a && v[1] == b && v[2] == c && v[3] == d;
    proof {
        if v@.len() == 4 && v@[0] == a && v@[1] == b && v@[2] == c && v@[3] == d {
            assert(v@ =~= seq![a, b, c, d]);
        }
    }
    r
}

fn eq6(v: &Vec<u8>, a: u8, b: u8, c: u8, d: u8, e: u8, f: u8) -> (r: bool)
    ensures
        r == (v@ == seq![a, b, c, d, e, f]),
{
    let r = v.len() == 6 && v[0] == a && v[1] == b && v[2] == c && v[3] == d && v[4] == e && v[5]
        == f;
    proof {
        if v@.len() == 6 && v@[0] == a && v@[1] == b && v@[2] == c && v@[3] == d && v@[4] == e
            && v@[5] == f {
            assert(v@ =~= seq![a, b, c, d, e, f]);
        }
    }
    r
}

fn eq7(v: &Vec<u8>, a: u8, b: u8, c: u8, d: u8, e: u8, f: u8, g: u8) -> (r: bool)
    ensures
        r == (v@ == seq![a, b, c, d, e, f, g]),
{
    let r = v.len() == 7 && v[0] == a && v[1] == b && v[2] == c && v[3] == d && v[4] == e && v[5]
        == f && v[6] == g;
    proof {
        if v@.len() == 7 && v@[0] == a && v@[1] == b && v@[2] == c && v@[3] == d && v@[4] == e
            && v@[5] == f && v@[6] == g {
            assert(v@ =~= seq![a, b, c, d, e, f, g]);
        }
    }
    r
}

/// Extracts text from an argument, exactly as `spec_extract_text` says;
/// never `Incomplete`.
fn extract_string(value: &RespValue) -> (r: Result<String, ParseError>)
    ensures
        match r {
            Result::Ok(t) => spec_extract_text(value@) == Result::Ok::<Seq<char>, Seq<char>>(t@),
            Result::Err(ParseError::Invalid(m)) => spec_extract_text(value@) == Result::Err::<
                Seq<char>,
                Seq<char>,
            >(m@),
            Result::Err(ParseError::Incomplete) => false,
        },
{
    match value {
        RespValue::BulkString(data) => Result::Ok(lossy_text(data.as_slice())),
        RespValue::SimpleString(data) => Result::Ok(lossy_text(data.as_slice())),
        RespValue::Null => Result::Err(
            ParseError::Invalid("Cannot use null as string argument".to_owned()),
        ),
        _ => Result::Err(ParseError::Invalid("Expected string argument".to_owned())),
    }
}

/// Extracts raw bytes from an argument, exactly as `spec_extract_raw`
/// says; never `Incomplete`.
fn extract_bytes(value: &RespValue) -> (r: Result<Vec<u8>, ParseError>)
    ensures
        match r {
            Result::Ok(b) => spec_extract_raw(value@) == Result::Ok::<Seq<u8>, Seq<char>>(b@),
            Result::Err(ParseError::Invalid(m)) => spec_extract_raw(value@) == Result::Err::<
                Seq<u8>,
                Seq<char>,
            >(m@),
            Result::Err(ParseError::Incomplete) => false,
        },
{
    match value {
        RespValue::BulkString(data) => Result::Ok(vstd::slice::slice_to_vec(data.as_slice())),
        RespValue::SimpleString(data) => Result::Ok(vstd::slice::slice_to_vec(data.as_slice())),
        RespValue::Null => Result::Err(
            ParseError::Invalid("Cannot use null as byte argument".to_owned()),
        ),
        _ => Result::Err(ParseError::Invalid("Expected string/bytes argument".to_owned())),
    }
}

/// Parses a command from a non-empty array of decoded values, exactly as
/// the dispatch table says.
fn parse_command_array(elements: Vec<RespValue>) -> (r: Result<RedisCommand, ParseError>)
    requires
        elements@.len() >= 1,
    ensures
        match r {
            Result::Ok(c) => spec_parse_array(views_of(elements@)) == Result::Ok::<
                CommandSpec,
                Seq<char>,
            >(c@),
            Result::Err(ParseError::Invalid(m)) => spec_parse_array(views_of(elements@))
                == Result::Err::<CommandSpec, Seq<char>>(m@),
            Result::Err(ParseError::Incomplete) => false,
        },
{
    proof {
        lemma_views_of(elements@);
    }
    let name_raw: &Vec<u8> = match &elements[0] {
        RespValue::BulkString(data) => data,
        RespValue::SimpleString(data) => data,
        _ => {
            return Result::Err(ParseError::Invalid("Command name must be a string".to_owned()));
        },
    };
    let name = to_upper(name_raw);
    if eq3(&name, 'G' as u8, 'E' as u8, 'T' as u8) {
        if elements.len() != 2 {
            return Result::Err(ParseError::Invalid("GET requires exactly 1 argument".to_owned()));
        }
        let key = extract_string(&elements[1])?;
        Result::Ok(RedisCommand::Get { key })
    } else if eq3(&name, 'S' as u8, 'E' as u8, 'T' as u8) {
        if elements.len() != 3 {
            return Result::Err(ParseError::Invalid("SET requires exactly 2 arguments".to_owned()));
        }
        let key = extract_string(&elements[1])?;
        let value = extract_bytes(&elements[2])?;
        Result::Ok(RedisCommand::SetValue { key, value })
    } else if eq3(&name, 'D' as u8, 'E' as u8, 'L' as u8) {
        if elements.len() != 2 {
            return Result::Err(ParseError::Invalid("DEL requires exactly 1 argument".to_owned()));
        }
        let key = extract_string(&elements[1])?;
        Result::Ok(RedisCommand::Del { key })
    } else if eq6(&name, 'E' as u8, 'X' as u8, 'I' as u8, 'S' as u8, 'T' as u8, 'S' as u8) {
        if elements.len() != 2 {
            return Result::Err(
                ParseError::Invalid("EXISTS requires exactly 1 argument".to_owned()),
            );
        }
        let key = extract_string(&elements[1])?;
        Result::Ok(RedisCommand::Exists { key })
    } else if eq4(&name, 'P' as u8, 'I' as u8, 'N' as u8, 'G' as u8) {
        if elements.len() > 1 {
            let message = extract_string(&elements[1])?;
            Result::Ok(RedisCommand::Ping { message: Option::Some(message) })
        } else {
            Result::Ok(RedisCommand::Ping { message: Option::None })
        }
    } else if eq4(&name, 'I' as u8, 'N' as u8, 'F' as u8, 'O' as u8) {
        if elements.len() > 1 {
            let section = extract_string(&elements[1])?;
            Result::Ok(RedisCommand::Info { section: Option::Some(section) })
        } else {
            Result::Ok(RedisCommand::Info { section: Option::None })
        }
    } else if eq7(&name, 'C' as u8, 'O' as u8, 'M' as u8, 'M' as u8, 'A' as u8, 'N' as u8, 'D'
        as u8) {
        Result::Ok(RedisCommand::Command)
    } else if eq4(&name, 'Q' as u8, 'U' as u8, 'I' as u8, 'T' as u8) {
        Result::Ok(RedisCommand::Quit)
    } else {
        Result::Ok(RedisCommand::Unknown(lossy_text(name.as_slice())))
    }
}

/// Parses a command from one decoded protocol value, exactly as
/// `spec_parse_command` says: the parser never reports `Incomplete`, and
/// the `Invalid` message is pinned for every rejected input.
pub fn parse_command(resp: RespValue) -> (r: Result<RedisCommand, ParseError>)
    ensures
        match r {
            Result::Ok(c) => spec_parse_command(resp@) == Result::Ok::<CommandSpec, Seq<char>>(c@),
            Result::Err(ParseError::Invalid(m)) => spec_parse_command(resp@) == Result::Err::<
                CommandSpec,
                Seq<char>,
            >(m@),
            Result::Err(ParseError::Incomplete) => false,
        },
{
    match resp {
        RespValue::Array(elements) => {
            if elements.len() == 0 {
                Result::Err(ParseError::Invalid("Empty command array".to_owned()))
            } else {
                parse_command_array(elements)
            }
        },
        _ => Result::Err(ParseError::Invalid("Commands must be arrays".to_owned())),
    }
}

} // verus!
