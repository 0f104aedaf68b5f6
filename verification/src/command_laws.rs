//! Command-level laws of the parser: the encode-parse round trip for every
//! supported command, case-insensitive name matching, the arity rules, the
//! rejection of null arguments, and unknown-name handling.

use vstd::prelude::*;
use vstd::utf8::encode_utf8;
use vstd::utf8::encode_utf8_decode_utf8;
use vstd::utf8::encode_utf8_valid_utf8;

use crate::codec_laws::lemma_decode_encode;
use crate::codec_laws::wf_resp;
use crate::command::CommandSpec;
use crate::command::name_command;
use crate::command::name_del;
use crate::command::name_exists;
use crate::command::name_get;
use crate::command::name_info;
use crate::command::name_ping;
use crate::command::name_quit;
use crate::command::name_set;
use crate::command::spec_extract_text;
use crate::command::spec_parse_array;
use crate::command::spec_parse_command;
use crate::command::spec_string_payload;
use crate::decode::DecStep;
use crate::decode::spec_dec;
use crate::encode::spec_encode;
use crate::text::text_of;
use crate::text::upper_bytes;
use crate::value::RespSpec;

verus! {

/// The eight command names are already upper-case: upper-casing fixes
/// them.
proof fn lemma_names_upper()
    ensures
        upper_bytes(name_get()) == name_get(),
        upper_bytes(name_set()) == name_set(),
        upper_bytes(name_del()) == name_del(),
        upper_bytes(name_exists()) == name_exists(),
        upper_bytes(name_ping()) == name_ping(),
        upper_bytes(name_info()) == name_info(),
        upper_bytes(name_command()) == name_command(),
        upper_bytes(name_quit()) == name_quit(),
{
    assert(upper_bytes(name_get()) =~= name_get());
    assert(upper_bytes(name_set()) =~= name_set());
    assert(upper_bytes(name_del()) =~= name_del());
    assert(upper_bytes(name_exists()) =~= name_exists());
    assert(upper_bytes(name_ping()) =~= name_ping());
    assert(upper_bytes(name_info()) =~= name_info());
    assert(upper_bytes(name_command()) =~= name_command());
    assert(upper_bytes(name_quit()) =~= name_quit());
}

/// The eight command names are pairwise distinct.
proof fn lemma_names_distinct()
    ensures
        name_get() != name_set(),
        name_get() != name_del(),
        name_set() != name_del(),
        name_ping() != name_info(),
        name_ping() != name_quit(),
        name_info() != name_quit(),
{
    assert(name_get()[0] == 'G' as u8);
    assert(name_set()[0] == 'S' as u8);
    assert(name_del()[0] == 'D' as u8);
    assert(name_ping()[0] == 'P' as u8);
    assert(name_info()[0] == 'I' as u8);
    assert(name_quit()[0] == 'Q' as u8);
}

/// The correctly-shaped array for a command: the upper-case name as a bulk
/// string, then each argument as a bulk string, text arguments in their
/// UTF-8 form.
pub open spec fn command_frame(c: CommandSpec) -> RespSpec {
    match c {
        CommandSpec::Get { key } => RespSpec::Array(
            seq![
                RespSpec::BulkString(name_get()),
                RespSpec::BulkString(encode_utf8(key)),
            ],
        ),
        CommandSpec::SetValue { key, value } => RespSpec::Array(
            seq![
                RespSpec::BulkString(name_set()),
                RespSpec::BulkString(encode_utf8(key)),
                RespSpec::BulkString(value),
            ],
        ),
        CommandSpec::Del { key } => RespSpec::Array(
            seq![
                RespSpec::BulkString(name_del()),
                RespSpec::BulkString(encode_utf8(key)),
            ],
        ),
        CommandSpec::Exists { key } => RespSpec::Array(
            seq![
                RespSpec::BulkString(name_exists()),
                RespSpec::BulkString(encode_utf8(key)),
            ],
        ),
        CommandSpec::Ping { message } => match message {
            Option::Some(m) => RespSpec::Array(
                seq![
                    RespSpec::BulkString(name_ping()),
                    RespSpec::BulkString(encode_utf8(m)),
                ],
            ),
            Option::None => RespSpec::Array(seq![RespSpec::BulkString(name_ping())]),
        },
        CommandSpec::Info { section } => match section {
            Option::Some(m) => RespSpec::Array(
                seq![
                    RespSpec::BulkString(name_info()),
                    RespSpec::BulkString(encode_utf8(m)),
                ],
            ),
            Option::None => RespSpec::Array(seq![RespSpec::BulkString(name_info())]),
        },
        CommandSpec::Command => RespSpec::Array(seq![RespSpec::BulkString(name_command())]),
        CommandSpec::Quit => RespSpec::Array(seq![RespSpec::BulkString(name_quit())]),
        CommandSpec::Unknown(n) => RespSpec::Array(seq![RespSpec::BulkString(encode_utf8(n))]),
    }
}

/// Parsing the correctly-shaped array of a supported command yields that
/// command back, text arguments decoded exactly (UTF-8 round-trips through
/// the lossy policy without loss).
pub proof fn lemma_parse_command_frame(c: CommandSpec)
    requires
        !(c is Unknown),
    ensures
        spec_parse_command(command_frame(c)) == Result::Ok::<CommandSpec, Seq<char>>(c),
{
    lemma_names_upper();
    lemma_names_distinct();
    broadcast use encode_utf8_valid_utf8;
    broadcast use encode_utf8_decode_utf8;

}

/// For every supported command, encoding its correctly-shaped array and
/// decoding it back through the full pipeline yields the command it was
/// built from: the wire bytes decode to exactly that array, with exactly
/// the encoding consumed whatever bytes follow, and parsing the array
/// yields the command. The well-formedness premise only bounds sizes
/// against machine limits.
pub proof fn lemma_command_round_trip(c: CommandSpec, rest: Seq<u8>)
    requires
        !(c is Unknown),
        wf_resp(command_frame(c)),
    ensures
        spec_dec(spec_encode(command_frame(c)) + rest, 0) == DecStep::Frame(
            command_frame(c),
            spec_encode(command_frame(c)).len() as int,
        ),
        spec_parse_command(command_frame(c)) == Result::Ok::<CommandSpec, Seq<char>>(c),
{
    lemma_decode_encode(command_frame(c), rest);
    lemma_parse_command_frame(c);
}

/// Command-name matching is case-insensitive: two arrays whose first
/// elements are string-like with the same upper-cased bytes, and whose
/// remaining elements agree, parse identically.
pub proof fn lemma_case_insensitive(a: Seq<RespSpec>, b: Seq<RespSpec>, pa: Seq<u8>, pb: Seq<u8>)
    requires
        a.len() == b.len(),
        a.len() >= 1,
        spec_string_payload(a[0]) == Option::Some(pa),
        spec_string_payload(b[0]) == Option::Some(pb),
        upper_bytes(pa) == upper_bytes(pb),
        forall|i: int| 1 <= i < a.len() ==> a[i] == b[i],
    ensures
        spec_parse_array(a) == spec_parse_array(b),
{
    if a.len() > 1 {
        assert(a[1] == b[1]);
    }
    if a.len() > 2 {
        assert(a[2] == b[2]);
    }
}

/// GET, DEL and EXISTS with any element count other than 2, and SET with
/// any count other than 3, are rejected with the exact message naming the
/// command and its expected argument count.
pub proof fn lemma_fixed_arity(elts: Seq<RespSpec>, raw: Seq<u8>)
    requires
        elts.len() >= 1,
        spec_string_payload(elts[0]) == Option::Some(raw),
    ensures
        upper_bytes(raw) == name_get() && elts.len() != 2 ==> spec_parse_array(elts)
            == Result::Err::<CommandSpec, Seq<char>>("GET requires exactly 1 argument"@),
        upper_bytes(raw) == name_del() && elts.len() != 2 ==> spec_parse_array(elts)
            == Result::Err::<CommandSpec, Seq<char>>("DEL requires exactly 1 argument"@),
        upper_bytes(raw) == name_exists() && elts.len() != 2 ==> spec_parse_array(elts)
            == Result::Err::<CommandSpec, Seq<char>>("EXISTS requires exactly 1 argument"@),
        upper_bytes(raw) == name_set() && elts.len() != 3 ==> spec_parse_array(elts)
            == Result::Err::<CommandSpec, Seq<char>>("SET requires exactly 2 arguments"@),
{
    lemma_names_distinct();
}

/// PING and INFO accept 1 or 2 elements: with exactly 1 the optional field
/// is absent; with 2 or more it carries the text of the second element.
pub proof fn lemma_optional_argument(elts: Seq<RespSpec>, raw: Seq<u8>)
    requires
        elts.len() >= 1,
        spec_string_payload(elts[0]) == Option::Some(raw),
    ensures
        upper_bytes(raw) == name_ping() && elts.len() == 1 ==> spec_parse_array(elts)
            == Result::Ok::<CommandSpec, Seq<char>>(
            CommandSpec::Ping { message: Option::None },
        ),
        upper_bytes(raw) == name_info() && elts.len() == 1 ==> spec_parse_array(elts)
            == Result::Ok::<CommandSpec, Seq<char>>(
            CommandSpec::Info { section: Option::None },
        ),
        upper_bytes(raw) == name_ping() && elts.len() >= 2 ==> spec_parse_array(elts) == (
        match spec_extract_text(elts[1]) {
            Result::Ok(m) => Result::Ok(CommandSpec::Ping { message: Option::Some(m) }),
            Result::Err(m) => Result::Err(m),
        }),
        upper_bytes(raw) == name_info() && elts.len() >= 2 ==> spec_parse_array(elts) == (
        match spec_extract_text(elts[1]) {
            Result::Ok(m) => Result::Ok(CommandSpec::Info { section: Option::Some(m) }),
            Result::Err(m) => Result::Err(m),
        }),
{
    lemma_names_distinct();
}

/// A null bulk string used as a command argument is always rejected, on
/// the text-extraction path and on the byte-extraction path alike.
pub proof fn lemma_null_argument(elts: Seq<RespSpec>, raw: Seq<u8>)
    requires
        elts.len() >= 1,
        spec_string_payload(elts[0]) == Option::Some(raw),
    ensures
        (upper_bytes(raw) == name_get() || upper_bytes(raw) == name_del() || upper_bytes(raw)
            == name_exists()) && elts.len() == 2 && elts[1] is Null ==> spec_parse_array(elts)
            == Result::Err::<CommandSpec, Seq<char>>("Cannot use null as string argument"@),
        (upper_bytes(raw) == name_ping() || upper_bytes(raw) == name_info()) && elts.len() >= 2
            && elts[1] is Null ==> spec_parse_array(elts) == Result::Err::<CommandSpec, Seq<char>>(
            "Cannot use null as string argument"@,
        ),
        upper_bytes(raw) == name_set() && elts.len() == 3 && elts[1] is Null ==> spec_parse_array(
            elts,
        ) == Result::Err::<CommandSpec, Seq<char>>("Cannot use null as string argument"@),
        upper_bytes(raw) == name_set() && elts.len() == 3 && spec_extract_text(elts[1]) is Ok
            && elts[2] is Null ==> spec_parse_array(elts) == Result::Err::<CommandSpec, Seq<char>>(
            "Cannot use null as byte argument"@,
        ),
{
    lemma_names_distinct();
}

/// A well-shaped array whose first element is string-like but names none
/// of the eight commands parses to `Unknown` carrying the upper-cased
/// name, not to an error.
pub proof fn lemma_unknown_command(elts: Seq<RespSpec>, raw: Seq<u8>)
    requires
        elts.len() >= 1,
        spec_string_payload(elts[0]) == Option::Some(raw),
        upper_bytes(raw) != name_get(),
        upper_bytes(raw) != name_set(),
        upper_bytes(raw) != name_del(),
        upper_bytes(raw) != name_exists(),
        upper_bytes(raw) != name_ping(),
        upper_bytes(raw) != name_info(),
        upper_bytes(raw) != name_command(),
        upper_bytes(raw) != name_quit(),
    ensures
        spec_parse_array(elts) == Result::Ok::<CommandSpec, Seq<char>>(
            CommandSpec::Unknown(text_of(upper_bytes(raw))),
        ),
{
}

} // verus!
