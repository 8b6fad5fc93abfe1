//! Input caps: the longest user message and the largest tool input.
use vstd::prelude::*;
use crate::text;

verus! {

pub const DEFAULT_MAX_MESSAGE_LEN: usize = 16384;

pub const DEFAULT_MAX_TOOL_ARGS_LEN: usize = 32768;

/// `str::parse::<usize>` (`usize` read as `u64` on the supported targets).
pub open spec fn parse_usize(s: Seq<char>) -> Option<usize> {
    match crate::cli::parse_u64(s) {
        Some(n) => if n <= usize::MAX {
            Some(n as usize)
        } else {
            None
        },
        None => None,
    }
}

pub fn parse_usize_exec(s: &str) -> (r: Option<usize>)
    ensures
        r == parse_usize(s@),
{
    match crate::cli::parse_u64_exec(s) {
        Some(n) => if n <= usize::MAX as u64 {
            Some(n as usize)
        } else {
            None
        },
        None => None,
    }
}

/// A cap read from the environment: the parsed value, else the default.
pub open spec fn cap_from_env(v: Option<Seq<char>>, default: usize) -> usize {
    match v {
        Some(s) => match parse_usize(s) {
            Some(n) => n,
            None => default,
        },
        None => default,
    }
}

/// Longest user message, in characters: `CHUMP_MAX_MESSAGE_LEN` (its value, when set) or 16384.
pub fn max_message_len(env: Option<&str>) -> (r: usize)
    ensures
        r == cap_from_env(
            match env {
                Some(s) => Some(s@),
                None => None,
            },
            DEFAULT_MAX_MESSAGE_LEN,
        ),
{
    match env {
        Some(s) => match parse_usize_exec(s) {
            Some(n) => n,
            None => DEFAULT_MAX_MESSAGE_LEN,
        },
        None => DEFAULT_MAX_MESSAGE_LEN,
    }
}

/// Largest tool input (as JSON text): `CHUMP_MAX_TOOL_ARGS_LEN` (its value, when set) or 32768.
pub fn max_tool_args_len(env: Option<&str>) -> (r: usize)
    ensures
        r == cap_from_env(
            match env {
                Some(s) => Some(s@),
                None => None,
            },
            DEFAULT_MAX_TOOL_ARGS_LEN,
        ),
{
    match env {
        Some(s) => match parse_usize_exec(s) {
            Some(n) => n,
            None => DEFAULT_MAX_TOOL_ARGS_LEN,
        },
        None => DEFAULT_MAX_TOOL_ARGS_LEN,
    }
}

pub open spec fn message_too_long(max: usize, len: nat) -> Seq<char> {
    "Message too long (max "@ + text::decimal(max as nat) + " characters). You sent "@
        + text::decimal(len) + "."@
}

/// `Ok(())` when the message is at most `max` characters, else the message for the user.
pub fn check_message_len(content: &str, max: usize) -> (r: Result<(), String>)
    ensures
        r is Ok <==> content@.len() <= max,
        r matches Err(e) ==> e@ == message_too_long(max, content@.len()),
{
    let v = text::chars_of(content);
    let n = v.len();
    if n > max {
        let mut m = text::lit("Message too long (max ");
        text::push_decimal(&mut m, max as u64);
        let mut t = text::lit(" characters). You sent ");
        m.append(&mut t);
        text::push_decimal(&mut m, n as u64);
        m.push('.');
        proof {
            reveal_strlit(".");
        }
        assert(m@ =~= message_too_long(max, content@.len()));
        return Err(text::string_of(&m));
    }
    Ok(())
}

pub open spec fn tool_input_too_large(max: usize, len: usize) -> Seq<char> {
    "Tool input too large (max "@ + text::decimal(max as nat) + " bytes). Got "@ + text::decimal(
        len as nat,
    ) + "."@
}

/// `Ok(())` when a tool input, written as JSON text of `len` bytes, is at most `max` bytes.
pub fn check_tool_input_len(len: usize, max: usize) -> (r: Result<(), String>)
    ensures
        r is Ok <==> len <= max,
        r matches Err(e) ==> e@ == tool_input_too_large(max, len),
{
    if len > max {
        let mut m = text::lit("Tool input too large (max ");
        text::push_decimal(&mut m, max as u64);
        let mut t = text::lit(" bytes). Got ");
        m.append(&mut t);
        text::push_decimal(&mut m, len as u64);
        m.push('.');
        proof {
            reveal_strlit(".");
        }
        assert(m@ =~= tool_input_too_large(max, len));
        return Err(text::string_of(&m));
    }
    Ok(())
}

} // verus!
