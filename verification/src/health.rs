//! The health endpoint: which request it answers, where the model and embedding servers
//! are probed, and the HTTP response around a JSON body. Serving and probing are left to
//! the caller.
use vstd::prelude::*;
use crate::text;
use crate::github::opt_view;

verus! {

/// A request line asks for the health status when it starts with `GET /health`.
pub fn is_health_request(first_line: &str) -> (r: bool)
    ensures
        r == text::starts_with(first_line@, "GET /health"@),
{
    text::starts_with_exec(&text::chars_of(first_line), &text::lit("GET /health"))
}

/// The model server to probe: `OPENAI_API_BASE` when set and not empty, without
/// trailing `/`.
pub fn model_base(env: Option<&str>) -> (r: Option<String>)
    ensures
        crate::task::opt_seq(r) == match crate::episode::nonempty(opt_view(env)) {
            Some(b) => Some(crate::schedule::trim_end_char(b, '/')),
            None => None,
        },
{
    match env {
        Some(b) => if b.is_empty() {
            None
        } else {
            Some(text::string_of(&crate::schedule::trim_end_char_exec(&text::chars_of(b), '/')))
        },
        None => None,
    }
}

/// The embedding server to probe: `CHUMP_EMBED_URL` when set and not empty, else the
/// local default; without trailing `/`.
pub fn embed_base(env: Option<&str>) -> (r: String)
    ensures
        r@ == crate::schedule::trim_end_char(
            match crate::episode::nonempty(opt_view(env)) {
                Some(b) => b,
                None => "http://127.0.0.1:18765"@,
            },
            '/',
        ),
{
    let b = match env {
        Some(b) => if b.is_empty() {
            text::lit("http://127.0.0.1:18765")
        } else {
            text::chars_of(b)
        },
        None => text::lit("http://127.0.0.1:18765"),
    };
    text::string_of(&crate::schedule::trim_end_char_exec(&b, '/'))
}

/// The URL probed on a server: the base and a path.
pub fn probe_url(base: &str, path: &str) -> (r: String)
    ensures
        r@ == base@ + path@,
{
    let mut v = text::chars_of(base);
    text::push_str(&mut v, path);
    text::string_of(&v)
}

/// The status of a probe: `ok` for a success, `down` otherwise.
pub fn probe_status(success: bool) -> (r: String)
    ensures
        r@ == if success {
            "ok"@
        } else {
            "down"@
        },
{
    if success {
        String::from_str("ok")
    } else {
        String::from_str("down")
    }
}

/// The response to a health request: `200 OK` with the JSON body and its length in bytes.
pub fn ok_response(body: &str) -> (r: String)
    requires
        text::byte_len(body@) <= usize::MAX,
    ensures
        r@ == "HTTP/1.1 200 OK\r\nContent-Type: application/json\r\nContent-Length: "@ + text::decimal(
            text::byte_len(body@),
        ) + "\r\nConnection: close\r\n\r\n"@ + body@,
{
    let v = text::chars_of(body);
    let n = text::byte_len_exec(&v);
    let mut out = text::lit("HTTP/1.1 200 OK\r\nContent-Type: application/json\r\nContent-Length: ");
    text::push_decimal(&mut out, n as u64);
    text::push_str(&mut out, "\r\nConnection: close\r\n\r\n");
    text::push_vec(&mut out, &v);
    text::string_of(&out)
}

/// The response to any other request.
pub fn not_found_response() -> (r: String)
    ensures
        r@ == "HTTP/1.1 404 Not Found\r\nContent-Length: 0\r\n\r\n"@,
{
    String::from_str("HTTP/1.1 404 Not Found\r\nContent-Length: 0\r\n\r\n")
}

/// The version reported: `CHUMP_VERSION` when set, else the package version.
pub fn chump_version(env: Option<&str>, package_version: &str) -> (r: String)
    ensures
        r@ == match env {
            Some(v) => v@,
            None => package_version@,
        },
{
    match env {
        Some(v) => String::from_str(v),
        None => String::from_str(package_version),
    }
}

/// Whether the agent is paused: `CHUMP_PAUSED` is `1` or `true` (any case), or the pause
/// file exists.
pub fn paused(env: Option<&str>, pause_file_exists: bool) -> (r: bool)
    ensures
        r == (crate::log::flag_on(opt_view(env)) || pause_file_exists),
{
    crate::log::env_flag(env) || pause_file_exists
}

/// The health port: `CHUMP_HEALTH_PORT` when it is a port number.
pub fn health_port(env: Option<&str>) -> (r: Option<u16>)
    ensures
        r == match opt_view(env) {
            Some(s) => match crate::cli::parse_u64(s) {
                Some(n) => if n <= u16::MAX {
                    Some(n as u16)
                } else {
                    None
                },
                None => None,
            },
            None => None,
        },
{
    match env {
        Some(s) => match crate::cli::parse_u64_exec(s) {
            Some(n) => if n <= u16::MAX as u64 {
                Some(n as u16)
            } else {
                None
            },
            None => None,
        },
        None => None,
    }
}

} // verus!
