//! Persistent inner state (mood, focus, frustrations, ...): the values a fresh store is
//! seeded with, how the whole state reads, what an append or an increment writes, and
//! the ego tool's requests and replies. The SQLite table itself is read and written by
//! the caller.
use vstd::prelude::*;
use crate::text;
use crate::json::{self, JsonValue};

verus! {

/// One stored key with its value and the time it was last written.
pub struct StateRow {
    pub key: String,
    pub value: String,
    pub updated_at: String,
}

/// The keys and values a store starts with, in the order they are written.
pub open spec fn seed_pairs() -> Seq<(Seq<char>, Seq<char>)> {
    seq![
        ("current_focus"@, "Getting oriented. Reading the repos."@),
        ("mood"@, "neutral"@),
        ("frustrations"@, "none yet"@),
        ("curiosities"@, "Want to understand the full system architecture."@),
        ("recent_wins"@, "none yet"@),
        ("things_jeff_should_know"@, "none yet"@),
        ("drive_scores"@, "{\"green_repos\":0,\"recent_ship\":0,\"learning\":0,\"system_understanding\":0}"@),
        ("session_count"@, "0"@),
        ("last_session_summary"@, "First session."@),
    ]
}

pub open spec fn pair_views(v: Seq<(String, String)>) -> Seq<(Seq<char>, Seq<char>)> {
    v.map_values(|p: (String, String)| (p.0@, p.1@))
}

/// The rows to insert into a store that holds `count` rows: the seeds when it is empty,
/// nothing otherwise.
pub fn state_seeds(count: i64) -> (r: Vec<(String, String)>)
    ensures
        pair_views(r@) == if count > 0 {
            Seq::empty()
        } else {
            seed_pairs()
        },
{
    let mut r: Vec<(String, String)> = Vec::new();
    if count > 0 {
        assert(pair_views(r@) =~= Seq::empty());
        return r;
    }
    r.push((String::from_str("current_focus"), String::from_str("Getting oriented. Reading the repos.")));
    r.push((String::from_str("mood"), String::from_str("neutral")));
    r.push((String::from_str("frustrations"), String::from_str("none yet")));
    r.push((String::from_str("curiosities"), String::from_str("Want to understand the full system architecture.")));
    r.push((String::from_str("recent_wins"), String::from_str("none yet")));
    r.push((String::from_str("things_jeff_should_know"), String::from_str("none yet")));
    r.push(
        (
            String::from_str("drive_scores"),
            String::from_str("{\"green_repos\":0,\"recent_ship\":0,\"learning\":0,\"system_understanding\":0}"),
        ),
    );
    r.push((String::from_str("session_count"), String::from_str("0")));
    r.push((String::from_str("last_session_summary"), String::from_str("First session.")));
    assert(pair_views(r@) =~= seed_pairs());
    r
}

/// `"{key}: {value}\n  (updated {updated_at})\n"`
pub open spec fn state_line(r: StateRow) -> Seq<char> {
    r.key@ + ": "@ + r.value@ + "\n  (updated "@ + r.updated_at@ + ")\n"@
}

/// The whole state as one block, one entry per row in the order given (the store
/// hands rows over sorted by key).
pub fn state_read_all(rows: &Vec<StateRow>) -> (r: String)
    ensures
        r@ == crate::gh::concat_all(rows@.map_values(|x: StateRow| state_line(x))),
{
    let mut out: Vec<char> = Vec::new();
    let mut i: usize = 0;
    while i < rows.len()
        invariant
            i <= rows.len(),
            out@ == crate::gh::concat_all(rows@.take(i as int).map_values(|x: StateRow| state_line(x))),
        decreases rows.len() - i,
    {
        let row = &rows[i];
        text::push_str(&mut out, row.key.as_str());
        text::push_str(&mut out, ": ");
        text::push_str(&mut out, row.value.as_str());
        text::push_str(&mut out, "\n  (updated ");
        text::push_str(&mut out, row.updated_at.as_str());
        text::push_str(&mut out, ")\n");
        proof {
            let before = rows@.take(i as int).map_values(|x: StateRow| state_line(x));
            let after = rows@.take(i + 1).map_values(|x: StateRow| state_line(x));
            assert(after.drop_last() =~= before);
            assert(after.last() == state_line(rows@[i as int]));
        }
        i = i + 1;
    }
    assert(rows@.take(rows@.len() as int) =~= rows@);
    text::string_of(&out)
}

/// The value an append writes: the new text alone when there is nothing yet (or the
/// key could not be read), else the old value, a newline, and the new text.
pub open spec fn appended(current: Option<Seq<char>>, value: Seq<char>) -> Seq<char> {
    match current {
        Some(c) => if c.len() == 0 {
            value
        } else {
            c + seq!['\n'] + value
        },
        None => value,
    }
}

/// What an append leaves under a key: the new text when the key held nothing (or was
/// absent), else the old value, a newline and the new text.
pub proof fn lemma_append_value(cur: Seq<char>, value: Seq<char>)
    ensures
        appended(None, value) == value,
        appended(Some(cur), value) == if cur.len() == 0 {
            value
        } else {
            cur + seq!['\n'] + value
        },
{
}

/// An append keeps what was there and ends with the new text.
pub proof fn lemma_append_keeps_old(current: Option<Seq<char>>, value: Seq<char>)
    ensures
        text::ends_with(appended(current, value), value),
        current matches Some(c) ==> text::starts_with(appended(current, value), c),
{
    let a = appended(current, value);
    assert(a.skip(a.len() - value.len()) =~= value);
    match current {
        Some(c) => {
            assert(a.take(c.len() as int) =~= c);
        },
        None => {},
    }
}

pub fn appended_value(current: Option<&str>, value: &str) -> (r: String)
    ensures
        r@ == appended(crate::github::opt_view(current), value@),
{
    match current {
        Some(c) => {
            if c.is_empty() {
                return String::from_str(value);
            }
            let mut v = text::chars_of(c);
            v.push('\n');
            text::push_str(&mut v, value);
            text::string_of(&v)
        },
        None => String::from_str(value),
    }
}

/// The number an increment starts from: the stored value, trimmed, as an `i64`; 0 when
/// there is none or it is not a number.
pub open spec fn increment_base(current: Option<Seq<char>>) -> i64 {
    match current {
        Some(c) => match crate::schedule::parse_i64(text::trim(c)) {
            Some(n) => n,
            None => 0,
        },
        None => 0,
    }
}

/// The value an increment writes: one more than `increment_base`.
pub fn incremented(current: Option<&str>) -> (r: i64)
    requires
        increment_base(crate::github::opt_view(current)) < i64::MAX,
    ensures
        r == increment_base(crate::github::opt_view(current)) + 1,
{
    let n = match current {
        Some(c) => {
            let t = text::trim_str(c);
            match crate::schedule::parse_i64_exec(&t) {
                Some(n) => n,
                None => 0,
            }
        },
        None => 0,
    };
    n + 1
}

/// An ego tool request.
pub enum EgoRequest {
    ReadAll,
    Read { key: String },
    Write { key: String, value: String },
    Append { key: String, value: String },
}

/// The trimmed string under `key`, when there is one.
pub open spec fn trimmed_field(input: JsonValue, key: Seq<char>) -> Option<Seq<char>> {
    match json::str_field(input, key) {
        Some(s) => Some(text::trim(s)),
        None => None,
    }
}

/// What the ego tool is asked to do, or the error for the user.
pub open spec fn ego_request(input: JsonValue) -> Result<EgoRequestView, Seq<char>> {
    ego_request_with(input, crate::task::action_of(input))
}

/// The same, given the input's lower-cased, trimmed action.
pub open spec fn ego_request_with(input: JsonValue, action: Option<Seq<char>>) -> Result<EgoRequestView, Seq<char>> {
    match action {
        None => Err("missing action"@),
        Some(a) => if a == "read_all"@ {
            Ok(EgoRequestView::ReadAll)
        } else if a == "read"@ {
            match trimmed_field(input, "key"@) {
                None => Err("read requires key"@),
                Some(k) => if k.len() == 0 {
                    Err("key is empty"@)
                } else {
                    Ok(EgoRequestView::Read(k))
                },
            }
        } else if a == "write"@ || a == "append"@ {
            let verb = if a == "write"@ {
                "write"@
            } else {
                "append"@
            };
            match trimmed_field(input, "key"@) {
                None => Err(verb + " requires "@ + "key"@),
                Some(k) => match trimmed_field(input, "value"@) {
                    None => Err(verb + " requires "@ + "value"@),
                    Some(v) => if k.len() == 0 {
                        Err("key is empty"@)
                    } else if a == "write"@ {
                        Ok(EgoRequestView::Write(k, v))
                    } else {
                        Ok(EgoRequestView::Append(k, v))
                    },
                },
            }
        } else {
            Err("action must be read_all, read, write, or append"@)
        },
    }
}

/// An ego request with its strings as sequences.
pub enum EgoRequestView {
    ReadAll,
    Read(Seq<char>),
    Write(Seq<char>, Seq<char>),
    Append(Seq<char>, Seq<char>),
}

impl EgoRequest {
    pub open spec fn view(self) -> EgoRequestView {
        match self {
            EgoRequest::ReadAll => EgoRequestView::ReadAll,
            EgoRequest::Read { key } => EgoRequestView::Read(key@),
            EgoRequest::Write { key, value } => EgoRequestView::Write(key@, value@),
            EgoRequest::Append { key, value } => EgoRequestView::Append(key@, value@),
        }
    }
}

pub(crate) fn trimmed_string(input: &JsonValue, key: &str) -> (r: Option<String>)
    ensures
        crate::task::opt_seq(r) == trimmed_field(*input, key@),
        match r {
            Some(s) => trimmed_field(*input, key@) == Some(s@),
            None => trimmed_field(*input, key@) is None,
        },
{
    match input.str_field(key) {
        Some(s) => Some(text::string_of(&text::trim_str(s.as_str()))),
        None => None,
    }
}

fn requires_msg(verb: &str, what: &str) -> (r: String)
    ensures
        r@ == verb@ + " requires "@ + what@,
{
    let mut v = text::chars_of(verb);
    text::push_str(&mut v, " requires ");
    text::push_str(&mut v, what);
    text::string_of(&v)
}

/// Reads and updates the persistent inner state.
pub struct EgoTool;

impl EgoTool {
    /// Decodes an ego tool input.
    pub fn request(input: &JsonValue) -> (r: Result<EgoRequest, String>)
        ensures
            match ego_request(*input) {
                Ok(q) => r matches Ok(x) && x.view() == q,
                Err(e) => r matches Err(m) && m@ == e,
            },
    {
        match crate::task::action_exec(input) {
            Some(a) => Self::request_with_action(input, Some(text::string_of(&a).as_str())),
            None => Self::request_with_action(input, None),
        }
    }

    /// Decodes an ego tool input whose action, lower-cased and trimmed, is `action`.
    pub fn request_with_action(input: &JsonValue, action: Option<&str>) -> (r: Result<EgoRequest, String>)
        ensures
            match ego_request_with(*input, crate::github::opt_view(action)) {
                Ok(q) => r matches Ok(x) && x.view() == q,
                Err(e) => r matches Err(m) && m@ == e,
            },
    {
        let a = match action {
            Some(a) => text::chars_of(a),
            None => return Err(String::from_str("missing action")),
        };
        if text::is_lit(&a, "read_all") {
            return Ok(EgoRequest::ReadAll);
        }
        if text::is_lit(&a, "read") {
            let k = match trimmed_string(input, "key") {
                Some(k) => k,
                None => return Err(String::from_str("read requires key")),
            };
            if k.as_str().is_empty() {
                return Err(String::from_str("key is empty"));
            }
            return Ok(EgoRequest::Read { key: k });
        }
        let is_write = text::is_lit(&a, "write");
        if is_write || text::is_lit(&a, "append") {
            let verb = if is_write {
                "write"
            } else {
                "append"
            };
            proof {
                reveal_strlit("write");
                reveal_strlit("append");
            }
            let k = match trimmed_string(input, "key") {
                Some(k) => k,
                None => return Err(requires_msg(verb, "key")),
            };
            let v = match trimmed_string(input, "value") {
                Some(v) => v,
                None => return Err(requires_msg(verb, "value")),
            };
            if k.as_str().is_empty() {
                return Err(String::from_str("key is empty"));
            }
            if is_write {
                return Ok(EgoRequest::Write { key: k, value: v });
            }
            return Ok(EgoRequest::Append { key: k, value: v });
        }
        Err(String::from_str("action must be read_all, read, write, or append"))
    }

    /// The reply to `read_all`: the block, or `No state yet.` when it is empty.
    pub fn read_all_reply(block: &str) -> (r: String)
        ensures
            r@ == if block@.len() == 0 {
                "No state yet."@
            } else {
                block@
            },
    {
        if block.is_empty() {
            String::from_str("No state yet.")
        } else {
            String::from_str(block)
        }
    }

    /// The reply to `read`: the value, or `No value for key '{key}'.`
    pub fn read_reply(key: &str, value: Option<&str>) -> (r: String)
        ensures
            r@ == match value {
                Some(v) => v@,
                None => "No value for key '"@ + key@ + "'."@,
            },
    {
        match value {
            Some(v) => String::from_str(v),
            None => {
                let mut m = text::lit("No value for key '");
                text::push_str(&mut m, key);
                text::push_str(&mut m, "'.");
                text::string_of(&m)
            },
        }
    }

    /// The reply to `write`: `Wrote {key} ({n} chars).`, `n` the value's length in bytes.
    pub fn wrote(key: &str, value: &str) -> (r: String)
        requires
            text::byte_len(value@) <= usize::MAX,
        ensures
            r@ == "Wrote "@ + key@ + " ("@ + text::decimal(text::byte_len(value@)) + " chars)."@,
    {
        let n = text::byte_len_exec(&text::chars_of(value));
        let mut m = text::lit("Wrote ");
        text::push_str(&mut m, key);
        text::push_str(&mut m, " (");
        text::push_decimal(&mut m, n as u64);
        text::push_str(&mut m, " chars).");
        text::string_of(&m)
    }

    /// The reply to `append`: `Appended to {key}.`
    pub fn appended(key: &str) -> (r: String)
        ensures
            r@ == "Appended to "@ + key@ + "."@,
    {
        let mut m = text::lit("Appended to ");
        text::push_str(&mut m, key);
        text::push_str(&mut m, ".");
        text::string_of(&m)
    }
}

} // verus!
