//! Episodic memory: what a logged episode stores, how a stored row reads back, which
//! rows a recent-or-search query asks for, and the episode tool's requests and replies.
//! The SQLite table itself is read and written by the caller.
use vstd::prelude::*;
use crate::text;
use crate::json::{self, JsonValue};
use crate::task::opt_seq;

verus! {

/// One episode as read back from the store.
pub struct EpisodeRow {
    pub id: i64,
    pub happened_at: String,
    pub summary: String,
    pub detail: Option<String>,
    pub tags: Option<String>,
    pub repo: Option<String>,
    pub sentiment: Option<String>,
    pub pr_number: Option<i64>,
    pub issue_number: Option<i64>,
}

/// A stored text column reads back as `None` when it is empty.
pub open spec fn nonempty(s: Option<Seq<char>>) -> Option<Seq<char>> {
    match s {
        Some(x) => if x.len() == 0 {
            None
        } else {
            Some(x)
        },
        None => None,
    }
}

/// A stored number column reads back as `None` when it is zero.
pub open spec fn nonzero(n: Option<i64>) -> Option<i64> {
    match n {
        Some(x) => if x == 0 {
            None
        } else {
            Some(x)
        },
        None => None,
    }
}

fn nonempty_exec(s: Option<String>) -> (r: Option<String>)
    ensures
        opt_seq(r) == nonempty(opt_seq(s)),
{
    match s {
        Some(x) => if x.as_str().is_empty() {
            None
        } else {
            Some(x)
        },
        None => None,
    }
}

fn nonzero_exec(n: Option<i64>) -> (r: Option<i64>)
    ensures
        r == nonzero(n),
{
    match n {
        Some(x) => if x == 0 {
            None
        } else {
            Some(x)
        },
        None => None,
    }
}

impl EpisodeRow {
    /// A row as read from the store's columns: empty texts and zero numbers become `None`.
    pub fn from_stored(
        id: i64,
        happened_at: String,
        summary: String,
        detail: Option<String>,
        tags: Option<String>,
        repo: Option<String>,
        sentiment: Option<String>,
        pr_number: Option<i64>,
        issue_number: Option<i64>,
    ) -> (r: EpisodeRow)
        ensures
            r.id == id,
            r.happened_at@ == happened_at@,
            r.summary@ == summary@,
            opt_seq(r.detail) == nonempty(opt_seq(detail)),
            opt_seq(r.tags) == nonempty(opt_seq(tags)),
            opt_seq(r.repo) == nonempty(opt_seq(repo)),
            opt_seq(r.sentiment) == nonempty(opt_seq(sentiment)),
            r.pr_number == nonzero(pr_number),
            r.issue_number == nonzero(issue_number),
    {
        EpisodeRow {
            id,
            happened_at,
            summary,
            detail: nonempty_exec(detail),
            tags: nonempty_exec(tags),
            repo: nonempty_exec(repo),
            sentiment: nonempty_exec(sentiment),
            pr_number: nonzero_exec(pr_number),
            issue_number: nonzero_exec(issue_number),
        }
    }
}

/// The sentiments an episode may carry.
pub open spec fn sentiments() -> Seq<Seq<char>> {
    seq!["win"@, "loss"@, "neutral"@, "frustrating"@, "uncertain"@]
}

/// The sentiment stored for a logged episode: the one given when it names a sentiment in
/// any ASCII case (kept as written), else `neutral`.
pub open spec fn stored_sentiment(s: Option<Seq<char>>) -> Seq<char> {
    match s {
        Some(x) => if exists|i: int| 0 <= i < 5 && text::eq_ignore_ascii_case(#[trigger] sentiments()[i], x) {
            x
        } else {
            "neutral"@
        },
        None => "neutral"@,
    }
}

pub fn stored_sentiment_exec(s: Option<&str>) -> (r: String)
    ensures
        r@ == stored_sentiment(crate::github::opt_view(s)),
{
    match s {
        Some(x) => {
            let v = text::chars_of(x);
            let all = [text::lit("win"), text::lit("loss"), text::lit("neutral"), text::lit("frustrating"), text::lit("uncertain")];
            let mut i: usize = 0;
            while i < 5
                invariant
                    i <= 5,
                    v@ == x@,
                    crate::github::opt_view(s) == Some(x@),
                    all@.len() == 5,
                    forall|k: int| 0 <= k < 5 ==> #[trigger] all@[k]@ == sentiments()[k],
                    forall|k: int| 0 <= k < i ==> !text::eq_ignore_ascii_case(#[trigger] sentiments()[k], x@),
                decreases 5 - i,
            {
                if text::eq_ignore_ascii_case_exec(&all[i], &v) {
                    assert(text::eq_ignore_ascii_case(sentiments()[i as int], x@));
                    return String::from_str(x);
                }
                i = i + 1;
            }
            String::from_str("neutral")
        },
        None => String::from_str("neutral"),
    }
}

/// The query behind a listing of episodes.
pub enum EpisodeQuery {
    /// Newest first, optionally only those of one repo.
    Recent { repo: Option<String>, limit: u64 },
    /// Newest first among those whose summary, detail or tags contain `pattern`'s middle
    /// (a SQL `LIKE` pattern `%text%`).
    Search { pattern: String, limit: u64 },
}

/// `episode_recent`: an empty repo filter is no filter; at most 100 rows.
pub fn episode_recent(repo_filter: Option<&str>, limit: u64) -> (r: EpisodeQuery)
    ensures
        r matches EpisodeQuery::Recent { repo, limit: l } && opt_seq(repo) == nonempty(
            crate::github::opt_view(repo_filter),
        ) && l == crate::memory::min_nat(limit as nat, 100),
{
    let repo = match repo_filter {
        Some(s) => if s.is_empty() {
            None
        } else {
            Some(String::from_str(s))
        },
        None => None,
    };
    let l = if limit < 100 {
        limit
    } else {
        100
    };
    EpisodeQuery::Recent { repo, limit: l }
}

/// `episode_search`: a blank query lists the recent ones (at most 100); otherwise the
/// trimmed query is searched for, at most 50 rows.
pub fn episode_search(query: &str, limit: u64) -> (r: EpisodeQuery)
    ensures
        text::trim(query@).len() == 0 ==> (r matches EpisodeQuery::Recent { repo, limit: l } && repo
            is None && l == crate::memory::min_nat(limit as nat, 100)),
        text::trim(query@).len() > 0 ==> (r matches EpisodeQuery::Search { pattern, limit: l }
            && pattern@ == seq!['%'] + text::trim(query@) + seq!['%'] && l == crate::memory::min_nat(
            limit as nat,
            50,
        )),
{
    let t = text::trim_str(query);
    if t.len() == 0 {
        return episode_recent(None, limit);
    }
    let mut p: Vec<char> = Vec::new();
    p.push('%');
    text::push_vec(&mut p, &t);
    p.push('%');
    assert(p@ =~= seq!['%'] + t@ + seq!['%']);
    let l = if limit < 50 {
        limit
    } else {
        50
    };
    EpisodeQuery::Search { pattern: text::string_of(&p), limit: l }
}

/// An episode tool request.
pub enum EpisodeRequest {
    Log {
        summary: String,
        detail: Option<String>,
        tags: Option<String>,
        repo: Option<String>,
        sentiment: Option<String>,
        pr_number: Option<i64>,
        issue_number: Option<i64>,
    },
    Recent { repo: Option<String>, limit: u64 },
    Search { query: String, limit: u64 },
}

/// The number under `limit`, or `default`.
pub open spec fn limit_or(input: JsonValue, default: u64) -> u64 {
    match json::as_u64(json::get(input, "limit"@)) {
        Some(n) => n,
        None => default,
    }
}

/// Whether `r` is the request that `input` asks for.
pub open spec fn episode_request_ok(input: JsonValue, r: EpisodeRequest) -> bool {
    episode_request_ok_with(input, crate::task::action_of(input), r)
}

/// The same, given the input's lower-cased, trimmed action.
pub open spec fn episode_request_ok_with(input: JsonValue, action: Option<Seq<char>>, r: EpisodeRequest) -> bool {
    let a = action->0;
    match r {
        EpisodeRequest::Log { summary, detail, tags, repo, sentiment, pr_number, issue_number } => {
            &&& a == "log"@
            &&& (json::str_field(input, "summary"@) matches Some(s) && summary@ == text::trim(s))
            &&& summary@.len() > 0
            &&& opt_seq(detail) == crate::gh::opt_trimmed(input, "detail"@)
            &&& opt_seq(tags) == crate::gh::opt_trimmed(input, "tags"@)
            &&& opt_seq(repo) == crate::gh::opt_trimmed(input, "repo"@)
            &&& opt_seq(sentiment) == crate::gh::opt_trimmed(input, "sentiment"@)
            &&& pr_number == json::as_i64(json::get(input, "pr_number"@))
            &&& issue_number == json::as_i64(json::get(input, "issue_number"@))
        },
        EpisodeRequest::Recent { repo, limit } => {
            &&& a == "recent"@
            &&& opt_seq(repo) == crate::gh::opt_trimmed(input, "repo"@)
            &&& limit == limit_or(input, 5)
        },
        EpisodeRequest::Search { query, limit } => {
            &&& a == "search"@
            &&& query@ == match json::str_field(input, "query"@) {
                Some(q) => text::trim(q),
                None => Seq::empty(),
            }
            &&& limit == limit_or(input, 10)
        },
    }
}

/// Whether `input` names an episode request that can be carried out.
pub open spec fn episode_request_valid(input: JsonValue) -> bool {
    episode_request_valid_with(input, crate::task::action_of(input))
}

/// The same, given the input's lower-cased, trimmed action.
pub open spec fn episode_request_valid_with(input: JsonValue, action: Option<Seq<char>>) -> bool {
    match action {
        None => false,
        Some(a) => if a == "log"@ {
            json::str_field(input, "summary"@) matches Some(s) && text::trim(s).len() > 0
        } else {
            a == "recent"@ || a == "search"@
        },
    }
}

/// The error for an input that names no valid episode request.
pub open spec fn episode_request_err(input: JsonValue) -> Seq<char> {
    episode_request_err_with(input, crate::task::action_of(input))
}

/// The same, given the input's lower-cased, trimmed action.
pub open spec fn episode_request_err_with(input: JsonValue, action: Option<Seq<char>>) -> Seq<char> {
    match action {
        None => "missing action"@,
        Some(a) => if a == "log"@ {
            match json::str_field(input, "summary"@) {
                None => "log requires summary"@,
                Some(_) => "summary is empty"@,
            }
        } else {
            "action must be log, recent, or search"@
        },
    }
}

fn limit_exec(input: &JsonValue, default: u64) -> (r: u64)
    ensures
        r == limit_or(*input, default),
{
    match input.u64_field("limit") {
        Some(n) => n,
        None => default,
    }
}

/// `"[{id}] {a} | {b} | ..."`: the id in brackets, then the parts joined by ` | `.
pub open spec fn episode_line(id: i64, parts: Seq<Seq<char>>) -> Seq<char> {
    seq!['['] + text::decimal_i(id as int) + "] "@ + text::join(parts, " | "@)
}

/// An optional column as shown in a listing: its text, or `—`.
pub open spec fn or_dash(s: Option<String>) -> Seq<char> {
    match s {
        Some(x) => x@,
        None => "—"@,
    }
}

pub open spec fn recent_line(r: EpisodeRow) -> Seq<char> {
    episode_line(r.id, seq![r.happened_at@, or_dash(r.sentiment), or_dash(r.repo), r.summary@])
}

pub open spec fn search_line(r: EpisodeRow) -> Seq<char> {
    episode_line(
        r.id,
        seq![
            or_dash(r.sentiment),
            r.summary@,
            match r.detail {
                Some(d) => d@,
                None => Seq::empty(),
            },
        ],
    )
}

fn or_dash_exec(s: &Option<String>) -> (r: Vec<char>)
    ensures
        r@ == or_dash(*s),
{
    match s {
        Some(x) => text::chars_of(x.as_str()),
        None => text::lit("—"),
    }
}

fn line_exec(id: i64, parts: &Vec<Vec<char>>) -> (r: Vec<char>)
    ensures
        r@ == episode_line(id, parts@.map_values(|p: Vec<char>| p@)),
{
    let mut v: Vec<char> = Vec::new();
    v.push('[');
    text::push_decimal_i64(&mut v, id);
    text::push_str(&mut v, "] ");
    let j = text::join_exec(parts, &text::lit(" | "));
    text::push_vec(&mut v, &j);
    assert(v@ =~= episode_line(id, parts@.map_values(|p: Vec<char>| p@)));
    v
}

fn recent_line_exec(r: &EpisodeRow) -> (v: Vec<char>)
    ensures
        v@ == recent_line(*r),
{
    let mut parts: Vec<Vec<char>> = Vec::new();
    parts.push(text::chars_of(r.happened_at.as_str()));
    parts.push(or_dash_exec(&r.sentiment));
    parts.push(or_dash_exec(&r.repo));
    parts.push(text::chars_of(r.summary.as_str()));
    assert(parts@.map_values(|p: Vec<char>| p@) =~= seq![
        r.happened_at@,
        or_dash(r.sentiment),
        or_dash(r.repo),
        r.summary@,
    ]);
    line_exec(r.id, &parts)
}

fn search_line_exec(r: &EpisodeRow) -> (v: Vec<char>)
    ensures
        v@ == search_line(*r),
{
    let mut parts: Vec<Vec<char>> = Vec::new();
    parts.push(or_dash_exec(&r.sentiment));
    parts.push(text::chars_of(r.summary.as_str()));
    let d = match &r.detail {
        Some(d) => text::chars_of(d.as_str()),
        None => Vec::new(),
    };
    parts.push(d);
    assert(parts@.map_values(|p: Vec<char>| p@) =~= seq![
        or_dash(r.sentiment),
        r.summary@,
        match r.detail {
            Some(d) => d@,
            None => Seq::empty(),
        },
    ]);
    line_exec(r.id, &parts)
}

/// Logs events to episodic memory and searches past ones.
pub struct EpisodeTool;

impl EpisodeTool {
    /// Decodes an episode tool input.
    pub fn request(input: &JsonValue) -> (r: Result<EpisodeRequest, String>)
        ensures
            match r {
                Ok(req) => episode_request_ok(*input, req),
                Err(e) => e@ == episode_request_err(*input),
            },
            r is Ok <==> episode_request_valid(*input),
    {
        match crate::task::action_exec(input) {
            Some(a) => Self::request_with_action(input, Some(text::string_of(&a).as_str())),
            None => Self::request_with_action(input, None),
        }
    }

    /// Decodes an episode tool input whose action, lower-cased and trimmed, is `action`.
    pub fn request_with_action(input: &JsonValue, action: Option<&str>) -> (r: Result<EpisodeRequest, String>)
        ensures
            match r {
                Ok(req) => episode_request_ok_with(*input, crate::github::opt_view(action), req),
                Err(e) => e@ == episode_request_err_with(*input, crate::github::opt_view(action)),
            },
            r is Ok <==> episode_request_valid_with(*input, crate::github::opt_view(action)),
    {
        let a = match action {
            Some(a) => text::chars_of(a),
            None => return Err(String::from_str("missing action")),
        };
        if text::is_lit(&a, "log") {
            let s = match input.str_field("summary") {
                Some(s) => s,
                None => return Err(String::from_str("log requires summary")),
            };
            let summary = text::trim_str(s.as_str());
            if summary.len() == 0 {
                return Err(String::from_str("summary is empty"));
            }
            return Ok(
                EpisodeRequest::Log {
                    summary: text::string_of(&summary),
                    detail: crate::gh::opt_trimmed_exec(input, "detail"),
                    tags: crate::gh::opt_trimmed_exec(input, "tags"),
                    repo: crate::gh::opt_trimmed_exec(input, "repo"),
                    sentiment: crate::gh::opt_trimmed_exec(input, "sentiment"),
                    pr_number: input.i64_field("pr_number"),
                    issue_number: input.i64_field("issue_number"),
                },
            );
        }
        if text::is_lit(&a, "recent") {
            return Ok(
                EpisodeRequest::Recent {
                    repo: crate::gh::opt_trimmed_exec(input, "repo"),
                    limit: limit_exec(input, 5),
                },
            );
        }
        if text::is_lit(&a, "search") {
            let q = match input.str_field("query") {
                Some(q) => text::string_of(&text::trim_str(q.as_str())),
                None => String::new(),
            };
            return Ok(EpisodeRequest::Search { query: q, limit: limit_exec(input, 10) });
        }
        Err(String::from_str("action must be log, recent, or search"))
    }

    /// `Logged episode {id}: {summary}`
    pub fn logged(id: i64, summary: &str) -> (r: String)
        ensures
            r@ == "Logged episode "@ + text::decimal_i(id as int) + ": "@ + summary@,
    {
        let mut v = text::lit("Logged episode ");
        text::push_decimal_i64(&mut v, id);
        text::push_str(&mut v, ": ");
        text::push_str(&mut v, summary);
        text::string_of(&v)
    }

    /// The reply to `recent`: one line per row, or `No recent episodes.`
    pub fn recent_reply(rows: &Vec<EpisodeRow>) -> (r: String)
        ensures
            r@ == if rows@.len() == 0 {
                "No recent episodes."@
            } else {
                text::join(rows@.map_values(|x: EpisodeRow| recent_line(x)), seq!['\n'])
            },
    {
        if rows.len() == 0 {
            return String::from_str("No recent episodes.");
        }
        let mut lines: Vec<Vec<char>> = Vec::new();
        let mut i: usize = 0;
        while i < rows.len()
            invariant
                i <= rows.len(),
                lines@.len() == i,
                forall|k: int| 0 <= k < i ==> #[trigger] lines@[k]@ == recent_line(rows@[k]),
            decreases rows.len() - i,
        {
            lines.push(recent_line_exec(&rows[i]));
            i = i + 1;
        }
        let nl = vec!['\n'];
        assert(nl@ =~= seq!['\n']);
        let j = text::join_exec(&lines, &nl);
        assert(lines@.map_values(|p: Vec<char>| p@) =~= rows@.map_values(|x: EpisodeRow| recent_line(x)));
        text::string_of(&j)
    }

    /// The reply to `search`: one line per row, or `No matching episodes.`
    pub fn search_reply(rows: &Vec<EpisodeRow>) -> (r: String)
        ensures
            r@ == if rows@.len() == 0 {
                "No matching episodes."@
            } else {
                text::join(rows@.map_values(|x: EpisodeRow| search_line(x)), seq!['\n'])
            },
    {
        if rows.len() == 0 {
            return String::from_str("No matching episodes.");
        }
        let mut lines: Vec<Vec<char>> = Vec::new();
        let mut i: usize = 0;
        while i < rows.len()
            invariant
                i <= rows.len(),
                lines@.len() == i,
                forall|k: int| 0 <= k < i ==> #[trigger] lines@[k]@ == search_line(rows@[k]),
            decreases rows.len() - i,
        {
            lines.push(search_line_exec(&rows[i]));
            i = i + 1;
        }
        let nl = vec!['\n'];
        assert(nl@ =~= seq!['\n']);
        let j = text::join_exec(&lines, &nl);
        assert(lines@.map_values(|p: Vec<char>| p@) =~= rows@.map_values(|x: EpisodeRow| search_line(x)));
        text::string_of(&j)
    }
}

} // verus!
