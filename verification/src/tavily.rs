//! Web search through the Tavily API: when the tool is enabled, which search a tool
//! input asks for, and the reply made of the API's answer and sources. The HTTP call is
//! left to the caller.
use vstd::prelude::*;
use crate::text;
use crate::json::{self, JsonValue};
use crate::task::opt_seq;

verus! {

/// A `TAVILY_API_KEY` value turns the tool on when it is not blank.
pub open spec fn key_present(key: Option<Seq<char>>) -> bool {
    key matches Some(k) && text::trim(k).len() > 0
}

/// Whether web search is enabled, given the value of `TAVILY_API_KEY`.
pub fn tavily_enabled(key: Option<&str>) -> (r: bool)
    ensures
        r == key_present(crate::github::opt_view(key)),
{
    match key {
        Some(k) => text::trim_str(k).len() > 0,
        None => false,
    }
}

/// Why no search can be made with the configured key.
pub enum KeyProblem {
    /// `TAVILY_API_KEY` is not set: the tool fails.
    NotSet,
    /// It is set but blank: the tool answers with a short error text.
    Empty,
}

impl KeyProblem {
    pub open spec fn message(self) -> Seq<char> {
        match self {
            KeyProblem::NotSet => "TAVILY_API_KEY is not set"@,
            KeyProblem::Empty => "Error: TAVILY_API_KEY is empty."@,
        }
    }

    pub fn message_exec(&self) -> (r: String)
        ensures
            r@ == self.message(),
    {
        match self {
            KeyProblem::NotSet => String::from_str("TAVILY_API_KEY is not set"),
            KeyProblem::Empty => String::from_str("Error: TAVILY_API_KEY is empty."),
        }
    }
}

/// One of the values a string option may take, as `match` on the exact string picks it.
pub open spec fn pick(v: Option<Seq<char>>, allowed: Seq<Seq<char>>, default: Seq<char>) -> Seq<char> {
    match v {
        Some(s) => if allowed.contains(s) {
            s
        } else {
            default
        },
        None => default,
    }
}

pub open spec fn depths() -> Seq<Seq<char>> {
    seq!["advanced"@, "fast"@, "ultra-fast"@]
}

pub open spec fn topics() -> Seq<Seq<char>> {
    seq!["news"@, "finance"@]
}

/// `max_results`: the number given, clamped to 1..=20; 5 when there is none.
pub open spec fn max_results(input: JsonValue) -> u32 {
    match json::as_u64(json::get(input, "max_results"@)) {
        Some(n) => if n < 1 {
            1
        } else if n > 20 {
            20
        } else {
            n as u32
        },
        None => 5,
    }
}

/// A search the tool is asked to make.
pub struct TavilySearch {
    pub query: String,
    pub search_depth: String,
    pub topic: String,
    pub max_results: u32,
}

/// The trimmed query (empty when there is none).
pub open spec fn query_of(input: JsonValue) -> Seq<char> {
    match json::str_field(input, "query"@) {
        Some(q) => text::trim(q),
        None => Seq::empty(),
    }
}

fn pick_exec(input: &JsonValue, key: &str, allowed: &Vec<Vec<char>>, default: &str) -> (r: String)
    ensures
        r@ == pick(json::str_field(*input, key@), allowed@.map_values(|a: Vec<char>| a@), default@),
{
    let ghost al = allowed@.map_values(|a: Vec<char>| a@);
    match input.str_field(key) {
        Some(s) => {
            let v = text::chars_of(s.as_str());
            let mut i: usize = 0;
            while i < allowed.len()
                invariant
                    i <= allowed.len(),
                    v@ == s@,
                    al == allowed@.map_values(|a: Vec<char>| a@),
                    json::str_field(*input, key@) == Some(s@),
                    forall|k: int| 0 <= k < i ==> al[k] != s@,
                decreases allowed.len() - i,
            {
                if crate::cli::vec_eq(&allowed[i], &v) {
                    assert(al[i as int] == s@);
                    return s;
                }
                i = i + 1;
            }
            proof {
                if al.contains(s@) {
                    let k = choose|k: int| 0 <= k < al.len() && al[k] == s@;
                    assert(k < i);
                }
            }
            String::from_str(default)
        },
        None => String::from_str(default),
    }
}

/// Searches the web for current information.
pub struct TavilyTool;

impl TavilyTool {
    /// The search a tool input asks for; `Err` holds the reply when the query is blank.
    pub fn request(input: &JsonValue) -> (r: Result<TavilySearch, String>)
        ensures
            query_of(*input).len() == 0 ==> (r matches Err(m) && m@ == "Error: query is required."@),
            query_of(*input).len() > 0 ==> (r matches Ok(s) && {
                &&& s.query@ == query_of(*input)
                &&& s.search_depth@ == pick(json::str_field(*input, "search_depth"@), depths(), "basic"@)
                &&& s.topic@ == pick(json::str_field(*input, "topic"@), topics(), "general"@)
                &&& s.max_results == max_results(*input)
            }),
    {
        let query = match input.str_field("query") {
            Some(q) => text::trim_str(q.as_str()),
            None => Vec::new(),
        };
        if query.len() == 0 {
            return Err(String::from_str("Error: query is required."));
        }
        let depths_v = vec![text::lit("advanced"), text::lit("fast"), text::lit("ultra-fast")];
        assert(depths_v@.map_values(|a: Vec<char>| a@) =~= depths());
        let topics_v = vec![text::lit("news"), text::lit("finance")];
        assert(topics_v@.map_values(|a: Vec<char>| a@) =~= topics());
        let search_depth = pick_exec(input, "search_depth", &depths_v, "basic");
        let topic = pick_exec(input, "topic", &topics_v, "general");
        let n: u32 = match input.u64_field("max_results") {
            Some(n) => if n < 1 {
                1
            } else if n > 20 {
                20
            } else {
                n as u32
            },
            None => 5,
        };
        Ok(TavilySearch { query: text::string_of(&query), search_depth, topic, max_results: n })
    }

    /// The key to send: the trimmed `TAVILY_API_KEY`, or why there is none.
    pub fn api_key(env: Option<&str>) -> (r: Result<String, KeyProblem>)
        ensures
            match env {
                None => r matches Err(KeyProblem::NotSet),
                Some(k) => if text::trim(k@).len() == 0 {
                    r matches Err(KeyProblem::Empty)
                } else {
                    r matches Ok(x) && x@ == text::trim(k@)
                },
            },
    {
        match env {
            None => Err(KeyProblem::NotSet),
            Some(k) => {
                let t = text::trim_str(k);
                if t.len() == 0 {
                    Err(KeyProblem::Empty)
                } else {
                    Ok(text::string_of(&t))
                }
            },
        }
    }

    /// `Tavily API error {status}: {body}` for an unsuccessful response.
    pub fn api_error(status: &str, body: &str) -> (r: String)
        ensures
            r@ == "Tavily API error "@ + status@ + ": "@ + body@,
    {
        let mut v = text::lit("Tavily API error ");
        text::push_str(&mut v, status);
        text::push_str(&mut v, ": ");
        text::push_str(&mut v, body);
        text::string_of(&v)
    }
}

/// One search result as the API returns it.
pub struct TavilyResult {
    pub title: Option<String>,
    pub url: Option<String>,
    pub content: Option<String>,
}

/// Number of characters of a result's content shown as its snippet.
pub const SNIPPET_CHARS: usize = 300;

pub open spec fn title_of(r: TavilyResult) -> Seq<char> {
    match r.title {
        Some(t) => t@,
        None => "(no title)"@,
    }
}

pub open spec fn url_of(r: TavilyResult) -> Seq<char> {
    match r.url {
        Some(u) => u@,
        None => Seq::empty(),
    }
}

pub open spec fn content_of(r: TavilyResult) -> Seq<char> {
    match r.content {
        Some(c) => c@,
        None => Seq::empty(),
    }
}

/// `"{i}. {title} | {url}"`
pub open spec fn source_head(i: nat, r: TavilyResult) -> Seq<char> {
    text::decimal(i) + ". "@ + title_of(r) + " | "@ + url_of(r)
}

/// The lines for result number `i` (from 1): title and URL, then an indented snippet of
/// the trimmed content with `…` when the content is longer than the snippet bound in bytes.
pub open spec fn source_lines(i: nat, r: TavilyResult) -> Seq<char> {
    let content = text::trim(content_of(r));
    let head = source_head(i, r);
    if content.len() > 0 {
        head + "\n   "@ + text::take_chars(content, 300) + (if text::byte_len(content) > 300 {
            "…"@
        } else {
            Seq::empty()
        }) + seq!['\n']
    } else {
        head + seq!['\n']
    }
}

/// All result lines, numbered from 1.
pub open spec fn sources(results: Seq<TavilyResult>) -> Seq<char>
    decreases results.len(),
{
    if results.len() == 0 {
        Seq::empty()
    } else {
        sources(results.drop_last()) + source_lines(results.len(), results.last())
    }
}

/// The reply made of a response: `Answer: ...` when there is an answer, `Sources:` and the
/// numbered results when there are any, or `No results for that query.`; trimmed.
pub open spec fn search_reply(answer: Option<Seq<char>>, results: Option<Seq<TavilyResult>>) -> Seq<char> {
    let out = answer_part(answer) + sources_part(results);
    if out.len() == 0 {
        "No results for that query."@
    } else {
        text::trim(out)
    }
}

pub open spec fn answer_part(answer: Option<Seq<char>>) -> Seq<char> {
    match answer {
        Some(x) => if x.len() > 0 {
            "Answer: "@ + x + "\n\n"@
        } else {
            Seq::empty()
        },
        None => Seq::empty(),
    }
}

pub open spec fn sources_part(results: Option<Seq<TavilyResult>>) -> Seq<char> {
    match results {
        Some(rs) => if rs.len() > 0 {
            "Sources:\n"@ + sources(rs)
        } else {
            Seq::empty()
        },
        None => Seq::empty(),
    }
}

fn source_lines_exec(i: u64, r: &TavilyResult) -> (v: Vec<char>)
    ensures
        v@ == source_lines(i as nat, *r),
{
    let mut v: Vec<char> = Vec::new();
    text::push_decimal(&mut v, i);
    text::push_str(&mut v, ". ");
    match &r.title {
        Some(t) => text::push_str(&mut v, t.as_str()),
        None => text::push_str(&mut v, "(no title)"),
    }
    text::push_str(&mut v, " | ");
    match &r.url {
        Some(u) => text::push_str(&mut v, u.as_str()),
        None => {},
    }
    let content = match &r.content {
        Some(c) => text::trim_str(c.as_str()),
        None => Vec::new(),
    };
    proof {
        let e: Seq<char> = Seq::empty();
        assert(text::trim(e) =~= e) by {
            reveal_with_fuel(text::trim_start, 1);
            reveal_with_fuel(text::trim_end, 1);
        }
    }
    if content.len() > 0 {
        text::push_str(&mut v, "\n   ");
        let snip = text::take_chars_exec(&content, SNIPPET_CHARS);
        text::push_vec(&mut v, &snip);
        if text::byte_len_exceeds(&content, SNIPPET_CHARS) {
            text::push_str(&mut v, "…");
        }
        v.push('\n');
    } else {
        v.push('\n');
    }
    proof {
        let head = source_head(i as nat, *r);
        if content@.len() > 0 {
            assert(v@ =~= head + "\n   "@ + text::take_chars(content@, 300) + (if text::byte_len(content@) > 300 {
                "…"@
            } else {
                Seq::empty()
            }) + seq!['\n']);
        } else {
            assert(v@ =~= head + seq!['\n']);
        }
    }
    v
}

/// The reply to a successful search.
pub fn search_reply_exec(answer: Option<&str>, results: Option<&Vec<TavilyResult>>) -> (r: String)
    ensures
        r@ == search_reply(
            crate::github::opt_view(answer),
            match results {
                Some(rs) => Some(rs@),
                None => None,
            },
        ),
{
    let mut out: Vec<char> = Vec::new();
    match answer {
        Some(a) => if !a.is_empty() {
            text::push_str(&mut out, "Answer: ");
            text::push_str(&mut out, a);
            text::push_str(&mut out, "\n\n");
        },
        None => {},
    }
    assert(out@ =~= answer_part(crate::github::opt_view(answer)));
    let ghost rv = match results {
        Some(rs) => Some(rs@),
        None => None,
    };
    match results {
        Some(rs) => if rs.len() > 0 {
            text::push_str(&mut out, "Sources:\n");
            let ghost base = out@;
            let mut i: usize = 0;
            while i < rs.len()
                invariant
                    i <= rs.len(),
                    out@ == base + sources(rs@.take(i as int)),
                decreases rs.len() - i,
            {
                let line = source_lines_exec((i + 1) as u64, &rs[i]);
                text::push_vec(&mut out, &line);
                proof {
                    let t = rs@.take(i + 1);
                    assert(t.drop_last() =~= rs@.take(i as int));
                    assert(t.last() == rs@[i as int]);
                }
                i = i + 1;
            }
            assert(rs@.take(rs@.len() as int) =~= rs@);
        },
        None => {},
    }
    assert(out@ =~= answer_part(crate::github::opt_view(answer)) + sources_part(rv));
    if out.len() == 0 {
        return String::from_str("No results for that query.");
    }
    let t = text::trim_vec(&out);
    text::string_of(&t)
}

} // verus!
