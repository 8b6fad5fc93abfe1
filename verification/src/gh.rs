//! GitHub workflow tools run through the `gh` CLI: the arguments each tool passes,
//! and the reports made of `gh`'s output. Running `gh` is left to the caller.
use vstd::prelude::*;
use crate::text;
use crate::json::{self, JsonValue};

verus! {

/// Lists issues of an allowlisted repo.
pub struct GhListIssuesTool;

/// Creates and checks out a branch.
pub struct GhCreateBranchTool;

/// Opens a pull request from the current branch.
pub struct GhCreatePrTool;

/// Reports the CI checks of a pull request.
pub struct GhPrChecksTool;

/// Shows an issue with its comments.
pub struct GhGetIssueTool;

/// Lists the open pull requests of an allowlisted repo.
pub struct GhListMyPrsTool;

/// Comments on a pull request.
pub struct GhPrCommentTool;

/// `gh`'s output as reported: stdout and stderr, joined by a newline when both are present.
pub open spec fn combined_output(stdout: Seq<char>, stderr: Seq<char>) -> Seq<char> {
    if stderr.len() == 0 {
        stdout
    } else if stdout.len() == 0 {
        stderr
    } else {
        stdout + seq!['\n'] + stderr
    }
}

pub fn combine_output(stdout: &str, stderr: &str) -> (r: String)
    ensures
        r@ == combined_output(stdout@, stderr@),
{
    let o = text::chars_of(stdout);
    let e = text::chars_of(stderr);
    if e.len() == 0 {
        return String::from_str(stdout);
    }
    if o.len() == 0 {
        return String::from_str(stderr);
    }
    let mut v = o;
    v.push('\n');
    text::push_vec(&mut v, &e);
    text::string_of(&v)
}

/// The allowlisted repo an input names (trimmed), or the error for the user.
pub open spec fn allowed_repo(list: Seq<Seq<char>>, input: JsonValue) -> Result<Seq<char>, Seq<char>> {
    match json::str_field(input, "repo"@) {
        None => Err("missing repo"@),
        Some(raw) => {
            let repo = text::trim(raw);
            if crate::github::allowlisted(list, repo) {
                Ok(repo)
            } else {
                Err("repo "@ + repo + " is not in CHUMP_GITHUB_REPOS"@)
            }
        },
    }
}

fn allowed_repo_exec(list: &Vec<String>, input: &JsonValue) -> (r: Result<String, String>)
    ensures
        match r {
            Ok(s) => allowed_repo(crate::cli::names(list@), *input) == Ok::<Seq<char>, Seq<char>>(s@),
            Err(e) => allowed_repo(crate::cli::names(list@), *input) == Err::<Seq<char>, Seq<char>>(e@),
        },
{
    let raw = match input.str_field("repo") {
        Some(s) => s,
        None => return Err(String::from_str("missing repo")),
    };
    let t = text::trim_str(raw.as_str());
    let repo = text::string_of(&t);
    proof {
        crate::github::lemma_trim_idempotent(raw@);
    }
    if !crate::github::allowlist_contains(list, repo.as_str()) {
        let mut m = text::lit("repo ");
        text::push_vec(&mut m, &t);
        text::push_str(&mut m, " is not in CHUMP_GITHUB_REPOS");
        return Err(text::string_of(&m));
    }
    Ok(repo)
}

/// An optional string field, trimmed, absent when empty.
pub open spec fn opt_trimmed(input: JsonValue, key: Seq<char>) -> Option<Seq<char>> {
    crate::cli::trimmed_nonempty(json::str_field(input, key))
}

pub fn opt_trimmed_exec(input: &JsonValue, key: &str) -> (r: Option<String>)
    ensures
        crate::task::opt_seq(r) == opt_trimmed(*input, key@),
        match r {
            Some(s) => opt_trimmed(*input, key@) == Some(s@),
            None => opt_trimmed(*input, key@) is None,
        },
{
    match input.str_field(key) {
        Some(s) => {
            let t = text::trim_str(s.as_str());
            if t.len() > 0 {
                Some(text::string_of(&t))
            } else {
                None
            }
        },
        None => None,
    }
}

fn push_arg(v: &mut Vec<String>, s: &str)
    ensures
        crate::cli::names(final(v)@) == crate::cli::names(old(v)@).push(s@),
{
    v.push(String::from_str(s));
    assert(crate::cli::names(final(v)@) =~= crate::cli::names(old(v)@).push(s@));
}

/// Arguments of `gh issue list` for an input.
pub open spec fn list_issues_args(repo: Seq<char>, input: JsonValue) -> Seq<Seq<char>> {
    let state = match opt_trimmed(input, "state"@) {
        Some(s) => s,
        None => "open"@,
    };
    let base = seq![
        "issue"@,
        "list"@,
        "--repo"@,
        repo,
        "--state"@,
        state,
        "--json"@,
        "number,title,labels,url"@,
    ];
    match opt_trimmed(input, "label"@) {
        Some(l) => base + seq!["--label"@, l],
        None => base,
    }
}

impl GhListIssuesTool {
    pub fn args(list: &Vec<String>, input: &JsonValue) -> (r: Result<Vec<String>, String>)
        ensures
            match allowed_repo(crate::cli::names(list@), *input) {
                Err(e) => r matches Err(x) && x@ == e,
                Ok(repo) => r matches Ok(a) && crate::cli::names(a@) == list_issues_args(repo, *input),
            },
    {
        let repo = match allowed_repo_exec(list, input) {
            Ok(r) => r,
            Err(e) => return Err(e),
        };
        let state = match opt_trimmed_exec(input, "state") {
            Some(s) => s,
            None => String::from_str("open"),
        };
        let label = opt_trimmed_exec(input, "label");
        let mut a: Vec<String> = Vec::new();
        push_arg(&mut a, "issue");
        push_arg(&mut a, "list");
        push_arg(&mut a, "--repo");
        push_arg(&mut a, repo.as_str());
        push_arg(&mut a, "--state");
        push_arg(&mut a, state.as_str());
        push_arg(&mut a, "--json");
        push_arg(&mut a, "number,title,labels,url");
        match &label {
            Some(l) => {
                push_arg(&mut a, "--label");
                push_arg(&mut a, l.as_str());
            },
            None => {},
        }
        assert(crate::cli::names(a@) =~= list_issues_args(repo@, *input));
        Ok(a)
    }
}

/// `"#{number} {title} | {url}"` for one issue or pull request (0, `?` and "" when missing).
pub open spec fn summary_line(o: JsonValue) -> Seq<char> {
    let num = match json::as_u64(json::get(o, "number"@)) {
        Some(n) => n,
        None => 0,
    };
    "#"@ + text::decimal(num as nat) + " "@ + (match json::str_field(o, "title"@) {
        Some(t) => t,
        None => "?"@,
    }) + " | "@ + crate::memory::or_empty(json::str_field(o, "url"@))
}

/// One summary line per item, or `empty` when there are none.
pub open spec fn summary_lines(items: Seq<JsonValue>, empty: Seq<char>) -> Seq<char> {
    if items.len() == 0 {
        empty
    } else {
        text::join(items.map_values(|o: JsonValue| summary_line(o)), seq!['\n'])
    }
}

/// Report for a list of issues or pull requests as `gh` gave them.
pub fn summary_lines_exec(items: &Vec<JsonValue>, empty: &str) -> (r: String)
    ensures
        r@ == summary_lines(items@, empty@),
{
    if items.len() == 0 {
        return String::from_str(empty);
    }
    let mut lines: Vec<Vec<char>> = Vec::new();
    let mut i: usize = 0;
    while i < items.len()
        invariant
            i <= items.len(),
            lines@.len() == i,
            forall|k: int| 0 <= k < i ==> #[trigger] lines@[k]@ == summary_line(items@[k]),
        decreases items.len() - i,
    {
        let o = &items[i];
        let num = match o.u64_field("number") {
            Some(n) => n,
            None => 0,
        };
        let mut v = text::lit("#");
        text::push_decimal(&mut v, num);
        text::push_str(&mut v, " ");
        match o.str_field("title") {
            Some(t) => text::push_str(&mut v, t.as_str()),
            None => text::push_str(&mut v, "?"),
        }
        text::push_str(&mut v, " | ");
        match o.str_field("url") {
            Some(u) => text::push_str(&mut v, u.as_str()),
            None => {},
        }
        assert(v@ =~= summary_line(items@[i as int]));
        lines.push(v);
        i = i + 1;
    }
    let nl = vec!['\n'];
    assert(nl@ =~= seq!['\n']);
    let j = text::join_exec(&lines, &nl);
    assert(lines@.map_values(|p: Vec<char>| p@) =~= items@.map_values(|o: JsonValue| summary_line(o)));
    text::string_of(&j)
}

/// `"<what> failed: <output>"`
pub open spec fn failed(what: Seq<char>, out: Seq<char>) -> Seq<char> {
    what + " failed: "@ + out
}

pub fn failed_exec(what: &str, out: &str) -> (r: String)
    ensures
        r@ == failed(what@, out@),
{
    let mut v = text::chars_of(what);
    text::push_str(&mut v, " failed: ");
    text::push_str(&mut v, out);
    text::string_of(&v)
}

/// The branch an input names (trimmed), or the error for the user.
pub open spec fn branch_name(input: JsonValue) -> Result<Seq<char>, Seq<char>> {
    match json::str_field(input, "name"@) {
        None => Err("missing name"@),
        Some(n) => if text::trim(n).len() == 0 {
            Err("branch name is empty"@)
        } else {
            Ok(text::trim(n))
        },
    }
}

impl GhCreateBranchTool {
    /// Arguments of `git checkout -b <name>`, or the error for the user.
    pub fn args(input: &JsonValue) -> (r: Result<Vec<String>, String>)
        ensures
            match branch_name(*input) {
                Err(e) => r matches Err(x) && x@ == e,
                Ok(n) => r matches Ok(a) && crate::cli::names(a@) == seq!["checkout"@, "-b"@, n],
            },
    {
        let n = match input.str_field("name") {
            Some(n) => n,
            None => return Err(String::from_str("missing name")),
        };
        let t = text::trim_str(n.as_str());
        if t.len() == 0 {
            return Err(String::from_str("branch name is empty"));
        }
        let name = text::string_of(&t);
        let mut a: Vec<String> = Vec::new();
        push_arg(&mut a, "checkout");
        push_arg(&mut a, "-b");
        push_arg(&mut a, name.as_str());
        assert(crate::cli::names(a@) =~= seq!["checkout"@, "-b"@, t@]);
        Ok(a)
    }

    /// `Branch '<name>' created and checked out.`
    pub fn created(name: &str) -> (r: String)
        ensures
            r@ == "Branch '"@ + name@ + "' created and checked out."@,
    {
        let mut v = text::lit("Branch '");
        text::push_str(&mut v, name);
        text::push_str(&mut v, "' created and checked out.");
        text::string_of(&v)
    }
}

/// Arguments of `gh pr create`, or the error for the user.
pub open spec fn create_pr_args(input: JsonValue) -> Result<Seq<Seq<char>>, Seq<char>> {
    match json::str_field(input, "title"@) {
        None => Err("missing title"@),
        Some(title) => match json::str_field(input, "body"@) {
            None => Err("missing body"@),
            Some(body) => {
                let base = match opt_trimmed(input, "base"@) {
                    Some(b) => b,
                    None => "main"@,
                };
                Ok(
                    seq![
                        "pr"@,
                        "create"@,
                        "--title"@,
                        text::trim(title),
                        "--body"@,
                        body,
                        "--base"@,
                        base,
                    ],
                )
            },
        },
    }
}

impl GhCreatePrTool {
    pub fn args(input: &JsonValue) -> (r: Result<Vec<String>, String>)
        ensures
            match create_pr_args(*input) {
                Err(e) => r matches Err(x) && x@ == e,
                Ok(s) => r matches Ok(a) && crate::cli::names(a@) == s,
            },
    {
        let title = match input.str_field("title") {
            Some(t) => t,
            None => return Err(String::from_str("missing title")),
        };
        let body = match input.str_field("body") {
            Some(b) => b,
            None => return Err(String::from_str("missing body")),
        };
        let base = match opt_trimmed_exec(input, "base") {
            Some(b) => b,
            None => String::from_str("main"),
        };
        let t = text::string_of(&text::trim_str(title.as_str()));
        let mut a: Vec<String> = Vec::new();
        push_arg(&mut a, "pr");
        push_arg(&mut a, "create");
        push_arg(&mut a, "--title");
        push_arg(&mut a, t.as_str());
        push_arg(&mut a, "--body");
        push_arg(&mut a, body.as_str());
        push_arg(&mut a, "--base");
        push_arg(&mut a, base.as_str());
        assert(crate::cli::names(a@) =~= create_pr_args(*input)->Ok_0);
        Ok(a)
    }
}

/// The decimal text of a number, as an argument.
fn number_arg(n: u64) -> (r: String)
    ensures
        r@ == text::decimal(n as nat),
{
    text::string_of(&text::decimal_vec(n))
}

impl GhPrChecksTool {
    /// Arguments of `gh pr checks <n>`, or the error for the user.
    pub fn args(input: &JsonValue) -> (r: Result<Vec<String>, String>)
        ensures
            match json::as_u64(json::get(*input, "pr_number"@)) {
                None => r matches Err(x) && x@ == "missing pr_number"@,
                Some(n) => r matches Ok(a) && crate::cli::names(a@) == seq!["pr"@, "checks"@, text::decimal(n as nat)],
            },
    {
        let n = match input.u64_field("pr_number") {
            Some(n) => n,
            None => return Err(String::from_str("missing pr_number")),
        };
        let num = number_arg(n);
        let mut a: Vec<String> = Vec::new();
        push_arg(&mut a, "pr");
        push_arg(&mut a, "checks");
        push_arg(&mut a, num.as_str());
        assert(crate::cli::names(a@) =~= seq!["pr"@, "checks"@, text::decimal(n as nat)]);
        Ok(a)
    }
}

impl GhPrCommentTool {
    /// Arguments of `gh pr comment <n> --body <body>`, or the error for the user.
    pub fn args(input: &JsonValue) -> (r: Result<Vec<String>, String>)
        ensures
            match json::as_u64(json::get(*input, "pr_number"@)) {
                None => r matches Err(x) && x@ == "missing pr_number"@,
                Some(n) => match json::str_field(*input, "body"@) {
                    None => r matches Err(x) && x@ == "missing body"@,
                    Some(b) => r matches Ok(a) && crate::cli::names(a@) == seq![
                        "pr"@,
                        "comment"@,
                        text::decimal(n as nat),
                        "--body"@,
                        b,
                    ],
                },
            },
    {
        let n = match input.u64_field("pr_number") {
            Some(n) => n,
            None => return Err(String::from_str("missing pr_number")),
        };
        let body = match input.str_field("body") {
            Some(b) => b,
            None => return Err(String::from_str("missing body")),
        };
        let num = number_arg(n);
        let mut a: Vec<String> = Vec::new();
        push_arg(&mut a, "pr");
        push_arg(&mut a, "comment");
        push_arg(&mut a, num.as_str());
        push_arg(&mut a, "--body");
        push_arg(&mut a, body.as_str());
        assert(crate::cli::names(a@) =~= seq!["pr"@, "comment"@, text::decimal(n as nat), "--body"@, body@]);
        Ok(a)
    }
}

impl GhListMyPrsTool {
    /// Arguments of `gh pr list` for the open PRs of an allowlisted repo.
    pub fn args(list: &Vec<String>, input: &JsonValue) -> (r: Result<Vec<String>, String>)
        ensures
            match allowed_repo(crate::cli::names(list@), *input) {
                Err(e) => r matches Err(x) && x@ == e,
                Ok(repo) => r matches Ok(a) && crate::cli::names(a@) == seq![
                    "pr"@,
                    "list"@,
                    "--repo"@,
                    repo,
                    "--state"@,
                    "open"@,
                    "--json"@,
                    "number,title,url"@,
                ],
            },
    {
        let repo = match allowed_repo_exec(list, input) {
            Ok(r) => r,
            Err(e) => return Err(e),
        };
        let mut a: Vec<String> = Vec::new();
        push_arg(&mut a, "pr");
        push_arg(&mut a, "list");
        push_arg(&mut a, "--repo");
        push_arg(&mut a, repo.as_str());
        push_arg(&mut a, "--state");
        push_arg(&mut a, "open");
        push_arg(&mut a, "--json");
        push_arg(&mut a, "number,title,url");
        assert(crate::cli::names(a@) =~= seq![
            "pr"@,
            "list"@,
            "--repo"@,
            repo@,
            "--state"@,
            "open"@,
            "--json"@,
            "number,title,url"@,
        ]);
        Ok(a)
    }
}

impl GhGetIssueTool {
    /// Arguments of `gh issue view`, or the error for the user.
    pub fn args(list: &Vec<String>, input: &JsonValue) -> (r: Result<Vec<String>, String>)
        ensures
            match allowed_repo(crate::cli::names(list@), *input) {
                Err(e) => r matches Err(x) && x@ == e,
                Ok(repo) => match json::as_u64(json::get(*input, "number"@)) {
                    None => r matches Err(x) && x@ == "missing number"@,
                    Some(n) => r matches Ok(a) && crate::cli::names(a@) == seq![
                        "issue"@,
                        "view"@,
                        text::decimal(n as nat),
                        "--repo"@,
                        repo,
                        "--json"@,
                        "title,body,comments"@,
                    ],
                },
            },
    {
        let repo = match allowed_repo_exec(list, input) {
            Ok(r) => r,
            Err(e) => return Err(e),
        };
        let n = match input.u64_field("number") {
            Some(n) => n,
            None => return Err(String::from_str("missing number")),
        };
        let num = number_arg(n);
        let mut a: Vec<String> = Vec::new();
        push_arg(&mut a, "issue");
        push_arg(&mut a, "view");
        push_arg(&mut a, num.as_str());
        push_arg(&mut a, "--repo");
        push_arg(&mut a, repo.as_str());
        push_arg(&mut a, "--json");
        push_arg(&mut a, "title,body,comments");
        assert(crate::cli::names(a@) =~= seq![
            "issue"@,
            "view"@,
            text::decimal(n as nat),
            "--repo"@,
            repo@,
            "--json"@,
            "title,body,comments"@,
        ]);
        Ok(a)
    }
}

/// `"- {author}: {body}\n"` for one comment (newlines in the body become spaces).
pub open spec fn comment_line(c: JsonValue) -> Seq<char> {
    let author = match json::get(c, "author"@) {
        Some(a) => match json::str_field(a, "login"@) {
            Some(l) => l,
            None => "?"@,
        },
        None => "?"@,
    };
    "- "@ + author + ": "@ + text::replace_char(
        crate::memory::or_empty(json::str_field(c, "body"@)),
        '\n',
        seq![' '],
    ) + seq!['\n']
}

/// The comments of an issue view (an array under `comments`, else none).
pub open spec fn issue_comments(obj: JsonValue) -> Seq<JsonValue> {
    match json::get(obj, "comments"@) {
        Some(JsonValue::Array(items)) => items@,
        _ => Seq::empty(),
    }
}

pub open spec fn concat_all(parts: Seq<Seq<char>>) -> Seq<char>
    decreases parts.len(),
{
    if parts.len() == 0 {
        Seq::empty()
    } else {
        concat_all(parts.drop_last()) + parts.last()
    }
}

/// The report of an issue: title, body and comments, trimmed.
pub open spec fn issue_report(obj: JsonValue) -> Seq<char> {
    let title = match json::str_field(obj, "title"@) {
        Some(t) => t,
        None => "?"@,
    };
    let body = crate::memory::or_empty(json::str_field(obj, "body"@));
    let head = "Title: "@ + title + "\n\nBody:\n"@ + body + seq!['\n'];
    let cs = issue_comments(obj);
    let all = if cs.len() > 0 {
        head + "\nComments:\n"@ + concat_all(cs.map_values(|c: JsonValue| comment_line(c)))
    } else {
        head
    };
    text::trim(all)
}

fn comment_line_exec(c: &JsonValue) -> (r: Vec<char>)
    ensures
        r@ == comment_line(*c),
{
    let mut v = text::lit("- ");
    match c.get("author") {
        Some(a) => match a.str_field("login") {
            Some(l) => text::push_str(&mut v, l.as_str()),
            None => text::push_str(&mut v, "?"),
        },
        None => text::push_str(&mut v, "?"),
    }
    text::push_str(&mut v, ": ");
    let body = match c.str_field("body") {
        Some(b) => text::chars_of(b.as_str()),
        None => Vec::new(),
    };
    let sp = vec![' '];
    assert(sp@ =~= seq![' ']);
    let b2 = text::replace_char_exec(&body, '\n', &sp);
    text::push_vec(&mut v, &b2);
    v.push('\n');
    assert(v@ =~= comment_line(*c));
    v
}

impl GhGetIssueTool {
    /// The report of an issue view as `gh` gave it (an empty object when unreadable).
    pub fn report(obj: &JsonValue) -> (r: String)
        ensures
            r@ == issue_report(*obj),
    {
        let mut v = text::lit("Title: ");
        match obj.str_field("title") {
            Some(t) => text::push_str(&mut v, t.as_str()),
            None => text::push_str(&mut v, "?"),
        }
        text::push_str(&mut v, "\n\nBody:\n");
        match obj.str_field("body") {
            Some(b) => text::push_str(&mut v, b.as_str()),
            None => {},
        }
        v.push('\n');
        let ghost head = v@;
        assert(head =~= "Title: "@ + (match json::str_field(*obj, "title"@) {
            Some(t) => t,
            None => "?"@,
        }) + "\n\nBody:\n"@ + crate::memory::or_empty(json::str_field(*obj, "body"@)) + seq!['\n']);
        let ghost cs = issue_comments(*obj);
        match obj.get("comments") {
            Some(JsonValue::Array(items)) => {
                if items.len() > 0 {
                    text::push_str(&mut v, "\nComments:\n");
                    let ghost mid = v@;
                    let ghost lines = items@.map_values(|c: JsonValue| comment_line(c));
                    let mut i: usize = 0;
                    while i < items.len()
                        invariant
                            i <= items.len(),
                            lines == items@.map_values(|c: JsonValue| comment_line(c)),
                            v@ == mid + concat_all(lines.take(i as int)),
                        decreases items.len() - i,
                    {
                        assert(lines.take(i + 1).drop_last() =~= lines.take(i as int));
                        let line = comment_line_exec(&items[i]);
                        text::push_vec(&mut v, &line);
                        assert(v@ =~= mid + concat_all(lines.take(i + 1)));
                        i = i + 1;
                    }
                    assert(lines.take(items@.len() as int) =~= lines);
                    assert(cs == items@);
                } else {
                    assert(cs.len() == 0);
                }
            },
            _ => {
                assert(cs.len() == 0);
            },
        }
        assert(v@ == if cs.len() > 0 {
            head + "\nComments:\n"@ + concat_all(cs.map_values(|c: JsonValue| comment_line(c)))
        } else {
            head
        });
        let t = text::trim_vec(&v);
        text::string_of(&t)
    }
}

} // verus!
