//! The persistent task queue: which rows a listing shows, and the task tool's
//! requests and replies. Reading and writing the SQLite table is left to the caller.
use vstd::prelude::*;
use crate::text;
use crate::json::{self, JsonValue};

verus! {

/// One task as stored.
pub struct TaskRow {
    pub id: i64,
    pub title: String,
    pub repo: Option<String>,
    pub issue_number: Option<i64>,
    pub status: String,
    pub notes: Option<String>,
    pub created_at: Option<String>,
    pub updated_at: Option<String>,
}

/// The task statuses.
pub open spec fn statuses() -> Seq<Seq<char>> {
    seq!["open"@, "in_progress"@, "blocked"@, "done"@, "abandoned"@]
}

/// The statuses a listing shows: the one asked for, when it is a status, else the
/// unfinished ones (open, blocked, in progress).
pub open spec fn listed_statuses(filter: Option<Seq<char>>) -> Seq<Seq<char>> {
    match filter {
        Some(f) => if statuses().contains(f) {
            seq![f]
        } else {
            seq!["open"@, "blocked"@, "in_progress"@]
        },
        None => seq!["open"@, "blocked"@, "in_progress"@],
    }
}

fn is_status(s: &Vec<char>) -> (r: bool)
    ensures
        r == statuses().contains(s@),
{
    let all = [text::lit("open"), text::lit("in_progress"), text::lit("blocked"), text::lit("done"), text::lit("abandoned")];
    let mut i: usize = 0;
    while i < 5
        invariant
            i <= 5,
            all@.len() == 5,
            forall|k: int| 0 <= k < 5 ==> #[trigger] all@[k]@ == statuses()[k],
            forall|k: int| 0 <= k < i ==> statuses()[k] != s@,
        decreases 5 - i,
    {
        if crate::cli::vec_eq(&all[i], s) {
            assert(statuses()[i as int] == s@);
            return true;
        }
        i = i + 1;
    }
    proof {
        if statuses().contains(s@) {
            let k = choose|k: int| 0 <= k < statuses().len() && statuses()[k] == s@;
            assert(k < 5);
        }
    }
    false
}

fn in_listed(filter: &Option<Vec<char>>, status: &Vec<char>) -> (r: bool)
    ensures
        r == listed_statuses(
            match filter {
                Some(f) => Some(f@),
                None => None,
            },
        ).contains(status@),
{
    let ghost fv = match filter {
        Some(f) => Some(f@),
        None => None,
    };
    let default = [text::lit("open"), text::lit("blocked"), text::lit("in_progress")];
    match filter {
        Some(f) => {
            if is_status(f) {
                let r = crate::cli::vec_eq(f, status);
                proof {
                    let l = listed_statuses(fv);
                    assert(l =~= seq![f@]);
                    if l.contains(status@) {
                        let k = choose|k: int| 0 <= k < l.len() && l[k] == status@;
                        assert(k == 0);
                    }
                    if r {
                        assert(l[0] == status@);
                    }
                }
                return r;
            }
        },
        None => {},
    }
    let l = Ghost(listed_statuses(fv));
    assert(l@ =~= seq!["open"@, "blocked"@, "in_progress"@]);
    let r = crate::cli::vec_eq(&default[0], status) || crate::cli::vec_eq(&default[1], status)
        || crate::cli::vec_eq(&default[2], status);
    proof {
        if l@.contains(status@) {
            let k = choose|k: int| 0 <= k < l@.len() && l@[k] == status@;
            assert(k < 3);
        }
        if r {
            if default[0]@ == status@ {
                assert(l@[0] == status@);
            } else if default[1]@ == status@ {
                assert(l@[1] == status@);
            } else {
                assert(l@[2] == status@);
            }
        }
    }
    r
}

/// The rows a listing shows, in their order.
pub open spec fn listed_rows(rows: Seq<TaskRow>, filter: Option<Seq<char>>) -> Seq<TaskRow> {
    rows.filter(|t: TaskRow| listed_statuses(filter).contains(t.status@))
}

/// Listing by a status shows exactly the tasks with that status: every row shown has it,
/// and every row that has it is shown.
pub proof fn lemma_status_listing(rows: Seq<TaskRow>, f: Seq<char>)
    requires
        statuses().contains(f),
    ensures
        forall|i: int|
            0 <= i < listed_rows(rows, Some(f)).len() ==> (#[trigger] listed_rows(rows, Some(f))[i]).status@
                == f,
        forall|i: int|
            0 <= i < rows.len() && (#[trigger] rows[i]).status@ == f ==> listed_rows(rows, Some(f)).contains(
                rows[i],
            ),
{
    broadcast use vstd::seq_lib::group_filter_ensures;

    let pred = |t: TaskRow| listed_statuses(Some(f)).contains(t.status@);
    assert(listed_statuses(Some(f)) == seq![f]);
    assert forall|x: Seq<char>| seq![f].contains(x) <==> x == f by {
        if seq![f].contains(x) {
            let k = choose|k: int| 0 <= k < 1 && seq![f][k] == x;
            assert(k == 0);
        }
        if x == f {
            assert(seq![f][0] == x);
        }
    }
    assert forall|i: int| 0 <= i < listed_rows(rows, Some(f)).len() implies (#[trigger] listed_rows(
        rows,
        Some(f),
    )[i]).status@ == f by {
        assert(pred(rows.filter(pred)[i]));
    }
    assert forall|i: int| 0 <= i < rows.len() && (#[trigger] rows[i]).status@ == f implies listed_rows(
        rows,
        Some(f),
    ).contains(rows[i]) by {
        assert(pred(rows[i]));
    }
}

/// Each of the five statuses `open`, `in_progress`, `blocked`, `done` and `abandoned`
/// can be listed by: the listing shows exactly the tasks with that status.
pub proof fn lemma_each_status_lists(rows: Seq<TaskRow>, f: Seq<char>)
    requires
        f == "open"@ || f == "in_progress"@ || f == "blocked"@ || f == "done"@ || f == "abandoned"@,
    ensures
        forall|i: int|
            0 <= i < listed_rows(rows, Some(f)).len() ==> (#[trigger] listed_rows(rows, Some(f))[i]).status@
                == f,
        forall|i: int|
            0 <= i < rows.len() && (#[trigger] rows[i]).status@ == f ==> listed_rows(rows, Some(f)).contains(
                rows[i],
            ),
{
    let st = statuses();
    if f == "open"@ {
        assert(st[0] == f);
    } else if f == "in_progress"@ {
        assert(st[1] == f);
    } else if f == "blocked"@ {
        assert(st[2] == f);
    } else if f == "done"@ {
        assert(st[3] == f);
    } else {
        assert(st[4] == f);
    }
    assert(st.contains(f));
    lemma_status_listing(rows, f);
}

/// Without a filter, or with one that is not a status, a listing shows exactly the
/// unfinished tasks: those `open`, `blocked` or `in_progress`.
pub proof fn lemma_default_listing(rows: Seq<TaskRow>, filter: Option<Seq<char>>)
    requires
        filter matches Some(f) ==> !(f == "open"@ || f == "in_progress"@ || f == "blocked"@ || f == "done"@
            || f == "abandoned"@),
    ensures
        forall|i: int|
            0 <= i < listed_rows(rows, filter).len() ==> {
                let st = (#[trigger] listed_rows(rows, filter)[i]).status@;
                st == "open"@ || st == "blocked"@ || st == "in_progress"@
            },
        forall|i: int|
            0 <= i < rows.len() && ((#[trigger] rows[i]).status@ == "open"@ || rows[i].status@ == "blocked"@
                || rows[i].status@ == "in_progress"@) ==> listed_rows(rows, filter).contains(rows[i]),
{
    broadcast use vstd::seq_lib::group_filter_ensures;

    let unfinished = seq!["open"@, "blocked"@, "in_progress"@];
    if let Some(f) = filter {
        if statuses().contains(f) {
            let k = choose|k: int| 0 <= k < statuses().len() && statuses()[k] == f;
            assert(k == 0 || k == 1 || k == 2 || k == 3 || k == 4);
        }
    }
    assert(listed_statuses(filter) == unfinished);
    assert forall|x: Seq<char>| unfinished.contains(x) <==> (x == "open"@ || x == "blocked"@ || x == "in_progress"@) by {
        if unfinished.contains(x) {
            let k = choose|k: int| 0 <= k < 3 && unfinished[k] == x;
            assert(k == 0 || k == 1 || k == 2);
        }
        if x == "open"@ {
            assert(unfinished[0] == x);
        }
        if x == "blocked"@ {
            assert(unfinished[1] == x);
        }
        if x == "in_progress"@ {
            assert(unfinished[2] == x);
        }
    }
    let pred = |t: TaskRow| listed_statuses(filter).contains(t.status@);
    assert forall|i: int| 0 <= i < listed_rows(rows, filter).len() implies {
        let st = (#[trigger] listed_rows(rows, filter)[i]).status@;
        st == "open"@ || st == "blocked"@ || st == "in_progress"@
    } by {
        assert(pred(rows.filter(pred)[i]));
    }
    assert forall|i: int|
        0 <= i < rows.len() && ((#[trigger] rows[i]).status@ == "open"@ || rows[i].status@ == "blocked"@
            || rows[i].status@ == "in_progress"@) implies listed_rows(rows, filter).contains(rows[i]) by {
        assert(pred(rows[i]));
    }
}

/// A task can be moved to any of the five statuses: an update naming a task id and, once
/// trimmed, `open`, `in_progress`, `blocked`, `done` or `abandoned` is carried out.
pub proof fn lemma_each_status_updates(input: JsonValue, s: Seq<char>)
    requires
        json::as_i64(json::get(input, "id"@)) is Some,
        json::str_field(input, "status"@) == Some(s),
        text::trim(s) == "open"@ || text::trim(s) == "in_progress"@ || text::trim(s) == "blocked"@
            || text::trim(s) == "done"@ || text::trim(s) == "abandoned"@,
    ensures
        task_request_valid_with(input, Some("update"@)),
{
    reveal_strlit("update");
    reveal_strlit("create");
    reveal_strlit("list");
    let f = text::trim(s);
    let st = statuses();
    if f == "open"@ {
        assert(st[0] == f);
    } else if f == "in_progress"@ {
        assert(st[1] == f);
    } else if f == "blocked"@ {
        assert(st[2] == f);
    } else if f == "done"@ {
        assert(st[3] == f);
    } else {
        assert(st[4] == f);
    }
    assert(st.contains(f));
    assert("update"@[0] != "create"@[0]);
    assert("update"@.len() != "list"@.len());
    assert(json::str_field(input, "status"@) matches Some(x) && statuses().contains(text::trim(x)));
}

/// The tasks a listing shows: rows (in id order) whose status is listed for the filter.
pub fn task_list(rows: Vec<TaskRow>, status_filter: Option<&str>) -> (r: Vec<TaskRow>)
    ensures
        r@ == listed_rows(rows@, crate::github::opt_view(status_filter)),
{
    let ghost fv = match status_filter {
        Some(f) => Some(f@),
        None => None,
    };
    let ghost pred = |t: TaskRow| listed_statuses(fv).contains(t.status@);
    let filter: Option<Vec<char>> = match status_filter {
        Some(f) => Some(text::chars_of(f)),
        None => None,
    };
    let ghost orig = rows@;
    let mut rows = rows;
    let mut out: Vec<TaskRow> = Vec::new();
    // take rows from the back, then reverse
    let mut kept_rev: Vec<TaskRow> = Vec::new();
    while rows.len() > 0
        invariant
            rows@ == orig.take(rows@.len() as int),
            rows@.len() <= orig.len(),
            pred == (|t: TaskRow| listed_statuses(fv).contains(t.status@)),
            fv == match filter {
                Some(f) => Some(f@),
                None => None,
            },
            orig.filter(pred) == rows@.filter(pred) + kept_rev@.reverse(),
        decreases rows@.len(),
    {
        let ghost before = rows@;
        let t = rows.pop().unwrap();
        assert(before.drop_last() =~= rows@);
        assert(rows@ =~= orig.take(rows@.len() as int));
        reveal_with_fuel(Seq::filter, 1);
        let st = text::chars_of(t.status.as_str());
        let keep = in_listed(&filter, &st);
        assert(keep == pred(t));
        let ghost kr = kept_rev@;
        if keep {
            kept_rev.push(t);
            assert(kept_rev@.reverse() =~= seq![t] + kr.reverse());
            assert(before.filter(pred) == rows@.filter(pred).push(t));
            assert(orig.filter(pred) =~= rows@.filter(pred) + kept_rev@.reverse());
        } else {
            assert(before.filter(pred) == rows@.filter(pred));
        }
    }
    assert(rows@.filter(pred) =~= Seq::<TaskRow>::empty());
    while kept_rev.len() > 0
        invariant
            orig.filter(pred) == out@ + kept_rev@.reverse(),
            pred == (|t: TaskRow| listed_statuses(fv).contains(t.status@)),
        decreases kept_rev@.len(),
    {
        let ghost kr = kept_rev@;
        let t = kept_rev.pop().unwrap();
        assert(kr.reverse() =~= seq![t] + kept_rev@.reverse());
        out.push(t);
        assert(orig.filter(pred) =~= out@ + kept_rev@.reverse());
    }
    assert(out@ =~= orig.filter(pred));
    assert(fv == crate::github::opt_view(status_filter));
    assert(listed_rows(orig, fv) == orig.filter(pred));
    out
}

/// A task tool request.
#[allow(inconsistent_fields)]
pub enum TaskRequest {
    Create { title: String, repo: Option<String>, issue_number: Option<i64> },
    List { status: Option<String> },
    Update { id: i64, status: String, notes: Option<String> },
    Complete { id: i64, notes: Option<String> },
}

pub open spec fn opt_seq(s: Option<String>) -> Option<Seq<char>> {
    match s {
        Some(x) => Some(x@),
        None => None,
    }
}

/// The trimmed, lower-cased action, or `None` when the input has none.
pub open spec fn action_of(input: JsonValue) -> Option<Seq<char>> {
    match json::str_field(input, "action"@) {
        Some(a) => Some(text::lowercase(text::trim(a))),
        None => None,
    }
}

/// What the task tool is asked to do.
pub open spec fn task_request_ok(input: JsonValue, r: TaskRequest) -> bool {
    task_request_ok_with(input, action_of(input), r)
}

/// What the task tool is asked to do, given the input's lower-cased, trimmed action.
pub open spec fn task_request_ok_with(input: JsonValue, action: Option<Seq<char>>, r: TaskRequest) -> bool {
    let a = action->0;
    match r {
        TaskRequest::Create { title, repo, issue_number } => {
            &&& a == "create"@
            &&& (json::str_field(input, "title"@) matches Some(t) && title@ == text::trim(t))
            &&& title@.len() > 0
            &&& opt_seq(repo) == crate::gh::opt_trimmed(input, "repo"@)
            &&& issue_number == json::as_i64(json::get(input, "issue_number"@))
        },
        TaskRequest::List { status } => {
            &&& a == "list"@
            &&& opt_seq(status) == crate::gh::opt_trimmed(input, "status"@)
        },
        TaskRequest::Update { id, status, notes } => {
            &&& a == "update"@
            &&& json::as_i64(json::get(input, "id"@)) == Some(id)
            &&& (json::str_field(input, "status"@) matches Some(s) && status@ == text::trim(s))
            &&& statuses().contains(status@)
            &&& opt_seq(notes) == crate::gh::opt_trimmed(input, "notes"@)
        },
        TaskRequest::Complete { id, notes } => {
            &&& a == "complete"@
            &&& json::as_i64(json::get(input, "id"@)) == Some(id)
            &&& opt_seq(notes) == crate::gh::opt_trimmed(input, "notes"@)
        },
    }
}

/// Whether an input names a task request that can be carried out.
pub open spec fn task_request_valid(input: JsonValue) -> bool {
    task_request_valid_with(input, action_of(input))
}

/// The same, given the input's lower-cased, trimmed action.
pub open spec fn task_request_valid_with(input: JsonValue, action: Option<Seq<char>>) -> bool {
    match action {
        None => false,
        Some(a) => if a == "create"@ {
            json::str_field(input, "title"@) matches Some(t) && text::trim(t).len() > 0
        } else if a == "list"@ {
            true
        } else if a == "update"@ {
            &&& json::as_i64(json::get(input, "id"@)) is Some
            &&& json::str_field(input, "status"@) matches Some(s)
            &&& statuses().contains(text::trim(s))
        } else if a == "complete"@ {
            json::as_i64(json::get(input, "id"@)) is Some
        } else {
            false
        },
    }
}

/// The error for an input that names no valid task request.
pub open spec fn task_request_err(input: JsonValue) -> Seq<char> {
    task_request_err_with(input, action_of(input))
}

/// The same, given the input's lower-cased, trimmed action.
pub open spec fn task_request_err_with(input: JsonValue, action: Option<Seq<char>>) -> Seq<char> {
    match action {
        None => "missing action"@,
        Some(a) => if a == "create"@ {
            match json::str_field(input, "title"@) {
                None => "create requires title"@,
                Some(_) => "title is empty"@,
            }
        } else if a == "list"@ {
            Seq::empty()
        } else if a == "update"@ {
            match json::as_i64(json::get(input, "id"@)) {
                None => "update requires id"@,
                Some(_) => match json::str_field(input, "status"@) {
                    None => "update requires status"@,
                    Some(_) => "status must be open, in_progress, blocked, done, or abandoned"@,
                },
            }
        } else if a == "complete"@ {
            "complete requires id"@
        } else {
            "action must be create, list, update, or complete"@
        },
    }
}

/// The lower-cased, trimmed action of a tool input.
pub fn action_exec(input: &JsonValue) -> (r: Option<Vec<char>>)
    ensures
        match r {
            Some(a) => action_of(*input) == Some(a@),
            None => action_of(*input) is None,
        },
{
    match input.str_field("action") {
        Some(a) => Some(text::lowercase_vec(&text::trim_str(a.as_str()))),
        None => None,
    }
}

/// Persistent task queue tool.
pub struct TaskTool;

impl TaskTool {
    /// Decodes a task tool input.
    pub fn request(input: &JsonValue) -> (r: Result<TaskRequest, String>)
        ensures
            match r {
                Ok(req) => task_request_ok(*input, req),
                Err(e) => e@ == task_request_err(*input),
            },
            r is Ok <==> task_request_valid(*input),
    {
        match action_exec(input) {
            Some(a) => Self::request_with_action(input, Some(text::string_of(&a).as_str())),
            None => Self::request_with_action(input, None),
        }
    }

    /// Decodes a task tool input whose action, lower-cased and trimmed, is `action`.
    pub fn request_with_action(input: &JsonValue, action: Option<&str>) -> (r: Result<TaskRequest, String>)
        ensures
            match r {
                Ok(req) => task_request_ok_with(*input, crate::github::opt_view(action), req),
                Err(e) => e@ == task_request_err_with(*input, crate::github::opt_view(action)),
            },
            r is Ok <==> task_request_valid_with(*input, crate::github::opt_view(action)),
    {
        let a = match action {
            Some(a) => text::chars_of(a),
            None => return Err(String::from_str("missing action")),
        };
        if text::is_lit(&a, "create") {
            let t = match input.str_field("title") {
                Some(t) => t,
                None => return Err(String::from_str("create requires title")),
            };
            let title = text::trim_str(t.as_str());
            if title.len() == 0 {
                return Err(String::from_str("title is empty"));
            }
            let repo = crate::gh::opt_trimmed_exec(input, "repo");
            let issue_number = input.i64_field("issue_number");
            return Ok(TaskRequest::Create { title: text::string_of(&title), repo, issue_number });
        }
        if text::is_lit(&a, "list") {
            let status = crate::gh::opt_trimmed_exec(input, "status");
            return Ok(TaskRequest::List { status });
        }
        if text::is_lit(&a, "update") {
            let id = match input.i64_field("id") {
                Some(id) => id,
                None => return Err(String::from_str("update requires id")),
            };
            let s = match input.str_field("status") {
                Some(s) => s,
                None => return Err(String::from_str("update requires status")),
            };
            let status = text::trim_str(s.as_str());
            if !is_status(&status) {
                return Err(String::from_str("status must be open, in_progress, blocked, done, or abandoned"));
            }
            let notes = crate::gh::opt_trimmed_exec(input, "notes");
            return Ok(TaskRequest::Update { id, status: text::string_of(&status), notes });
        }
        if text::is_lit(&a, "complete") {
            let id = match input.i64_field("id") {
                Some(id) => id,
                None => return Err(String::from_str("complete requires id")),
            };
            let notes = crate::gh::opt_trimmed_exec(input, "notes");
            return Ok(TaskRequest::Complete { id, notes });
        }
        Err(String::from_str("action must be create, list, update, or complete"))
    }

    /// `Created task {title} (id {id}).`
    pub fn created(title: &str, id: i64) -> (r: String)
        ensures
            r@ == "Created task "@ + title@ + " (id "@ + text::decimal_i(id as int) + ")."@,
    {
        let mut v = text::lit("Created task ");
        text::push_str(&mut v, title);
        text::push_str(&mut v, " (id ");
        text::push_decimal_i64(&mut v, id);
        text::push_str(&mut v, ").");
        text::string_of(&v)
    }

    /// `Updated task {id} to {status}.` or `Task id {id} not found.`
    pub fn updated(ok: bool, id: i64, status: &str) -> (r: Result<String, String>)
        ensures
            ok ==> (r matches Ok(m) && m@ == "Updated task "@ + text::decimal_i(id as int) + " to "@ + status@ + "."@),
            !ok ==> (r matches Err(m) && m@ == not_found(id)),
    {
        if ok {
            let mut v = text::lit("Updated task ");
            text::push_decimal_i64(&mut v, id);
            text::push_str(&mut v, " to ");
            text::push_str(&mut v, status);
            text::push_str(&mut v, ".");
            Ok(text::string_of(&v))
        } else {
            Err(not_found_exec(id))
        }
    }

    /// `Task {id} completed.` or `Task id {id} not found.`
    pub fn completed(ok: bool, id: i64) -> (r: Result<String, String>)
        ensures
            ok ==> (r matches Ok(m) && m@ == "Task "@ + text::decimal_i(id as int) + " completed."@),
            !ok ==> (r matches Err(m) && m@ == not_found(id)),
    {
        if ok {
            let mut v = text::lit("Task ");
            text::push_decimal_i64(&mut v, id);
            text::push_str(&mut v, " completed.");
            Ok(text::string_of(&v))
        } else {
            Err(not_found_exec(id))
        }
    }

    /// The listing reply: one line per task, or `No tasks.`.
    pub fn list_reply(rows: &Vec<TaskRow>) -> (r: String)
        ensures
            r@ == if rows@.len() == 0 {
                "No tasks."@
            } else {
                text::join(rows@.map_values(|t: TaskRow| task_line(t)), seq!['\n'])
            },
    {
        if rows.len() == 0 {
            return String::from_str("No tasks.");
        }
        let mut lines: Vec<Vec<char>> = Vec::new();
        let mut i: usize = 0;
        while i < rows.len()
            invariant
                i <= rows.len(),
                lines@.len() == i,
                forall|k: int| 0 <= k < i ==> #[trigger] lines@[k]@ == task_line(rows@[k]),
            decreases rows.len() - i,
        {
            lines.push(task_line_exec(&rows[i]));
            i = i + 1;
        }
        let nl = vec!['\n'];
        assert(nl@ =~= seq!['\n']);
        let j = text::join_exec(&lines, &nl);
        assert(lines@.map_values(|p: Vec<char>| p@) =~= rows@.map_values(|t: TaskRow| task_line(t)));
        text::string_of(&j)
    }
}

pub open spec fn not_found(id: i64) -> Seq<char> {
    "Task id "@ + text::decimal_i(id as int) + " not found."@
}

fn not_found_exec(id: i64) -> (r: String)
    ensures
        r@ == not_found(id),
{
    let mut v = text::lit("Task id ");
    text::push_decimal_i64(&mut v, id);
    text::push_str(&mut v, " not found.");
    text::string_of(&v)
}

/// The placeholder for a missing repo or issue.
pub open spec fn dash() -> Seq<char> {
    "\u{2014}"@
}

/// `id={id} | {title} | repo={repo} issue={issue} | {status} | notes={notes}`
pub open spec fn task_line(t: TaskRow) -> Seq<char> {
    "id="@ + text::decimal_i(t.id as int) + " | "@ + t.title@ + " | repo="@ + (match t.repo {
        Some(r) => r@,
        None => dash(),
    }) + " issue="@ + (match t.issue_number {
        Some(n) => text::decimal_i(n as int),
        None => dash(),
    }) + " | "@ + t.status@ + " | notes="@ + crate::memory::or_empty(opt_seq(t.notes))
}

fn task_line_exec(t: &TaskRow) -> (r: Vec<char>)
    ensures
        r@ == task_line(*t),
{
    let mut v = text::lit("id=");
    text::push_decimal_i64(&mut v, t.id);
    text::push_str(&mut v, " | ");
    text::push_str(&mut v, t.title.as_str());
    text::push_str(&mut v, " | repo=");
    match &t.repo {
        Some(r) => text::push_str(&mut v, r.as_str()),
        None => text::push_str(&mut v, "\u{2014}"),
    }
    text::push_str(&mut v, " issue=");
    match t.issue_number {
        Some(n) => text::push_decimal_i64(&mut v, n),
        None => text::push_str(&mut v, "\u{2014}"),
    }
    text::push_str(&mut v, " | ");
    text::push_str(&mut v, t.status.as_str());
    text::push_str(&mut v, " | notes=");
    match &t.notes {
        Some(n) => text::push_str(&mut v, n.as_str()),
        None => {},
    }
    assert(v@ =~= task_line(*t));
    v
}

} // verus!
