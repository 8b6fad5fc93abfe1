//! Delegating a subtask to a worker model: the worker's configuration, the prompt and
//! text a task sends, how a batch is cut into parallel rounds, and the replies. The
//! model calls themselves are made by the caller.
use vstd::prelude::*;
use crate::text;
use crate::json::{self, JsonValue};
use crate::task::opt_seq;
use crate::episode::nonempty;
use crate::github::opt_view;

verus! {

/// How many tasks of a batch run at once: `CHUMP_DELEGATE_MAX_PARALLEL` when it is a
/// number from 1 to 32, else 4.
pub open spec fn parallel_cap(env: Option<Seq<char>>) -> usize {
    match env {
        Some(s) => match crate::limits::parse_usize(s) {
            Some(n) => if 1 <= n <= 32 {
                n
            } else {
                4
            },
            None => 4,
        },
        None => 4,
    }
}

pub fn max_parallel_workers(env: Option<&str>) -> (r: usize)
    ensures
        r == parallel_cap(opt_view(env)),
        1 <= r <= 32,
{
    match env {
        Some(s) => match crate::limits::parse_usize_exec(s) {
            Some(n) => if 1 <= n && n <= 32 {
                n
            } else {
                4
            },
            None => 4,
        },
        None => 4,
    }
}

/// Where the worker model is reached.
pub struct WorkerConfig {
    pub api_key: String,
    /// An OpenAI-compatible server; `None` means the hosted OpenAI API.
    pub base: Option<String>,
    pub model: String,
    /// A second server tried when the first fails.
    pub fallback: Option<String>,
}

/// `a` when it is set and not empty, else `b`.
pub open spec fn first_set(a: Option<Seq<char>>, b: Option<Seq<char>>) -> Option<Seq<char>> {
    match nonempty(a) {
        Some(x) => Some(x),
        None => b,
    }
}

fn nonempty_str(s: Option<&str>) -> (r: Option<String>)
    ensures
        opt_seq(r) == nonempty(opt_view(s)),
{
    match s {
        Some(x) => if x.is_empty() {
            None
        } else {
            Some(String::from_str(x))
        },
        None => None,
    }
}

/// The worker configuration from the environment: `OPENAI_API_KEY` (a placeholder when
/// unset); `CHUMP_WORKER_API_BASE`, else `OPENAI_API_BASE`, ignoring empty values;
/// `CHUMP_WORKER_MODEL`, else `OPENAI_MODEL`, else `gpt-5-mini`; `CHUMP_FALLBACK_API_BASE`.
pub fn worker_config(
    openai_key: Option<&str>,
    worker_base: Option<&str>,
    openai_base: Option<&str>,
    worker_model: Option<&str>,
    openai_model: Option<&str>,
    fallback_base: Option<&str>,
) -> (r: WorkerConfig)
    ensures
        r.api_key@ == match openai_key {
            Some(k) => k@,
            None => "token-abc123"@,
        },
        opt_seq(r.base) == nonempty(first_set(opt_view(worker_base), opt_view(openai_base))),
        r.model@ == match first_set(opt_view(worker_model), opt_view(openai_model)) {
            Some(m) => m,
            None => "gpt-5-mini"@,
        },
        opt_seq(r.fallback) == nonempty(opt_view(fallback_base)),
{
    let api_key = match openai_key {
        Some(k) => String::from_str(k),
        None => String::from_str("token-abc123"),
    };
    let base0 = match nonempty_str(worker_base) {
        Some(b) => Some(b),
        None => match openai_base {
            Some(b) => Some(String::from_str(b)),
            None => None,
        },
    };
    let base = match base0 {
        Some(b) => if b.as_str().is_empty() {
            None
        } else {
            Some(b)
        },
        None => None,
    };
    let model = match nonempty_str(worker_model) {
        Some(m) => m,
        None => match openai_model {
            Some(m) => String::from_str(m),
            None => String::from_str("gpt-5-mini"),
        },
    };
    WorkerConfig { api_key, base, model, fallback: nonempty_str(fallback_base) }
}

/// The summarizer's instructions.
pub open spec fn summarize_prompt(max_sentences: u32) -> Seq<char> {
    "You are a summarizer. Summarize the following in at most "@ + text::decimal(max_sentences as nat)
        + " sentence(s). Output only the summary, no preamble."@
}

pub fn summarize_worker_prompt(max_sentences: u32) -> (r: String)
    ensures
        r@ == summarize_prompt(max_sentences),
{
    let mut v = text::lit("You are a summarizer. Summarize the following in at most ");
    text::push_decimal(&mut v, max_sentences as u64);
    text::push_str(&mut v, " sentence(s). Output only the summary, no preamble.");
    text::string_of(&v)
}

/// The extractor's instructions, with a default for a blank instruction.
pub open spec fn extract_prompt(instruction: Seq<char>) -> Seq<char> {
    let instr = if instruction.len() == 0 {
        "Extract key facts or entities as a short list (one per line)."@
    } else {
        instruction
    };
    "You are an extractor. From the following text, "@ + instr
        + ". Output only the extracted items, one per line or as a short list. No preamble."@
}

pub fn extract_worker_prompt(instruction: &str) -> (r: String)
    ensures
        r@ == extract_prompt(instruction@),
{
    let mut v = text::lit("You are an extractor. From the following text, ");
    if instruction.is_empty() {
        text::push_str(&mut v, "Extract key facts or entities as a short list (one per line).");
    } else {
        text::push_str(&mut v, instruction);
    }
    text::push_str(
        &mut v,
        ". Output only the extracted items, one per line or as a short list. No preamble.",
    );
    text::string_of(&v)
}

/// `s` as Rust's `Debug` writes a string: in double quotes, with escapes.
pub uninterp spec fn debug_str(s: Seq<char>) -> Seq<char>;

/// `format!("{:?}", s)`: the `Debug` form of a string slice (std's `<str as Debug>::fmt`).
/// Its result is named `debug_str` of the characters; nothing more is stated of it.
#[verifier::external_body]
fn debug_quoted(s: &str) -> (r: String)
    ensures
        r@ == debug_str(s@),
{
    format!("{:?}", s)
}

/// One call to the worker model.
pub struct WorkerCall {
    pub system_prompt: String,
    /// The user message: the task's text.
    pub text: String,
    pub max_tokens: u32,
}

/// A field's string, trimmed; empty when there is none.
pub open spec fn trimmed_or_empty(input: JsonValue, key: Seq<char>) -> Seq<char> {
    match json::str_field(input, key) {
        Some(s) => text::trim(s),
        None => Seq::empty(),
    }
}

/// The sentence bound of a summary: `max_sentences` (read as a float, truncated) when it
/// is from 1 to 20, else 3.
pub open spec fn max_sentences(input: JsonValue) -> u32 {
    match json::as_f64_trunc(json::get(input, "max_sentences"@)) {
        Some(n) => if 1 <= n <= 20 {
            n as u32
        } else {
            3
        },
        None => 3,
    }
}

/// The task type, trimmed and lower-cased.
pub open spec fn task_type(input: JsonValue) -> Seq<char> {
    text::lowercase(trimmed_or_empty(input, "task_type"@))
}

/// What one task asks of the worker (`Ok`), or the reply when it cannot run (`Err`).
pub open spec fn single_call(input: JsonValue) -> Result<(Seq<char>, Seq<char>), Seq<char>> {
    single_call_with(input, task_type(input))
}

/// The reply to a task of an unknown type, given that type as `Debug` writes it.
pub open spec fn unknown_type_reply(quoted: Seq<char>) -> Seq<char> {
    "Error: unknown task_type "@ + quoted + ". Supported: summarize, extract."@
}

/// The same as `single_call`, given the task type already trimmed and lower-cased.
pub open spec fn single_call_with(input: JsonValue, tt: Seq<char>) -> Result<(Seq<char>, Seq<char>), Seq<char>> {
    let t = trimmed_or_empty(input, "text"@);
    if t.len() == 0 {
        Err("Error: text is required."@)
    } else if tt == "summarize"@ {
        Ok((summarize_prompt(max_sentences(input)), t))
    } else if tt == "extract"@ {
        Ok((extract_prompt(trimmed_or_empty(input, "instruction"@)), t))
    } else {
        Err(unknown_type_reply(debug_str(tt)))
    }
}

fn trimmed_or_empty_exec(input: &JsonValue, key: &str) -> (r: Vec<char>)
    ensures
        r@ == trimmed_or_empty(*input, key@),
{
    match input.str_field(key) {
        Some(s) => text::trim_str(s.as_str()),
        None => Vec::new(),
    }
}

/// Sends subtasks to a worker model, one at a time or as a batch.
pub struct DelegateTool;

impl DelegateTool {
    /// The worker call for one task (its token budget is 1024), or the reply when the task
    /// cannot run.
    pub fn single(input: &JsonValue) -> (r: Result<WorkerCall, String>)
        ensures
            match single_call(*input) {
                Ok((p, t)) => r matches Ok(c) && c.system_prompt@ == p && c.text@ == t && c.max_tokens
                    == 1024,
                Err(e) => r matches Err(m) && m@ == e,
            },
    {
        let tt = text::lowercase_vec(&trimmed_or_empty_exec(input, "task_type"));
        Self::single_with_type(input, text::string_of(&tt).as_str())
    }

    /// The same, given the task type already trimmed and lower-cased.
    pub fn single_with_type(input: &JsonValue, task_type: &str) -> (r: Result<WorkerCall, String>)
        ensures
            match single_call_with(*input, task_type@) {
                Ok((p, t)) => r matches Ok(c) && c.system_prompt@ == p && c.text@ == t && c.max_tokens
                    == 1024,
                Err(e) => r matches Err(m) && m@ == e,
            },
    {
        let tt = text::chars_of(task_type);
        let t = trimmed_or_empty_exec(input, "text");
        if t.len() == 0 {
            return Err(String::from_str("Error: text is required."));
        }
        if text::is_lit(&tt, "summarize") {
            let ms: u32 = match input.f64_trunc_field("max_sentences") {
                Some(n) => if 1 <= n && n <= 20 {
                    n as u32
                } else {
                    3
                },
                None => 3,
            };
            return Ok(
                WorkerCall {
                    system_prompt: summarize_worker_prompt(ms),
                    text: text::string_of(&t),
                    max_tokens: 1024,
                },
            );
        }
        if text::is_lit(&tt, "extract") {
            let instr = text::string_of(&trimmed_or_empty_exec(input, "instruction"));
            return Ok(
                WorkerCall {
                    system_prompt: extract_worker_prompt(instr.as_str()),
                    text: text::string_of(&t),
                    max_tokens: 1024,
                },
            );
        }
        let q = debug_quoted(task_type);
        Err(Self::unknown_task_type(q.as_str()))
    }

    /// The reply to a task of an unknown type, given that type as `Debug` writes it.
    pub fn unknown_task_type(quoted: &str) -> (r: String)
        ensures
            r@ == unknown_type_reply(quoted@),
    {
        let mut m = text::lit("Error: unknown task_type ");
        text::push_str(&mut m, quoted);
        text::push_str(&mut m, ". Supported: summarize, extract.");
        text::string_of(&m)
    }

    /// The tasks of a batch: the array under `tasks`, when there is one.
    pub fn batch_tasks(input: &JsonValue) -> (r: Option<&Vec<JsonValue>>)
        ensures
            match json::get(*input, "tasks"@) {
                Some(JsonValue::Array(items)) => r matches Some(v) && v@ == items@,
                _ => r is None,
            },
    {
        match input.get("tasks") {
            Some(JsonValue::Array(items)) => Some(items),
            _ => None,
        }
    }

    /// The reply to a batch with no tasks.
    pub fn empty_batch() -> (r: String)
        ensures
            r@ == "Error: tasks array is empty."@,
    {
        String::from_str("Error: tasks array is empty.")
    }

    /// How a delegate call runs: `None` for a single task (no `tasks` array), the number of
    /// tasks for a batch, and the empty-batch error for a `tasks` array with none in it.
    pub fn batch_plan(input: &JsonValue) -> (r: Option<Result<usize, String>>)
        ensures
            match json::get(*input, "tasks"@) {
                Some(JsonValue::Array(items)) => if items@.len() == 0 {
                    r matches Some(Err(m)) && m@ == "Error: tasks array is empty."@
                } else {
                    r == Some(Ok::<usize, String>(items@.len() as usize))
                },
                _ => r is None,
            },
    {
        match Self::batch_tasks(input) {
            None => None,
            Some(tasks) => if tasks.len() == 0 {
                Some(Err(Self::empty_batch()))
            } else {
                Some(Ok(tasks.len()))
            },
        }
    }

    /// A worker's answer as returned: its text, trimmed (empty when there is none).
    pub fn worker_reply(answer: Option<&str>) -> (r: String)
        ensures
            r@ == match answer {
                Some(a) => text::trim(a@),
                None => Seq::empty(),
            },
    {
        match answer {
            Some(a) => text::string_of(&text::trim_str(a)),
            None => String::new(),
        }
    }

    /// A failed task's line in a batch: `[Error: {e}]`.
    pub fn task_failed(e: &str) -> (r: String)
        ensures
            r@ == "[Error: "@ + e@ + "]"@,
    {
        let mut v = text::lit("[Error: ");
        text::push_str(&mut v, e);
        text::push_str(&mut v, "]");
        text::string_of(&v)
    }

    /// The reply to a batch: the results numbered from 1, one per line, in task order.
    pub fn batch_reply(results: &Vec<String>) -> (r: String)
        requires
            results@.len() < u64::MAX,
        ensures
            r@ == text::numbered_list(crate::cli::names(results@)),
    {
        let mut items: Vec<Vec<char>> = Vec::new();
        let mut i: usize = 0;
        while i < results.len()
            invariant
                i <= results.len(),
                items@.len() == i,
                forall|k: int| 0 <= k < i ==> #[trigger] items@[k]@ == results@[k]@,
            decreases results.len() - i,
        {
            items.push(text::chars_of(results[i].as_str()));
            i = i + 1;
        }
        let v = text::numbered_list_exec(&items);
        assert(items@.map_values(|p: Vec<char>| p@) =~= crate::cli::names(results@));
        text::string_of(&v)
    }
}

/// The rounds of a batch of `n` tasks run `cap` at a time: round `k` covers the tasks
/// from `k * cap` up to the next multiple of `cap` or `n`.
pub open spec fn round(n: nat, cap: nat, k: nat) -> (nat, nat) {
    let lo = k * cap;
    let hi = if lo + cap <= n {
        lo + cap
    } else {
        n
    };
    (lo, hi)
}

/// The index ranges of the rounds a batch of `n` tasks runs in, at most `cap` at a time.
pub fn batch_rounds(n: usize, cap: usize) -> (r: Vec<(usize, usize)>)
    requires
        cap >= 1,
    ensures
        r@.len() == (n + cap - 1) / (cap as int),
        forall|k: int|
            0 <= k < r@.len() ==> (#[trigger] r@[k]).0 == round(n as nat, cap as nat, k as nat).0
                && r@[k].1 == round(n as nat, cap as nat, k as nat).1,
        forall|k: int| 0 <= k < r@.len() ==> (#[trigger] r@[k]).0 < r@[k].1 <= n,
        forall|k: int| 0 < k < r@.len() ==> (#[trigger] r@[k]).0 == r@[k - 1].1,
        r@.len() > 0 ==> r@[0].0 == 0 && r@[r@.len() - 1].1 == n,
{
    let mut r: Vec<(usize, usize)> = Vec::new();
    let mut lo: usize = 0;
    proof {
        if n > 0 {
            assert(0 < (n + cap - 1) / (cap as int)) by (nonlinear_arith)
                requires
                    n > 0,
                    cap >= 1,
            ;
        } else {
            assert((n + cap - 1) / (cap as int) == 0) by (nonlinear_arith)
                requires
                    n == 0,
                    cap >= 1,
            ;
        }
    }
    while lo < n
        invariant
            cap >= 1,
            lo <= n,
            lo < n ==> lo == r@.len() * cap,
            lo < n ==> r@.len() < (n + cap - 1) / (cap as int),
            lo == n ==> r@.len() == (n + cap - 1) / (cap as int),
            forall|k: int|
                0 <= k < r@.len() ==> (#[trigger] r@[k]).0 == round(n as nat, cap as nat, k as nat).0
                    && r@[k].1 == round(n as nat, cap as nat, k as nat).1,
            forall|k: int| 0 <= k < r@.len() ==> (#[trigger] r@[k]).0 < r@[k].1 <= n,
            forall|k: int| 0 < k < r@.len() ==> (#[trigger] r@[k]).0 == r@[k - 1].1,
            r@.len() > 0 ==> r@[0].0 == 0 && r@[r@.len() - 1].1 == lo,
        decreases n - lo,
    {
        let hi = if n - lo >= cap {
            lo + cap
        } else {
            n
        };
        let ghost k = r@.len();
        let ghost old_r = r@;
        proof {
            assert((k + 1) * cap == k * cap + cap) by (nonlinear_arith);
        }
        r.push((lo, hi));
        assert(r@[k as int] == (lo, hi));
        assert(forall|j: int| 0 <= j < k ==> r@[j] == old_r[j]);
        assert(k > 0 ==> old_r[k - 1].1 == lo);
        assert(k == 0 ==> lo == 0) by (nonlinear_arith)
            requires
                lo == k * cap,
        ;
        assert(r@[0].0 == 0);
        proof {
            let len = r@.len();
            if hi < n {
                assert(hi == len * cap);
                assert(len < (n + cap - 1) / (cap as int)) by (nonlinear_arith)
                    requires
                        len * cap < n,
                        cap >= 1,
                        len >= 1,
                ;
            } else {
                assert(len == (n + cap - 1) / (cap as int)) by (nonlinear_arith)
                    requires
                        (len - 1) * cap < n,
                        n <= len * cap,
                        cap >= 1,
                        len >= 1,
                ;
            }
        }
        lo = hi;
    }
    proof {
        if n == 0 {
            assert((n + cap - 1) / (cap as int) == 0) by (nonlinear_arith)
                requires
                    n == 0,
                    cap >= 1,
            ;
        }
    }
    r
}

} // verus!
