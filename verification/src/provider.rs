//! The OpenAI-compatible model provider: its configuration, which errors are worth a
//! retry, the retry schedule with its fallback server, the circuit breaker that rests a
//! failing server, and how a finish reason is read. The HTTP calls are made by the caller.
use vstd::prelude::*;
use crate::text;

verus! {

/// Where the chat completions are sent.
pub struct LocalOpenAIProvider {
    pub base_url: String,
    pub fallback_base_url: Option<String>,
    pub api_key: String,
    pub model: String,
}

impl LocalOpenAIProvider {
    /// A provider without a fallback server.
    pub fn new(base_url: &str, api_key: &str, model: &str) -> (r: Self)
        ensures
            r.base_url@ == crate::schedule::trim_end_char(base_url@, '/'),
            r.fallback_base_url is None,
            r.api_key@ == api_key@,
            r.model@ == model@,
    {
        Self::with_fallback(base_url, None, api_key, model)
    }

    /// A provider with an optional fallback server; trailing `/` are dropped from both URLs.
    pub fn with_fallback(base_url: &str, fallback_base_url: Option<&str>, api_key: &str, model: &str) -> (r: Self)
        ensures
            r.base_url@ == crate::schedule::trim_end_char(base_url@, '/'),
            crate::task::opt_seq(r.fallback_base_url) == match fallback_base_url {
                Some(f) => Some(crate::schedule::trim_end_char(f@, '/')),
                None => None,
            },
            r.api_key@ == api_key@,
            r.model@ == model@,
    {
        let b = crate::schedule::trim_end_char_exec(&text::chars_of(base_url), '/');
        let f = match fallback_base_url {
            Some(f) => Some(text::string_of(&crate::schedule::trim_end_char_exec(&text::chars_of(f), '/'))),
            None => None,
        };
        LocalOpenAIProvider {
            base_url: text::string_of(&b),
            fallback_base_url: f,
            api_key: String::from_str(api_key),
            model: String::from_str(model),
        }
    }

    /// Whether the `Authorization` header is left out: for a local server
    /// (`127.0.0.1` or `localhost` in the URL) with a placeholder key.
    pub fn skip_auth(&self, base_url: &str) -> (r: bool)
        ensures
            r == ((text::contains(base_url@, "127.0.0.1"@) || text::contains(base_url@, "localhost"@)) && (
            self.api_key@.len() == 0 || self.api_key@ == "not-needed"@ || self.api_key@
                == "token-abc123"@)),
    {
        let u = text::chars_of(base_url);
        let local = text::contains_exec(&u, &text::lit("127.0.0.1")) || text::contains_exec(
            &u,
            &text::lit("localhost"),
        );
        let k = text::chars_of(self.api_key.as_str());
        local && (k.len() == 0 || text::is_lit(&k, "not-needed") || text::is_lit(&k, "token-abc123"))
    }
}

/// The completions endpoint of a server.
pub fn chat_url(base_url: &str) -> (r: String)
    ensures
        r@ == base_url@ + "/chat/completions"@,
{
    let mut v = text::chars_of(base_url);
    text::push_str(&mut v, "/chat/completions");
    text::string_of(&v)
}

/// The markers of an error worth retrying: connection trouble, a timeout, a 5xx status.
pub open spec fn transient_markers() -> Seq<Seq<char>> {
    seq!["connection"@, "timed out"@, "Connection reset"@, "500"@, "502"@, "503"@, "504"@]
}

/// An error message is transient when it contains one of the markers.
pub open spec fn transient(msg: Seq<char>) -> bool {
    exists|i: int| 0 <= i < 7 && text::contains(msg, #[trigger] transient_markers()[i])
}

/// Which errors are retried: an error message is transient exactly when it mentions a
/// connection problem (`connection`, `Connection reset`), a timeout (`timed out`) or a
/// server error status (`500`, `502`, `503`, `504`).
pub proof fn lemma_transient_errors(msg: Seq<char>)
    ensures
        transient(msg) <==> (text::contains(msg, "connection"@) || text::contains(msg, "timed out"@)
            || text::contains(msg, "Connection reset"@) || text::contains(msg, "500"@) || text::contains(
            msg,
            "502"@,
        ) || text::contains(msg, "503"@) || text::contains(msg, "504"@)),
{
    let ms = transient_markers();
    assert(ms[0] == "connection"@);
    assert(ms[1] == "timed out"@);
    assert(ms[2] == "Connection reset"@);
    assert(ms[3] == "500"@);
    assert(ms[4] == "502"@);
    assert(ms[5] == "503"@);
    assert(ms[6] == "504"@);
    if transient(msg) {
        let i = choose|i: int| 0 <= i < 7 && text::contains(msg, #[trigger] ms[i]);
        assert(i == 0 || i == 1 || i == 2 || i == 3 || i == 4 || i == 5 || i == 6);
    }
    if text::contains(msg, "connection"@) {
        assert(text::contains(msg, ms[0]));
    }
    if text::contains(msg, "timed out"@) {
        assert(text::contains(msg, ms[1]));
    }
    if text::contains(msg, "Connection reset"@) {
        assert(text::contains(msg, ms[2]));
    }
    if text::contains(msg, "500"@) {
        assert(text::contains(msg, ms[3]));
    }
    if text::contains(msg, "502"@) {
        assert(text::contains(msg, ms[4]));
    }
    if text::contains(msg, "503"@) {
        assert(text::contains(msg, ms[5]));
    }
    if text::contains(msg, "504"@) {
        assert(text::contains(msg, ms[6]));
    }
}

pub fn is_transient_error(msg: &str) -> (r: bool)
    ensures
        r == transient(msg@),
{
    let m = text::chars_of(msg);
    let ms = [
        text::lit("connection"),
        text::lit("timed out"),
        text::lit("Connection reset"),
        text::lit("500"),
        text::lit("502"),
        text::lit("503"),
        text::lit("504"),
    ];
    let mut i: usize = 0;
    while i < 7
        invariant
            i <= 7,
            m@ == msg@,
            ms@.len() == 7,
            forall|k: int| 0 <= k < 7 ==> #[trigger] ms@[k]@ == transient_markers()[k],
            forall|k: int| 0 <= k < i ==> !text::contains(msg@, #[trigger] transient_markers()[k]),
        decreases 7 - i,
    {
        if text::contains_exec(&m, &ms[i]) {
            assert(text::contains(msg@, transient_markers()[i as int]));
            return true;
        }
        i = i + 1;
    }
    false
}

/// Why a model turn ended.
#[derive(PartialEq, Eq, Structural)]
pub enum StopKind {
    ToolUse,
    EndTurn,
    MaxTokens,
    ContentFilter,
}

/// The stop kind of a finish reason (`stop` when there is none; unknown ones end the turn).
pub open spec fn stop_kind(finish: Option<Seq<char>>) -> StopKind {
    let f = match finish {
        Some(x) => x,
        None => "stop"@,
    };
    if f == "tool_calls"@ {
        StopKind::ToolUse
    } else if f == "length"@ {
        StopKind::MaxTokens
    } else if f == "content_filter"@ {
        StopKind::ContentFilter
    } else {
        StopKind::EndTurn
    }
}

pub fn stop_reason(finish: Option<&str>) -> (r: StopKind)
    ensures
        r == stop_kind(crate::github::opt_view(finish)),
{
    let f = match finish {
        Some(x) => text::chars_of(x),
        None => text::lit("stop"),
    };
    if text::is_lit(&f, "tool_calls") {
        StopKind::ToolUse
    } else if text::is_lit(&f, "length") {
        StopKind::MaxTokens
    } else if text::is_lit(&f, "content_filter") {
        StopKind::ContentFilter
    } else {
        StopKind::EndTurn
    }
}

// ---------------------------------------------------------------------------
// Retries
// ---------------------------------------------------------------------------

/// Delays before the attempts on the primary server, in milliseconds.
pub open spec fn retry_delays() -> Seq<u64> {
    seq![0, 1000, 2000]
}

/// What follows a failed attempt on the primary server.
#[derive(PartialEq, Eq, Structural)]
pub enum AfterFailure {
    /// Give up with this attempt's error.
    Fail,
    /// Wait, then try the primary server again.
    Retry { delay_ms: u64 },
    /// Try the fallback server once.
    Fallback,
    /// Give up with the last error.
    Exhausted,
}

/// After failed attempt `attempt` (from 0) on the primary server: a non-transient error
/// ends the call; a transient one is retried while attempts remain, then the fallback
/// server is tried when there is one.
pub open spec fn after_failure_spec(attempt: nat, transient: bool, has_fallback: bool) -> AfterFailure {
    if !transient {
        AfterFailure::Fail
    } else if attempt + 1 < 3 {
        AfterFailure::Retry { delay_ms: retry_delays()[(attempt + 1) as int] }
    } else if has_fallback {
        AfterFailure::Fallback
    } else {
        AfterFailure::Exhausted
    }
}

/// A call makes at most three attempts on the primary server, waiting longer before each
/// retry, and only transient errors are retried; the fallback is tried only after the
/// last attempt.
pub proof fn lemma_retry_schedule(attempt: nat, transient: bool, has_fallback: bool)
    requires
        attempt < 3,
    ensures
        !transient ==> after_failure_spec(attempt, transient, has_fallback) == AfterFailure::Fail,
        attempt == 2 ==> !(after_failure_spec(attempt, transient, has_fallback) is Retry),
        after_failure_spec(attempt, transient, has_fallback) is Fallback ==> attempt == 2 && has_fallback,
        attempt == 0 && transient ==> after_failure_spec(attempt, transient, has_fallback) == (
        AfterFailure::Retry { delay_ms: 1000 }),
        attempt == 1 && transient ==> after_failure_spec(attempt, transient, has_fallback) == (
        AfterFailure::Retry { delay_ms: 2000 }),
        attempt == 2 && transient && has_fallback ==> after_failure_spec(attempt, transient, has_fallback)
            == AfterFailure::Fallback,
        attempt == 2 && transient && !has_fallback ==> after_failure_spec(attempt, transient, has_fallback)
            == AfterFailure::Exhausted,
{
}

pub fn after_failure(attempt: usize, transient: bool, has_fallback: bool) -> (r: AfterFailure)
    requires
        attempt < 3,
    ensures
        r == after_failure_spec(attempt as nat, transient, has_fallback),
{
    if !transient {
        AfterFailure::Fail
    } else if attempt == 0 {
        AfterFailure::Retry { delay_ms: 1000 }
    } else if attempt == 1 {
        AfterFailure::Retry { delay_ms: 2000 }
    } else if has_fallback {
        AfterFailure::Fallback
    } else {
        AfterFailure::Exhausted
    }
}

// ---------------------------------------------------------------------------
// Circuit breaker
// ---------------------------------------------------------------------------

/// Consecutive failures that open a server's circuit.
pub const CIRCUIT_FAILURE_THRESHOLD: u32 = 3;

/// How long an open circuit stays open, in nanoseconds (30 s).
pub const CIRCUIT_COOLDOWN_NANOS: u64 = 30_000_000_000;

/// The failures recorded for one server, and until when (a monotonic clock reading in
/// nanoseconds) its circuit is open.
pub struct CircuitEntry {
    pub base: String,
    pub failures: u32,
    pub open_until: Option<u64>,
}

/// The circuit state of every server, looked up by base URL.
pub struct CircuitBreaker {
    pub entries: Vec<CircuitEntry>,
}

/// The state of one server as (failures, open until).
pub open spec fn lookup_circuit(es: Seq<CircuitEntry>, base: Seq<char>) -> Option<(u32, Option<u64>)>
    decreases es.len(),
{
    if es.len() == 0 {
        None
    } else if es[0].base@ == base {
        Some((es[0].failures, es[0].open_until))
    } else {
        lookup_circuit(es.drop_first(), base)
    }
}

/// Where a server's entry is, if it has one.
pub open spec fn circuit_index(es: Seq<CircuitEntry>, base: Seq<char>) -> Option<int>
    decreases es.len(),
{
    if es.len() == 0 {
        None
    } else if es[0].base@ == base {
        Some(0)
    } else {
        match circuit_index(es.drop_first(), base) {
            Some(i) => Some(i + 1),
            None => None,
        }
    }
}

proof fn lemma_circuit_index(es: Seq<CircuitEntry>, base: Seq<char>)
    ensures
        match circuit_index(es, base) {
            Some(i) => 0 <= i < es.len() && es[i].base@ == base && lookup_circuit(es, base) == Some(
                (es[i].failures, es[i].open_until),
            ) && forall|j: int| 0 <= j < i ==> es[j].base@ != base,
            None => lookup_circuit(es, base) is None && forall|j: int| 0 <= j < es.len() ==> es[j].base@ != base,
        },
    decreases es.len(),
{
    if es.len() > 0 {
        lemma_circuit_index(es.drop_first(), base);
        if es[0].base@ != base {
            match circuit_index(es.drop_first(), base) {
                Some(i) => {
                    assert forall|j: int| 0 <= j < i + 1 implies es[j].base@ != base by {
                        if j > 0 {
                            assert(es[j] == es.drop_first()[j - 1]);
                        }
                    }
                },
                None => {
                    assert forall|j: int| 0 <= j < es.len() implies es[j].base@ != base by {
                        if j > 0 {
                            assert(es[j] == es.drop_first()[j - 1]);
                        }
                    }
                },
            }
        }
    }
}

/// Lookups of other servers do not see a change made at an entry of this one.
proof fn lemma_lookup_other(es: Seq<CircuitEntry>, i: int, e: CircuitEntry, other: Seq<char>)
    requires
        0 <= i < es.len(),
        es[i].base@ == e.base@,
        other != e.base@,
    ensures
        lookup_circuit(es.update(i, e), other) == lookup_circuit(es, other),
    decreases es.len(),
{
    if i > 0 {
        lemma_lookup_other(es.drop_first(), i - 1, e, other);
        assert(es.update(i, e).drop_first() =~= es.drop_first().update(i - 1, e));
    } else {
        assert(es.update(i, e).drop_first() =~= es.drop_first());
    }
}

proof fn lemma_lookup_push(es: Seq<CircuitEntry>, e: CircuitEntry, b: Seq<char>)
    requires
        lookup_circuit(es, e.base@) is None,
    ensures
        lookup_circuit(es.push(e), b) == if b == e.base@ {
            Some((e.failures, e.open_until))
        } else {
            lookup_circuit(es, b)
        },
    decreases es.len(),
{
    if es.len() > 0 {
        assert(es.push(e).drop_first() =~= es.drop_first().push(e));
        assert(es.push(e)[0] == es[0]);
        assert(es[0].base@ != e.base@);
        lemma_lookup_push(es.drop_first(), e, b);
    } else {
        assert(es.push(e).drop_first() =~= es);
        assert(es.push(e)[0] == e);
    }
}

proof fn lemma_lookup_remove(es: Seq<CircuitEntry>, i: int, b: Seq<char>)
    requires
        0 <= i < es.len(),
        forall|j: int| 0 <= j < i ==> es[j].base@ != es[i].base@,
        lookup_circuit(es.remove(i), es[i].base@) is None,
    ensures
        lookup_circuit(es.remove(i), b) == if b == es[i].base@ {
            None
        } else {
            lookup_circuit(es, b)
        },
    decreases es.len(),
{
    if i > 0 {
        assert(es.remove(i).drop_first() =~= es.drop_first().remove(i - 1));
        assert forall|j: int| 0 <= j < i - 1 implies (#[trigger] es.drop_first()[j]).base@ != es.drop_first()[i - 1].base@ by {
            assert(es.drop_first()[j] == es[j + 1]);
        }
        lemma_lookup_remove(es.drop_first(), i - 1, b);
    } else {
        assert(es.remove(0) =~= es.drop_first());
    }
}

/// A server's state after one more failure at `now`.
pub open spec fn failed_state(prev: Option<(u32, Option<u64>)>, now: u64) -> (u32, Option<u64>) {
    let f = match prev {
        Some((f, _)) => f + 1,
        None => 1,
    };
    let until = if f >= CIRCUIT_FAILURE_THRESHOLD {
        Some((now + CIRCUIT_COOLDOWN_NANOS) as u64)
    } else {
        match prev {
            Some((_, u)) => u,
            None => None,
        }
    };
    (f as u32, until)
}

/// Whether a server in state `s` is refused at `now`.
pub open spec fn open_at(s: Option<(u32, Option<u64>)>, now: u64) -> bool {
    s matches Some((_, Some(until))) && now < until
}

/// A server that fails the threshold number of times in a row, from a clean state, is
/// refused for the cooldown after the last failure, and served again from then on.
pub proof fn lemma_three_failures_open(t1: u64, t2: u64, t3: u64, now: u64)
    requires
        t3 + CIRCUIT_COOLDOWN_NANOS <= u64::MAX,
    ensures
        !open_at(Some(failed_state(None, t1)), now),
        !open_at(Some(failed_state(Some(failed_state(None, t1)), t2)), now),
        open_at(Some(failed_state(Some(failed_state(Some(failed_state(None, t1)), t2)), t3)), now)
            <==> now < t3 + CIRCUIT_COOLDOWN_NANOS,
{
}

/// Fewer failures than the threshold never open a circuit.
pub proof fn lemma_below_threshold_closed(prev: Option<(u32, Option<u64>)>, now: u64, t: u64)
    requires
        prev matches Some((f, u)) ==> f + 1 < CIRCUIT_FAILURE_THRESHOLD && u is None,
    ensures
        !open_at(Some(failed_state(prev, now)), t),
{
}

impl CircuitBreaker {
    /// The state of every server, as a function of its base URL.
    pub open spec fn state(&self, base: Seq<char>) -> Option<(u32, Option<u64>)> {
        lookup_circuit(self.entries@, base)
    }

    /// Each server has at most one entry.
    pub open spec fn wf(&self) -> bool {
        forall|i: int, j: int|
            0 <= i < j < self.entries@.len() ==> (#[trigger] self.entries@[i]).base@ != (
            #[trigger] self.entries@[j]).base@
    }

    /// No server has failed yet.
    pub fn new() -> (r: Self)
        ensures
            r.wf(),
            forall|b: Seq<char>| r.state(b) is None,
    {
        CircuitBreaker { entries: Vec::new() }
    }

    fn find(&self, base: &str) -> (r: Option<usize>)
        ensures
            match r {
                Some(i) => circuit_index(self.entries@, base@) == Some(i as int),
                None => circuit_index(self.entries@, base@) is None,
            },
            r matches Some(i) ==> i < self.entries@.len(),
    {
        proof {
            lemma_circuit_index(self.entries@, base@);
        }
        let mut i: usize = 0;
        while i < self.entries.len()
            invariant
                i <= self.entries@.len(),
                forall|j: int| 0 <= j < i ==> self.entries@[j].base@ != base@,
                match circuit_index(self.entries@, base@) {
                    Some(k) => 0 <= k < self.entries@.len() && self.entries@[k].base@ == base@ && forall|j: int|
                        0 <= j < k ==> self.entries@[j].base@ != base@,
                    None => forall|j: int| 0 <= j < self.entries@.len() ==> self.entries@[j].base@ != base@,
                },
            decreases self.entries.len() - i,
        {
            if crate::json::string_eq_chars(&self.entries[i].base, base) {
                proof {
                    match circuit_index(self.entries@, base@) {
                        Some(k) => {
                            if k < i {
                            } else if k > i {
                                assert(self.entries@[i as int].base@ == base@);
                            }
                        },
                        None => {
                            assert(self.entries@[i as int].base@ == base@);
                        },
                    }
                }
                return Some(i);
            }
            i = i + 1;
        }
        None
    }

    /// Whether a server's circuit is open at `now`: it has an end time later than `now`.
    pub fn is_open(&self, base: &str, now: u64) -> (r: bool)
        ensures
            r == open_at(self.state(base@), now),
    {
        proof {
            lemma_circuit_index(self.entries@, base@);
        }
        match self.find(base) {
            Some(i) => {
                assert(self.state(base@) == Some(
                    (self.entries@[i as int].failures, self.entries@[i as int].open_until),
                ));
                match self.entries[i].open_until {
                    Some(until) => now < until,
                    None => false,
                }
            },
            None => false,
        }
    }

    /// A success on a server forgets its failures and closes its circuit.
    pub fn record_success(&mut self, base: &str)
        requires
            old(self).wf(),
        ensures
            final(self).wf(),
            final(self).state(base@) is None,
            forall|b: Seq<char>| b != base@ ==> final(self).state(b) == old(self).state(b),
    {
        proof {
            lemma_circuit_index(self.entries@, base@);
        }
        match self.find(base) {
            Some(i) => {
                let ghost es = self.entries@;
                proof {
                    assert(es[i as int].base@ == base@);
                    assert forall|k: int| 0 <= k < es.remove(i as int).len() implies es.remove(i as int)[k].base@ != base@ by {
                        if k < i {
                            assert(es.remove(i as int)[k] == es[k]);
                        } else {
                            assert(es.remove(i as int)[k] == es[k + 1]);
                            assert(old(self).entries@[i as int].base@ != old(self).entries@[k + 1].base@);
                        }
                    }
                    lemma_circuit_index(es.remove(i as int), base@);
                }
                self.entries.remove(i);
                proof {
                    assert(self.entries@ == es.remove(i as int));
                    assert forall|b: Seq<char>| b != base@ implies #[trigger] lookup_circuit(self.entries@, b) == lookup_circuit(es, b) by {
                        lemma_lookup_remove(es, i as int, b);
                    }
                    assert forall|x: int, y: int| 0 <= x < y < self.entries@.len() implies (#[trigger] self.entries@[x]).base@ != (#[trigger] self.entries@[y]).base@ by {
                        let xx = if x < i { x } else { x + 1 };
                        let yy = if y < i { y } else { y + 1 };
                        assert(self.entries@[x] == es[xx]);
                        assert(self.entries@[y] == es[yy]);
                    }
                }
            },
            None => {},
        }
    }

    /// A failure on a server at `now` counts one more failure; from the threshold on, each
    /// failure opens its circuit until `now` plus the cooldown.
    pub fn record_failure(&mut self, base: &str, now: u64)
        requires
            old(self).wf(),
            now + CIRCUIT_COOLDOWN_NANOS <= u64::MAX,
            old(self).state(base@) matches Some((f, _)) ==> f < u32::MAX,
        ensures
            final(self).wf(),
            final(self).state(base@) == Some(failed_state(old(self).state(base@), now)),
            forall|b: Seq<char>| b != base@ ==> final(self).state(b) == old(self).state(b),
    {
        proof {
            lemma_circuit_index(self.entries@, base@);
        }
        let ghost es = self.entries@;
        match self.find(base) {
            Some(i) => {
                assert(self.state(base@) == Some(
                    (self.entries@[i as int].failures, self.entries@[i as int].open_until),
                ));
                let f = self.entries[i].failures + 1;
                let until = if f >= CIRCUIT_FAILURE_THRESHOLD {
                    Some(now + CIRCUIT_COOLDOWN_NANOS)
                } else {
                    self.entries[i].open_until
                };
                let e = CircuitEntry { base: String::from_str(base), failures: f, open_until: until };
                let ghost ev = e;
                self.entries.set(i, e);
                proof {
                    assert(self.entries@ == es.update(i as int, ev));
                    assert forall|b: Seq<char>| b != base@ implies #[trigger] lookup_circuit(self.entries@, b) == lookup_circuit(es, b) by {
                        lemma_lookup_other(es, i as int, ev, b);
                    }
                    lemma_circuit_index(self.entries@, base@);
                    assert forall|j: int| 0 <= j < i implies self.entries@[j].base@ != base@ by {
                        assert(self.entries@[j] == es[j]);
                    }
                    assert(self.entries@[i as int] == ev);
                    assert(ev.base@ == base@);
                    match circuit_index(self.entries@, base@) {
                        Some(k) => {
                            if k < i {
                                assert(self.entries@[k].base@ != base@);
                            } else if k > i {
                                assert(self.entries@[i as int].base@ != base@);
                            }
                            assert(k == i);
                        },
                        None => {
                            assert(self.entries@[i as int].base@ != base@);
                        },
                    }
                    assert(self.state(base@) == Some((f, until)));
                    assert forall|x: int, y: int| 0 <= x < y < self.entries@.len() implies (#[trigger] self.entries@[x]).base@ != (#[trigger] self.entries@[y]).base@ by {
                        if x != i && y != i {
                            assert(self.entries@[x] == es[x] && self.entries@[y] == es[y]);
                        } else if x == i {
                            assert(self.entries@[y] == es[y]);
                        } else {
                            assert(self.entries@[x] == es[x]);
                        }
                    }
                }
            },
            None => {
                let until = if 1 >= CIRCUIT_FAILURE_THRESHOLD {
                    Some(now + CIRCUIT_COOLDOWN_NANOS)
                } else {
                    None
                };
                let e = CircuitEntry { base: String::from_str(base), failures: 1, open_until: until };
                let ghost ev = e;
                self.entries.push(e);
                proof {
                    assert(self.entries@ == es.push(ev));
                    assert forall|b: Seq<char>| #[trigger] lookup_circuit(self.entries@, b) == (if b == base@ {
                        Some((1u32, until))
                    } else {
                        lookup_circuit(es, b)
                    }) by {
                        lemma_lookup_push(es, ev, b);
                    }
                    assert forall|x: int, y: int| 0 <= x < y < self.entries@.len() implies (#[trigger] self.entries@[x]).base@ != (#[trigger] self.entries@[y]).base@ by {
                        assert(self.entries@[x] == es[x]);
                        if y < es.len() {
                            assert(self.entries@[y] == es[y]);
                        }
                    }
                }
            },
        }
    }
}

/// The error of an attempt on a server whose circuit is open.
pub fn circuit_open_error() -> (r: String)
    ensures
        r@ == "model temporarily unavailable (circuit open for 30s)"@,
{
    String::from_str("model temporarily unavailable (circuit open for 30s)")
}

/// The error of a server that answered with an unsuccessful status.
pub fn api_error(status: &str, body: &str) -> (r: String)
    ensures
        r@ == "Local API error "@ + status@ + ": "@ + body@,
{
    let mut v = text::lit("Local API error ");
    text::push_str(&mut v, status);
    text::push_str(&mut v, ": ");
    text::push_str(&mut v, body);
    text::string_of(&v)
}

} // verus!
