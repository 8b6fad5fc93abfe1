//! Scheduled alarms: when an alarm fires, which alarms are due, and the schedule
//! tool's requests and replies. Reading and writing the SQLite table is left to the caller.
use vstd::prelude::*;
use crate::text;
use crate::json::{self, JsonValue};

verus! {

/// One scheduled alarm as stored.
pub struct ScheduledRow {
    pub id: i64,
    pub fire_at: String,
    pub prompt: String,
    pub context: Option<String>,
    pub fired: i64,
}

/// `str::parse::<i64>`: an optional sign, then one or more ASCII digits, in range.
pub open spec fn parse_i64(s: Seq<char>) -> Option<i64> {
    if s.len() > 0 && s[0] == '-' {
        let d = s.drop_first();
        if d.len() > 0 && d[0] == '+' {
            None
        } else {
            match crate::cli::parse_u64(d) {
                Some(n) => if n <= 0x8000_0000_0000_0000 {
                    Some((-(n as int)) as i64)
                } else {
                    None
                },
                None => None,
            }
        }
    } else {
        match crate::cli::parse_u64(s) {
            Some(n) => if n <= i64::MAX {
                Some(n as i64)
            } else {
                None
            },
            None => None,
        }
    }
}

pub fn parse_i64_exec(s: &Vec<char>) -> (r: Option<i64>)
    ensures
        r == parse_i64(s@),
{
    if s.len() > 0 && s[0] == '-' {
        let d = text::sub_vec(s, 1, s.len());
        assert(d@ =~= s@.drop_first());
        if d.len() > 0 && d[0] == '+' {
            return None;
        }
        let ds = text::string_of(&d);
        match crate::cli::parse_u64_exec(ds.as_str()) {
            Some(n) => if n <= 0x8000_0000_0000_0000u64 {
                if n == 0x8000_0000_0000_0000u64 {
                    Some(i64::MIN)
                } else {
                    Some(-(n as i64))
                }
            } else {
                None
            },
            None => None,
        }
    } else {
        let ss = text::string_of(s);
        match crate::cli::parse_u64_exec(ss.as_str()) {
            Some(n) => if n <= i64::MAX as u64 {
                Some(n as i64)
            } else {
                None
            },
            None => None,
        }
    }
}

/// `s` with trailing characters `c` removed (`trim_end_matches(c)`).
pub open spec fn trim_end_char(s: Seq<char>, c: char) -> Seq<char>
    decreases s.len(),
{
    if s.len() > 0 && s.last() == c {
        trim_end_char(s.drop_last(), c)
    } else {
        s
    }
}

pub fn trim_end_char_exec(s: &Vec<char>, c: char) -> (r: Vec<char>)
    ensures
        r@ == trim_end_char(s@, c),
{
    let mut b = s.len();
    assert(s@.take(b as int) =~= s@);
    while b > 0 && s[b - 1] == c
        invariant
            b <= s.len(),
            trim_end_char(s@, c) == trim_end_char(s@.take(b as int), c),
        decreases b,
    {
        assert(s@.take(b as int).drop_last() =~= s@.take(b - 1));
        b = b - 1;
    }
    let r = text::sub_vec(s, 0, b);
    assert(r@ =~= s@.take(b as int));
    r
}

/// A relative amount in `unit`: the number before the unit letter(s).
pub open spec fn relative_amount(lower: Seq<char>, unit: char) -> Option<i64> {
    parse_i64(text::trim(trim_end_char(lower, unit)))
}

/// When an alarm fires, in epoch seconds: an integer is taken as is; an RFC 3339
/// date-time is converted; `Nh`, `Nd`, `Nm` (any case) count from `now`. The result as a
/// mathematical integer, or the error.
pub open spec fn fire_at_time(s: Seq<char>, now: i64) -> Result<int, Seq<char>> {
    let t = text::trim(s);
    if t.len() == 0 {
        Err("fire_at is empty"@)
    } else if parse_i64(t) is Some {
        Ok(parse_i64(t)->0 as int)
    } else if crate::rfc3339::rfc3339_secs(t) is Some {
        Ok(crate::rfc3339::rfc3339_secs(t)->0)
    } else {
        relative_time(text::lowercase(t), now)
    }
}

/// A relative time `Nh`, `Nd` or `Nm` (already trimmed and lower-cased) counted from
/// `now`, or the error.
pub open spec fn relative_time(lower: Seq<char>, now: i64) -> Result<int, Seq<char>> {
    if text::ends_with(lower, "h"@) {
        match relative_amount(lower, 'h') {
            Some(n) => Ok(now + n * 3600),
            None => Err("fire_at: expected number before 'h' (e.g. 4h)"@),
        }
    } else if text::ends_with(lower, "d"@) {
        match relative_amount(lower, 'd') {
            Some(n) => Ok(now + n * 86400),
            None => Err("fire_at: expected number before 'd' (e.g. 2d)"@),
        }
    } else if text::ends_with(lower, "m"@) {
        match relative_amount(lower, 'm') {
            Some(n) => Ok(now + n * 60),
            None => Err("fire_at: expected number before 'm' (e.g. 30m)"@),
        }
    } else {
        Err("fire_at: use unix timestamp (seconds) or relative: 4h, 2d, 30m"@)
    }
}

pub open spec fn fits_i64(x: int) -> bool {
    i64::MIN <= x <= i64::MAX
}

fn relative_exec(lower: &Vec<char>, unit: char, scale: i64, now: i64) -> (r: Option<Option<i64>>)
    requires
        0 < scale <= 86400,
    ensures
        match relative_amount(lower@, unit) {
            None => r == Some(None::<i64>),
            Some(n) => if fits_i64(now + n * scale) {
                r == Some(Some((now + n * scale) as i64))
            } else {
                r is None
            },
        },
{
    let cut = trim_end_char_exec(lower, unit);
    let t = text::trim_vec(&cut);
    match parse_i64_exec(&t) {
        None => Some(None),
        Some(n) => {
            assert(-0x8000_0000_0000_0000 * 86400 <= n * scale <= 0x8000_0000_0000_0000 * 86400) by (nonlinear_arith)
                requires
                    -0x8000_0000_0000_0000 <= n <= 0x7fff_ffff_ffff_ffff,
                    0 < scale <= 86400,
            ;
            let prod = (n as i128) * (scale as i128);
            let total = (now as i128) + prod;
            if total < i64::MIN as i128 || total > i64::MAX as i128 {
                None
            } else {
                Some(Some(total as i64))
            }
        },
    }
}

/// When an alarm given as `s` fires (see `fire_at_time`). `None` when the relative time
/// does not fit in an `i64` (where the arithmetic would overflow).
pub fn parse_fire_at(s: &str, now: i64) -> (r: Option<Result<i64, String>>)
    ensures
        match fire_at_time(s@, now) {
            Ok(x) => if fits_i64(x) {
                r matches Some(Ok(v)) && v == x
            } else {
                r is None
            },
            Err(e) => r matches Some(Err(m)) && m@ == e,
        },
{
    let t = text::trim_str(s);
    if t.len() == 0 {
        return Some(Err(String::from_str("fire_at is empty")));
    }
    match parse_i64_exec(&t) {
        Some(n) => return Some(Ok(n)),
        None => {},
    }
    match crate::rfc3339::parse_rfc3339(&t) {
        Some(v) => return Some(Ok(v)),
        None => {},
    }
    let lower = text::lowercase_vec(&t);
    parse_relative(text::string_of(&lower).as_str(), now)
}

/// When an alarm given as a relative time (trimmed and lower-cased) fires. `None` when it
/// does not fit in an `i64`.
pub fn parse_relative(lower: &str, now: i64) -> (r: Option<Result<i64, String>>)
    ensures
        match relative_time(lower@, now) {
            Ok(x) => if fits_i64(x) {
                r matches Some(Ok(v)) && v == x
            } else {
                r is None
            },
            Err(e) => r matches Some(Err(m)) && m@ == e,
        },
{
    let lower = text::chars_of(lower);
    if text::ends_with_exec(&lower, &text::lit("h")) {
        return match relative_exec(&lower, 'h', 3600, now) {
            None => None,
            Some(Some(v)) => Some(Ok(v)),
            Some(None) => Some(Err(String::from_str("fire_at: expected number before 'h' (e.g. 4h)"))),
        };
    }
    if text::ends_with_exec(&lower, &text::lit("d")) {
        return match relative_exec(&lower, 'd', 86400, now) {
            None => None,
            Some(Some(v)) => Some(Ok(v)),
            Some(None) => Some(Err(String::from_str("fire_at: expected number before 'd' (e.g. 2d)"))),
        };
    }
    if text::ends_with_exec(&lower, &text::lit("m")) {
        return match relative_exec(&lower, 'm', 60, now) {
            None => None,
            Some(Some(v)) => Some(Ok(v)),
            Some(None) => Some(Err(String::from_str("fire_at: expected number before 'm' (e.g. 30m)"))),
        };
    }
    Some(Err(String::from_str("fire_at: use unix timestamp (seconds) or relative: 4h, 2d, 30m")))
}

/// The pending alarms: those not yet fired, in the order given.
pub open spec fn pending(rows: Seq<ScheduledRow>) -> Seq<ScheduledRow> {
    rows.filter(|r: ScheduledRow| r.fired == 0)
}

/// The alarms a listing shows: all of them with `include_fired`, else the pending ones
/// (rows in the order the caller sorted them by `fire_at`).
pub fn schedule_list(rows: Vec<ScheduledRow>, include_fired: bool) -> (r: Vec<ScheduledRow>)
    ensures
        r@ == if include_fired {
            rows@
        } else {
            pending(rows@)
        },
{
    if include_fired {
        return rows;
    }
    let ghost orig = rows@;
    let ghost pred = |r: ScheduledRow| r.fired == 0;
    let mut rows = rows;
    let mut kept_rev: Vec<ScheduledRow> = Vec::new();
    while rows.len() > 0
        invariant
            rows@ == orig.take(rows@.len() as int),
            rows@.len() <= orig.len(),
            pred == (|r: ScheduledRow| r.fired == 0),
            orig.filter(pred) == rows@.filter(pred) + kept_rev@.reverse(),
        decreases rows@.len(),
    {
        let ghost before = rows@;
        let t = rows.pop().unwrap();
        assert(before.drop_last() =~= rows@);
        assert(rows@ =~= orig.take(rows@.len() as int));
        reveal_with_fuel(Seq::filter, 1);
        let ghost kr = kept_rev@;
        if t.fired == 0 {
            kept_rev.push(t);
            assert(kept_rev@.reverse() =~= seq![t] + kr.reverse());
            assert(before.filter(pred) == rows@.filter(pred).push(t));
            assert(orig.filter(pred) =~= rows@.filter(pred) + kept_rev@.reverse());
        } else {
            assert(before.filter(pred) == rows@.filter(pred));
        }
    }
    assert(rows@.filter(pred) =~= Seq::<ScheduledRow>::empty());
    let mut out: Vec<ScheduledRow> = Vec::new();
    while kept_rev.len() > 0
        invariant
            orig.filter(pred) == out@ + kept_rev@.reverse(),
        decreases kept_rev@.len(),
    {
        let ghost kr = kept_rev@;
        let t = kept_rev.pop().unwrap();
        assert(kr.reverse() =~= seq![t] + kept_rev@.reverse());
        out.push(t);
        assert(orig.filter(pred) =~= out@ + kept_rev@.reverse());
    }
    assert(out@ =~= orig.filter(pred));
    out
}

/// A stored alarm with its time read as an integer (`CAST(fire_at AS INTEGER)`, as the
/// database computes it).
pub struct DueCandidate {
    pub row: ScheduledRow,
    pub fire_at_secs: i64,
}

/// Alarm that is due: not yet fired, with its time at or before `now`.
pub open spec fn is_due(c: DueCandidate, now: i64) -> bool {
    c.row.fired == 0 && c.fire_at_secs <= now
}

/// The alarms that are due, in their order.
pub open spec fn due_rows(cs: Seq<DueCandidate>, now: i64) -> Seq<DueCandidate> {
    cs.filter(|x: DueCandidate| is_due(x, now))
}

/// The heartbeat gets only alarms whose time has come and that have not fired; once an
/// alarm is marked fired it is never due again.
pub proof fn lemma_due_alarms(cs: Seq<DueCandidate>, now: i64)
    ensures
        forall|i: int|
            0 <= i < due_rows(cs, now).len() ==> (#[trigger] due_rows(cs, now)[i]).row.fired == 0
                && due_rows(cs, now)[i].fire_at_secs <= now,
        forall|c: DueCandidate, t: i64| c.row.fired != 0 ==> !#[trigger] is_due(c, t),
{
    let pred = |x: DueCandidate| is_due(x, now);
    assert forall|i: int| 0 <= i < due_rows(cs, now).len() implies (#[trigger] due_rows(
        cs,
        now,
    )[i]).row.fired == 0 && due_rows(cs, now)[i].fire_at_secs <= now by {
        cs.lemma_filter_pred(pred, i);
    }
}

/// What a due alarm hands to the heartbeat: id, prompt, context ("" when absent).
pub open spec fn due_item(c: DueCandidate) -> (i64, Seq<char>, Seq<char>) {
    (c.row.id, c.row.prompt@, crate::memory::or_empty(crate::task::opt_seq(c.row.context)))
}

/// The due alarms among `cs` (given in `fire_at` order), as `(id, prompt, context)`.
pub fn schedule_due(cs: Vec<DueCandidate>, now: i64) -> (r: Vec<(i64, String, String)>)
    ensures
        r@.map_values(|x: (i64, String, String)| (x.0, x.1@, x.2@)) == due_rows(cs@, now).map_values(
            |x: DueCandidate| due_item(x),
        ),
{
    let ghost pred = |x: DueCandidate| is_due(x, now);
    let ghost rs = cs@;
    let mut out: Vec<(i64, String, String)> = Vec::new();
    let mut i: usize = 0;
    while i < cs.len()
        invariant
            i <= cs.len(),
            rs == cs@,
            pred == (|x: DueCandidate| is_due(x, now)),
            out@.map_values(|x: (i64, String, String)| (x.0, x.1@, x.2@)) == rs.take(
                i as int,
            ).filter(pred).map_values(|x: DueCandidate| due_item(x)),
        decreases cs.len() - i,
    {
        assert(rs.take(i + 1).drop_last() =~= rs.take(i as int));
        reveal_with_fuel(Seq::filter, 1);
        let c = &cs[i];
        let ghost before = out@.map_values(|x: (i64, String, String)| (x.0, x.1@, x.2@));
        let due = c.row.fired == 0 && c.fire_at_secs <= now;
        assert(due == pred(rs[i as int]));
        if due {
            let ctx = match &c.row.context {
                Some(x) => x.clone(),
                None => String::new(),
            };
            out.push((c.row.id, c.row.prompt.clone(), ctx));
            assert(out@.map_values(|x: (i64, String, String)| (x.0, x.1@, x.2@)) =~= before.push(
                due_item(rs[i as int]),
            ));
            assert(rs.take(i + 1).filter(pred) == rs.take(i as int).filter(pred).push(rs[i as int]));
        } else {
            assert(rs.take(i + 1).filter(pred) == rs.take(i as int).filter(pred));
        }
        i = i + 1;
    }
    assert(rs.take(cs@.len() as int) =~= rs);
    out
}

/// Schedule tool requests.
pub enum ScheduleRequest {
    Create { fire_at: String, prompt: String, context: Option<String> },
    List { include_fired: bool },
    Cancel { id: i64 },
}

/// What the schedule tool is asked to do (`Ok`), or the error for the user.
pub open spec fn schedule_request_ok(input: JsonValue, r: ScheduleRequest) -> bool {
    schedule_request_ok_with(input, crate::task::action_of(input), r)
}

/// The same, given the input's lower-cased, trimmed action.
pub open spec fn schedule_request_ok_with(input: JsonValue, action: Option<Seq<char>>, r: ScheduleRequest) -> bool {
    let a = action->0;
    match r {
        ScheduleRequest::Create { fire_at, prompt, context } => {
            &&& a == "create"@
            &&& (json::str_field(input, "fire_at"@) matches Some(f) && fire_at@ == text::trim(f))
            &&& (json::str_field(input, "prompt"@) matches Some(p) && prompt@ == text::trim(p))
            &&& prompt@.len() > 0
            &&& crate::task::opt_seq(context) == crate::gh::opt_trimmed(input, "context"@)
        },
        ScheduleRequest::List { include_fired } => {
            &&& a == "list"@
            &&& include_fired == match json::as_bool(json::get(input, "include_fired"@)) {
                Some(b) => b,
                None => false,
            }
        },
        ScheduleRequest::Cancel { id } => {
            &&& a == "cancel"@
            &&& json::as_i64(json::get(input, "id"@)) == Some(id)
        },
    }
}

/// Whether an input names a schedule request that can be carried out.
pub open spec fn schedule_request_valid(input: JsonValue) -> bool {
    schedule_request_valid_with(input, crate::task::action_of(input))
}

/// The same, given the input's lower-cased, trimmed action.
pub open spec fn schedule_request_valid_with(input: JsonValue, action: Option<Seq<char>>) -> bool {
    match action {
        None => false,
        Some(a) => if a == "create"@ {
            &&& json::str_field(input, "fire_at"@) is Some
            &&& json::str_field(input, "prompt"@) matches Some(p)
            &&& text::trim(p).len() > 0
        } else if a == "list"@ {
            true
        } else if a == "cancel"@ {
            json::as_i64(json::get(input, "id"@)) is Some
        } else {
            false
        },
    }
}

/// The error for an input that names no valid schedule request.
pub open spec fn schedule_request_err(input: JsonValue) -> Seq<char> {
    schedule_request_err_with(input, crate::task::action_of(input))
}

/// The same, given the input's lower-cased, trimmed action.
pub open spec fn schedule_request_err_with(input: JsonValue, action: Option<Seq<char>>) -> Seq<char> {
    match action {
        None => "missing action"@,
        Some(a) => if a == "create"@ {
            match json::str_field(input, "fire_at"@) {
                None => "create requires fire_at"@,
                Some(_) => match json::str_field(input, "prompt"@) {
                    None => "create requires prompt"@,
                    Some(_) => "prompt is empty"@,
                },
            }
        } else if a == "list"@ {
            Seq::empty()
        } else if a == "cancel"@ {
            "cancel requires id"@
        } else {
            "action must be create, list, or cancel"@
        },
    }
}

/// Sets alarms that become the next session prompt.
pub struct ScheduleTool;

impl ScheduleTool {
    /// Decodes a schedule tool input.
    pub fn request(input: &JsonValue) -> (r: Result<ScheduleRequest, String>)
        ensures
            match r {
                Ok(req) => schedule_request_ok(*input, req),
                Err(e) => e@ == schedule_request_err(*input),
            },
            r is Ok <==> schedule_request_valid(*input),
    {
        match crate::task::action_exec(input) {
            Some(a) => Self::request_with_action(input, Some(text::string_of(&a).as_str())),
            None => Self::request_with_action(input, None),
        }
    }

    /// Decodes a schedule tool input whose action, lower-cased and trimmed, is `action`.
    pub fn request_with_action(input: &JsonValue, action: Option<&str>) -> (r: Result<ScheduleRequest, String>)
        ensures
            match r {
                Ok(req) => schedule_request_ok_with(*input, crate::github::opt_view(action), req),
                Err(e) => e@ == schedule_request_err_with(*input, crate::github::opt_view(action)),
            },
            r is Ok <==> schedule_request_valid_with(*input, crate::github::opt_view(action)),
    {
        let a = match action {
            Some(a) => text::chars_of(a),
            None => return Err(String::from_str("missing action")),
        };
        if text::is_lit(&a, "create") {
            let f = match input.str_field("fire_at") {
                Some(f) => f,
                None => return Err(String::from_str("create requires fire_at")),
            };
            let p = match input.str_field("prompt") {
                Some(p) => p,
                None => return Err(String::from_str("create requires prompt")),
            };
            let prompt = text::trim_str(p.as_str());
            if prompt.len() == 0 {
                return Err(String::from_str("prompt is empty"));
            }
            let fire_at = text::trim_str(f.as_str());
            let context = match input.str_field("context") {
                Some(c) => {
                    let t = text::trim_str(c.as_str());
                    if t.len() > 0 {
                        Some(text::string_of(&t))
                    } else {
                        None
                    }
                },
                None => None,
            };
            return Ok(
                ScheduleRequest::Create {
                    fire_at: text::string_of(&fire_at),
                    prompt: text::string_of(&prompt),
                    context,
                },
            );
        }
        if text::is_lit(&a, "list") {
            let include_fired = match input.bool_field("include_fired") {
                Some(b) => b,
                None => false,
            };
            return Ok(ScheduleRequest::List { include_fired });
        }
        if text::is_lit(&a, "cancel") {
            let id = match input.i64_field("id") {
                Some(id) => id,
                None => return Err(String::from_str("cancel requires id")),
            };
            return Ok(ScheduleRequest::Cancel { id });
        }
        Err(String::from_str("action must be create, list, or cancel"))
    }

    /// `Scheduled id {id} to fire at {fire_at} (prompt: {prompt cut at 60 bytes}).`
    pub fn created(id: i64, fire_at: &str, prompt: &str) -> (r: String)
        requires
            text::can_cut(prompt@, 60),
        ensures
            r@ == "Scheduled id "@ + text::decimal_i(id as int) + " to fire at "@ + fire_at@
                + " (prompt: "@ + text::cut_bytes(prompt@, 60) + ")."@,
    {
        let mut v = text::lit("Scheduled id ");
        text::push_decimal_i64(&mut v, id);
        text::push_str(&mut v, " to fire at ");
        text::push_str(&mut v, fire_at);
        text::push_str(&mut v, " (prompt: ");
        let p = text::cut_bytes_exec(&text::chars_of(prompt), 60);
        text::push_vec(&mut v, &p);
        text::push_str(&mut v, ").");
        text::string_of(&v)
    }

    /// The listing reply: one line per alarm, or `No scheduled items.`.
    pub fn list_reply(rows: &Vec<ScheduledRow>) -> (r: String)
        requires
            forall|i: int| 0 <= i < rows@.len() ==> text::can_cut(#[trigger] rows@[i].prompt@, 50),
        ensures
            r@ == if rows@.len() == 0 {
                "No scheduled items."@
            } else {
                text::join(rows@.map_values(|x: ScheduledRow| schedule_line(x)), seq!['\n'])
            },
    {
        if rows.len() == 0 {
            return String::from_str("No scheduled items.");
        }
        let mut lines: Vec<Vec<char>> = Vec::new();
        let mut i: usize = 0;
        while i < rows.len()
            invariant
                i <= rows.len(),
                forall|i: int| 0 <= i < rows@.len() ==> text::can_cut(#[trigger] rows@[i].prompt@, 50),
                lines@.len() == i,
                forall|k: int| 0 <= k < i ==> #[trigger] lines@[k]@ == schedule_line(rows@[k]),
            decreases rows.len() - i,
        {
            let r = &rows[i];
            let mut v = text::lit("id=");
            text::push_decimal_i64(&mut v, r.id);
            text::push_str(&mut v, " | fire_at=");
            text::push_str(&mut v, r.fire_at.as_str());
            text::push_str(&mut v, " | ");
            assert(text::can_cut(rows@[i as int].prompt@, 50));
            let p = text::cut_bytes_exec(&text::chars_of(r.prompt.as_str()), 50);
            text::push_vec(&mut v, &p);
            text::push_str(&mut v, " | context=");
            match &r.context {
                Some(c) => text::push_str(&mut v, c.as_str()),
                None => {},
            }
            if r.fired != 0 {
                text::push_str(&mut v, " [fired]");
            }
            assert(v@ =~= schedule_line(rows@[i as int]));
            lines.push(v);
            i = i + 1;
        }
        let nl = vec!['\n'];
        assert(nl@ =~= seq!['\n']);
        let j = text::join_exec(&lines, &nl);
        assert(lines@.map_values(|p: Vec<char>| p@) =~= rows@.map_values(
            |x: ScheduledRow| schedule_line(x),
        ));
        text::string_of(&j)
    }

    /// `Cancelled schedule {id}.` or `Schedule id {id} not found.`
    pub fn cancelled(ok: bool, id: i64) -> (r: Result<String, String>)
        ensures
            ok ==> (r matches Ok(m) && m@ == "Cancelled schedule "@ + text::decimal_i(id as int) + "."@),
            !ok ==> (r matches Err(m) && m@ == "Schedule id "@ + text::decimal_i(id as int) + " not found."@),
    {
        if ok {
            let mut v = text::lit("Cancelled schedule ");
            text::push_decimal_i64(&mut v, id);
            text::push_str(&mut v, ".");
            Ok(text::string_of(&v))
        } else {
            let mut v = text::lit("Schedule id ");
            text::push_decimal_i64(&mut v, id);
            text::push_str(&mut v, " not found.");
            Err(text::string_of(&v))
        }
    }
}

/// `id={id} | fire_at={fire_at} | {prompt cut at 50 bytes} | context={context}[ [fired]]`
pub open spec fn schedule_line(r: ScheduledRow) -> Seq<char> {
    "id="@ + text::decimal_i(r.id as int) + " | fire_at="@ + r.fire_at@ + " | "@ + text::cut_bytes(
        r.prompt@,
        50,
    ) + " | context="@ + crate::memory::or_empty(crate::task::opt_seq(r.context)) + if r.fired
        != 0 {
        " [fired]"@
    } else {
        Seq::empty()
    }
}

} // verus!
