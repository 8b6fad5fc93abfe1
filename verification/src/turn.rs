//! One chat turn: which messages are answered, the per-channel rate limit, the message
//! the agent is given, how its reasoning is stripped from the reply, what is sent back,
//! and which tools the agent gets. Talking to Discord and running the agent is left to
//! the caller.
use vstd::prelude::*;
use crate::text;
use crate::github::opt_view;
use crate::repo_tools::str_lines;

verus! {

// ---------------------------------------------------------------------------
// Reasoning blocks
// ---------------------------------------------------------------------------

/// The first character index from `i` on where `p` occurs in `s` (`str::find`).
pub open spec fn find_from(s: Seq<char>, p: Seq<char>, i: nat) -> Option<nat>
    decreases s.len() + 1 - i,
{
    if i + p.len() > s.len() {
        None
    } else if text::occurs_at(s, p, i as int) {
        Some(i)
    } else {
        find_from(s, p, i + 1)
    }
}

pub proof fn lemma_find_from(s: Seq<char>, p: Seq<char>, i: nat)
    ensures
        match find_from(s, p, i) {
            Some(k) => i <= k && k + p.len() <= s.len() && text::occurs_at(s, p, k as int) && forall|j: int|
                i <= j < k ==> !text::occurs_at(s, p, j),
            None => forall|j: int| i <= j ==> !text::occurs_at(s, p, j),
        },
    decreases s.len() + 1 - i,
{
    if i + p.len() <= s.len() && !text::occurs_at(s, p, i as int) {
        lemma_find_from(s, p, i + 1);
    }
}

pub open spec fn think_open() -> Seq<char> {
    "<think>"@
}

pub open spec fn think_close() -> Seq<char> {
    "</think>"@
}

/// Byte offset, in the lower-cased reply `low`, where its first `<think>` starts.
pub open spec fn open_byte(low: Seq<char>, a: nat) -> nat {
    text::byte_len(low.take(a as int))
}

/// Byte offset, in the lower-cased reply `low`, just past the `</think>` at character `b`.
pub open spec fn close_byte(low: Seq<char>, b: nat) -> nat {
    text::byte_len(low.take(b + 8int))
}

/// Cutting a closed block out of `out` at the byte offsets found in its lower-cased form
/// leaves fewer bytes.
pub proof fn lemma_cut_shrinks(out: Seq<char>, a: nat, b: nat)
    requires
        find_from(text::lowercase(out), think_open(), 0) == Some(a),
        find_from(text::lowercase(out), think_close(), a + 7) == Some(b),
        text::is_boundary(out, open_byte(text::lowercase(out), a)),
        text::is_boundary(out, close_byte(text::lowercase(out), b)),
    ensures
        text::byte_len(
            text::prefix_bytes(out, open_byte(text::lowercase(out), a)) + text::suffix_bytes(
                out,
                close_byte(text::lowercase(out), b),
            ),
        ) < text::byte_len(out),
{
    reveal_strlit("<think>");
    reveal_strlit("</think>");
    let low = text::lowercase(out);
    lemma_find_from(low, think_open(), 0);
    lemma_find_from(low, think_close(), a + 7);
    text::lemma_byte_len_take_mono(low, a as int, b + 8int);
    let start = open_byte(low, a);
    let end = close_byte(low, b);
    text::lemma_prefix_bytes(out, start);
    text::lemma_suffix_bytes(out, end);
    text::lemma_byte_len_concat(text::prefix_bytes(out, start), text::suffix_bytes(out, end));
}

/// The reply with its reasoning blocks removed, as `str::to_lowercase` finds them: the
/// first `<think>` of the lower-cased reply and the first `</think>` after it are found,
/// and the reply is cut at those byte offsets; an unclosed block is cut off with the
/// text after it, trailing whitespace before it trimmed. (Where lower-casing changes a
/// character's byte length, the offsets fall elsewhere in the reply than the tags.)
pub open spec fn strip_blocks(out: Seq<char>) -> Seq<char>
    decreases text::byte_len(out),
{
    let low = text::lowercase(out);
    match find_from(low, think_open(), 0) {
        None => out,
        Some(a) => match find_from(low, think_close(), a + 7) {
            Some(b) => if text::is_boundary(out, open_byte(low, a)) && text::is_boundary(
                out,
                close_byte(low, b),
            ) {
                proof {
                    lemma_cut_shrinks(out, a, b);
                }
                strip_blocks(
                    text::prefix_bytes(out, open_byte(low, a)) + text::suffix_bytes(out, close_byte(low, b)),
                )
            } else {
                out
            },
            None => text::trim_end(text::prefix_bytes(out, open_byte(low, a))),
        },
    }
}

/// Whether every cut `strip_blocks` makes falls on a character boundary of the reply
/// (slicing elsewhere panics).
pub open spec fn strip_defined(out: Seq<char>) -> bool
    decreases text::byte_len(out),
{
    let low = text::lowercase(out);
    match find_from(low, think_open(), 0) {
        None => true,
        Some(a) => match find_from(low, think_close(), a + 7) {
            Some(b) => if text::is_boundary(out, open_byte(low, a)) && text::is_boundary(
                out,
                close_byte(low, b),
            ) {
                proof {
                    lemma_cut_shrinks(out, a, b);
                }
                strip_defined(
                    text::prefix_bytes(out, open_byte(low, a)) + text::suffix_bytes(out, close_byte(low, b)),
                )
            } else {
                false
            },
            None => text::is_boundary(out, open_byte(low, a)),
        },
    }
}

/// Whether stripping ends at a `<think>` that is never closed.
pub open spec fn ends_unclosed(out: Seq<char>) -> bool
    decreases text::byte_len(out),
{
    let low = text::lowercase(out);
    match find_from(low, think_open(), 0) {
        None => false,
        Some(a) => match find_from(low, think_close(), a + 7) {
            Some(b) => if text::is_boundary(out, open_byte(low, a)) && text::is_boundary(
                out,
                close_byte(low, b),
            ) {
                proof {
                    lemma_cut_shrinks(out, a, b);
                }
                ends_unclosed(
                    text::prefix_bytes(out, open_byte(low, a)) + text::suffix_bytes(out, close_byte(low, b)),
                )
            } else {
                false
            },
            None => true,
        },
    }
}

/// Closed reasoning blocks all go: where no `<think>` is left unclosed, the text that
/// stripping leaves holds no `<think>` once lower-cased.
pub proof fn lemma_closed_blocks_removed(out: Seq<char>)
    requires
        strip_defined(out),
        !ends_unclosed(out),
    ensures
        !text::contains(text::lowercase(strip_blocks(out)), think_open()),
    decreases text::byte_len(out),
{
    let low = text::lowercase(out);
    lemma_find_from(low, think_open(), 0);
    match find_from(low, think_open(), 0) {
        None => {},
        Some(a) => match find_from(low, think_close(), a + 7) {
            Some(b) => {
                lemma_cut_shrinks(out, a, b);
                lemma_closed_blocks_removed(
                    text::prefix_bytes(out, open_byte(low, a)) + text::suffix_bytes(out, close_byte(low, b)),
                );
            },
            None => {},
        },
    }
}

/// A line of the reply is kept unless, past its leading whitespace and lower-cased, it
/// starts with `think>`.
pub open spec fn keep_line(l: Seq<char>) -> bool {
    !text::starts_with(text::lowercase(text::trim_start(l)), "think>"@)
}

/// Only the final reply: reasoning blocks and `think>` lines removed, trimmed.
pub open spec fn stripped(reply: Seq<char>) -> Seq<char> {
    text::trim(text::join(str_lines(strip_blocks(reply)).filter(|l: Seq<char>| keep_line(l)), seq!['\n']))
}

fn find_from_exec(s: &Vec<char>, p: &Vec<char>, from: usize) -> (r: Option<usize>)
    requires
        from <= s@.len(),
    ensures
        match r {
            Some(k) => find_from(s@, p@, from as nat) == Some(k as nat),
            None => find_from(s@, p@, from as nat) is None,
        },
{
    if p.len() == 0 {
        assert(s@.subrange(from as int, from as int) =~= p@);
        return Some(from);
    }
    let mut i = from;
    while i <= s.len() && p.len() <= s.len() - i
        invariant
            p@.len() > 0,
            from <= i,
            i <= s@.len() + 1,
            find_from(s@, p@, from as nat) == find_from(s@, p@, i as nat),
        decreases s.len() + 1 - i,
    {
        if text::occurs_at_exec(s, p, i) {
            return Some(i);
        }
        i = i + 1;
    }
    None
}

/// `strip_blocks`, or `None` where one of its cuts misses a character boundary.
fn strip_blocks_exec(out: Vec<char>) -> (r: Option<Vec<char>>)
    ensures
        match r {
            Some(x) => strip_defined(out@) && x@ == strip_blocks(out@),
            None => !strip_defined(out@),
        },
    decreases text::byte_len(out@),
{
    let open = text::lit("<think>");
    let close = text::lit("</think>");
    proof {
        reveal_strlit("<think>");
        reveal_strlit("</think>");
    }
    let low = text::lowercase_vec(&out);
    let ghost lw = text::lowercase(out@);
    match find_from_exec(&low, &open, 0) {
        None => Some(out),
        Some(a) => {
            proof {
                lemma_find_from(lw, think_open(), 0);
            }
            let start = text::byte_len_upto(&low, a);
            let ka = match text::split_index(&out, start) {
                Some(k) => k,
                None => {
                    return None;
                },
            };
            let ghost k0 = choose|k: int| text::splits_at_byte(out@, k, start as nat);
            proof {
                text::lemma_split_unique(out@, k0, ka as int, start as nat);
            }
            match find_from_exec(&low, &close, a + 7) {
                Some(b) => {
                    proof {
                        lemma_find_from(lw, think_close(), (a + 7) as nat);
                    }
                    let end = text::byte_len_upto(&low, b + 8);
                    let kb = match text::split_index(&out, end) {
                        Some(k) => k,
                        None => {
                            return None;
                        },
                    };
                    let ghost k1 = choose|k: int| text::splits_at_byte(out@, k, end as nat);
                    proof {
                        text::lemma_split_unique(out@, k1, kb as int, end as nat);
                        lemma_cut_shrinks(out@, a as nat, b as nat);
                    }
                    let mut t = text::sub_vec(&out, 0, ka);
                    let rest = text::sub_vec(&out, kb, out.len());
                    text::push_vec(&mut t, &rest);
                    assert(t@ =~= text::prefix_bytes(out@, start as nat) + text::suffix_bytes(out@, end as nat));
                    strip_blocks_exec(t)
                },
                None => {
                    let t = text::sub_vec(&out, 0, ka);
                    assert(t@ =~= text::prefix_bytes(out@, start as nat));
                    Some(text::trim_end_vec(&t))
                },
            }
        },
    }
}

/// Removes the `think>` lines and trims, after the blocks are gone.
fn drop_think_lines(b: &Vec<char>) -> (r: String)
    ensures
        r@ == text::trim(text::join(str_lines(b@).filter(|l: Seq<char>| keep_line(l)), seq!['\n'])),
{
    let ls = crate::repo_tools::str_lines_exec(b);
    let ghost lv = str_lines(b@);
    let ghost pred = |l: Seq<char>| keep_line(l);
    let mut kept: Vec<Vec<char>> = Vec::new();
    let mut i: usize = 0;
    while i < ls.len()
        invariant
            i <= ls.len(),
            lv == ls@.map_values(|x: Vec<char>| x@),
            pred == (|l: Seq<char>| keep_line(l)),
            kept@.map_values(|x: Vec<char>| x@) == lv.take(i as int).filter(pred),
        decreases ls.len() - i,
    {
        assert(lv.take(i + 1).drop_last() =~= lv.take(i as int));
        assert(lv.take(i + 1).last() == lv[i as int]);
        assert(lv[i as int] == ls@[i as int]@);
        reveal_with_fuel(Seq::filter, 1);
        let ghost before = kept@.map_values(|x: Vec<char>| x@);
        let lower = text::lowercase_vec(&crate::text::trim_start_vec(&ls[i]));
        let keep = !text::starts_with_exec(&lower, &text::lit("think>"));
        assert(keep == pred(lv[i as int]));
        assert(lv.take(i + 1).filter(pred) == if pred(lv[i as int]) {
            lv.take(i as int).filter(pred).push(lv[i as int])
        } else {
            lv.take(i as int).filter(pred)
        });
        if keep {
            let w = text::sub_vec(&ls[i], 0, ls[i].len());
            assert(w@ =~= ls@[i as int]@);
            kept.push(w);
            assert(kept@.map_values(|x: Vec<char>| x@) =~= before.push(lv[i as int]));
        } else {
            assert(kept@.map_values(|x: Vec<char>| x@) =~= before);
        }
        i = i + 1;
    }
    assert(lv.take(ls@.len() as int) =~= lv);
    let nl = vec!['\n'];
    assert(nl@ =~= seq!['\n']);
    let j = text::join_exec(&kept, &nl);
    text::string_of(&text::trim_vec(&j))
}

/// Strips reasoning from a model reply so only the final answer is sent. The reply must
/// be one whose cuts fall on character boundaries (`strip_defined`); `strip_thinking_checked`
/// takes any reply.
pub fn strip_thinking(reply: &str) -> (r: String)
    requires
        strip_defined(reply@),
    ensures
        r@ == stripped(reply@),
{
    match strip_blocks_exec(text::chars_of(reply)) {
        Some(b) => drop_think_lines(&b),
        None => String::new(),
    }
}

/// `strip_thinking` for any reply: `None` where a cut would miss a character boundary.
pub fn strip_thinking_checked(reply: &str) -> (r: Option<String>)
    ensures
        match r {
            Some(s) => strip_defined(reply@) && s@ == stripped(reply@),
            None => !strip_defined(reply@),
        },
{
    match strip_blocks_exec(text::chars_of(reply)) {
        Some(_) => Some(strip_thinking(reply)),
        None => None,
    }
}

// ---------------------------------------------------------------------------
// Messages in and out
// ---------------------------------------------------------------------------

/// The message to answer: the trimmed content, for a message from a person that is not
/// blank and comes in a DM or mentions the bot.
pub fn message_to_answer(author_is_bot: bool, content: &str, is_dm: bool, mentioned: bool) -> (r: Option<String>)
    ensures
        (!author_is_bot && text::trim(content@).len() > 0 && (is_dm || mentioned)) ==> (r matches Some(m)
            && m@ == text::trim(content@)),
        !(!author_is_bot && text::trim(content@).len() > 0 && (is_dm || mentioned)) ==> r is None,
{
    if author_is_bot {
        return None;
    }
    let t = text::trim_str(content);
    if t.len() == 0 {
        return None;
    }
    if !is_dm && !mentioned {
        return None;
    }
    Some(text::string_of(&t))
}

/// The message the agent is given: the recalled context, when there is any, before the
/// user's words.
pub open spec fn agent_message(context: Seq<char>, content: Seq<char>) -> Seq<char> {
    if context.len() == 0 {
        content
    } else {
        "Relevant context from memory:\n"@ + context + "\n\nUser: "@ + content
    }
}

pub fn agent_message_exec(context: &str, content: &str) -> (r: String)
    ensures
        r@ == agent_message(context@, content@),
{
    if context.is_empty() {
        return String::from_str(content);
    }
    let mut v = text::lit("Relevant context from memory:\n");
    text::push_str(&mut v, context);
    text::push_str(&mut v, "\n\nUser: ");
    text::push_str(&mut v, content);
    text::string_of(&v)
}

/// Longest reply sent as it is, in bytes.
pub const MAX_REPLY_BYTES: usize = 1990;

/// What is sent: the reply, or its first 1989 bytes and `…` when it is longer than
/// `MAX_REPLY_BYTES`.
pub open spec fn reply_sent(reply: Seq<char>) -> Seq<char> {
    if text::byte_len(reply) > 1990 {
        text::prefix_bytes(reply, 1989).push('\u{2026}')
    } else {
        reply
    }
}

/// A reply as sent fits a Discord message (2000 characters): it has at most 1990
/// characters and 1992 bytes.
pub proof fn lemma_reply_fits_discord(reply: Seq<char>)
    requires
        text::byte_len(reply) > 1990 ==> text::is_boundary(reply, 1989),
    ensures
        reply_sent(reply).len() <= 1990,
        text::byte_len(reply_sent(reply)) <= 1992,
{
    if text::byte_len(reply) > 1990 {
        text::lemma_prefix_bytes(reply, 1989);
        text::lemma_push_byte_len(text::prefix_bytes(reply, 1989), '\u{2026}');
    } else {
        text::lemma_len_le_byte_len(reply);
    }
}

/// The reply as sent; a long reply is cut at byte 1989, which must be a character boundary.
pub fn reply_to_send(reply: &str) -> (r: String)
    requires
        text::byte_len(reply@) > 1990 ==> text::is_boundary(reply@, 1989),
    ensures
        r@ == reply_sent(reply@),
{
    let v = text::chars_of(reply);
    if !text::byte_len_exceeds(&v, MAX_REPLY_BYTES) {
        return String::from_str(reply);
    }
    match text::char_index_of_byte(&v, 1989) {
        Some(k) => {
            let mut p = text::sub_vec(&v, 0, k);
            proof {
                let c = choose|c: int| text::splits_at_byte(reply@, c, 1989);
                text::lemma_split_unique(reply@, c, k as int, 1989);
                assert(p@ =~= text::prefix_bytes(reply@, 1989));
            }
            p.push('\u{2026}');
            text::string_of(&p)
        },
        None => {
            String::from_str(reply)
        },
    }
}

/// The line shown in the terminal for a reply: its length in bytes and its first 200
/// characters with newlines as spaces.
pub fn terminal_line(sent: &str) -> (r: String)
    requires
        text::byte_len(sent@) <= usize::MAX,
    ensures
        r@ == "Chump → "@ + text::decimal(text::byte_len(sent@)) + " chars: "@ + text::replace_char(
            text::take_chars(sent@, 200),
            '\n',
            seq![' '],
        ),
{
    let v = text::chars_of(sent);
    let n = text::byte_len_exec(&v);
    let mut out = text::lit("Chump → ");
    text::push_decimal(&mut out, n as u64);
    text::push_str(&mut out, " chars: ");
    let head = text::take_chars_exec(&v, 200);
    let sp = vec![' '];
    assert(sp@ =~= seq![' ']);
    let p = text::replace_char_exec(&head, '\n', &sp);
    text::push_vec(&mut out, &p);
    text::string_of(&out)
}

/// The reply when the turn fails.
pub fn error_reply(e: &str) -> (r: String)
    ensures
        r@ == "Error: "@ + e@,
{
    let mut v = text::lit("Error: ");
    text::push_str(&mut v, e);
    text::string_of(&v)
}

pub fn paused_reply() -> (r: String)
    ensures
        r@ == "I'm paused."@,
{
    String::from_str("I'm paused.")
}

pub fn rate_limited_reply() -> (r: String)
    ensures
        r@ == "Rate limited; try again in a minute."@,
{
    String::from_str("Rate limited; try again in a minute.")
}

pub fn at_capacity_reply() -> (r: String)
    ensures
        r@ == "I'm at capacity; try again in a moment."@,
{
    String::from_str("I'm at capacity; try again in a moment.")
}

pub fn warming_reply() -> (r: String)
    ensures
        r@ == "Ovens are warming up — give it a minute and try again."@,
{
    String::from_str("Ovens are warming up — give it a minute and try again.")
}

/// The direct message sent when the bot is ready.
pub fn ready_message(fully_armored: bool) -> (r: String)
    ensures
        fully_armored ==> r@
            == "Chump is fully armored and ready. Resilience (retry, fallback, circuit breaker), observability (structured log, request_id, health), security (redaction, input caps, rate limit), kill switch, and capacity (concurrent turns, batch delegate) are in place. You can dogfood and self-improve."@,
        !fully_armored ==> r@
            == "Chump is online and ready to chat. I have web search (Tavily) for research and self-improvement; I'll use memory to remember what we discuss."@,
{
    if fully_armored {
        String::from_str(
            "Chump is fully armored and ready. Resilience (retry, fallback, circuit breaker), observability (structured log, request_id, health), security (redaction, input caps, rate limit), kill switch, and capacity (concurrent turns, batch delegate) are in place. You can dogfood and self-improve.",
        )
    } else {
        String::from_str(
            "Chump is online and ready to chat. I have web search (Tavily) for research and self-improvement; I'll use memory to remember what we discuss.",
        )
    }
}

/// The owner to notify, from `CHUMP_READY_DM_USER_ID` (trimmed, a number).
pub fn dm_user_id(env: Option<&str>) -> (r: Option<u64>)
    ensures
        r == match opt_view(env) {
            Some(s) => crate::cli::parse_u64(text::trim(s)),
            None => None,
        },
{
    match env {
        Some(s) => crate::cli::parse_u64_exec(text::string_of(&text::trim_str(s)).as_str()),
        None => None,
    }
}

// ---------------------------------------------------------------------------
// Limits on turns
// ---------------------------------------------------------------------------

/// `CHUMP_RATE_LIMIT_TURNS_PER_MIN`: turns per channel per minute, 0 (no limit) when
/// unset or not a number.
pub fn rate_limit_turns_per_min(env: Option<&str>) -> (r: u32)
    ensures
        r == match opt_view(env) {
            Some(s) => match crate::cli::parse_u64(s) {
                Some(n) => if n <= u32::MAX {
                    n as u32
                } else {
                    0
                },
                None => 0,
            },
            None => 0,
        },
{
    match env {
        Some(s) => match crate::cli::parse_u64_exec(s) {
            Some(n) => if n <= u32::MAX as u64 {
                n as u32
            } else {
                0
            },
            None => 0,
        },
        None => 0,
    }
}

/// `CHUMP_MAX_CONCURRENT_TURNS`: how many turns may run at once; `None` (no cap) when it
/// is 0, unset or not a number; otherwise at most 32.
pub fn max_concurrent_turns(env: Option<&str>) -> (r: Option<usize>)
    ensures
        r == match opt_view(env) {
            Some(s) => match crate::limits::parse_usize(s) {
                Some(n) => if n == 0 {
                    None
                } else if n > 32 {
                    Some(32usize)
                } else {
                    Some(n)
                },
                None => None,
            },
            None => None,
        },
{
    match env {
        Some(s) => match crate::limits::parse_usize_exec(s) {
            Some(n) => if n == 0 {
                None
            } else if n > 32 {
                Some(32)
            } else {
                Some(n)
            },
            None => None,
        },
        None => None,
    }
}

/// The rate-limit window, in nanoseconds (60 s).
pub const RATE_WINDOW_NANOS: u64 = 60_000_000_000;

/// A turn at time `t` no longer counts at `now`: it lies more than the window back.
pub open spec fn expired(t: u64, now: u64) -> bool {
    now > t && now - t > RATE_WINDOW_NANOS
}

/// The times left once the expired ones are dropped from the front.
pub open spec fn pruned(times: Seq<u64>, now: u64) -> Seq<u64>
    decreases times.len(),
{
    if times.len() > 0 && expired(times[0], now) {
        pruned(times.drop_first(), now)
    } else {
        times
    }
}

/// The times of a channel's recent turns, oldest first.
pub open spec fn sorted_times(s: Seq<u64>) -> bool {
    forall|i: int, j: int| 0 <= i < j < s.len() ==> s[i] <= s[j]
}

/// The recent turns of each channel, looked up by channel id.
pub struct RateLimiter {
    pub channels: Vec<(u64, Vec<u64>)>,
}

pub open spec fn window_of(cs: Seq<(u64, Vec<u64>)>, ch: u64) -> Seq<u64>
    decreases cs.len(),
{
    if cs.len() == 0 {
        Seq::empty()
    } else if cs[0].0 == ch {
        cs[0].1@
    } else {
        window_of(cs.drop_first(), ch)
    }
}

proof fn lemma_window_update(cs: Seq<(u64, Vec<u64>)>, i: int, v: Vec<u64>, ch: u64)
    requires
        0 <= i < cs.len(),
        forall|j: int| 0 <= j < i ==> cs[j].0 != cs[i].0,
    ensures
        window_of(cs.update(i, (cs[i].0, v)), ch) == if ch == cs[i].0 {
            v@
        } else {
            window_of(cs, ch)
        },
    decreases cs.len(),
{
    if i > 0 {
        assert(cs.update(i, (cs[i].0, v)).drop_first() =~= cs.drop_first().update(i - 1, (cs[i].0, v)));
        assert forall|j: int| 0 <= j < i - 1 implies (#[trigger] cs.drop_first()[j]).0 != cs.drop_first()[i - 1].0 by {
            assert(cs.drop_first()[j] == cs[j + 1]);
        }
        lemma_window_update(cs.drop_first(), i - 1, v, ch);
        assert(cs.update(i, (cs[i].0, v))[0] == cs[0]);
        assert(cs[0].0 != cs[i].0);
    } else {
        assert(cs.update(0, (cs[0].0, v)).drop_first() =~= cs.drop_first());
        assert(cs.update(0, (cs[0].0, v))[0] == (cs[0].0, v));
    }
}

proof fn lemma_window_push(cs: Seq<(u64, Vec<u64>)>, v: Vec<u64>, c: u64, ch: u64)
    requires
        forall|j: int| 0 <= j < cs.len() ==> cs[j].0 != c,
    ensures
        window_of(cs.push((c, v)), ch) == if ch == c {
            v@
        } else {
            window_of(cs, ch)
        },
    decreases cs.len(),
{
    if cs.len() > 0 {
        assert(cs.push((c, v)).drop_first() =~= cs.drop_first().push((c, v)));
        assert forall|j: int| 0 <= j < cs.drop_first().len() implies (#[trigger] cs.drop_first()[j]).0 != c by {
            assert(cs.drop_first()[j] == cs[j + 1]);
        }
        lemma_window_push(cs.drop_first(), v, c, ch);
    } else {
        assert(cs.push((c, v)).drop_first() =~= cs);
    }
}

proof fn lemma_window_absent(cs: Seq<(u64, Vec<u64>)>, ch: u64)
    requires
        forall|j: int| 0 <= j < cs.len() ==> cs[j].0 != ch,
    ensures
        window_of(cs, ch) == Seq::<u64>::empty(),
    decreases cs.len(),
{
    if cs.len() > 0 {
        assert forall|j: int| 0 <= j < cs.drop_first().len() implies (#[trigger] cs.drop_first()[j]).0 != ch by {
            assert(cs.drop_first()[j] == cs[j + 1]);
        }
        lemma_window_absent(cs.drop_first(), ch);
    }
}

proof fn lemma_window_at(cs: Seq<(u64, Vec<u64>)>, i: int)
    requires
        0 <= i < cs.len(),
        forall|j: int| 0 <= j < i ==> cs[j].0 != cs[i].0,
    ensures
        window_of(cs, cs[i].0) == cs[i].1@,
    decreases cs.len(),
{
    if i > 0 {
        assert forall|j: int| 0 <= j < i - 1 implies (#[trigger] cs.drop_first()[j]).0 != cs.drop_first()[i - 1].0 by {
            assert(cs.drop_first()[j] == cs[j + 1]);
        }
        lemma_window_at(cs.drop_first(), i - 1);
    }
}

/// The window after a check at `now` with limit `limit`, and whether the turn may run.
pub open spec fn checked(times: Seq<u64>, now: u64, limit: u32) -> (bool, Seq<u64>) {
    if limit == 0 {
        (true, times)
    } else {
        let p = pruned(times, now);
        if p.len() >= limit {
            (false, p)
        } else {
            (true, p.push(now))
        }
    }
}

fn prune_exec(times: &Vec<u64>, now: u64) -> (r: Vec<u64>)
    ensures
        r@ == pruned(times@, now),
{
    let mut k: usize = 0;
    assert(times@.skip(0) =~= times@);
    while k < times.len() && now > times[k] && now - times[k] > RATE_WINDOW_NANOS
        invariant
            k <= times@.len(),
            pruned(times@, now) == pruned(times@.skip(k as int), now),
        decreases times.len() - k,
    {
        assert(times@.skip(k as int).drop_first() =~= times@.skip(k + 1));
        k = k + 1;
    }
    let mut r: Vec<u64> = Vec::new();
    let mut i = k;
    while i < times.len()
        invariant
            k <= i <= times@.len(),
            r@ == times@.subrange(k as int, i as int),
        decreases times.len() - i,
    {
        r.push(times[i]);
        i = i + 1;
        assert(r@ =~= times@.subrange(k as int, i as int));
    }
    assert(times@.skip(k as int) =~= times@.subrange(k as int, times@.len() as int));
    r
}

proof fn lemma_pruned_suffix(times: Seq<u64>, now: u64)
    ensures
        exists|k: int| 0 <= k <= times.len() && pruned(times, now) == #[trigger] times.skip(k),
    decreases times.len(),
{
    if times.len() > 0 && expired(times[0], now) {
        lemma_pruned_suffix(times.drop_first(), now);
        let k = choose|k: int| 0 <= k <= times.drop_first().len() && pruned(times.drop_first(), now) == #[trigger] times.drop_first().skip(k);
        assert(times.drop_first().skip(k) =~= times.skip(k + 1));
        assert(pruned(times, now) == times.skip(k + 1));
    } else {
        assert(times.skip(0) =~= times);
        assert(pruned(times, now) == times.skip(0));
    }
}

impl RateLimiter {
    /// The recent turns of a channel.
    pub open spec fn window(&self, ch: u64) -> Seq<u64> {
        window_of(self.channels@, ch)
    }

    /// Each channel has at most one entry.
    pub open spec fn wf(&self) -> bool {
        forall|i: int, j: int|
            0 <= i < j < self.channels@.len() ==> (#[trigger] self.channels@[i]).0 != (
            #[trigger] self.channels@[j]).0
    }

    pub fn new() -> (r: Self)
        ensures
            r.wf(),
            forall|ch: u64| r.window(ch) == Seq::<u64>::empty(),
    {
        RateLimiter { channels: Vec::new() }
    }

    /// Whether a turn in `channel` at `now` may run under a limit of `limit` turns per
    /// minute (0 = no limit); a turn that runs is counted.
    pub fn check(&mut self, channel: u64, now: u64, limit: u32) -> (r: bool)
        requires
            old(self).wf(),
        ensures
            final(self).wf(),
            (r, final(self).window(channel)) == checked(old(self).window(channel), now, limit),
            forall|ch: u64| ch != channel ==> final(self).window(ch) == old(self).window(ch),
    {
        if limit == 0 {
            return true;
        }
        let ghost cs = self.channels@;
        let mut i: usize = 0;
        while i < self.channels.len() && self.channels[i].0 != channel
            invariant
                i <= self.channels@.len(),
                cs == self.channels@,
                forall|j: int| 0 <= j < i ==> cs[j].0 != channel,
            decreases self.channels.len() - i,
        {
            i = i + 1;
        }
        let idx: Option<usize> = if i < self.channels.len() {
            Some(i)
        } else {
            None
        };
        match idx {
            Some(i) => {
                assert(cs[i as int].0 == channel);
                assert(forall|j: int| 0 <= j < i ==> cs[j].0 != cs[i as int].0);
                proof {
                    lemma_window_at(cs, i as int);
                }
                let mut p = prune_exec(&self.channels[i].1, now);
                let ok = p.len() < limit as usize;
                if ok {
                    p.push(now);
                }
                let ghost pv = p;
                self.channels.set(i, (channel, p));
                proof {
                    assert(self.channels@ == cs.update(i as int, (cs[i as int].0, pv)));
                    assert forall|ch: u64| #[trigger] window_of(self.channels@, ch) == (if ch == channel {
                        pv@
                    } else {
                        window_of(cs, ch)
                    }) by {
                        lemma_window_update(cs, i as int, pv, ch);
                    }
                    assert forall|x: int, y: int| 0 <= x < y < self.channels@.len() implies (#[trigger] self.channels@[x]).0 != (#[trigger] self.channels@[y]).0 by {
                        if x != i && y != i {
                            assert(self.channels@[x] == cs[x] && self.channels@[y] == cs[y]);
                        } else if x == i {
                            assert(self.channels@[y] == cs[y]);
                        } else {
                            assert(self.channels@[x] == cs[x]);
                        }
                    }
                }
                ok
            },
            None => {
                proof {
                    lemma_window_absent(cs, channel);
                }
                let mut p: Vec<u64> = Vec::new();
                let ok = 0 < limit;
                p.push(now);
                let ghost pv = p;
                self.channels.push((channel, p));
                proof {
                    assert(self.channels@ == cs.push((channel, pv)));
                    assert forall|ch: u64| #[trigger] window_of(self.channels@, ch) == (if ch == channel {
                        pv@
                    } else {
                        window_of(cs, ch)
                    }) by {
                        lemma_window_push(cs, pv, channel, ch);
                    }
                    assert(pruned(Seq::<u64>::empty(), now) =~= Seq::<u64>::empty());
                    assert(pv@ =~= Seq::<u64>::empty().push(now));
                    assert forall|x: int, y: int| 0 <= x < y < self.channels@.len() implies (#[trigger] self.channels@[x]).0 != (#[trigger] self.channels@[y]).0 by {
                        assert(self.channels@[x] == cs[x]);
                        if y < cs.len() {
                            assert(self.channels@[y] == cs[y]);
                        }
                    }
                }
                ok
            },
        }
    }
}

/// A channel's window, kept sorted, holds after an allowed turn at most `limit` turns,
/// all within the window of `now`, the newest being `now`.
pub proof fn lemma_rate_limit_bound(times: Seq<u64>, now: u64, limit: u32)
    requires
        limit > 0,
        sorted_times(times),
        times.len() > 0 ==> times.last() <= now,
        checked(times, now, limit).0,
    ensures
        checked(times, now, limit).1.len() <= limit,
        checked(times, now, limit).1.last() == now,
        sorted_times(checked(times, now, limit).1),
        forall|i: int| 0 <= i < checked(times, now, limit).1.len() ==> !expired(#[trigger] checked(times, now, limit).1[i], now),
{
    lemma_pruned_suffix(times, now);
    let p = pruned(times, now);
    let k = choose|k: int| 0 <= k <= times.len() && pruned(times, now) == #[trigger] times.skip(k);
    lemma_pruned_front(times, now);
    let r = p.push(now);
    assert forall|i: int, j: int| 0 <= i < j < r.len() implies r[i] <= r[j] by {
        if j < p.len() {
            assert(p[i] == times[i + k] && p[j] == times[j + k]);
        } else {
            assert(p[i] == times[i + k]);
        }
    }
    assert forall|i: int| 0 <= i < r.len() implies !expired(#[trigger] r[i], now) by {
        if i < p.len() && i > 0 {
            assert(p[0] == times[k] && p[i] == times[i + k]);
        }
    }
}

/// The first time left after pruning has not expired; later times are no older.
proof fn lemma_pruned_front(times: Seq<u64>, now: u64)
    ensures
        pruned(times, now).len() > 0 ==> !expired(pruned(times, now)[0], now),
    decreases times.len(),
{
    if times.len() > 0 && expired(times[0], now) {
        lemma_pruned_front(times.drop_first(), now);
    }
}

// ---------------------------------------------------------------------------
// Which tools a turn gets
// ---------------------------------------------------------------------------

/// The tools an agent can be given.
#[derive(PartialEq, Eq, Structural, Clone, Copy)]
pub enum ToolKind {
    Calculator,
    WasmCalc,
    Delegate,
    WebSearch,
    RunCli,
    GitAlias,
    CargoAlias,
    Memory,
    ReadFile,
    ListDir,
    WriteFile,
    EditFile,
    GithubRepoRead,
    GithubRepoList,
    GithubCloneOrPull,
    GitCommit,
    GitPush,
    GhListIssues,
    GhGetIssue,
    GhListMyPrs,
    GhCreateBranch,
    GhCreatePr,
    GhPrChecks,
    GhPrComment,
    Task,
    Notify,
    Ego,
    Episode,
    MemoryBrain,
    Schedule,
    DiffReview,
}

/// Which optional tools are available.
pub struct Availability {
    pub wasm_calc: bool,
    pub delegate: bool,
    pub web_search: bool,
    pub github: bool,
    pub git_tools: bool,
    pub gh_tools: bool,
    pub task: bool,
    pub state: bool,
    pub episode: bool,
    pub schedule: bool,
    pub repo_explicit: bool,
}

pub open spec fn when(b: bool, s: Seq<ToolKind>) -> Seq<ToolKind> {
    if b {
        s
    } else {
        Seq::empty()
    }
}

/// The tools an agent gets, in the order they are registered.
pub open spec fn tool_plan_spec(a: Availability) -> Seq<ToolKind> {
    seq![ToolKind::Calculator] + when(a.wasm_calc, seq![ToolKind::WasmCalc]) + when(
        a.delegate,
        seq![ToolKind::Delegate],
    ) + when(a.web_search, seq![ToolKind::WebSearch]) + when(true, seq![
        ToolKind::RunCli,
        ToolKind::GitAlias,
        ToolKind::CargoAlias,
        ToolKind::Memory,
        ToolKind::ReadFile,
        ToolKind::ListDir,
        ToolKind::WriteFile,
        ToolKind::EditFile,
    ]) + when(a.github, seq![ToolKind::GithubRepoRead, ToolKind::GithubRepoList, ToolKind::GithubCloneOrPull])
        + when(a.git_tools, seq![ToolKind::GitCommit, ToolKind::GitPush]) + when(
        a.gh_tools,
        seq![
            ToolKind::GhListIssues,
            ToolKind::GhGetIssue,
            ToolKind::GhListMyPrs,
            ToolKind::GhCreateBranch,
            ToolKind::GhCreatePr,
            ToolKind::GhPrChecks,
            ToolKind::GhPrComment,
        ],
    ) + when(a.task, seq![ToolKind::Task]) + when(true, seq![ToolKind::Notify]) + when(a.state, seq![ToolKind::Ego])
        + when(a.episode, seq![ToolKind::Episode]) + when(true, seq![ToolKind::MemoryBrain]) + when(
        a.schedule,
        seq![ToolKind::Schedule],
    ) + when(a.repo_explicit, seq![ToolKind::DiffReview])
}

fn push_when(v: &mut Vec<ToolKind>, b: bool, items: &[ToolKind])
    ensures
        final(v)@ == old(v)@ + when(b, items@),
{
    let ghost start = v@;
    if b {
        let mut i: usize = 0;
        while i < items.len()
            invariant
                i <= items@.len(),
                v@ == start + items@.take(i as int),
            decreases items.len() - i,
        {
            v.push(items[i]);
            i = i + 1;
            assert(v@ =~= start + items@.take(i as int));
        }
        assert(items@.take(items@.len() as int) =~= items@);
    } else {
        assert(v@ =~= start + Seq::<ToolKind>::empty());
    }
}

/// The tools an agent gets for the available ones.
pub fn tool_plan(a: &Availability) -> (r: Vec<ToolKind>)
    ensures
        r@ == tool_plan_spec(*a),
{
    let mut v: Vec<ToolKind> = Vec::new();
    v.push(ToolKind::Calculator);
    assert(v@ =~= seq![ToolKind::Calculator]);
    let a1 = [ToolKind::WasmCalc];
    assert(a1@ =~= seq![ToolKind::WasmCalc]);
    push_when(&mut v, a.wasm_calc, &a1);
    let a2 = [ToolKind::Delegate];
    assert(a2@ =~= seq![ToolKind::Delegate]);
    push_when(&mut v, a.delegate, &a2);
    let a3 = [ToolKind::WebSearch];
    assert(a3@ =~= seq![ToolKind::WebSearch]);
    push_when(&mut v, a.web_search, &a3);
    let a4 = [
        ToolKind::RunCli,
        ToolKind::GitAlias,
        ToolKind::CargoAlias,
        ToolKind::Memory,
        ToolKind::ReadFile,
        ToolKind::ListDir,
        ToolKind::WriteFile,
        ToolKind::EditFile,
    ];
    let ghost s4 = seq![
        ToolKind::RunCli,
        ToolKind::GitAlias,
        ToolKind::CargoAlias,
        ToolKind::Memory,
        ToolKind::ReadFile,
        ToolKind::ListDir,
        ToolKind::WriteFile,
        ToolKind::EditFile,
    ];
    assert(a4@ =~= s4);
    push_when(&mut v, true, &a4);
    assert(when(true, s4) == s4);
    let a5 = [ToolKind::GithubRepoRead, ToolKind::GithubRepoList, ToolKind::GithubCloneOrPull];
    assert(a5@ =~= seq![ToolKind::GithubRepoRead, ToolKind::GithubRepoList, ToolKind::GithubCloneOrPull]);
    push_when(&mut v, a.github, &a5);
    let a6 = [ToolKind::GitCommit, ToolKind::GitPush];
    assert(a6@ =~= seq![ToolKind::GitCommit, ToolKind::GitPush]);
    push_when(&mut v, a.git_tools, &a6);
    let a7 = [
        ToolKind::GhListIssues,
        ToolKind::GhGetIssue,
        ToolKind::GhListMyPrs,
        ToolKind::GhCreateBranch,
        ToolKind::GhCreatePr,
        ToolKind::GhPrChecks,
        ToolKind::GhPrComment,
    ];
    assert(a7@ =~= seq![
        ToolKind::GhListIssues,
        ToolKind::GhGetIssue,
        ToolKind::GhListMyPrs,
        ToolKind::GhCreateBranch,
        ToolKind::GhCreatePr,
        ToolKind::GhPrChecks,
        ToolKind::GhPrComment,
    ]);
    push_when(&mut v, a.gh_tools, &a7);
    let a8 = [ToolKind::Task];
    assert(a8@ =~= seq![ToolKind::Task]);
    push_when(&mut v, a.task, &a8);
    let a9 = [ToolKind::Notify];
    assert(a9@ =~= seq![ToolKind::Notify]);
    push_when(&mut v, true, &a9);
    let a10 = [ToolKind::Ego];
    assert(a10@ =~= seq![ToolKind::Ego]);
    push_when(&mut v, a.state, &a10);
    let a11 = [ToolKind::Episode];
    assert(a11@ =~= seq![ToolKind::Episode]);
    push_when(&mut v, a.episode, &a11);
    let a12 = [ToolKind::MemoryBrain];
    assert(a12@ =~= seq![ToolKind::MemoryBrain]);
    push_when(&mut v, true, &a12);
    let a13 = [ToolKind::Schedule];
    assert(a13@ =~= seq![ToolKind::Schedule]);
    push_when(&mut v, a.schedule, &a13);
    let a14 = [ToolKind::DiffReview];
    assert(a14@ =~= seq![ToolKind::DiffReview]);
    push_when(&mut v, a.repo_explicit, &a14);
    v
}

/// Which model a turn talks to.
pub struct ModelChoice {
    pub api_key: String,
    pub model: String,
    /// An OpenAI-compatible server (`OPENAI_API_BASE` set), else the hosted OpenAI API.
    pub local: Option<crate::provider::LocalOpenAIProvider>,
}

/// The model from `OPENAI_API_KEY`, `OPENAI_MODEL`, `OPENAI_API_BASE` and
/// `CHUMP_FALLBACK_API_BASE` (an empty fallback is none).
pub fn model_choice(api_key: Option<&str>, model: Option<&str>, base: Option<&str>, fallback: Option<&str>) -> (r: ModelChoice)
    ensures
        r.api_key@ == match api_key {
            Some(k) => k@,
            None => "token-abc123"@,
        },
        r.model@ == match model {
            Some(m) => m@,
            None => "gpt-5-mini"@,
        },
        base is None ==> r.local is None,
        base matches Some(b) ==> (r.local matches Some(p) && p.base_url@ == crate::schedule::trim_end_char(b@, '/')
            && crate::task::opt_seq(p.fallback_base_url) == match crate::episode::nonempty(opt_view(fallback)) {
                Some(f) => Some(crate::schedule::trim_end_char(f, '/')),
                None => None,
            } && p.api_key@ == r.api_key@ && p.model@ == r.model@),
{
    let k = match api_key {
        Some(k) => String::from_str(k),
        None => String::from_str("token-abc123"),
    };
    let m = match model {
        Some(m) => String::from_str(m),
        None => String::from_str("gpt-5-mini"),
    };
    let local = match base {
        Some(b) => {
            let f = match fallback {
                Some(f) => if f.is_empty() {
                    None
                } else {
                    Some(f)
                },
                None => None,
            };
            Some(crate::provider::LocalOpenAIProvider::with_fallback(b, f, k.as_str(), m.as_str()))
        },
        None => None,
    };
    ModelChoice { api_key: k, model: m, local }
}


// ---------------------------------------------------------------------------
// The rate limit over a sequence of turns
// ---------------------------------------------------------------------------

/// A channel's window after turns at the times `ts`, in order, starting from an empty one.
pub open spec fn run_window(ts: Seq<u64>, limit: u32) -> Seq<u64>
    decreases ts.len(),
{
    if ts.len() == 0 {
        Seq::empty()
    } else {
        checked(run_window(ts.drop_last(), limit), ts.last(), limit).1
    }
}

/// Whether turn `i` of the sequence `ts` is allowed to run.
pub open spec fn accepted_at(ts: Seq<u64>, limit: u32, i: int) -> bool {
    checked(run_window(ts.take(i), limit), ts[i], limit).0
}

/// How many of the first `i` turns ran and are still within the window at `t`.
pub open spec fn recent_count(ts: Seq<u64>, limit: u32, i: int, t: u64) -> nat
    decreases i,
{
    if i <= 0 {
        0
    } else {
        recent_count(ts, limit, i - 1, t) + (if accepted_at(ts, limit, i - 1) && !expired(ts[i - 1], t) {
            1nat
        } else {
            0
        })
    }
}

/// How many times in `w` are within the window at `t`.
pub open spec fn live_count(w: Seq<u64>, t: u64) -> nat
    decreases w.len(),
{
    if w.len() == 0 {
        0
    } else {
        (if !expired(w[0], t) {
            1nat
        } else {
            0
        }) + live_count(w.drop_first(), t)
    }
}

proof fn lemma_live_pruned(w: Seq<u64>, n: u64, t: u64)
    requires
        n <= t,
    ensures
        live_count(pruned(w, n), t) == live_count(w, t),
    decreases w.len(),
{
    if w.len() > 0 && expired(w[0], n) {
        lemma_live_pruned(w.drop_first(), n, t);
    }
}

proof fn lemma_live_push(w: Seq<u64>, x: u64, t: u64)
    ensures
        live_count(w.push(x), t) == live_count(w, t) + (if !expired(x, t) {
            1nat
        } else {
            0
        }),
    decreases w.len(),
{
    if w.len() == 0 {
        assert(w.push(x).drop_first() =~= Seq::<u64>::empty());
        assert(w.push(x)[0] == x);
        assert(live_count(w.push(x).drop_first(), t) == 0);
        assert(live_count(w, t) == 0);
    } else {
        assert(w.push(x).drop_first() =~= w.drop_first().push(x));
        assert(w.push(x)[0] == w[0]);
        lemma_live_push(w.drop_first(), x, t);
    }
}

proof fn lemma_live_all(w: Seq<u64>, n: u64)
    requires
        sorted_times(w),
        w.len() == 0 || !expired(w[0], n),
    ensures
        live_count(w, n) == w.len(),
    decreases w.len(),
{
    if w.len() > 0 {
        let d = w.drop_first();
        assert(sorted_times(d)) by {
            assert forall|i: int, j: int| 0 <= i < j < d.len() implies d[i] <= d[j] by {
                assert(d[i] == w[i + 1] && d[j] == w[j + 1]);
            }
        }
        if d.len() > 0 {
            assert(d[0] == w[1]);
            assert(w[0] <= w[1]);
        }
        lemma_live_all(d, n);
    }
}

proof fn lemma_pruned_sorted(w: Seq<u64>, n: u64)
    requires
        sorted_times(w),
    ensures
        sorted_times(pruned(w, n)),
        pruned(w, n).len() <= w.len(),
        forall|k: int| 0 <= k < pruned(w, n).len() ==> exists|m: int| 0 <= m < w.len() && #[trigger] pruned(w, n)[k] == w[m],
{
    lemma_pruned_suffix(w, n);
    let k = choose|k: int| 0 <= k <= w.len() && pruned(w, n) == #[trigger] w.skip(k);
    let p = pruned(w, n);
    assert forall|i: int, j: int| 0 <= i < j < p.len() implies p[i] <= p[j] by {
        assert(p[i] == w[i + k] && p[j] == w[j + k]);
    }
    assert forall|q: int| 0 <= q < p.len() implies exists|m: int| 0 <= m < w.len() && #[trigger] p[q] == w[m] by {
        assert(p[q] == w[q + k]);
    }
}

proof fn lemma_run_window(ts: Seq<u64>, limit: u32, i: int)
    requires
        limit > 0,
        sorted_times(ts),
        0 <= i <= ts.len(),
    ensures
        sorted_times(run_window(ts.take(i), limit)),
        run_window(ts.take(i), limit).len() <= limit,
        i > 0 ==> forall|k: int| 0 <= k < run_window(ts.take(i), limit).len() ==> #[trigger] run_window(ts.take(i), limit)[k] <= ts[i - 1],
        i > 0 ==> forall|t: u64| t >= ts[i - 1] ==> #[trigger] live_count(run_window(ts.take(i), limit), t) == recent_count(ts, limit, i, t),
    decreases i,
{
    if i == 0 {
        assert(ts.take(0) =~= Seq::<u64>::empty());
    } else {
        lemma_run_window(ts, limit, i - 1);
        assert(ts.take(i).drop_last() =~= ts.take(i - 1));
        assert(ts.take(i).last() == ts[i - 1]);
        let w = run_window(ts.take(i - 1), limit);
        let n = ts[i - 1];
        let p = pruned(w, n);
        lemma_pruned_sorted(w, n);
        lemma_pruned_front(w, n);
        let acc = p.len() < limit;
        let w2 = run_window(ts.take(i), limit);
        assert(w2 == if acc { p.push(n) } else { p });
        assert(accepted_at(ts, limit, i - 1) == acc);
        // every kept time is at most `n`
        assert forall|k: int| 0 <= k < p.len() implies #[trigger] p[k] <= n by {
            let m = choose|m: int| 0 <= m < w.len() && p[k] == w[m];
            if i - 1 > 0 {
                assert(w[m] <= ts[i - 2]);
                assert(ts[i - 2] <= ts[i - 1]);
            } else {
                assert(ts.take(0) =~= Seq::<u64>::empty());
            }
        }
        if acc {
            assert forall|a: int, b: int| 0 <= a < b < w2.len() implies w2[a] <= w2[b] by {
                if b < p.len() {
                } else {
                    assert(w2[a] == p[a]);
                }
            }
        }
        assert forall|k: int| 0 <= k < w2.len() implies #[trigger] w2[k] <= ts[i - 1] by {
            if k < p.len() {
                assert(w2[k] == p[k]);
            }
        }
        assert forall|t: u64| t >= ts[i - 1] implies #[trigger] live_count(w2, t) == recent_count(ts, limit, i, t) by {
            lemma_live_pruned(w, n, t);
            if acc {
                lemma_live_push(p, n, t);
            }
            if i - 1 > 0 {
                assert(ts[i - 2] <= ts[i - 1]);
                assert(live_count(w, t) == recent_count(ts, limit, i - 1, t));
            } else {
                assert(ts.take(0) =~= Seq::<u64>::empty());
                assert(w == Seq::<u64>::empty());
            }
        }
    }
}

/// The rate limit over any sequence of turns of one channel, at non-decreasing times:
/// with no limit every turn runs; otherwise a turn runs exactly when fewer than `limit`
/// of the earlier turns ran within the minute before it, so at most `limit` turns run
/// in the minute up to any turn. (Turns of other channels leave the window unchanged:
/// see `RateLimiter::check`.)
pub proof fn lemma_rate_limit_sequence(ts: Seq<u64>, limit: u32, i: int)
    requires
        sorted_times(ts),
        0 <= i < ts.len(),
    ensures
        limit == 0 ==> accepted_at(ts, limit, i),
        limit > 0 ==> (accepted_at(ts, limit, i) <==> recent_count(ts, limit, i, ts[i]) < limit),
        limit > 0 ==> recent_count(ts, limit, i + 1, ts[i]) <= limit,
{
    if limit > 0 {
        lemma_run_window(ts, limit, i);
        let w = run_window(ts.take(i), limit);
        let n = ts[i];
        let p = pruned(w, n);
        lemma_pruned_sorted(w, n);
        lemma_pruned_front(w, n);
        lemma_live_all(p, n);
        lemma_live_pruned(w, n, n);
        if i > 0 {
            assert(ts[i - 1] <= ts[i]);
            assert(live_count(w, n) == recent_count(ts, limit, i, n));
        } else {
            assert(ts.take(0) =~= Seq::<u64>::empty());
        }
        assert(recent_count(ts, limit, i, n) == p.len());
        assert(!expired(n, n));
    }
}

/// What becomes of a message before a turn starts on it.
pub enum Admission {
    /// The bot is paused; the reply says so.
    Paused(String),
    /// The message is over the length cap; the reply gives the cap and its length.
    TooLong(String),
    /// The channel is over its rate limit; the reply asks to wait.
    RateLimited(String),
    /// The turn may run, and the limiter has counted it.
    Admitted,
}

/// The checks a message meets before a turn, in order: a paused bot answers that it is paused; a message
/// of more than `max` characters is refused with its length; a channel over its limit of
/// `limit` turns a minute is refused; else the turn is admitted. The limiter sees only
/// messages that pass the first two checks.
pub fn message_intake(
    paused: bool,
    content: &str,
    max: usize,
    limiter: &mut RateLimiter,
    channel: u64,
    now: u64,
    limit: u32,
) -> (r: Admission)
    requires
        old(limiter).wf(),
    ensures
        final(limiter).wf(),
        paused ==> (r matches Admission::Paused(m) && m@ == "I'm paused."@),
        !paused && content@.len() > max ==> (r matches Admission::TooLong(m) && m@
            == crate::limits::message_too_long(max, content@.len())),
        paused || content@.len() > max ==> forall|ch: u64|
            final(limiter).window(ch) == old(limiter).window(ch),
        !paused && content@.len() <= max ==> {
            &&& final(limiter).window(channel) == checked(old(limiter).window(channel), now, limit).1
            &&& forall|ch: u64| ch != channel ==> final(limiter).window(ch) == old(limiter).window(ch)
            &&& checked(old(limiter).window(channel), now, limit).0 ==> r is Admitted
            &&& !checked(old(limiter).window(channel), now, limit).0 ==> (r matches Admission::RateLimited(m)
                && m@ == "Rate limited; try again in a minute."@)
        },
{
    if paused {
        return Admission::Paused(paused_reply());
    }
    match crate::limits::check_message_len(content, max) {
        Err(m) => Admission::TooLong(m),
        Ok(()) => if limiter.check(channel, now, limit) {
            Admission::Admitted
        } else {
            Admission::RateLimited(rate_limited_reply())
        },
    }
}

} // verus!
