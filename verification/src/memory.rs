//! Long-term memory: entries, keyword recall, and the memory tool's decisions.
use vstd::prelude::*;
use crate::text::{self, WordSep};
use crate::json::{self, JsonValue};

verus! {

/// Most entries that one recall returns.
pub const MAX_RECALL: usize = 20;

/// Longest stored fact, in bytes.
pub const MAX_STORED_LEN: usize = 500;

/// One remembered fact.
pub struct MemoryEntry {
    pub id: Option<i64>,
    pub content: String,
    pub ts: String,
    pub source: String,
}

/// The contents of `entries`, oldest first.
pub open spec fn contents_of(entries: Seq<MemoryEntry>) -> Seq<Seq<char>> {
    entries.map_values(|e: MemoryEntry| e.content@)
}

pub open spec fn min_nat(a: nat, b: nat) -> nat {
    if a <= b {
        a
    } else {
        b
    }
}

/// The first `n` elements of `s`, or all of them when there are fewer.
pub open spec fn take_at_most<A>(s: Seq<A>, n: nat) -> Seq<A> {
    s.take(min_nat(n, s.len()) as int)
}

/// The `n` newest elements of `s` (the last ones), newest first.
pub open spec fn newest_first<A>(s: Seq<A>, n: nat) -> Seq<A> {
    Seq::new(min_nat(n, s.len()), |k: int| s[s.len() - 1 - k])
}

/// Each content with its lower-cased form.
pub open spec fn with_lowered(cs: Seq<Seq<char>>) -> Seq<(Seq<char>, Seq<char>)> {
    cs.map_values(|c: Seq<char>| (c, text::lowercase(c)))
}

/// The trimmed, lower-cased query, when there is one.
pub open spec fn lowered_query(query: Option<Seq<char>>) -> Option<Seq<char>> {
    match query {
        Some(q) => Some(text::lowercase(text::trim(q))),
        None => None,
    }
}

/// The words of a trimmed, lower-cased query: split on ASCII whitespace, keeping words
/// longer than one byte.
pub open spec fn words_of(lq: Seq<char>) -> Seq<Seq<char>> {
    text::words(lq, WordSep::Ascii).filter(|w: Seq<char>| text::byte_len(w) > 1)
}

/// A lower-cased content contains one of `ws`.
pub open spec fn matches_any(lowered: Seq<char>, ws: Seq<Seq<char>>) -> bool {
    exists|i: int| 0 <= i < ws.len() && text::contains(lowered, #[trigger] ws[i])
}

/// Recall limit: at most `MAX_RECALL`.
pub open spec fn recall_cap(limit: nat) -> nat {
    min_nat(limit, MAX_RECALL as nat)
}

/// Entries (content, lower-cased content) chosen by a keyword recall, newest first,
/// before the final ordering.
pub open spec fn keyword_pick(ps: Seq<(Seq<char>, Seq<char>)>, lq: Option<Seq<char>>, limit: nat) -> Seq<
    (Seq<char>, Seq<char>),
> {
    let l = recall_cap(limit);
    let recent = newest_first(ps, 2 * l);
    match lq {
        Some(q) => if q.len() > 0 && words_of(q).len() > 0 {
            take_at_most(recent.filter(|p: (Seq<char>, Seq<char>)| matches_any(p.1, words_of(q))), l)
        } else {
            recent
        },
        None => recent,
    }
}

/// Contents returned by a keyword recall, oldest first: of the `2 * l` newest entries
/// (`l` the capped limit), those whose lower-cased content contains a query word,
/// at most `l` of them; when a query is given and nothing matches, the `l` newest
/// entries instead; without a query, the newest entries, at most `l`.
pub open spec fn keyword_selection(ps: Seq<(Seq<char>, Seq<char>)>, lq: Option<Seq<char>>, limit: nat) -> Seq<
    Seq<char>,
> {
    let l = recall_cap(limit);
    let picked = keyword_pick(ps, lq, limit);
    let chosen = if picked.len() == 0 && lq is Some {
        newest_first(ps, l)
    } else {
        take_at_most(picked, l)
    };
    chosen.reverse().map_values(|p: (Seq<char>, Seq<char>)| p.0)
}

/// What a keyword recall returns, given the lower-cased contents and query: nothing for
/// no entries, else the selection as a numbered list.
pub open spec fn keyword_recall_from(ps: Seq<(Seq<char>, Seq<char>)>, lq: Option<Seq<char>>, limit: nat) -> Seq<
    char,
> {
    if ps.len() == 0 {
        Seq::empty()
    } else {
        text::numbered_list(keyword_selection(ps, lq, limit))
    }
}

/// What a keyword recall returns for the contents `cs`.
pub open spec fn keyword_recall_spec(cs: Seq<Seq<char>>, query: Option<Seq<char>>, limit: nat) -> Seq<char> {
    keyword_recall_from(with_lowered(cs), lowered_query(query), limit)
}

/// A keyword recall returns at most `MAX_RECALL` entries, and at most `limit`, each one of
/// the stored entries.
pub proof fn lemma_recall_bounded(cs: Seq<Seq<char>>, query: Option<Seq<char>>, limit: nat)
    ensures
        keyword_selection(with_lowered(cs), lowered_query(query), limit).len() <= MAX_RECALL,
        keyword_selection(with_lowered(cs), lowered_query(query), limit).len() <= limit,
        forall|i: int|
            0 <= i < keyword_selection(with_lowered(cs), lowered_query(query), limit).len() ==> cs.contains(
                #[trigger] keyword_selection(with_lowered(cs), lowered_query(query), limit)[i],
            ),
{
    let ps = with_lowered(cs);
    let lq = lowered_query(query);
    let l = recall_cap(limit);
    let recent = newest_first(ps, 2 * l);
    let picked = keyword_pick(ps, lq, limit);
    assert forall|k: int| 0 <= k < recent.len() implies cs.contains((#[trigger] recent[k]).0) by {
        assert(recent[k] == ps[ps.len() - 1 - k]);
        assert(cs[cs.len() - 1 - k] == recent[k].0);
    }
    assert forall|k: int| 0 <= k < picked.len() implies cs.contains((#[trigger] picked[k]).0) by {
        match lq {
            Some(q) => if q.len() > 0 && words_of(q).len() > 0 {
                let pred = |p: (Seq<char>, Seq<char>)| matches_any(p.1, words_of(q));
                let f = recent.filter(pred);
                assert(picked[k] == f[k]);
                assert(f.contains(f[k]));
                recent.lemma_filter_contains_rev(pred, f[k]);
                let j = choose|j: int| 0 <= j < recent.len() && recent[j] == f[k];
                assert(cs.contains(recent[j].0));
            },
            None => {},
        }
    }
    let chosen = if picked.len() == 0 && lq is Some {
        newest_first(ps, l)
    } else {
        take_at_most(picked, l)
    };
    assert forall|k: int| 0 <= k < chosen.len() implies cs.contains((#[trigger] chosen[k]).0) by {
        if picked.len() == 0 && lq is Some {
            assert(chosen[k] == ps[ps.len() - 1 - k]);
            assert(cs[cs.len() - 1 - k] == chosen[k].0);
        } else {
            assert(chosen[k] == picked[k]);
        }
    }
    let sel = keyword_selection(ps, lq, limit);
    assert forall|i: int| 0 <= i < sel.len() implies cs.contains(#[trigger] sel[i]) by {
        assert(sel[i] == chosen.reverse()[i].0);
        assert(chosen.reverse()[i] == chosen[chosen.len() - 1 - i]);
    }
}

/// What was stored last is recalled by any query that has a word it holds: it comes last
/// in the keyword recall.
pub proof fn lemma_keyword_recall_finds_newest(cs: Seq<Seq<char>>, query: Seq<char>, limit: nat)
    requires
        cs.len() > 0,
        limit >= 1,
        matches_any(text::lowercase(cs.last()), words_of(text::lowercase(text::trim(query)))),
    ensures
        keyword_selection(with_lowered(cs), lowered_query(Some(query)), limit).len() > 0,
        keyword_selection(with_lowered(cs), lowered_query(Some(query)), limit).last() == cs.last(),
{
    let ps = with_lowered(cs);
    let q = text::lowercase(text::trim(query));
    let ws = words_of(q);
    let l = recall_cap(limit);
    let recent = newest_first(ps, 2 * l);
    assert(recent[0] == ps[ps.len() - 1]);
    assert(ws.len() > 0);
    assert(q.len() > 0) by {
        if q.len() == 0 {
            let i = choose|i: int| 0 <= i < ws.len() && text::contains(text::lowercase(cs.last()), #[trigger] ws[i]);
            let wsa = text::words(q, WordSep::Ascii);
            let pred = |w: Seq<char>| text::byte_len(w) > 1;
            assert(wsa.filter(pred).contains(ws[i]));
            wsa.lemma_filter_contains_rev(pred, ws[i]);
            lemma_words_of_empty(q);
        }
    }
    let pred = |p: (Seq<char>, Seq<char>)| matches_any(p.1, ws);
    lemma_filter_first(recent, pred);
    let picked = keyword_pick(ps, lowered_query(Some(query)), limit);
    assert(picked[0] == ps[ps.len() - 1]);
    let chosen = take_at_most(picked, l);
    let sel = keyword_selection(ps, lowered_query(Some(query)), limit);
    assert(sel.last() == chosen.reverse()[chosen.len() - 1].0);
}

/// An empty text has no words.
proof fn lemma_words_of_empty(q: Seq<char>)
    requires
        q.len() == 0,
    ensures
        text::words(q, WordSep::Ascii).len() == 0,
{
}

/// Each content with the lower-cased form given for it.
pub open spec fn paired(entries: Seq<MemoryEntry>, lowered: Seq<String>) -> Seq<(Seq<char>, Seq<char>)> {
    Seq::new(entries.len(), |i: int| (entries[i].content@, lowered[i]@))
}

fn entry_chars(entries: &Vec<MemoryEntry>, j: usize) -> (r: Vec<char>)
    requires
        j < entries.len(),
    ensures
        r@ == contents_of(entries@)[j as int],
{
    text::chars_of(entries[j].content.as_str())
}

/// Whether a lower-cased content contains one of the words.
fn matches_any_exec(lowered: &Vec<char>, ws: &Vec<Vec<char>>) -> (r: bool)
    ensures
        r == matches_any(lowered@, ws@.map_values(|w: Vec<char>| w@)),
{
    let ghost wss = ws@.map_values(|w: Vec<char>| w@);
    let mut i: usize = 0;
    while i < ws.len()
        invariant
            i <= ws.len(),
            wss == ws@.map_values(|w: Vec<char>| w@),
            forall|k: int| 0 <= k < i ==> !text::contains(lowered@, #[trigger] wss[k]),
        decreases ws.len() - i,
    {
        if text::contains_exec(lowered, &ws[i]) {
            assert(text::contains(lowered@, wss[i as int]));
            return true;
        }
        i = i + 1;
    }
    false
}

/// The words of a lower-cased query, as vectors.
fn words_exec(lq: &Vec<char>) -> (r: Vec<Vec<char>>)
    ensures
        r@.map_values(|w: Vec<char>| w@) == words_of(lq@),
{
    let all = text::split_words(lq, WordSep::Ascii);
    let ghost ws = text::words(lq@, WordSep::Ascii);
    let ghost pred = |w: Seq<char>| text::byte_len(w) > 1;
    let mut out: Vec<Vec<char>> = Vec::new();
    let mut i: usize = 0;
    while i < all.len()
        invariant
            i <= all.len() == ws.len(),
            pred == (|w: Seq<char>| text::byte_len(w) > 1),
            forall|k: int| 0 <= k < all@.len() ==> #[trigger] all@[k]@ == ws[k],
            out@.map_values(|w: Vec<char>| w@) == ws.take(i as int).filter(pred),
        decreases all.len() - i,
    {
        assert(ws.take(i + 1).drop_last() =~= ws.take(i as int));
        assert(ws.take(i + 1).last() == ws[i as int]);
        reveal_with_fuel(Seq::filter, 1);
        let ghost before = out@.map_values(|w: Vec<char>| w@);
        let keep = text::byte_len_exceeds(&all[i], 1);
        assert(keep == pred(ws[i as int]));
        assert(ws.take(i + 1).filter(pred) == if pred(ws[i as int]) {
            ws.take(i as int).filter(pred).push(ws[i as int])
        } else {
            ws.take(i as int).filter(pred)
        });
        if keep {
            let w = text::sub_vec(&all[i], 0, all[i].len());
            assert(w@ =~= all@[i as int]@);
            out.push(w);
            assert(out@.map_values(|w: Vec<char>| w@) =~= before.push(ws[i as int]));
        } else {
            assert(out@.map_values(|w: Vec<char>| w@) =~= before);
        }
        i = i + 1;
    }
    assert(ws.take(all.len() as int) =~= ws);
    out
}

/// Keyword-based recall (no embeddings): a numbered list of matching or recent entries.
pub fn keyword_recall(entries: &Vec<MemoryEntry>, query: Option<&str>, limit: usize) -> (r: String)
    ensures
        r@ == keyword_recall_spec(
            contents_of(entries@),
            match query {
                Some(q) => Some(q@),
                None => None,
            },
            limit as nat,
        ),
{
    let mut lowered: Vec<String> = Vec::new();
    let mut i: usize = 0;
    while i < entries.len()
        invariant
            i <= entries@.len(),
            lowered@.len() == i,
            forall|t: int| 0 <= t < i ==> #[trigger] lowered@[t]@ == text::lowercase(entries@[t].content@),
        decreases entries.len() - i,
    {
        let l = text::lowercase_vec(&entry_chars(entries, i));
        lowered.push(text::string_of(&l));
        i = i + 1;
    }
    assert(paired(entries@, lowered@) =~= with_lowered(contents_of(entries@)));
    match query {
        Some(q) => {
            let lq = text::string_of(&text::lowercase_vec(&text::trim_str(q)));
            keyword_recall_lowered(entries, &lowered, Some(lq.as_str()), limit)
        },
        None => keyword_recall_lowered(entries, &lowered, None, limit),
    }
}

/// Keyword recall given the lower-cased contents (`lowered[i]` for `entries[i]`) and the
/// trimmed, lower-cased query.
pub fn keyword_recall_lowered(
    entries: &Vec<MemoryEntry>,
    lowered: &Vec<String>,
    lowered_query: Option<&str>,
    limit: usize,
) -> (r: String)
    requires
        lowered@.len() == entries@.len(),
    ensures
        r@ == keyword_recall_from(
            paired(entries@, lowered@),
            match lowered_query {
                Some(q) => Some(q@),
                None => None,
            },
            limit as nat,
        ),
{
    let ghost ps = paired(entries@, lowered@);
    let ghost lqv: Option<Seq<char>> = match lowered_query {
        Some(q) => Some(q@),
        None => None,
    };
    if entries.len() == 0 {
        return String::new();
    }
    let n = entries.len();
    let l: usize = if limit < MAX_RECALL {
        limit
    } else {
        MAX_RECALL
    };
    let m: usize = if 2 * l < n {
        2 * l
    } else {
        n
    };
    // indices of the `m` newest entries, newest first
    let mut recent: Vec<usize> = Vec::new();
    let mut k: usize = 0;
    while k < m
        invariant
            m <= n == entries@.len() == ps.len(),
            k <= m,
            recent@.len() == k,
            forall|t: int| 0 <= t < k ==> #[trigger] recent@[t] == n - 1 - t,
        decreases m - k,
    {
        recent.push(n - 1 - k);
        k = k + 1;
    }
    let ghost recent_ps = newest_first(ps, 2 * l as nat);
    assert(recent_ps.len() == m);
    // decide which of them to keep
    let mut use_filter = false;
    let mut ws: Vec<Vec<char>> = Vec::new();
    if let Some(q) = lowered_query {
        let qv = text::chars_of(q);
        if qv.len() > 0 {
            ws = words_exec(&qv);
            if ws.len() > 0 {
                use_filter = true;
            }
        }
    }
    let ghost wss = ws@.map_values(|w: Vec<char>| w@);
    let ghost pred = |p: (Seq<char>, Seq<char>)| matches_any(p.1, wss);
    let mut picked: Vec<usize> = Vec::new();
    if use_filter {
        let mut k: usize = 0;
        while k < m
            invariant
                m <= n == entries@.len() == ps.len() == lowered@.len(),
                ps == paired(entries@, lowered@),
                k <= m,
                recent_ps == newest_first(ps, 2 * l as nat),
                recent_ps.len() == m,
                wss == ws@.map_values(|w: Vec<char>| w@),
                pred == (|p: (Seq<char>, Seq<char>)| matches_any(p.1, wss)),
                forall|t: int| 0 <= t < m ==> #[trigger] recent@[t] == n - 1 - t,
                recent@.len() == m,
                forall|t: int| 0 <= t < picked@.len() ==> #[trigger] picked@[t] < n,
                picked@.map_values(|j: usize| ps[j as int]) == take_at_most(
                    recent_ps.take(k as int).filter(pred),
                    l as nat,
                ),
            decreases m - k,
        {
            let ghost before = picked@.map_values(|j: usize| ps[j as int]);
            assert(recent_ps.take(k + 1).drop_last() =~= recent_ps.take(k as int));
            assert(recent_ps.take(k + 1).last() == ps[n - 1 - k]);
            reveal_with_fuel(Seq::filter, 1);
            let j = recent[k];
            let c = text::chars_of(lowered[j].as_str());
            let hit = matches_any_exec(&c, &ws);
            assert(hit == pred(ps[j as int]));
            if hit && picked.len() < l {
                picked.push(j);
                assert(picked@.map_values(|j: usize| ps[j as int]) =~= before.push(ps[j as int]));
            }
            assert(picked@.map_values(|j: usize| ps[j as int]) =~= take_at_most(
                recent_ps.take(k + 1).filter(pred),
                l as nat,
            ));
            k = k + 1;
        }
        assert(recent_ps.take(m as int) =~= recent_ps);
    } else {
        picked = recent;
        assert(picked@.map_values(|j: usize| ps[j as int]) =~= recent_ps);
    }
    let ghost picked_ps = keyword_pick(ps, lqv, limit as nat);
    assert(picked@.map_values(|j: usize| ps[j as int]) == picked_ps);
    // fall back to the newest entries, or cut to the limit
    let mut chosen: Vec<usize> = Vec::new();
    if picked.len() == 0 && lowered_query.is_some() {
        let lm: usize = if l < n {
            l
        } else {
            n
        };
        let mut k: usize = 0;
        while k < lm
            invariant
                lm <= n,
                k <= lm,
                chosen@.len() == k,
                forall|t: int| 0 <= t < k ==> #[trigger] chosen@[t] == n - 1 - t,
            decreases lm - k,
        {
            chosen.push(n - 1 - k);
            k = k + 1;
        }
        assert(chosen@.map_values(|j: usize| ps[j as int]) =~= newest_first(ps, l as nat));
    } else {
        let cut: usize = if picked.len() < l {
            picked.len()
        } else {
            l
        };
        let mut k: usize = 0;
        while k < cut
            invariant
                cut <= picked@.len(),
                k <= cut,
                chosen@.len() == k,
                forall|t: int| 0 <= t < k ==> #[trigger] chosen@[t] == picked@[t],
            decreases cut - k,
        {
            chosen.push(picked[k]);
            k = k + 1;
        }
        assert(chosen@.map_values(|j: usize| ps[j as int]) =~= take_at_most(
            picked@.map_values(|j: usize| ps[j as int]),
            l as nat,
        ));
    }
    let ghost chosen_ps = chosen@.map_values(|j: usize| ps[j as int]);
    let ghost sel = chosen_ps.reverse().map_values(|p: (Seq<char>, Seq<char>)| p.0);
    assert(sel == keyword_selection(ps, lqv, limit as nat));
    assert forall|t: int| 0 <= t < chosen@.len() implies #[trigger] chosen@[t] < n by {
        if picked.len() == 0 && lowered_query.is_some() {
        } else {
        }
    }
    // oldest first
    let mut items: Vec<Vec<char>> = Vec::new();
    let mut k: usize = chosen.len();
    while k > 0
        invariant
            k <= chosen@.len(),
            n == entries@.len() == ps.len(),
            ps == paired(entries@, lowered@),
            forall|t: int| 0 <= t < chosen@.len() ==> #[trigger] chosen@[t] < n,
            chosen_ps == chosen@.map_values(|j: usize| ps[j as int]),
            sel == chosen_ps.reverse().map_values(|p: (Seq<char>, Seq<char>)| p.0),
            items@.len() == chosen@.len() - k,
            forall|t: int| 0 <= t < items@.len() ==> #[trigger] items@[t]@ == sel[t],
        decreases k,
    {
        let c = entry_chars(entries, chosen[k - 1]);
        items.push(c);
        k = k - 1;
    }
    assert(items@.map_values(|p: Vec<char>| p@) =~= sel);
    let out = text::numbered_list_exec(&items);
    text::string_of(&out)
}

// ---------------------------------------------------------------------------
// The memory tool
// ---------------------------------------------------------------------------

/// The memory tool for one Discord channel (or channel 0 for the CLI).
pub struct MemoryTool {
    pub source_hint: String,
}

/// `"ch_{channel_id}"`
pub open spec fn source_hint_for(channel_id: u64) -> Seq<char> {
    seq!['c', 'h', '_'] + text::decimal(channel_id as nat)
}

impl MemoryTool {
    /// Tool for a Discord channel: entries it stores are tagged `ch_<id>`.
    pub fn for_discord(channel_id: u64) -> (r: Self)
        ensures
            r.source_hint@ == source_hint_for(channel_id),
    {
        let mut v: Vec<char> = vec!['c', 'h', '_'];
        text::push_decimal(&mut v, channel_id);
        assert(v@ =~= source_hint_for(channel_id));
        MemoryTool { source_hint: text::string_of(&v) }
    }
}

/// What the memory tool is asked to do.
pub enum MemoryAction {
    Store,
    Recall,
}

/// The action named by the (trimmed, lower-cased) `action` field and the trimmed content:
/// anything mentioning "recall" recalls; anything else that is non-empty stores; with no
/// action, content means store and no content means recall.
pub open spec fn memory_action(raw: Seq<char>, content: Seq<char>) -> MemoryAction {
    if text::contains(raw, "recall"@) {
        MemoryAction::Recall
    } else if raw.len() > 0 || content.len() > 0 {
        MemoryAction::Store
    } else {
        MemoryAction::Recall
    }
}

/// A memory tool request, decoded from its JSON input.
pub struct MemoryRequest {
    pub action: MemoryAction,
    /// The trimmed `content` field ("" when absent).
    pub content: String,
    /// The `limit` field, default 10.
    pub limit: u64,
}

pub open spec fn or_empty(s: Option<Seq<char>>) -> Seq<char> {
    match s {
        Some(x) => x,
        None => Seq::empty(),
    }
}

/// `limit`: an unsigned reading, else a signed one cast to `u64`, else 10.
pub open spec fn limit_field(input: JsonValue) -> u64 {
    match json::as_u64(json::get(input, "limit"@)) {
        Some(n) => n,
        None => match json::as_i64(json::get(input, "limit"@)) {
            Some(i) => i as u64,
            None => 10,
        },
    }
}

fn opt_str_chars(s: Option<String>) -> (r: Vec<char>)
    ensures
        r@ == or_empty(
            match s {
                Some(x) => Some(x@),
                None => None,
            },
        ),
{
    match s {
        Some(x) => text::chars_of(x.as_str()),
        None => Vec::new(),
    }
}

/// The action for a lower-cased, trimmed `action` field and the trimmed content.
pub fn memory_action_exec(raw: &str, content: &str) -> (r: MemoryAction)
    ensures
        r == memory_action(raw@, content@),
{
    let rv = text::chars_of(raw);
    if text::contains_exec(&rv, &text::lit("recall")) {
        MemoryAction::Recall
    } else if !raw.is_empty() || !content.is_empty() {
        MemoryAction::Store
    } else {
        MemoryAction::Recall
    }
}

/// Decodes the memory tool's input. `None` when the input is not an object.
pub fn memory_request(input: &JsonValue) -> (r: Option<MemoryRequest>)
    ensures
        match r {
            None => !(*input is Object),
            Some(req) => *input is Object && {
                let raw = lowercase_trimmed_field(*input, "action"@);
                let content = text::trim(or_empty(json::str_field(*input, "content"@)));
                &&& req.content@ == content
                &&& req.action == memory_action(raw, content)
                &&& req.limit == limit_field(*input)
            },
        },
{
    if !input.is_object() {
        return None;
    }
    let a = opt_str_chars(input.str_field("action"));
    let raw = text::lowercase_vec(&text::trim_vec(&a));
    let c = opt_str_chars(input.str_field("content"));
    let content = text::trim_vec(&c);
    let action = memory_action_exec(&text::string_of(&raw), &text::string_of(&content));
    let limit = match input.u64_field("limit") {
        Some(n) => n,
        None => match input.i64_field("limit") {
            Some(i) => i as u64,
            None => 10,
        },
    };
    Some(MemoryRequest { action, content: text::string_of(&content), limit })
}

/// The memory tool's answer before any store or recall: an input that is not an object
/// is refused, and so is a store of nothing; `None` lets the request run.
pub open spec fn early_reply(req: Option<MemoryRequest>) -> Option<Seq<char>> {
    match req {
        None => Some("Memory tool needs an object with action (store or recall)."@),
        Some(r) => if r.action == MemoryAction::Store && r.content@.len() == 0 {
            Some("Nothing to store (content was empty)."@)
        } else {
            None
        },
    }
}

/// The request the memory tool goes on with, or its answer to one that does not reach
/// the store (see `early_reply`).
pub fn early_reply_exec(req: Option<MemoryRequest>) -> (r: Result<MemoryRequest, String>)
    ensures
        match r {
            Err(m) => early_reply(req) == Some(m@),
            Ok(q) => early_reply(req) is None && req == Some(q),
        },
{
    match req {
        None => Err(String::from_str("Memory tool needs an object with action (store or recall).")),
        Some(q) => {
            let store = match q.action {
                MemoryAction::Store => true,
                MemoryAction::Recall => false,
            };
            if store && q.content.as_str().is_empty() {
                Err(String::from_str("Nothing to store (content was empty)."))
            } else {
                Ok(q)
            }
        },
    }
}

/// Field `key` as a string, trimmed and lower-cased ("" when absent).
pub open spec fn lowercase_trimmed_field(input: JsonValue, key: Seq<char>) -> Seq<char> {
    text::lowercase(text::trim(or_empty(json::str_field(input, key))))
}

/// What gets stored for `content` (already trimmed): at most `MAX_STORED_LEN` bytes,
/// longer content cut to its first `MAX_STORED_LEN - 1` bytes plus an ellipsis.
pub open spec fn stored_text(content: Seq<char>) -> Seq<char> {
    if text::byte_len(content) > MAX_STORED_LEN {
        text::prefix_bytes(content, (MAX_STORED_LEN - 1) as nat).push('\u{2026}')
    } else {
        content
    }
}

/// A stored fact never has more than `MAX_STORED_LEN` characters.
pub proof fn lemma_stored_text_within_cap(content: Seq<char>)
    requires
        text::byte_len(content) > MAX_STORED_LEN ==> text::is_boundary(content, (MAX_STORED_LEN - 1) as nat),
    ensures
        stored_text(content).len() <= MAX_STORED_LEN,
{
    if text::byte_len(content) > MAX_STORED_LEN {
        text::lemma_prefix_bytes(content, (MAX_STORED_LEN - 1) as nat);
    } else {
        text::lemma_len_le_byte_len(content);
    }
}

/// The text to store for a fact. Slicing at byte `MAX_STORED_LEN - 1` needs a character boundary.
pub fn stored_text_exec(content: &str) -> (r: String)
    requires
        text::byte_len(content@) > MAX_STORED_LEN ==> text::is_boundary(
            content@,
            (MAX_STORED_LEN - 1) as nat,
        ),
    ensures
        r@ == stored_text(content@),
{
    let v = text::chars_of(content);
    if text::byte_len_exceeds(&v, MAX_STORED_LEN) {
        match text::char_index_of_byte(&v, MAX_STORED_LEN - 1) {
            Some(k) => {
                let mut p = text::sub_vec(&v, 0, k);
                proof {
                    let c = choose|k: int| #[trigger] text::splits_at_byte(v@, k, (MAX_STORED_LEN - 1) as nat);
                    text::lemma_split_unique(v@, k as int, c, (MAX_STORED_LEN - 1) as nat);
                    assert(p@ =~= text::prefix_bytes(v@, (MAX_STORED_LEN - 1) as nat));
                }
                p.push('\u{2026}');
                text::string_of(&p)
            },
            None => {
                // unreachable: the requires makes byte `MAX_STORED_LEN - 1` a boundary
                String::from_str(content)
            },
        }
    } else {
        String::from_str(content)
    }
}

/// `Stored: "<text>"`
pub open spec fn stored_reply(stored: Seq<char>) -> Seq<char> {
    seq!['S', 't', 'o', 'r', 'e', 'd', ':', ' ', '"'] + stored + seq!['"']
}

pub fn stored_reply_exec(stored: &str) -> (r: String)
    ensures
        r@ == stored_reply(stored@),
{
    let v = text::lit("Stored: \"");
    proof {
        reveal_strlit("Stored: \"");
    }
    let s = text::chars_of(stored);
    let mut r = text::string_of(&v);
    text::push_chars(&mut r, &s);
    text::push_char(&mut r, '"');
    assert(r@ =~= stored_reply(stored@));
    r
}

/// The reply to a recall that found nothing.
pub open spec fn no_matching_memories() -> Seq<char> {
    seq!['N', 'o', ' ', 'm', 'a', 't', 'c', 'h', 'i', 'n', 'g', ' ', 'm', 'e', 'm', 'o', 'r', 'i', 'e', 's', '.']
}

/// Recall reply for rows found by keyword search: a numbered list, or the no-match reply.
pub open spec fn rows_reply(cs: Seq<Seq<char>>) -> Seq<char> {
    if cs.len() == 0 {
        no_matching_memories()
    } else {
        text::numbered_list(cs)
    }
}

pub fn rows_reply_exec(entries: &Vec<MemoryEntry>) -> (r: String)
    requires
        entries@.len() < u64::MAX,
    ensures
        r@ == rows_reply(contents_of(entries@)),
{
    if entries.len() == 0 {
        let r = String::from_str("No matching memories.");
        proof {
            reveal_strlit("No matching memories.");
        }
        assert(r@ =~= no_matching_memories());
        return r;
    }
    let mut items: Vec<Vec<char>> = Vec::new();
    let mut i: usize = 0;
    while i < entries.len()
        invariant
            i <= entries.len(),
            items@.len() == i,
            forall|k: int| 0 <= k < i ==> #[trigger] items@[k]@ == contents_of(entries@)[k],
        decreases entries.len() - i,
    {
        items.push(entry_chars(entries, i));
        i = i + 1;
    }
    assert(items@.map_values(|p: Vec<char>| p@) =~= contents_of(entries@));
    let out = text::numbered_list_exec(&items);
    text::string_of(&out)
}

/// The memories picked for a message's context, in the order given, numbered from 1, one
/// per line ("" when none were picked).
pub fn context_list(contents: &Vec<String>) -> (r: String)
    requires
        contents@.len() < u64::MAX,
    ensures
        r@ == text::numbered_list(crate::cli::names(contents@)),
{
    let mut items: Vec<Vec<char>> = Vec::new();
    let mut i: usize = 0;
    while i < contents.len()
        invariant
            i <= contents.len(),
            items@.len() == i,
            forall|k: int| 0 <= k < i ==> #[trigger] items@[k]@ == contents@[k]@,
        decreases contents.len() - i,
    {
        items.push(text::chars_of(contents[i].as_str()));
        i = i + 1;
    }
    assert(items@.map_values(|p: Vec<char>| p@) =~= crate::cli::names(contents@));
    let out = text::numbered_list_exec(&items);
    text::string_of(&out)
}

/// Recall over the JSON file: of the `2 * l` newest entries (`l` the capped limit), those
/// whose lower-cased content contains the lower-cased query (all of them, at most `l`,
/// without a query), oldest first, as a numbered list; the no-match reply when none.
pub open spec fn file_recall(cs: Seq<Seq<char>>, query: Seq<char>, limit: nat) -> Seq<char> {
    file_recall_from(with_lowered(cs), query, text::lowercase(query), limit)
}

/// The same recall, given the lower-cased contents and query: of the `2 * l` newest
/// entries, those whose lower-cased content contains the lower-cased query (all of them
/// for an empty query), at most `l`, oldest first.
pub open spec fn file_recall_from(ps: Seq<(Seq<char>, Seq<char>)>, query: Seq<char>, lq: Seq<char>, limit: nat) -> Seq<
    char,
> {
    rows_reply(file_selection(ps, query, lq, limit))
}

/// The contents a recall from the file returns, oldest first.
pub open spec fn file_selection(ps: Seq<(Seq<char>, Seq<char>)>, query: Seq<char>, lq: Seq<char>, limit: nat) -> Seq<
    Seq<char>,
> {
    let l = recall_cap(limit);
    let recent = newest_first(ps, 2 * l);
    let picked = if query.len() > 0 {
        take_at_most(recent.filter(|p: (Seq<char>, Seq<char>)| text::contains(p.1, lq)), l)
    } else {
        take_at_most(recent, l)
    };
    picked.reverse().map_values(|p: (Seq<char>, Seq<char>)| p.0)
}

/// A filter keeps the first element when it passes.
proof fn lemma_filter_first<A>(s: Seq<A>, pred: spec_fn(A) -> bool)
    requires
        s.len() > 0,
        pred(s[0]),
    ensures
        s.filter(pred).len() > 0,
        s.filter(pred)[0] == s[0],
{
    broadcast use vstd::seq::Seq::filter_distributes_over_add;

    assert(s =~= seq![s[0]] + s.drop_first());
    reveal_with_fuel(Seq::filter, 2);
    assert(seq![s[0]].filter(pred) =~= seq![s[0]]);
    assert(s.filter(pred) == seq![s[0]].filter(pred) + s.drop_first().filter(pred));
}

/// What was stored last is recalled by any query it matches: it comes last in the
/// recall from the file.
pub proof fn lemma_file_recall_finds_newest(cs: Seq<Seq<char>>, query: Seq<char>, limit: nat)
    requires
        cs.len() > 0,
        limit >= 1,
        text::contains(text::lowercase(cs.last()), text::lowercase(query)),
    ensures
        file_selection(with_lowered(cs), query, text::lowercase(query), limit).len() > 0,
        file_selection(with_lowered(cs), query, text::lowercase(query), limit).last() == cs.last(),
{
    let ps = with_lowered(cs);
    let lq = text::lowercase(query);
    let l = recall_cap(limit);
    let recent = newest_first(ps, 2 * l);
    assert(recent[0] == ps[ps.len() - 1]);
    let pred = |p: (Seq<char>, Seq<char>)| text::contains(p.1, lq);
    if query.len() > 0 {
        lemma_filter_first(recent, pred);
    }
    let picked = if query.len() > 0 {
        take_at_most(recent.filter(pred), l)
    } else {
        take_at_most(recent, l)
    };
    assert(picked[0] == ps[ps.len() - 1]);
    let sel = file_selection(ps, query, lq, limit);
    assert(sel.last() == picked.reverse()[picked.len() - 1].0);
}

pub fn file_recall_exec(entries: &Vec<MemoryEntry>, query: &str, limit: usize) -> (r: String)
    ensures
        r@ == file_recall(contents_of(entries@), query@, limit as nat),
{
    let mut lowered: Vec<String> = Vec::new();
    let mut i: usize = 0;
    while i < entries.len()
        invariant
            i <= entries@.len(),
            lowered@.len() == i,
            forall|t: int| 0 <= t < i ==> #[trigger] lowered@[t]@ == text::lowercase(entries@[t].content@),
        decreases entries.len() - i,
    {
        let l = text::lowercase_vec(&entry_chars(entries, i));
        lowered.push(text::string_of(&l));
        i = i + 1;
    }
    assert(paired(entries@, lowered@) =~= with_lowered(contents_of(entries@)));
    let lq = text::string_of(&text::lowercase_vec(&text::chars_of(query)));
    file_recall_lowered(entries, &lowered, query, lq.as_str(), limit)
}

/// The memory tool's recall from the file, given the lower-cased contents
/// (`lowered[i]` for `entries[i]`) and the lower-cased query.
pub fn file_recall_lowered(
    entries: &Vec<MemoryEntry>,
    lowered: &Vec<String>,
    query: &str,
    lowered_query: &str,
    limit: usize,
) -> (r: String)
    requires
        lowered@.len() == entries@.len(),
    ensures
        r@ == file_recall_from(paired(entries@, lowered@), query@, lowered_query@, limit as nat),
{
    let ghost ps = paired(entries@, lowered@);
    let n = entries.len();
    let l: usize = if limit < MAX_RECALL {
        limit
    } else {
        MAX_RECALL
    };
    let m: usize = if 2 * l < n {
        2 * l
    } else {
        n
    };
    let ghost recent_ps = newest_first(ps, 2 * l as nat);
    let nonempty = !query.is_empty();
    let ql = text::chars_of(lowered_query);
    let ghost pred = |p: (Seq<char>, Seq<char>)| text::contains(p.1, lowered_query@);
    let mut picked: Vec<usize> = Vec::new();
    let mut k: usize = 0;
    while k < m
        invariant
            m <= n == entries@.len() == ps.len() == lowered@.len(),
            ps == paired(entries@, lowered@),
            m == recent_ps.len(),
            k <= m,
            recent_ps == newest_first(ps, 2 * l as nat),
            ql@ == lowered_query@,
            nonempty == (query@.len() > 0),
            pred == (|p: (Seq<char>, Seq<char>)| text::contains(p.1, lowered_query@)),
            forall|t: int| 0 <= t < picked@.len() ==> #[trigger] picked@[t] < n,
            picked@.map_values(|j: usize| ps[j as int]) == if query@.len() > 0 {
                take_at_most(recent_ps.take(k as int).filter(pred), l as nat)
            } else {
                take_at_most(recent_ps.take(k as int), l as nat)
            },
        decreases m - k,
    {
        let ghost before = picked@.map_values(|j: usize| ps[j as int]);
        assert(recent_ps.take(k + 1).drop_last() =~= recent_ps.take(k as int));
        assert(recent_ps.take(k + 1).last() == ps[n - 1 - k]);
        reveal_with_fuel(Seq::filter, 1);
        let j = n - 1 - k;
        let keep = if nonempty {
            let lc = text::chars_of(lowered[j].as_str());
            text::contains_exec(&lc, &ql)
        } else {
            true
        };
        assert(query@.len() > 0 ==> keep == pred(ps[j as int]));
        assert(recent_ps.take(k + 1).filter(pred) == if pred(ps[j as int]) {
            recent_ps.take(k as int).filter(pred).push(ps[j as int])
        } else {
            recent_ps.take(k as int).filter(pred)
        });
        if keep && picked.len() < l {
            picked.push(j);
            assert(picked@.map_values(|j: usize| ps[j as int]) =~= before.push(ps[j as int]));
        } else {
            assert(picked@.map_values(|j: usize| ps[j as int]) =~= before);
        }
        assert(picked@.map_values(|j: usize| ps[j as int]) =~= if query@.len() > 0 {
            take_at_most(recent_ps.take(k + 1).filter(pred), l as nat)
        } else {
            take_at_most(recent_ps.take(k + 1), l as nat)
        });
        k = k + 1;
    }
    assert(recent_ps.take(m as int) =~= recent_ps);
    let ghost picked_ps = picked@.map_values(|j: usize| ps[j as int]);
    let ghost sel = picked_ps.reverse().map_values(|p: (Seq<char>, Seq<char>)| p.0);
    let mut chosen: Vec<MemoryEntry> = Vec::new();
    let mut k: usize = picked.len();
    while k > 0
        invariant
            k <= picked@.len() <= 2 * MAX_RECALL,
            n == entries@.len() == ps.len(),
            ps == paired(entries@, lowered@),
            forall|t: int| 0 <= t < picked@.len() ==> #[trigger] picked@[t] < n,
            picked_ps == picked@.map_values(|j: usize| ps[j as int]),
            sel == picked_ps.reverse().map_values(|p: (Seq<char>, Seq<char>)| p.0),
            chosen@.len() == picked@.len() - k,
            forall|t: int| 0 <= t < chosen@.len() ==> #[trigger] chosen@[t].content@ == sel[t],
        decreases k,
    {
        let c = entry_chars(entries, picked[k - 1]);
        chosen.push(MemoryEntry { id: None, content: text::string_of(&c), ts: String::new(), source: String::new() });
        k = k - 1;
    }
    assert(contents_of(chosen@) =~= sel);
    rows_reply_exec(&chosen)
}

} // verus!
