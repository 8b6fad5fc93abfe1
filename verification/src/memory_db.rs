//! The SQLite memory store: what a keyword search asks the full-text index for, and
//! when the JSON store is migrated. Running the queries is left to the caller.
use vstd::prelude::*;
use crate::text::{self, WordSep};

verus! {

/// One stored memory.
pub struct MemoryRow {
    pub id: i64,
    pub content: String,
    pub ts: String,
    pub source: String,
}

/// A word as an FTS5 string: in double quotes, a double quote inside doubled, so that
/// punctuation in it is taken literally.
pub open spec fn fts5_quote(w: Seq<char>) -> Seq<char> {
    seq!['"'] + text::replace_char(w, '"', seq!['"', '"']) + seq!['"']
}

/// The FTS5 query for a search text: each whitespace-separated word quoted, the words
/// joined by ` OR ` (empty for a blank text).
pub open spec fn fts5_query(s: Seq<char>) -> Seq<char> {
    text::join(text::words(text::trim(s), WordSep::Unicode).map_values(|w: Seq<char>| fts5_quote(w)), " OR "@)
}

fn fts5_quote_exec(w: &Vec<char>) -> (r: Vec<char>)
    ensures
        r@ == fts5_quote(w@),
{
    let mut out: Vec<char> = Vec::new();
    out.push('"');
    let dq = vec!['"', '"'];
    assert(dq@ =~= seq!['"', '"']);
    let e = text::replace_char_exec(w, '"', &dq);
    text::push_vec(&mut out, &e);
    out.push('"');
    assert(out@ =~= fts5_quote(w@));
    out
}

pub fn escape_fts5_query(s: &str) -> (r: String)
    ensures
        r@ == fts5_query(s@),
{
    let t = text::trim_str(s);
    let ws = text::split_words(&t, WordSep::Unicode);
    let ghost wv = text::words(t@, WordSep::Unicode);
    let mut qs: Vec<Vec<char>> = Vec::new();
    let mut i: usize = 0;
    while i < ws.len()
        invariant
            i <= ws.len(),
            ws@.len() == wv.len(),
            forall|k: int| 0 <= k < ws@.len() ==> #[trigger] ws@[k]@ == wv[k],
            qs@.len() == i,
            forall|k: int| 0 <= k < i ==> #[trigger] qs@[k]@ == fts5_quote(wv[k]),
        decreases ws.len() - i,
    {
        qs.push(fts5_quote_exec(&ws[i]));
        i = i + 1;
    }
    assert(qs@.map_values(|x: Vec<char>| x@) =~= wv.map_values(|w: Seq<char>| fts5_quote(w)));
    let j = text::join_exec(&qs, &text::lit(" OR "));
    text::string_of(&j)
}

/// Undoes `fts5_quote` on the inside of a quoted word: a doubled quote back to one.
pub open spec fn unquote_inner(s: Seq<char>) -> Seq<char>
    decreases s.len(),
{
    if s.len() >= 2 && s[0] == '"' && s[1] == '"' {
        seq!['"'] + unquote_inner(s.skip(2))
    } else if s.len() == 0 {
        s
    } else {
        seq![s[0]] + unquote_inner(s.drop_first())
    }
}

/// Reading a quoted word back gives the word: quoting loses nothing.
pub proof fn lemma_fts5_quote_round_trip(w: Seq<char>)
    ensures
        fts5_quote(w).len() >= 2,
        fts5_quote(w)[0] == '"',
        fts5_quote(w).last() == '"',
        unquote_inner(fts5_quote(w).subrange(1, fts5_quote(w).len() - 1)) == w,
{
    lemma_unquote_replace(w);
    let q = fts5_quote(w);
    let inner = text::replace_char(w, '"', seq!['"', '"']);
    assert(q.subrange(1, q.len() - 1) =~= inner);
}

proof fn lemma_unquote_replace(w: Seq<char>)
    ensures
        unquote_inner(text::replace_char(w, '"', seq!['"', '"'])) == w,
    decreases w.len(),
{
    if w.len() > 0 {
        lemma_unquote_replace(w.drop_first());
        let rest = text::replace_char(w.drop_first(), '"', seq!['"', '"']);
        let r = text::replace_char(w, '"', seq!['"', '"']);
        if w[0] == '"' {
            assert(r =~= seq!['"', '"'] + rest);
            assert(r.skip(2) =~= rest);
        } else {
            assert(r =~= seq![w[0]] + rest);
            assert(r.drop_first() =~= rest);
        }
        assert(w =~= seq![w[0]] + w.drop_first());
    }
}

/// The rows a keyword search asks for.
pub enum MemoryQuery {
    /// The newest rows.
    Latest { limit: u64 },
    /// The newest rows whose content matches the FTS5 query.
    Match { pattern: String, limit: u64 },
}

/// `keyword_search`: at most 100 rows; a blank query asks for the newest ones.
pub fn keyword_search(query: &str, limit: u64) -> (r: MemoryQuery)
    ensures
        fts5_query(query@).len() == 0 ==> (r matches MemoryQuery::Latest { limit: l } && l
            == crate::memory::min_nat(limit as nat, 100)),
        fts5_query(query@).len() > 0 ==> (r matches MemoryQuery::Match { pattern, limit: l }
            && pattern@ == fts5_query(query@) && l == crate::memory::min_nat(limit as nat, 100)),
{
    let l = if limit < 100 {
        limit
    } else {
        100
    };
    let pattern = escape_fts5_query(query);
    if pattern.as_str().is_empty() {
        MemoryQuery::Latest { limit: l }
    } else {
        MemoryQuery::Match { pattern, limit: l }
    }
}

/// Whether the JSON store is copied in: only into an empty table.
pub fn migration_needed(count: i64) -> (r: bool)
    ensures
        r == (count <= 0),
{
    count <= 0
}

} // verus!
