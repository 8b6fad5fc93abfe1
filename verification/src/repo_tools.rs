//! The repo file tools: which lines a read returns, how a directory listing reads, how a
//! write is asked for, and the exact-once replacement an edit makes. The files are read
//! and written by the caller, at the paths `paths` resolves.
use vstd::prelude::*;
use crate::text;
use crate::json::{self, JsonValue};

verus! {

/// Reads a file, or a range of its lines.
pub struct ReadFileTool;

/// Lists a directory.
pub struct ListDirTool;

/// Writes or appends to a file.
pub struct WriteFileTool;

/// Replaces the one occurrence of a string in a file.
pub struct EditFileTool;

/// The `path` argument of a repo tool: trimmed, required and not blank.
pub fn get_path(input: &JsonValue) -> (r: Result<String, String>)
    ensures
        match crate::gh::opt_trimmed(*input, "path"@) {
            Some(p) => r matches Ok(x) && x@ == p,
            None => r matches Err(e) && e@ == "missing or empty path"@,
        },
{
    match crate::gh::opt_trimmed_exec(input, "path") {
        Some(p) => Ok(p),
        None => Err(String::from_str("missing or empty path")),
    }
}

// ---------------------------------------------------------------------------
// Lines (`str::lines`)
// ---------------------------------------------------------------------------

/// A line without the `\r` of a `\r\n` ending.
pub open spec fn strip_cr(x: Seq<char>) -> Seq<char> {
    if x.len() > 0 && x.last() == '\r' {
        x.drop_last()
    } else {
        x
    }
}

/// `str::lines`: split at `\n`, a `\r` before it dropped; a last line ending adds no
/// empty line.
pub open spec fn str_lines(s: Seq<char>) -> Seq<Seq<char>> {
    let ps = text::split_on(s, '\n');
    let full = Seq::new((ps.len() - 1) as nat, |i: int| strip_cr(ps[i]));
    if ps.last().len() > 0 {
        full.push(ps.last())
    } else {
        full
    }
}

proof fn lemma_split_nonempty(s: Seq<char>, sep: char)
    ensures
        text::split_on(s, sep).len() >= 1,
{
}

fn strip_cr_exec(x: &Vec<char>) -> (r: Vec<char>)
    ensures
        r@ == strip_cr(x@),
{
    if x.len() > 0 && x[x.len() - 1] == '\r' {
        let r = text::sub_vec(x, 0, x.len() - 1);
        assert(r@ =~= x@.drop_last());
        r
    } else {
        let r = text::sub_vec(x, 0, x.len());
        assert(r@ =~= x@);
        r
    }
}

pub fn str_lines_exec(s: &Vec<char>) -> (r: Vec<Vec<char>>)
    ensures
        r@.map_values(|x: Vec<char>| x@) == str_lines(s@),
{
    let ps = text::split_on_exec(s, '\n');
    let ghost sp = text::split_on(s@, '\n');
    proof {
        lemma_split_nonempty(s@, '\n');
    }
    let n = ps.len();
    let mut out: Vec<Vec<char>> = Vec::new();
    let mut i: usize = 0;
    while i + 1 < n
        invariant
            n == ps@.len(),
            n == sp.len(),
            n >= 1,
            i < n,
            forall|k: int| 0 <= k < n ==> #[trigger] ps@[k]@ == sp[k],
            out@.len() == i,
            forall|k: int| 0 <= k < i ==> #[trigger] out@[k]@ == strip_cr(sp[k]),
        decreases n - i,
    {
        out.push(strip_cr_exec(&ps[i]));
        i = i + 1;
    }
    let ghost full = Seq::new((sp.len() - 1) as nat, |k: int| strip_cr(sp[k]));
    assert(out@.map_values(|x: Vec<char>| x@) =~= full);
    if ps[n - 1].len() > 0 {
        let last = text::sub_vec(&ps[n - 1], 0, ps[n - 1].len());
        assert(last@ =~= sp.last());
        out.push(last);
        assert(out@.map_values(|x: Vec<char>| x@) =~= full.push(sp.last()));
    }
    out
}

/// A line argument: a number (read as a float, truncated) that is at least 1.
pub open spec fn line_arg(input: JsonValue, key: Seq<char>) -> Option<u64> {
    match json::as_f64_trunc(json::get(input, key)) {
        Some(n) => if n >= 1 {
            Some(n)
        } else {
            None
        },
        None => None,
    }
}

pub fn line_arg_exec(input: &JsonValue, key: &str) -> (r: Option<u64>)
    ensures
        r == line_arg(*input, key@),
{
    match input.f64_trunc_field(key) {
        Some(n) => if n >= 1 {
            Some(n)
        } else {
            None
        },
        None => None,
    }
}

pub open spec fn min_int(a: int, b: int) -> int {
    if a <= b {
        a
    } else {
        b
    }
}

/// What a read returns of `content` for the 1-based `start` and `end` lines given: the
/// lines in range joined by `\n`, or the whole content when neither is given.
pub open spec fn line_selection(content: Seq<char>, start: Option<u64>, end: Option<u64>) -> Result<
    Seq<char>,
    Seq<char>,
> {
    let ls = str_lines(content);
    let n = ls.len() as int;
    let nl = seq!['\n'];
    match (start, end) {
        (Some(s), Some(e)) => if s > e {
            Err("start_line must be <= end_line"@)
        } else {
            Ok(text::join(ls.subrange(min_int(s - 1, n), min_int(e as int, n)), nl))
        },
        (Some(s), None) => Ok(text::join(ls.subrange(min_int(s - 1, n), n), nl)),
        (None, Some(e)) => Ok(text::join(ls.subrange(0, min_int(e as int, n)), nl)),
        (None, None) => Ok(content),
    }
}

fn join_range(ls: &Vec<Vec<char>>, lo: usize, hi: usize) -> (r: Vec<char>)
    requires
        lo <= hi <= ls@.len(),
    ensures
        r@ == text::join(ls@.map_values(|x: Vec<char>| x@).subrange(lo as int, hi as int), seq!['\n']),
{
    let mut part: Vec<Vec<char>> = Vec::new();
    let mut i = lo;
    while i < hi
        invariant
            lo <= i <= hi <= ls@.len(),
            part@.len() == i - lo,
            forall|k: int| 0 <= k < i - lo ==> #[trigger] part@[k]@ == ls@[lo + k]@,
        decreases hi - i,
    {
        let w = text::sub_vec(&ls[i], 0, ls[i].len());
        assert(w@ =~= ls@[i as int]@);
        part.push(w);
        i = i + 1;
    }
    let nl = vec!['\n'];
    assert(nl@ =~= seq!['\n']);
    assert(part@.map_values(|x: Vec<char>| x@) =~= ls@.map_values(|x: Vec<char>| x@).subrange(
        lo as int,
        hi as int,
    ));
    text::join_exec(&part, &nl)
}

fn min_u64(a: u64, b: usize) -> (r: usize)
    ensures
        r == min_int(a as int, b as int),
{
    if a < b as u64 {
        a as usize
    } else {
        b
    }
}

impl ReadFileTool {
    /// The `start_line` and `end_line` arguments.
    pub fn line_range(input: &JsonValue) -> (r: (Option<u64>, Option<u64>))
        ensures
            r.0 == line_arg(*input, "start_line"@),
            r.1 == line_arg(*input, "end_line"@),
    {
        (line_arg_exec(input, "start_line"), line_arg_exec(input, "end_line"))
    }

    /// The part of a file's content a read returns.
    pub fn select(content: &str, start: Option<u64>, end: Option<u64>) -> (r: Result<String, String>)
        requires
            start matches Some(s) ==> s >= 1,
            end matches Some(e) ==> e >= 1,
        ensures
            match line_selection(content@, start, end) {
                Ok(x) => r matches Ok(y) && y@ == x,
                Err(e) => r matches Err(m) && m@ == e,
            },
    {
        if start.is_none() && end.is_none() {
            return Ok(String::from_str(content));
        }
        if let (Some(s), Some(e)) = (start, end) {
            if s > e {
                return Err(String::from_str("start_line must be <= end_line"));
            }
        }
        let ls = str_lines_exec(&text::chars_of(content));
        let n = ls.len();
        let lo = match start {
            Some(s) => min_u64(s - 1, n),
            None => 0,
        };
        let hi = match end {
            Some(e) => min_u64(e, n),
            None => n,
        };
        let j = join_range(&ls, lo, hi);
        Ok(text::string_of(&j))
    }
}

// ---------------------------------------------------------------------------
// Directory listings
// ---------------------------------------------------------------------------

impl ListDirTool {
    /// The directory to list: the trimmed `path`, or `.`.
    pub fn dir_arg(input: &JsonValue) -> (r: String)
        ensures
            r@ == match crate::gh::opt_trimmed(*input, "path"@) {
                Some(p) => p,
                None => "."@,
            },
    {
        match crate::gh::opt_trimmed_exec(input, "path") {
            Some(p) => p,
            None => String::from_str("."),
        }
    }

    /// One entry of a listing: `{name} (dir)` or `{name} (file)`.
    pub fn entry_label(name: &str, is_dir: bool) -> (r: String)
        ensures
            r@ == name@ + (if is_dir {
                " (dir)"@
            } else {
                " (file)"@
            }),
    {
        let mut v = text::chars_of(name);
        if is_dir {
            text::push_str(&mut v, " (dir)");
        } else {
            text::push_str(&mut v, " (file)");
        }
        text::string_of(&v)
    }

    /// The listing: the entries sorted, one per line.
    pub fn listing(entries: Vec<String>) -> (r: String)
        ensures
            r@ == text::join(
                crate::order::views(entries@).sort_by(crate::order::lex_leq()),
                seq!['\n'],
            ),
    {
        let sorted = crate::order::sort_strings(entries);
        let mut parts: Vec<Vec<char>> = Vec::new();
        let mut i: usize = 0;
        while i < sorted.len()
            invariant
                i <= sorted.len(),
                parts@.len() == i,
                forall|k: int| 0 <= k < i ==> #[trigger] parts@[k]@ == sorted@[k]@,
            decreases sorted.len() - i,
        {
            parts.push(text::chars_of(sorted[i].as_str()));
            i = i + 1;
        }
        let nl = vec!['\n'];
        assert(nl@ =~= seq!['\n']);
        assert(parts@.map_values(|x: Vec<char>| x@) =~= crate::order::views(sorted@));
        text::string_of(&text::join_exec(&parts, &nl))
    }
}

// ---------------------------------------------------------------------------
// Writes
// ---------------------------------------------------------------------------

/// How a write changes the file.
pub enum WriteMode {
    Overwrite,
    Append,
}

/// A write request; the mode is checked once the target is known.
pub struct WriteRequest {
    pub path: String,
    pub content: String,
    /// The `mode` argument, trimmed and lower-cased (`overwrite` when absent).
    pub mode: String,
}

impl WriteFileTool {
    /// The error when no repo root was set explicitly.
    pub fn root_not_set() -> (r: String)
        ensures
            r@ == "write_file requires CHUMP_REPO or CHUMP_HOME to be set (no arbitrary writes)"@,
    {
        String::from_str("write_file requires CHUMP_REPO or CHUMP_HOME to be set (no arbitrary writes)")
    }

    /// Decodes a write request.
    pub fn request(input: &JsonValue) -> (r: Result<WriteRequest, String>)
        ensures
            match crate::gh::opt_trimmed(*input, "path"@) {
                None => r matches Err(e) && e@ == "missing or empty path"@,
                Some(p) => match json::str_field(*input, "content"@) {
                    None => r matches Err(e) && e@ == "missing content"@,
                    Some(c) => r matches Ok(w) && w.path@ == p && w.content@ == c && w.mode@
                        == text::lowercase(
                        text::trim(
                            match json::str_field(*input, "mode"@) {
                                Some(m) => m,
                                None => "overwrite"@,
                            },
                        ),
                    ),
                },
            },
    {
        let path = match get_path(input) {
            Ok(p) => p,
            Err(e) => return Err(e),
        };
        let content = match input.str_field("content") {
            Some(c) => c,
            None => return Err(String::from_str("missing content")),
        };
        let m = match input.str_field("mode") {
            Some(m) => m,
            None => String::from_str("overwrite"),
        };
        let mode = text::string_of(&text::lowercase_vec(&text::trim_str(m.as_str())));
        Ok(WriteRequest { path, content, mode })
    }

    /// The write mode named by a decoded `mode`.
    pub fn write_mode(mode: &str) -> (r: Result<WriteMode, String>)
        ensures
            mode@ == "overwrite"@ ==> r matches Ok(WriteMode::Overwrite),
            mode@ == "append"@ ==> r matches Ok(WriteMode::Append),
            mode@ != "overwrite"@ && mode@ != "append"@ ==> (r matches Err(e) && e@
                == "mode must be overwrite or append"@),
    {
        let v = text::chars_of(mode);
        proof {
            reveal_strlit("overwrite");
            reveal_strlit("append");
            assert("overwrite"@.len() != "append"@.len());
        }
        if text::is_lit(&v, "overwrite") {
            Ok(WriteMode::Overwrite)
        } else if text::is_lit(&v, "append") {
            Ok(WriteMode::Append)
        } else {
            Err(String::from_str("mode must be overwrite or append"))
        }
    }

    /// The reply once written.
    pub fn done(mode: &WriteMode) -> (r: String)
        ensures
            r@ == match mode {
                WriteMode::Overwrite => "Written."@,
                WriteMode::Append => "Appended."@,
            },
    {
        match mode {
            WriteMode::Overwrite => String::from_str("Written."),
            WriteMode::Append => String::from_str("Appended."),
        }
    }
}

// ---------------------------------------------------------------------------
// Edits
// ---------------------------------------------------------------------------

/// `s.matches(p).count()`: the non-overlapping occurrences found left to right; an
/// empty pattern matches at every character boundary.
pub open spec fn count_matches(s: Seq<char>, p: Seq<char>) -> nat
    decreases s.len(),
{
    if p.len() == 0 {
        s.len() + 1
    } else if s.len() < p.len() {
        0
    } else if text::starts_with(s, p) {
        1 + count_matches(s.skip(p.len() as int), p)
    } else {
        count_matches(s.drop_first(), p)
    }
}

pub fn count_matches_exec(s: &Vec<char>, p: &Vec<char>) -> (r: usize)
    requires
        s@.len() < usize::MAX,
    ensures
        r == count_matches(s@, p@),
{
    if p.len() == 0 {
        return s.len() + 1;
    }
    let mut count: usize = 0;
    let mut i: usize = 0;
    assert(s@.skip(0) =~= s@);
    while i < s.len()
        invariant
            i <= s.len(),
            p@.len() > 0,
            count <= i,
            count + count_matches(s@.skip(i as int), p@) == count_matches(s@, p@),
        decreases s.len() - i,
    {
        let ghost t = s@.skip(i as int);
        if text::occurs_at_exec(s, p, i) {
            proof {
                assert(t.take(p@.len() as int) =~= s@.subrange(i as int, i + p@.len()));
                assert(t.skip(p@.len() as int) =~= s@.skip(i + p@.len()));
            }
            count = count + 1;
            i = i + p.len();
        } else {
            proof {
                if p@.len() <= t.len() {
                    assert(t.take(p@.len() as int) =~= s@.subrange(i as int, i + p@.len()));
                }
                assert(t.drop_first() =~= s@.skip(i + 1));
            }
            i = i + 1;
        }
    }
    assert(s@.skip(s@.len() as int).len() == 0);
    count
}

/// The 1-based number of the first line from line `k` (0-based) on that contains `p`; 1
/// when none does.
pub open spec fn line_with_from(ls: Seq<Seq<char>>, p: Seq<char>, k: nat) -> nat
    decreases ls.len() - k,
{
    if k >= ls.len() {
        1
    } else if text::contains(ls[k as int], p) {
        k + 1
    } else {
        line_with_from(ls, p, k + 1)
    }
}

/// The 1-based number of the first line (split at `\n`) that contains `p`; 1 when none does.
pub open spec fn first_line_with(s: Seq<char>, p: Seq<char>) -> nat {
    line_with_from(text::split_on(s, '\n'), p, 0)
}

/// `s.replacen(p, rep, 1)`: the first occurrence of `p` replaced.
pub open spec fn replace_first(s: Seq<char>, p: Seq<char>, rep: Seq<char>) -> Seq<char> {
    if text::contains(s, p) {
        let i = choose|i: int| text::occurs_at(s, p, i) && forall|j: int| 0 <= j < i ==> !text::occurs_at(s, p, j);
        s.take(i) + rep + s.skip(i + p.len())
    } else {
        s
    }
}

/// What an edit of `content` does: the new content and the line of the replacement
/// when `old` occurs exactly once, else the error.
pub open spec fn edit_result(content: Seq<char>, old: Seq<char>, new: Seq<char>) -> Result<(Seq<char>, nat), Seq<char>> {
    let n = count_matches(content, old);
    if n == 0 {
        Err("old_str not found in file (use read_file to get exact text)"@)
    } else if n > 1 {
        Err("old_str appears "@ + text::decimal(n) + " times; it must appear exactly once so the edit is unambiguous (narrow old_str or use multiple edit_file calls)"@)
    } else {
        Ok((replace_first(content, old, new), first_line_with(content, old)))
    }
}

/// An edit request.
pub struct EditRequest {
    pub path: String,
    pub old_str: String,
    pub new_str: String,
}

proof fn lemma_first_unique(s: Seq<char>, p: Seq<char>, i: int, k: int)
    requires
        text::occurs_at(s, p, i),
        forall|j: int| 0 <= j < i ==> !text::occurs_at(s, p, j),
        text::occurs_at(s, p, k),
        forall|j: int| 0 <= j < k ==> !text::occurs_at(s, p, j),
    ensures
        i == k,
{
}

fn first_line_exec(s: &Vec<char>, p: &Vec<char>) -> (r: u64)
    ensures
        r == first_line_with(s@, p@),
{
    let ls = text::split_on_exec(s, '\n');
    let ghost sp = text::split_on(s@, '\n');
    let mut i: usize = 0;
    while i < ls.len()
        invariant
            i <= ls.len(),
            ls@.len() == sp.len(),
            sp == text::split_on(s@, '\n'),
            forall|k: int| 0 <= k < ls@.len() ==> #[trigger] ls@[k]@ == sp[k],
            line_with_from(sp, p@, 0) == line_with_from(sp, p@, i as nat),
        decreases ls.len() - i,
    {
        if text::contains_exec(&ls[i], p) {
            return (i + 1) as u64;
        }
        i = i + 1;
    }
    1
}

impl EditFileTool {
    /// The error when no repo root was set explicitly.
    pub fn root_not_set() -> (r: String)
        ensures
            r@ == "edit_file requires CHUMP_REPO or CHUMP_HOME to be set"@,
    {
        String::from_str("edit_file requires CHUMP_REPO or CHUMP_HOME to be set")
    }

    /// Decodes an edit request.
    pub fn request(input: &JsonValue) -> (r: Result<EditRequest, String>)
        ensures
            match crate::gh::opt_trimmed(*input, "path"@) {
                None => r matches Err(e) && e@ == "missing or empty path"@,
                Some(p) => match json::str_field(*input, "old_str"@) {
                    None => r matches Err(e) && e@ == "missing old_str"@,
                    Some(o) => match json::str_field(*input, "new_str"@) {
                        None => r matches Err(e) && e@ == "missing new_str"@,
                        Some(n) => r matches Ok(q) && q.path@ == p && q.old_str@ == o && q.new_str@ == n,
                    },
                },
            },
    {
        let path = match get_path(input) {
            Ok(p) => p,
            Err(e) => return Err(e),
        };
        let old_str = match input.str_field("old_str") {
            Some(o) => o,
            None => return Err(String::from_str("missing old_str")),
        };
        let new_str = match input.str_field("new_str") {
            Some(n) => n,
            None => return Err(String::from_str("missing new_str")),
        };
        Ok(EditRequest { path, old_str, new_str })
    }

    /// The edit of a file's content: `old` replaced by `new` when it occurs exactly once,
    /// with the line where it was.
    pub fn edit(content: &str, old: &str, new: &str) -> (r: Result<(String, u64), String>)
        requires
            content@.len() < usize::MAX,
        ensures
            match edit_result(content@, old@, new@) {
                Ok((c, line)) => r matches Ok((x, l)) && x@ == c && l == line,
                Err(e) => r matches Err(m) && m@ == e,
            },
    {
        let s = text::chars_of(content);
        let p = text::chars_of(old);
        let n = count_matches_exec(&s, &p);
        if n == 0 {
            return Err(String::from_str("old_str not found in file (use read_file to get exact text)"));
        }
        if n > 1 {
            let mut m = text::lit("old_str appears ");
            text::push_decimal(&mut m, n as u64);
            text::push_str(
                &mut m,
                " times; it must appear exactly once so the edit is unambiguous (narrow old_str or use multiple edit_file calls)",
            );
            return Err(text::string_of(&m));
        }
        let line = first_line_exec(&s, &p);
        let i = match text::find_exec(&s, &p) {
            Some(i) => i,
            None => {
                proof {
                    lemma_count_zero(s@, p@);
                }
                return Err(String::from_str("old_str not found in file (use read_file to get exact text)"));
            },
        };
        assert(text::occurs_at(s@, p@, i as int));
        let mut out = text::sub_vec(&s, 0, i);
        text::push_str(&mut out, new);
        let rest = text::sub_vec(&s, i + p.len(), s.len());
        text::push_vec(&mut out, &rest);
        proof {
            let k = choose|k: int| text::occurs_at(s@, p@, k) && forall|j: int| 0 <= j < k ==> !text::occurs_at(s@, p@, j);
            lemma_first_unique(s@, p@, i as int, k);
            assert(out@ =~= s@.take(i as int) + new@ + s@.skip(i + p@.len()));
        }
        Ok((text::string_of(&out), line))
    }

    /// `Replaced in {path} (line {line}).`
    pub fn replaced(path: &str, line: u64) -> (r: String)
        ensures
            r@ == "Replaced in "@ + path@ + " (line "@ + text::decimal(line as nat) + ")."@,
    {
        let mut v = text::lit("Replaced in ");
        text::push_str(&mut v, path);
        text::push_str(&mut v, " (line ");
        text::push_decimal(&mut v, line);
        text::push_str(&mut v, ").");
        text::string_of(&v)
    }
}

/// A successful edit replaces the first (and only) occurrence of `old` by `new` and keeps
/// everything before and after it.
pub proof fn lemma_edit_replaces_one(content: Seq<char>, old: Seq<char>, new: Seq<char>)
    requires
        edit_result(content, old, new) is Ok,
    ensures
        exists|i: int|
            text::occurs_at(content, old, i) && #[trigger] edit_result(content, old, new)->Ok_0.0 == content.take(i) + new
                + content.skip(i + old.len()),
{
    if !text::contains(content, old) {
        lemma_count_zero(content, old);
    }
    let k = choose|k: int| text::occurs_at(content, old, k);
    lemma_first_occurrence(content, old, k);
    let i = choose|i: int| text::occurs_at(content, old, i) && forall|j: int| 0 <= j < i ==> !text::occurs_at(content, old, j);
    assert(text::occurs_at(content, old, i));
}

/// Where a pattern occurs, it has a first occurrence.
proof fn lemma_first_occurrence(s: Seq<char>, p: Seq<char>, k: int)
    requires
        text::occurs_at(s, p, k),
    ensures
        exists|i: int| text::occurs_at(s, p, i) && forall|j: int| 0 <= j < i ==> !text::occurs_at(s, p, j),
    decreases k,
{
    if exists|j: int| 0 <= j < k && text::occurs_at(s, p, j) {
        let j = choose|j: int| 0 <= j < k && text::occurs_at(s, p, j);
        lemma_first_occurrence(s, p, j);
    } else {
        assert(text::occurs_at(s, p, k) && forall|j: int| 0 <= j < k ==> !text::occurs_at(s, p, j));
    }
}

/// A pattern that never occurs is counted zero times.
proof fn lemma_count_zero(s: Seq<char>, p: Seq<char>)
    requires
        !text::contains(s, p),
    ensures
        count_matches(s, p) == 0,
    decreases s.len(),
{
    if p.len() == 0 {
        assert(text::occurs_at(s, p, 0)) by {
            assert(s.subrange(0, 0) =~= p);
        }
    } else if s.len() >= p.len() {
        if text::starts_with(s, p) {
            assert(text::occurs_at(s, p, 0)) by {
                assert(s.subrange(0, p.len() as int) =~= s.take(p.len() as int));
            }
        } else {
            assert forall|i: int| !text::occurs_at(s.drop_first(), p, i) by {
                if text::occurs_at(s.drop_first(), p, i) {
                    assert(s.subrange(i + 1, i + 1 + p.len()) =~= s.drop_first().subrange(i, i + p.len()));
                    assert(text::occurs_at(s, p, i + 1));
                }
            }
            lemma_count_zero(s.drop_first(), p);
        }
    }
}

} // verus!
