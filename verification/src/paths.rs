//! Relative paths under a root directory (the repo tools' root and the brain root).
//!
//! A path is read as `std::path::Path` reads a Unix path: split on `/`, empty
//! pieces and `.` dropped, `..` a parent step, a leading `/` making it absolute.
use vstd::prelude::*;
use crate::text;

verus! {

/// The pieces of a path that name something: split on `/`, without empty pieces and `.`.
pub open spec fn path_pieces(p: Seq<char>) -> Seq<Seq<char>> {
    text::split_on(p, '/').filter(|x: Seq<char>| x.len() > 0 && x != seq!['.'])
}

pub open spec fn is_absolute(p: Seq<char>) -> bool {
    p.len() > 0 && p[0] == '/'
}

pub open spec fn dotdot() -> Seq<char> {
    seq!['.', '.']
}

/// The repo tools' reading of a relative path: refused when absolute or when it has a
/// `..` piece; else its pieces joined by `/`.
pub open spec fn normalize_relative(p: Seq<char>) -> Result<Seq<char>, Seq<char>> {
    let t = text::trim(p);
    if is_absolute(t) {
        Err("path must be relative"@)
    } else if path_pieces(t).contains(dotdot()) {
        Err("path must not contain .."@)
    } else {
        Ok(text::join(path_pieces(t), seq!['/']))
    }
}

fn is_dot(x: &Vec<char>) -> (r: bool)
    ensures
        r == (x@ == seq!['.']),
{
    let r = x.len() == 1 && x[0] == '.';
    proof {
        if x@.len() == 1 && x@[0] == '.' {
            assert(x@ =~= seq!['.']);
        }
    }
    r
}

fn is_dotdot(x: &Vec<char>) -> (r: bool)
    ensures
        r == (x@ == dotdot()),
{
    let r = x.len() == 2 && x[0] == '.' && x[1] == '.';
    proof {
        if x@.len() == 2 && x@[0] == '.' && x@[1] == '.' {
            assert(x@ =~= dotdot());
        }
    }
    r
}

/// The pieces of a path, as vectors.
pub fn path_pieces_exec(p: &Vec<char>) -> (r: Vec<Vec<char>>)
    ensures
        r@.map_values(|x: Vec<char>| x@) == path_pieces(p@),
{
    let all = text::split_on_exec(p, '/');
    let ghost ps = text::split_on(p@, '/');
    let ghost pred = |x: Seq<char>| x.len() > 0 && x != seq!['.'];
    let mut out: Vec<Vec<char>> = Vec::new();
    let mut i: usize = 0;
    while i < all.len()
        invariant
            i <= all.len() == ps.len(),
            forall|k: int| 0 <= k < all@.len() ==> #[trigger] all@[k]@ == ps[k],
            pred == (|x: Seq<char>| x.len() > 0 && x != seq!['.']),
            out@.map_values(|x: Vec<char>| x@) == ps.take(i as int).filter(pred),
        decreases all.len() - i,
    {
        assert(ps.take(i + 1).drop_last() =~= ps.take(i as int));
        assert(ps.take(i + 1).last() == ps[i as int]);
        reveal_with_fuel(Seq::filter, 1);
        let ghost before = out@.map_values(|x: Vec<char>| x@);
        if all[i].len() > 0 && !is_dot(&all[i]) {
            let w = text::sub_vec(&all[i], 0, all[i].len());
            assert(w@ =~= all@[i as int]@);
            out.push(w);
            assert(out@.map_values(|x: Vec<char>| x@) =~= before.push(ps[i as int]));
        } else {
            assert(out@.map_values(|x: Vec<char>| x@) =~= before);
        }
        i = i + 1;
    }
    assert(ps.take(all@.len() as int) =~= ps);
    out
}

fn has_dotdot(ps: &Vec<Vec<char>>) -> (r: bool)
    ensures
        r == ps@.map_values(|x: Vec<char>| x@).contains(dotdot()),
{
    let mut i: usize = 0;
    while i < ps.len()
        invariant
            i <= ps.len(),
            forall|k: int| 0 <= k < i ==> ps@[k]@ != dotdot(),
        decreases ps.len() - i,
    {
        if is_dotdot(&ps[i]) {
            assert(ps@.map_values(|x: Vec<char>| x@)[i as int] == dotdot());
            return true;
        }
        i = i + 1;
    }
    proof {
        let m = ps@.map_values(|x: Vec<char>| x@);
        if m.contains(dotdot()) {
            let k = choose|k: int| 0 <= k < m.len() && m[k] == dotdot();
            assert(ps@[k]@ == dotdot());
        }
    }
    false
}

/// Reads a relative path for the repo tools (see `normalize_relative`).
pub fn normalize_relative_exec(path: &str) -> (r: Result<String, String>)
    ensures
        match r {
            Ok(s) => normalize_relative(path@) == Ok::<Seq<char>, Seq<char>>(s@),
            Err(e) => normalize_relative(path@) == Err::<Seq<char>, Seq<char>>(e@),
        },
{
    let t = text::trim_str(path);
    if t.len() > 0 && t[0] == '/' {
        return Err(String::from_str("path must be relative"));
    }
    let ps = path_pieces_exec(&t);
    if has_dotdot(&ps) {
        return Err(String::from_str("path must not contain .."));
    }
    let sl = vec!['/'];
    assert(sl@ =~= seq!['/']);
    let j = text::join_exec(&ps, &sl);
    Ok(text::string_of(&j))
}

/// `root` joined with a relative path (`root/rel`, or `root` for an empty one).
pub open spec fn join_path(root: Seq<char>, rel: Seq<char>) -> Seq<char> {
    if rel.len() == 0 {
        root
    } else if root.len() > 0 && root.last() == '/' {
        root + rel
    } else {
        root + seq!['/'] + rel
    }
}

/// The components of a path: a root marker for an absolute path, then its pieces.
pub open spec fn components(p: Seq<char>) -> Seq<Seq<char>> {
    if is_absolute(p) {
        seq![seq!['/']] + path_pieces(p)
    } else {
        path_pieces(p)
    }
}

/// `Path::starts_with`: the components of `base` are the first components of `p`.
pub open spec fn path_starts_with(p: Seq<char>, base: Seq<char>) -> bool {
    let a = components(p);
    let b = components(base);
    b.len() <= a.len() && a.take(b.len() as int) == b
}

fn components_exec(p: &Vec<char>) -> (r: Vec<Vec<char>>)
    ensures
        r@.map_values(|x: Vec<char>| x@) == components(p@),
{
    let ps = path_pieces_exec(p);
    if p.len() > 0 && p[0] == '/' {
        let mut r: Vec<Vec<char>> = Vec::new();
        r.push(vec!['/']);
        let mut i: usize = 0;
        while i < ps.len()
            invariant
                i <= ps.len(),
                r@.len() == i + 1,
                r@[0]@ == seq!['/'],
                forall|k: int| 0 <= k < i ==> #[trigger] r@[k + 1]@ == ps@[k]@,
            decreases ps.len() - i,
        {
            let w = text::sub_vec(&ps[i], 0, ps[i].len());
            assert(w@ =~= ps@[i as int]@);
            r.push(w);
            i = i + 1;
        }
        assert forall|k: int| 1 <= k < r@.len() implies #[trigger] r@[k]@ == ps@[k - 1]@ by {
            assert(r@[(k - 1) + 1]@ == ps@[k - 1]@);
        }
        assert(r@.map_values(|x: Vec<char>| x@) =~= seq![seq!['/']] + ps@.map_values(
            |x: Vec<char>| x@,
        ));
        r
    } else {
        ps
    }
}

/// `Path::starts_with` on two paths.
pub fn path_starts_with_exec(p: &str, base: &str) -> (r: bool)
    ensures
        r == path_starts_with(p@, base@),
{
    let pv = text::chars_of(p);
    let bv = text::chars_of(base);
    let a = components_exec(&pv);
    let b = components_exec(&bv);
    let ghost am = a@.map_values(|x: Vec<char>| x@);
    let ghost bm = b@.map_values(|x: Vec<char>| x@);
    assert(am == components(p@));
    assert(bm == components(base@));
    assert(am.len() == a@.len() && bm.len() == b@.len());
    if b.len() > a.len() {
        return false;
    }
    let mut i: usize = 0;
    while i < b.len()
        invariant
            b.len() <= a.len(),
            i <= b.len(),
            am == a@.map_values(|x: Vec<char>| x@),
            bm == b@.map_values(|x: Vec<char>| x@),
            am == components(p@),
            bm == components(base@),
            forall|k: int| 0 <= k < i ==> am[k] == bm[k],
        decreases b.len() - i,
    {
        if !crate::cli::vec_eq(&a[i], &b[i]) {
            assert(am.take(bm.len() as int)[i as int] != bm[i as int]);
            return false;
        }
        i = i + 1;
    }
    assert(am.take(bm.len() as int) =~= bm);
    true
}

/// A path as the repo tools accept it, before any root is consulted: not blank, and read
/// as a relative path.
pub open spec fn checked_relative(path: Seq<char>) -> Result<Seq<char>, Seq<char>> {
    if text::trim(path).len() == 0 {
        Err("path is empty"@)
    } else {
        normalize_relative(path)
    }
}

/// The checks on a repo path that come before the root is looked up: a blank path, an
/// absolute one and one with a `..` piece are refused here.
pub fn checked_relative_exec(path: &str) -> (r: Result<String, String>)
    ensures
        match r {
            Ok(s) => checked_relative(path@) == Ok::<Seq<char>, Seq<char>>(s@),
            Err(e) => checked_relative(path@) == Err::<Seq<char>, Seq<char>>(e@),
        },
{
    let t = text::trim_str(path);
    if t.len() == 0 {
        return Err(String::from_str("path is empty"));
    }
    normalize_relative_exec(path)
}

/// Where a file may be written under `root` (already made canonical): the path read as
/// a relative path and joined to the root.
pub open spec fn write_target(path: Seq<char>, root: Seq<char>) -> Result<Seq<char>, Seq<char>> {
    if text::trim(path).len() == 0 {
        Err("path is empty"@)
    } else {
        match normalize_relative(path) {
            Err(e) => Err(e),
            Ok(rel) => if path_starts_with(join_path(root, rel), root) {
                Ok(join_path(root, rel))
            } else {
                Err("path must be under repo root"@)
            },
        }
    }
}

/// Resolves a path for writing under the canonical repo root; the file need not exist.
pub fn resolve_under_root_for_write(path: &str, root_canonical: &str) -> (r: Result<String, String>)
    ensures
        match r {
            Ok(s) => write_target(path@, root_canonical@) == Ok::<Seq<char>, Seq<char>>(s@),
            Err(e) => write_target(path@, root_canonical@) == Err::<Seq<char>, Seq<char>>(e@),
        },
{
    let t = text::trim_str(path);
    if t.len() == 0 {
        return Err(String::from_str("path is empty"));
    }
    let rel = match normalize_relative_exec(path) {
        Ok(r) => r,
        Err(e) => return Err(e),
    };
    let full = join_path_exec(root_canonical, rel.as_str());
    if !path_starts_with_exec(full.as_str(), root_canonical) {
        return Err(String::from_str("path must be under repo root"));
    }
    Ok(full)
}

/// Where a path to read lies under `root` (already made canonical), before it is made
/// canonical itself: the path read as a relative path and joined to the root.
pub open spec fn read_target(path: Seq<char>, root: Seq<char>) -> Result<Seq<char>, Seq<char>> {
    if text::trim(path).len() == 0 {
        Err("path is empty"@)
    } else {
        match normalize_relative(path) {
            Err(e) => Err(e),
            Ok(rel) => Ok(join_path(root, rel)),
        }
    }
}

/// The first step of resolving a path that must exist under the canonical repo root:
/// the joined path to make canonical. The canonical result is then held to the root by
/// `check_under_root`.
pub fn resolve_under_root(path: &str, root_canonical: &str) -> (r: Result<String, String>)
    ensures
        match r {
            Ok(s) => read_target(path@, root_canonical@) == Ok::<Seq<char>, Seq<char>>(s@),
            Err(e) => read_target(path@, root_canonical@) == Err::<Seq<char>, Seq<char>>(e@),
        },
{
    let t = text::trim_str(path);
    if t.len() == 0 {
        return Err(String::from_str("path is empty"));
    }
    let rel = match normalize_relative_exec(path) {
        Ok(r) => r,
        Err(e) => return Err(e),
    };
    Ok(join_path_exec(root_canonical, rel.as_str()))
}

/// The error when the repo root cannot be made canonical.
pub fn root_not_accessible(e: &str) -> (r: String)
    ensures
        r@ == "repo root not accessible: "@ + e@,
{
    let mut v = text::lit("repo root not accessible: ");
    text::push_str(&mut v, e);
    text::string_of(&v)
}

/// The error when the joined path cannot be made canonical.
pub fn path_not_accessible(e: &str) -> (r: String)
    ensures
        r@ == "path not found or not accessible: "@ + e@,
{
    let mut v = text::lit("path not found or not accessible: ");
    text::push_str(&mut v, e);
    text::string_of(&v)
}

/// The configured repo root: `CHUMP_REPO` when set, else `CHUMP_HOME`, trimmed.
pub open spec fn configured_root(repo: Option<Seq<char>>, home: Option<Seq<char>>) -> Option<Seq<char>> {
    match repo {
        Some(r) => Some(text::trim(r)),
        None => match home {
            Some(h) => Some(text::trim(h)),
            None => None,
        },
    }
}

/// The repo root to use when it is a directory (the caller checks that, and falls
/// back to the current directory otherwise).
pub fn repo_root_candidate(repo: Option<&str>, home: Option<&str>) -> (r: Option<String>)
    ensures
        crate::task::opt_seq(r) == configured_root(
            crate::github::opt_view(repo),
            crate::github::opt_view(home),
        ),
{
    match repo {
        Some(x) => Some(text::string_of(&text::trim_str(x))),
        None => match home {
            Some(h) => Some(text::string_of(&text::trim_str(h))),
            None => None,
        },
    }
}

/// Whether the repo root was set explicitly (writes are allowed only then).
pub fn repo_root_is_explicit(repo: Option<&str>, home: Option<&str>) -> (r: bool)
    ensures
        r == (configured_root(crate::github::opt_view(repo), crate::github::opt_view(home)) matches Some(x)
            && x.len() > 0),
{
    match repo_root_candidate(repo, home) {
        Some(x) => !x.as_str().is_empty(),
        None => false,
    }
}

pub fn join_path_exec(root: &str, rel: &str) -> (r: String)
    ensures
        r@ == join_path(root@, rel@),
{
    let r = text::chars_of(root);
    let mut out = text::chars_of(root);
    let mut l = text::chars_of(rel);
    if l.len() == 0 {
        return text::string_of(&out);
    }
    if !(r.len() > 0 && r[r.len() - 1] == '/') {
        out.push('/');
    }
    out.append(&mut l);
    assert(out@ =~= join_path(root@, rel@));
    text::string_of(&out)
}

/// Checks that a canonical path lies under the canonical root.
pub fn check_under_root(canonical: &str, root_canonical: &str) -> (r: Result<String, String>)
    ensures
        match r {
            Ok(s) => s@ == canonical@ && path_starts_with(canonical@, root_canonical@),
            Err(e) => e@ == "path must be under repo root"@ && !path_starts_with(
                canonical@,
                root_canonical@,
            ),
        },
{
    if !path_starts_with_exec(canonical, root_canonical) {
        return Err(String::from_str("path must be under repo root"));
    }
    Ok(String::from_str(canonical))
}

// ---------------------------------------------------------------------------
// Brain paths: `..` steps back, but never above the root
// ---------------------------------------------------------------------------

/// The brain tool's reading of a relative path: `.` skipped, `..` removing the last
/// piece (refused when there is none), a leading `/` refused.
pub open spec fn brain_pieces(pieces: Seq<Seq<char>>) -> Option<Seq<Seq<char>>>
    decreases pieces.len(),
{
    if pieces.len() == 0 {
        Some(Seq::empty())
    } else {
        match brain_pieces(pieces.drop_last()) {
            None => None,
            Some(acc) => if pieces.last() == dotdot() {
                if acc.len() == 0 {
                    None
                } else {
                    Some(acc.drop_last())
                }
            } else {
                Some(acc.push(pieces.last()))
            },
        }
    }
}

/// Why a brain path is refused.
pub enum BrainPathError {
    Escapes,
    NotRelative,
}

pub open spec fn brain_normalize(rel: Seq<char>) -> Result<Seq<char>, BrainPathError> {
    if is_absolute(rel) {
        Err(BrainPathError::NotRelative)
    } else {
        match brain_pieces(path_pieces(rel)) {
            None => Err(BrainPathError::Escapes),
            Some(ps) => Ok(text::join(ps, seq!['/'])),
        }
    }
}

/// Normalizes a relative brain path, resolving `..` without leaving the root.
pub fn brain_normalize_exec(rel: &str) -> (r: Result<String, BrainPathError>)
    ensures
        match r {
            Ok(s) => brain_normalize(rel@) == Ok::<Seq<char>, BrainPathError>(s@),
            Err(e) => brain_normalize(rel@) == Err::<Seq<char>, BrainPathError>(e),
        },
{
    let v = text::chars_of(rel);
    if v.len() > 0 && v[0] == '/' {
        return Err(BrainPathError::NotRelative);
    }
    let ps = path_pieces_exec(&v);
    let ghost pm = ps@.map_values(|x: Vec<char>| x@);
    assert(pm == path_pieces(rel@));
    let mut acc: Vec<Vec<char>> = Vec::new();
    let mut i: usize = 0;
    while i < ps.len()
        invariant
            i <= ps.len(),
            pm == ps@.map_values(|x: Vec<char>| x@),
            pm == path_pieces(rel@),
            !is_absolute(rel@),
            brain_pieces(pm.take(i as int)) == Some(acc@.map_values(|x: Vec<char>| x@)),
        decreases ps.len() - i,
    {
        assert(pm.take(i + 1).drop_last() =~= pm.take(i as int));
        let ghost before = acc@.map_values(|x: Vec<char>| x@);
        if is_dotdot(&ps[i]) {
            if acc.len() == 0 {
                proof {
                    assert(pm.take(i + 1).last() == pm[i as int]);
                    assert(pm[i as int] == dotdot());
                    assert(brain_pieces(pm.take(i + 1)) is None);
                    lemma_brain_none_extends(pm, (i + 1) as int);
                    assert(pm.take(pm.len() as int) =~= pm);
                    assert(brain_pieces(pm) is None);
                    assert(pm == path_pieces(rel@));
                    assert(!is_absolute(rel@));
                }
                return Err(BrainPathError::Escapes);
            }
            acc.pop();
            assert(pm.take(i + 1).last() == pm[i as int]);
            assert(acc@.map_values(|x: Vec<char>| x@) =~= before.drop_last());
        } else {
            let w = text::sub_vec(&ps[i], 0, ps[i].len());
            assert(w@ =~= ps@[i as int]@);
            acc.push(w);
            assert(pm.take(i + 1).last() == pm[i as int]);
            assert(acc@.map_values(|x: Vec<char>| x@) =~= before.push(pm[i as int]));
        }
        i = i + 1;
    }
    assert(pm.take(ps@.len() as int) =~= pm);
    let sl = vec!['/'];
    assert(sl@ =~= seq!['/']);
    let j = text::join_exec(&acc, &sl);
    Ok(text::string_of(&j))
}

/// Once the walk escapes the root it stays refused.
proof fn lemma_brain_none_extends(ps: Seq<Seq<char>>, i: int)
    requires
        0 <= i <= ps.len(),
        brain_pieces(ps.take(i)) is None,
    ensures
        brain_pieces(ps) is None,
    decreases ps.len() - i,
{
    if i < ps.len() {
        assert(ps.take(i + 1).drop_last() =~= ps.take(i));
        lemma_brain_none_extends(ps, i + 1);
    } else {
        assert(ps.take(i) =~= ps);
    }
}

/// A normalized brain path never steps above the root: it has no `..` piece.
pub proof fn lemma_brain_pieces_no_dotdot(ps: Seq<Seq<char>>)
    ensures
        brain_pieces(ps) matches Some(out) ==> !out.contains(dotdot()),
    decreases ps.len(),
{
    if ps.len() > 0 {
        lemma_brain_pieces_no_dotdot(ps.drop_last());
        match brain_pieces(ps.drop_last()) {
            Some(acc) => {
                if ps.last() == dotdot() {
                    if acc.len() > 0 {
                        assert forall|k: int| 0 <= k < acc.drop_last().len() implies acc.drop_last()[k] != dotdot() by {
                            assert(acc.drop_last()[k] == acc[k]);
                        }
                    }
                } else {
                    assert forall|k: int| 0 <= k < acc.push(ps.last()).len() implies acc.push(ps.last())[k] != dotdot() by {
                        if k < acc.len() {
                            assert(acc.push(ps.last())[k] == acc[k]);
                        }
                    }
                }
            },
            None => {},
        }
    }
}

/// Splitting at a separator between two texts splits each of them.
proof fn lemma_piece_scan_concat(a: Seq<char>, b: Seq<char>, sep: char)
    ensures
        text::piece_scan(a + seq![sep] + b, sep) == (
            text::split_on(a, sep) + text::piece_scan(b, sep).0,
            text::piece_scan(b, sep).1,
        ),
    decreases b.len(),
{
    if b.len() == 0 {
        assert(a + seq![sep] + b =~= a + seq![sep]);
        assert((a + seq![sep]).drop_last() =~= a);
        assert(text::split_on(a, sep) + Seq::<Seq<char>>::empty() =~= text::split_on(a, sep));
    } else {
        lemma_piece_scan_concat(a, b.drop_last(), sep);
        assert((a + seq![sep] + b).drop_last() =~= a + seq![sep] + b.drop_last());
        assert((a + seq![sep] + b).last() == b.last());
        let (d, c) = text::piece_scan(b.drop_last(), sep);
        if b.last() == sep {
            assert(text::split_on(a, sep) + d.push(c) =~= (text::split_on(a, sep) + d).push(c));
        }
    }
}

/// The pieces of `root/rel` are those of `root` followed by those of `rel`.
proof fn lemma_pieces_join(root: Seq<char>, rel: Seq<char>)
    requires
        root.len() > 0,
    ensures
        path_pieces(join_path(root, rel)) == path_pieces(root) + path_pieces(rel),
{
    let pred = |x: Seq<char>| x.len() > 0 && x != seq!['.'];
    broadcast use vstd::seq::Seq::filter_distributes_over_add;
    if rel.len() == 0 {
        assert(text::split_on(rel, '/') =~= seq![Seq::<char>::empty()]);
        reveal_with_fuel(Seq::filter, 2);
        assert(seq![Seq::<char>::empty()].filter(pred) =~= Seq::<Seq<char>>::empty());
        assert(path_pieces(root) + Seq::<Seq<char>>::empty() =~= path_pieces(root));
    } else if root.last() == '/' {
        let r0 = root.drop_last();
        assert(root =~= r0 + seq!['/']);
        assert(join_path(root, rel) =~= r0 + seq!['/'] + rel);
        lemma_piece_scan_concat(r0, rel, '/');
        lemma_piece_scan_concat(r0, Seq::empty(), '/');
        assert(r0 + seq!['/'] + Seq::<char>::empty() =~= root);
        assert(text::split_on(root, '/') =~= text::split_on(r0, '/') + seq![Seq::<char>::empty()]);
        assert(text::split_on(join_path(root, rel), '/') =~= text::split_on(r0, '/') + text::split_on(rel, '/'));
        reveal_with_fuel(Seq::filter, 2);
        assert(seq![Seq::<char>::empty()].filter(pred) =~= Seq::<Seq<char>>::empty());
        assert(path_pieces(root) =~= text::split_on(r0, '/').filter(pred) + Seq::<Seq<char>>::empty());
    } else {
        lemma_piece_scan_concat(root, rel, '/');
        assert(join_path(root, rel) == root + seq!['/'] + rel);
        assert(text::split_on(join_path(root, rel), '/') =~= text::split_on(root, '/') + text::split_on(rel, '/'));
    }
}

/// A non-blank relative path without a `..` piece is always accepted for writing: the
/// target is the root joined with the path's pieces (`.` pieces dropped).
pub proof fn lemma_relative_path_writable(path: Seq<char>, root: Seq<char>)
    requires
        text::trim(path).len() > 0,
        !is_absolute(text::trim(path)),
        !path_pieces(text::trim(path)).contains(dotdot()),
    ensures
        write_target(path, root) == Ok::<Seq<char>, Seq<char>>(
            join_path(root, text::join(path_pieces(text::trim(path)), seq!['/'])),
        ),
{
    lemma_write_target_in_root(path, root, text::join(path_pieces(text::trim(path)), seq!['/']));
}

/// A path that reads as a relative path is always written under the root: the write
/// target is never refused for leaving it.
pub proof fn lemma_write_target_in_root(path: Seq<char>, root: Seq<char>, rel: Seq<char>)
    requires
        text::trim(path).len() > 0,
        normalize_relative(path) == Ok::<Seq<char>, Seq<char>>(rel),
    ensures
        write_target(path, root) == Ok::<Seq<char>, Seq<char>>(join_path(root, rel)),
{
    let full = join_path(root, rel);
    if root.len() == 0 {
        assert(components(root) =~= Seq::<Seq<char>>::empty()) by {
            assert(text::split_on(root, '/') =~= seq![Seq::<char>::empty()]);
            reveal_with_fuel(Seq::filter, 2);
        }
        assert(components(full).take(0) =~= components(root));
    } else {
        lemma_pieces_join(root, rel);
        assert(is_absolute(full) == is_absolute(root)) by {
            if rel.len() > 0 {
                assert(full[0] == root[0]);
            }
        }
        let a = components(full);
        let b = components(root);
        assert(a.take(b.len() as int) =~= b);
    }
}

} // verus!
