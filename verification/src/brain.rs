//! The brain: a directory of Markdown wiki files. Where it is, which relative paths may
//! be used in it, which files a listing and a search report, and the tool's requests
//! and replies. Reading and writing the files is left to the caller.
use vstd::prelude::*;
use crate::text;
use crate::json::{self, JsonValue};
use crate::paths::{self, BrainPathError};
use crate::github::opt_view;

verus! {

/// The brain directory: `CHUMP_BRAIN_PATH` (default `chump-brain`), taken from the
/// current directory when it is relative.
pub open spec fn brain_root(env: Option<Seq<char>>, cwd: Seq<char>) -> Seq<char> {
    let root = match env {
        Some(r) => r,
        None => "chump-brain"@,
    };
    if paths::is_absolute(root) {
        root
    } else {
        paths::join_path(cwd, root)
    }
}

pub fn brain_root_exec(env: Option<&str>, cwd: &str) -> (r: String)
    ensures
        r@ == brain_root(opt_view(env), cwd@),
{
    let root = match env {
        Some(r) => String::from_str(r),
        None => String::from_str("chump-brain"),
    };
    let v = text::chars_of(root.as_str());
    if v.len() > 0 && v[0] == '/' {
        root
    } else {
        paths::join_path_exec(cwd, root.as_str())
    }
}

/// The relative path a brain file is read or written at: the trimmed path with `.`
/// dropped and `..` stepping back, refused when it is blank, absolute, or steps above
/// the root.
pub open spec fn brain_path(relative: Seq<char>) -> Result<Seq<char>, Seq<char>> {
    let rel = text::trim(relative);
    if rel.len() == 0 {
        Err("path is empty"@)
    } else {
        match paths::brain_normalize(rel) {
            Ok(p) => Ok(p),
            Err(BrainPathError::Escapes) => Err("Path escapes brain root: "@ + rel),
            Err(BrainPathError::NotRelative) => Err("Path must be relative: "@ + rel),
        }
    }
}

pub fn brain_path_exec(relative: &str) -> (r: Result<String, String>)
    ensures
        match r {
            Ok(p) => brain_path(relative@) == Ok::<Seq<char>, Seq<char>>(p@),
            Err(e) => brain_path(relative@) == Err::<Seq<char>, Seq<char>>(e@),
        },
{
    let rel = text::string_of(&text::trim_str(relative));
    if rel.as_str().is_empty() {
        return Err(String::from_str("path is empty"));
    }
    match paths::brain_normalize_exec(rel.as_str()) {
        Ok(p) => Ok(p),
        Err(BrainPathError::Escapes) => {
            let mut m = text::lit("Path escapes brain root: ");
            text::push_str(&mut m, rel.as_str());
            Err(text::string_of(&m))
        },
        Err(BrainPathError::NotRelative) => {
            let mut m = text::lit("Path must be relative: ");
            text::push_str(&mut m, rel.as_str());
            Err(text::string_of(&m))
        },
    }
}

/// A canonical path (of the file, or of its directory when the file does not exist yet)
/// must lie under the canonical brain root.
pub fn check_inside(canonical: &str, root_canonical: &str, relative: &str) -> (r: Result<(), String>)
    ensures
        paths::path_starts_with(canonical@, root_canonical@) ==> r is Ok,
        !paths::path_starts_with(canonical@, root_canonical@) ==> (r matches Err(e) && e@
            == "Path escapes brain root: "@ + relative@),
{
    if paths::path_starts_with_exec(canonical, root_canonical) {
        Ok(())
    } else {
        let mut m = text::lit("Path escapes brain root: ");
        text::push_str(&mut m, relative);
        Err(text::string_of(&m))
    }
}

/// The path of an entry found while walking the brain: `name`, or `prefix/name`.
pub open spec fn child_path(prefix: Seq<char>, name: Seq<char>) -> Seq<char> {
    if prefix.len() == 0 {
        name
    } else {
        prefix + seq!['/'] + name
    }
}

pub fn child_path_exec(prefix: &str, name: &str) -> (r: String)
    ensures
        r@ == child_path(prefix@, name@),
{
    if prefix.is_empty() {
        return String::from_str(name);
    }
    let mut v = text::chars_of(prefix);
    v.push('/');
    text::push_str(&mut v, name);
    text::string_of(&v)
}

/// A file the brain lists: one whose name ends in `.md`.
pub fn is_markdown(name: &str) -> (r: bool)
    ensures
        r == text::ends_with(name@, ".md"@),
{
    text::ends_with_exec(&text::chars_of(name), &text::lit(".md"))
}

/// A file a search reports: its content contains the query, ignoring case.
pub open spec fn content_matches(content: Seq<char>, query: Seq<char>) -> bool {
    text::contains(text::lowercase(content), text::lowercase(query))
}

pub fn content_matches_exec(content: &str, query: &str) -> (r: bool)
    ensures
        r == content_matches(content@, query@),
{
    let c = text::lowercase_vec(&text::chars_of(content));
    let q = text::lowercase_vec(&text::chars_of(query));
    text::contains_exec(&c, &q)
}

/// A brain tool request.
pub enum BrainRequest {
    ReadFile { path: String },
    WriteFile { path: String, content: String },
    AppendFile { path: String, content: String },
    ListFiles,
    SearchFiles { query: String },
}

/// A brain request with its strings as sequences.
pub enum BrainRequestView {
    ReadFile(Seq<char>),
    WriteFile(Seq<char>, Seq<char>),
    AppendFile(Seq<char>, Seq<char>),
    ListFiles,
    SearchFiles(Seq<char>),
}

impl BrainRequest {
    pub open spec fn view(self) -> BrainRequestView {
        match self {
            BrainRequest::ReadFile { path } => BrainRequestView::ReadFile(path@),
            BrainRequest::WriteFile { path, content } => BrainRequestView::WriteFile(path@, content@),
            BrainRequest::AppendFile { path, content } => BrainRequestView::AppendFile(path@, content@),
            BrainRequest::ListFiles => BrainRequestView::ListFiles,
            BrainRequest::SearchFiles { query } => BrainRequestView::SearchFiles(query@),
        }
    }
}

/// What the brain tool is asked to do, or the error for the user. Paths are trimmed;
/// contents are kept as given.
pub open spec fn brain_request(input: JsonValue) -> Result<BrainRequestView, Seq<char>> {
    brain_request_with(input, crate::task::action_of(input))
}

/// The same, given the input's lower-cased, trimmed action.
pub open spec fn brain_request_with(input: JsonValue, action: Option<Seq<char>>) -> Result<BrainRequestView, Seq<char>> {
    let path = crate::state::trimmed_field(input, "path"@);
    let content = json::str_field(input, "content"@);
    match action {
        None => Err("missing action"@),
        Some(a) => if a == "read_file"@ {
            match path {
                None => Err("read_file requires path"@),
                Some(p) => if p.len() == 0 {
                    Err("path is empty"@)
                } else {
                    Ok(BrainRequestView::ReadFile(p))
                },
            }
        } else if a == "write_file"@ || a == "append_file"@ {
            match path {
                None => Err(a + " requires path"@),
                Some(p) => match content {
                    None => Err(a + " requires content"@),
                    Some(c) => if p.len() == 0 {
                        Err("path is empty"@)
                    } else if a == "write_file"@ {
                        Ok(BrainRequestView::WriteFile(p, c))
                    } else {
                        Ok(BrainRequestView::AppendFile(p, c))
                    },
                },
            }
        } else if a == "list_files"@ {
            Ok(BrainRequestView::ListFiles)
        } else if a == "search_files"@ {
            match crate::state::trimmed_field(input, "query"@) {
                Some(q) => if q.len() > 0 {
                    Ok(BrainRequestView::SearchFiles(q))
                } else {
                    Err("search_files requires query"@)
                },
                None => Err("search_files requires query"@),
            }
        } else {
            Err("action must be read_file, write_file, append_file, list_files, or search_files"@)
        },
    }
}

fn concat2(a: &Vec<char>, b: &str) -> (r: String)
    ensures
        r@ == a@ + b@,
{
    let mut v = text::sub_vec(a, 0, a.len());
    assert(v@ =~= a@);
    text::push_str(&mut v, b);
    text::string_of(&v)
}

/// Reads and writes the brain's wiki files.
pub struct MemoryBrainTool;

impl MemoryBrainTool {
    /// Decodes a brain tool input.
    pub fn request(input: &JsonValue) -> (r: Result<BrainRequest, String>)
        ensures
            match brain_request(*input) {
                Ok(q) => r matches Ok(x) && x.view() == q,
                Err(e) => r matches Err(m) && m@ == e,
            },
    {
        match crate::task::action_exec(input) {
            Some(a) => Self::request_with_action(input, Some(text::string_of(&a).as_str())),
            None => Self::request_with_action(input, None),
        }
    }

    /// Decodes a brain tool input whose action, lower-cased and trimmed, is `action`.
    pub fn request_with_action(input: &JsonValue, action: Option<&str>) -> (r: Result<BrainRequest, String>)
        ensures
            match brain_request_with(*input, crate::github::opt_view(action)) {
                Ok(q) => r matches Ok(x) && x.view() == q,
                Err(e) => r matches Err(m) && m@ == e,
            },
    {
        let a = match action {
            Some(a) => text::chars_of(a),
            None => return Err(String::from_str("missing action")),
        };
        if text::is_lit(&a, "read_file") {
            let p = match crate::state::trimmed_string(input, "path") {
                Some(p) => p,
                None => return Err(String::from_str("read_file requires path")),
            };
            if p.as_str().is_empty() {
                return Err(String::from_str("path is empty"));
            }
            return Ok(BrainRequest::ReadFile { path: p });
        }
        let is_write = text::is_lit(&a, "write_file");
        if is_write || text::is_lit(&a, "append_file") {
            let p = match crate::state::trimmed_string(input, "path") {
                Some(p) => p,
                None => return Err(concat2(&a, " requires path")),
            };
            let c = match input.str_field("content") {
                Some(c) => c,
                None => return Err(concat2(&a, " requires content")),
            };
            if p.as_str().is_empty() {
                return Err(String::from_str("path is empty"));
            }
            if is_write {
                return Ok(BrainRequest::WriteFile { path: p, content: c });
            }
            return Ok(BrainRequest::AppendFile { path: p, content: c });
        }
        if text::is_lit(&a, "list_files") {
            return Ok(BrainRequest::ListFiles);
        }
        if text::is_lit(&a, "search_files") {
            return match crate::state::trimmed_string(input, "query") {
                Some(q) => if q.as_str().is_empty() {
                    Err(String::from_str("search_files requires query"))
                } else {
                    Ok(BrainRequest::SearchFiles { query: q })
                },
                None => Err(String::from_str("search_files requires query")),
            };
        }
        Err(
            String::from_str(
                "action must be read_file, write_file, append_file, list_files, or search_files",
            ),
        )
    }

    /// The error when the brain directory does not exist.
    pub fn root_missing(root: &str) -> (r: String)
        ensures
            r@ == "Brain root does not exist: "@ + root@ + ". Create it and init git."@,
    {
        let mut v = text::lit("Brain root does not exist: ");
        text::push_str(&mut v, root);
        text::push_str(&mut v, ". Create it and init git.");
        text::string_of(&v)
    }

    /// The text an append adds to the file: a blank line, the content, a newline.
    pub fn appended_text(content: &str) -> (r: String)
        ensures
            r@ == seq!['\n'] + content@ + seq!['\n'],
    {
        let mut v: Vec<char> = Vec::new();
        v.push('\n');
        text::push_str(&mut v, content);
        v.push('\n');
        assert(v@ =~= seq!['\n'] + content@ + seq!['\n']);
        text::string_of(&v)
    }

    /// `Wrote {path}.`
    pub fn wrote(path: &str) -> (r: String)
        ensures
            r@ == "Wrote "@ + path@ + "."@,
    {
        let mut v = text::lit("Wrote ");
        text::push_str(&mut v, path);
        text::push_str(&mut v, ".");
        text::string_of(&v)
    }

    /// `Appended to {path}.`
    pub fn appended(path: &str) -> (r: String)
        ensures
            r@ == "Appended to "@ + path@ + "."@,
    {
        crate::state::EgoTool::appended(path)
    }

    /// A list of files, one per line, or `empty` when there are none.
    pub fn file_list(files: &Vec<String>, empty: &str) -> (r: String)
        ensures
            r@ == if files@.len() == 0 {
                empty@
            } else {
                text::join(crate::cli::names(files@), seq!['\n'])
            },
    {
        if files.len() == 0 {
            return String::from_str(empty);
        }
        let mut parts: Vec<Vec<char>> = Vec::new();
        let mut i: usize = 0;
        while i < files.len()
            invariant
                i <= files.len(),
                parts@.len() == i,
                forall|k: int| 0 <= k < i ==> #[trigger] parts@[k]@ == files@[k]@,
            decreases files.len() - i,
        {
            parts.push(text::chars_of(files[i].as_str()));
            i = i + 1;
        }
        let nl = vec!['\n'];
        assert(nl@ =~= seq!['\n']);
        let j = text::join_exec(&parts, &nl);
        assert(parts@.map_values(|p: Vec<char>| p@) =~= crate::cli::names(files@));
        text::string_of(&j)
    }
}

} // verus!
