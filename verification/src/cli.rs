//! The shell tool: which commands may run, how the command is found in the tool input,
//! and how the output is reported. Running the process is left to the caller.
use vstd::prelude::*;
use crate::text;
use crate::json::{self, JsonValue};

verus! {

pub const DEFAULT_TIMEOUT_SECS: u64 = 60;

pub const MAX_OUTPUT_CHARS: usize = 2500;

/// The shell tool's settings.
pub struct CliTool {
    /// If empty, any command is allowed. Otherwise only these (lower-case) executables.
    pub allowlist: Vec<String>,
    /// Executables (lower-case) never to run.
    pub blocklist: Vec<String>,
    pub timeout_secs: u64,
    pub max_output: usize,
}

/// Alias tool (`git`, `cargo`) that runs its command through the shell tool.
pub struct CliToolAlias {
    pub name: String,
    pub inner: CliTool,
}

pub open spec fn names(v: Seq<String>) -> Seq<Seq<char>> {
    v.map_values(|s: String| s@)
}

/// Decimal digits of `s` read as a number.
pub open spec fn digits_value(s: Seq<char>) -> nat
    decreases s.len(),
{
    if s.len() == 0 {
        0
    } else {
        digits_value(s.drop_last()) * 10 + ((s.last() as u32) - 48) as nat
    }
}

pub open spec fn all_digits(s: Seq<char>) -> bool {
    forall|i: int| 0 <= i < s.len() ==> '0' <= #[trigger] s[i] <= '9'
}

/// `str::parse::<u64>`: an optional `+`, then one or more ASCII digits, with a value that fits.
pub open spec fn parse_u64(s: Seq<char>) -> Option<u64> {
    let d = if s.len() > 0 && s[0] == '+' {
        s.drop_first()
    } else {
        s
    };
    if d.len() > 0 && all_digits(d) && digits_value(d) <= u64::MAX {
        Some(digits_value(d) as u64)
    } else {
        None
    }
}

pub fn parse_u64_exec(s: &str) -> (r: Option<u64>)
    ensures
        r == parse_u64(s@),
{
    let v = text::chars_of(s);
    let start: usize = if v.len() > 0 && v[0] == '+' {
        1
    } else {
        0
    };
    let ghost d = if v@.len() > 0 && v@[0] == '+' {
        v@.drop_first()
    } else {
        v@
    };
    assert(d =~= v@.skip(start as int));
    if start >= v.len() {
        return None;
    }
    let mut acc: u64 = 0;
    let mut i = start;
    while i < v.len()
        invariant
            start <= i <= v.len(),
            v@ == s@,
            d == v@.skip(start as int),
            d == (if s@.len() > 0 && s@[0] == '+' {
                s@.drop_first()
            } else {
                s@
            }),
            all_digits(v@.subrange(start as int, i as int)),
            acc == digits_value(v@.subrange(start as int, i as int)),
        decreases v.len() - i,
    {
        assert(v@.subrange(start as int, i + 1).drop_last() =~= v@.subrange(start as int, i as int));
        let c = v[i];
        if c < '0' || c > '9' {
            assert(!all_digits(d)) by {
                assert(d[i - start] == c);
                assert(!('0' <= d[i - start] <= '9'));
            }
            assert(parse_u64(s@) is None);
            return None;
        }
        let dg = (c as u32 - 48) as u64;
        if acc > (u64::MAX - dg) / 10 {
            proof {
                lemma_digits_value_prefix(d, (i - start + 1) as int);
                assert(d.take(i - start + 1) =~= v@.subrange(start as int, i + 1));
                assert(digits_value(d.take(i - start + 1)) == acc * 10 + dg) by {
                    assert(d.take(i - start + 1).drop_last() =~= v@.subrange(start as int, i as int));
                }
                assert(acc * 10 + dg > u64::MAX) by (nonlinear_arith)
                    requires
                        acc > (u64::MAX - dg) / 10,
                        dg < 10,
                ;
            }
            let rest_ok = all_digits_exec(&v, i + 1);
            if !rest_ok {
                proof {
                    let k = choose|k: int| i + 1 <= k < v@.len() && !('0' <= #[trigger] v@[k] <= '9');
                    assert(d[k - start] == v@[k]);
                    assert(!('0' <= d[k - start] <= '9'));
                    assert(!all_digits(d));
                }
            }
            if rest_ok {
                proof {
                    assert(all_digits(d)) by {
                        assert forall|k: int| 0 <= k < d.len() implies '0' <= #[trigger] d[k] <= '9' by {
                            if k < i - start {
                                assert(v@.subrange(start as int, i as int)[k] == d[k]);
                            } else if k > i - start {
                                assert(d[k] == v@[start + k]);
                            }
                        }
                    }
                }
                assert(digits_value(d) > u64::MAX);
            }
            assert(parse_u64(s@) is None);
            return None;
        }
        acc = acc * 10 + dg;
        i = i + 1;
    }
    assert(v@.subrange(start as int, v@.len() as int) =~= d);
    Some(acc)
}

fn all_digits_exec(v: &Vec<char>, from: usize) -> (r: bool)
    requires
        from <= v.len(),
    ensures
        r == forall|k: int| from <= k < v@.len() ==> '0' <= #[trigger] v@[k] <= '9',
{
    let mut i = from;
    while i < v.len()
        invariant
            from <= i <= v.len(),
            forall|k: int| from <= k < i ==> '0' <= #[trigger] v@[k] <= '9',
        decreases v.len() - i,
    {
        if v[i] < '0' || v[i] > '9' {
            return false;
        }
        i = i + 1;
    }
    true
}

/// The value of a digit string never drops when digits are added.
proof fn lemma_digits_value_prefix(d: Seq<char>, k: int)
    requires
        0 <= k <= d.len(),
    ensures
        digits_value(d.take(k)) <= digits_value(d),
    decreases d.len() - k,
{
    if k < d.len() {
        assert(d.drop_last().take(k) =~= d.take(k));
        lemma_digits_value_prefix(d.drop_last(), k);
        assert(digits_value(d) >= digits_value(d.drop_last())) by (nonlinear_arith)
            requires
                digits_value(d) == digits_value(d.drop_last()) * 10 + ((d.last() as u32) - 48) as nat,
        ;
    } else {
        assert(d.take(k) =~= d);
    }
}

/// A comma-separated list: pieces trimmed and lower-cased, empty ones dropped.
pub open spec fn name_list(s: Seq<char>) -> Seq<Seq<char>> {
    text::split_on(s, ',').map_values(|x: Seq<char>| text::lowercase(text::trim(x))).filter(
        |x: Seq<char>| x.len() > 0,
    )
}

pub fn name_list_exec(s: &str) -> (r: Vec<String>)
    ensures
        names(r@) == name_list(s@),
{
    let v = text::chars_of(s);
    let pieces = text::split_on_exec(&v, ',');
    let ghost ps = text::split_on(s@, ',');
    let ghost mapped = ps.map_values(|x: Seq<char>| text::lowercase(text::trim(x)));
    let ghost pred = |x: Seq<char>| x.len() > 0;
    let mut out: Vec<String> = Vec::new();
    let mut i: usize = 0;
    while i < pieces.len()
        invariant
            i <= pieces.len() == ps.len() == mapped.len(),
            forall|k: int| 0 <= k < pieces@.len() ==> #[trigger] pieces@[k]@ == ps[k],
            mapped == ps.map_values(|x: Seq<char>| text::lowercase(text::trim(x))),
            pred == (|x: Seq<char>| x.len() > 0),
            names(out@) == mapped.take(i as int).filter(pred),
        decreases pieces.len() - i,
    {
        assert(mapped.take(i + 1).drop_last() =~= mapped.take(i as int));
        assert(mapped.take(i + 1).last() == mapped[i as int]);
        reveal_with_fuel(Seq::filter, 1);
        let t = text::trim_vec(&pieces[i]);
        let l = text::lowercase_vec(&t);
        assert(l@ == mapped[i as int]);
        let ghost before = names(out@);
        if l.len() > 0 {
            out.push(text::string_of(&l));
            assert(names(out@) =~= before.push(l@));
        } else {
            assert(names(out@) =~= before);
        }
        i = i + 1;
    }
    assert(mapped.take(pieces@.len() as int) =~= mapped);
    out
}

fn list_contains(list: &Vec<String>, x: &Vec<char>) -> (r: bool)
    ensures
        r == names(list@).contains(x@),
{
    let mut i: usize = 0;
    while i < list.len()
        invariant
            i <= list.len(),
            forall|k: int| 0 <= k < i ==> list@[k]@ != x@,
        decreases list.len() - i,
    {
        let c = text::chars_of(list[i].as_str());
        if vec_eq(&c, x) {
            assert(names(list@)[i as int] == x@);
            return true;
        }
        i = i + 1;
    }
    proof {
        if names(list@).contains(x@) {
            let k = choose|k: int| 0 <= k < names(list@).len() && names(list@)[k] == x@;
            assert(list@[k]@ == x@);
        }
    }
    false
}

/// Equality of character vectors.
pub fn vec_eq(a: &Vec<char>, b: &Vec<char>) -> (r: bool)
    ensures
        r == (a@ == b@),
{
    if a.len() != b.len() {
        return false;
    }
    let mut i: usize = 0;
    while i < a.len()
        invariant
            i <= a.len() == b.len(),
            forall|k: int| 0 <= k < i ==> a@[k] == b@[k],
        decreases a.len() - i,
    {
        if a[i] != b[i] {
            return false;
        }
        i = i + 1;
    }
    assert(a@ =~= b@);
    true
}

/// A command whose first word is `base` may run: not on the blocklist, and on the
/// allowlist when there is one (compared lower-cased).
pub open spec fn allowed_spec(allowlist: Seq<Seq<char>>, blocklist: Seq<Seq<char>>, base: Seq<char>) -> bool {
    lowered_allowed(allowlist, blocklist, text::lowercase(base))
}

/// The same, for a first word already lower-cased.
pub open spec fn lowered_allowed(allowlist: Seq<Seq<char>>, blocklist: Seq<Seq<char>>, b: Seq<char>) -> bool {
    !blocklist.contains(b) && (allowlist.len() == 0 || allowlist.contains(b))
}

/// A blocklisted command never runs, whatever the allowlist says.
pub proof fn lemma_blocklist_wins(allowlist: Seq<Seq<char>>, blocklist: Seq<Seq<char>>, base: Seq<char>)
    requires
        blocklist.contains(text::lowercase(base)),
    ensures
        !allowed_spec(allowlist, blocklist, base),
{
}

/// With an allowlist, only listed commands run.
pub proof fn lemma_allowlist_only(allowlist: Seq<Seq<char>>, blocklist: Seq<Seq<char>>, base: Seq<char>)
    requires
        allowlist.len() > 0,
        !allowlist.contains(text::lowercase(base)),
    ensures
        !allowed_spec(allowlist, blocklist, base),
{
}

impl CliTool {
    /// Settings with the given lists, the default timeout and the default output cap.
    pub fn with_allowlist_blocklist(allowlist: Vec<String>, blocklist: Vec<String>) -> (r: Self)
        ensures
            r.allowlist == allowlist,
            r.blocklist == blocklist,
            r.timeout_secs == DEFAULT_TIMEOUT_SECS,
            r.max_output == MAX_OUTPUT_CHARS,
    {
        CliTool { allowlist, blocklist, timeout_secs: DEFAULT_TIMEOUT_SECS, max_output: MAX_OUTPUT_CHARS }
    }

    /// Settings from the values of `CHUMP_CLI_ALLOWLIST`, `CHUMP_CLI_BLOCKLIST` and
    /// `CHUMP_CLI_TIMEOUT_SECS` (each `None` when unset).
    pub fn for_discord(allow: Option<&str>, block: Option<&str>, timeout: Option<&str>) -> (r: Self)
        ensures
            names(r.allowlist@) == match allow {
                Some(a) => name_list(a@),
                None => Seq::empty(),
            },
            names(r.blocklist@) == match block {
                Some(b) => name_list(b@),
                None => Seq::empty(),
            },
            r.timeout_secs == match timeout {
                Some(t) => match parse_u64(t@) {
                    Some(n) => n,
                    None => DEFAULT_TIMEOUT_SECS,
                },
                None => DEFAULT_TIMEOUT_SECS,
            },
            r.max_output == MAX_OUTPUT_CHARS,
    {
        let allowlist = match allow {
            Some(a) => name_list_exec(a),
            None => Vec::new(),
        };
        let blocklist = match block {
            Some(b) => name_list_exec(b),
            None => Vec::new(),
        };
        let timeout_secs = match timeout {
            Some(t) => match parse_u64_exec(t) {
                Some(n) => n,
                None => DEFAULT_TIMEOUT_SECS,
            },
            None => DEFAULT_TIMEOUT_SECS,
        };
        assert(names(allowlist@) =~= match allow {
            Some(a) => name_list(a@),
            None => Seq::empty(),
        });
        assert(names(blocklist@) =~= match block {
            Some(b) => name_list(b@),
            None => Seq::empty(),
        });
        CliTool { allowlist, blocklist, timeout_secs, max_output: MAX_OUTPUT_CHARS }
    }

    /// The error when a command runs longer than the timeout.
    pub fn timed_out(&self) -> (r: String)
        ensures
            r@ == "command timed out after "@ + text::decimal(self.timeout_secs as nat) + "s"@,
    {
        let mut v = text::lit("command timed out after ");
        text::push_decimal(&mut v, self.timeout_secs);
        text::push_str(&mut v, "s");
        text::string_of(&v)
    }

    /// Whether a command with first word `base` may run.
    pub fn allowed(&self, base: &str) -> (r: bool)
        ensures
            r == allowed_spec(names(self.allowlist@), names(self.blocklist@), base@),
    {
        let b = text::lowercase_vec(&text::chars_of(base));
        self.allowed_lowered(&b)
    }

    /// Whether a command with the lower-cased first word `b` may run.
    pub fn allowed_lowered(&self, b: &Vec<char>) -> (r: bool)
        ensures
            r == lowered_allowed(names(self.allowlist@), names(self.blocklist@), b@),
    {
        if list_contains(&self.blocklist, b) {
            return false;
        }
        self.allowlist.len() == 0 || list_contains(&self.allowlist, b)
    }
}

/// `input.get("command").or_else(|| input.get("cmd")).and_then(as_str)`
pub open spec fn command_or_cmd(input: JsonValue) -> Option<Seq<char>> {
    json::as_str(
        match json::get(input, "command"@) {
            Some(v) => Some(v),
            None => json::get(input, "cmd"@),
        },
    )
}

/// `Some(trim(s))` when that is not empty.
pub open spec fn trimmed_nonempty(s: Option<Seq<char>>) -> Option<Seq<char>> {
    match s {
        Some(x) => if text::trim(x).len() > 0 {
            Some(text::trim(x))
        } else {
            None
        },
        None => None,
    }
}

/// The content field, with a leading `run ` dropped.
pub open spec fn content_command_text(input: JsonValue) -> Seq<char> {
    let c = text::trim(crate::memory::or_empty(json::str_field(input, "content"@)));
    if text::starts_with(c, "run "@) {
        text::trim(c.skip(4))
    } else {
        c
    }
}

/// Content that looks like a shell command: not JSON with an "action" key, and
/// starting with a known command or holding a space.
pub open spec fn looks_like_command(c: Seq<char>) -> bool {
    c.len() > 0 && !text::contains(c, "\"action\""@) && (text::starts_with(c, "cargo"@)
        || text::starts_with(c, "git"@) || text::starts_with(c, "ls"@) || text::starts_with(
        c,
        "cat"@,
    ) || text::starts_with(c, "pwd"@) || text::starts_with(c, "sh "@) || text::contains(c, " "@))
}

/// The command a shell tool input names: `command` or `cmd` (trimmed, non-empty), else
/// `content` when it looks like a shell command.
pub open spec fn input_command(input: JsonValue) -> Option<Seq<char>> {
    match trimmed_nonempty(command_or_cmd(input)) {
        Some(c) => Some(c),
        None => {
            let c = content_command_text(input);
            if looks_like_command(c) {
                Some(c)
            } else {
                None
            }
        },
    }
}

/// First word of a command (the whole command when it has no ASCII-whitespace-separated word).
pub open spec fn command_base(cmd: Seq<char>) -> Seq<char> {
    let ws = text::words(cmd, text::WordSep::Ascii);
    if ws.len() > 0 {
        ws[0]
    } else {
        cmd
    }
}

/// Why a shell command will not run.
pub enum CliRefusal {
    /// No command in the input.
    Missing,
    /// The command is blank.
    Empty,
    /// The first word is blocklisted or not allowlisted.
    NotAllowed(String),
}

impl CliRefusal {
    pub open spec fn message(self) -> Seq<char> {
        match self {
            CliRefusal::Missing => "missing command (use command, cmd, or content with a shell command)"@,
            CliRefusal::Empty => "empty command"@,
            CliRefusal::NotAllowed(b) => "command not allowed: "@ + b@
                + " (blocklisted or not in allowlist)"@,
        }
    }

    pub fn message_exec(&self) -> (r: String)
        ensures
            r@ == self.message(),
    {
        match self {
            CliRefusal::Missing => String::from_str(
                "missing command (use command, cmd, or content with a shell command)",
            ),
            CliRefusal::Empty => String::from_str("empty command"),
            CliRefusal::NotAllowed(b) => {
                let mut r = String::from_str("command not allowed: ");
                r.append(b.as_str());
                r.append(" (blocklisted or not in allowlist)");
                r
            },
        }
    }
}

fn str_field_chars(input: &JsonValue, key: &str) -> (r: Option<Vec<char>>)
    ensures
        match r {
            Some(v) => json::str_field(*input, key@) == Some(v@),
            None => json::str_field(*input, key@) is None,
        },
{
    match input.str_field(key) {
        Some(s) => Some(text::chars_of(s.as_str())),
        None => None,
    }
}

fn trimmed_nonempty_exec(s: Option<Vec<char>>) -> (r: Option<Vec<char>>)
    ensures
        match r {
            Some(x) => trimmed_nonempty(
                match s {
                    Some(y) => Some(y@),
                    None => None,
                },
            ) == Some(x@),
            None => trimmed_nonempty(
                match s {
                    Some(y) => Some(y@),
                    None => None,
                },
            ) is None,
        },
{
    match s {
        Some(x) => {
            let t = text::trim_vec(&x);
            if t.len() > 0 {
                Some(t)
            } else {
                None
            }
        },
        None => None,
    }
}

fn command_or_cmd_exec(input: &JsonValue) -> (r: Option<Vec<char>>)
    ensures
        match r {
            Some(v) => command_or_cmd(*input) == Some(v@),
            None => command_or_cmd(*input) is None,
        },
{
    let v = match input.get("command") {
        Some(x) => Some(x),
        None => input.get("cmd"),
    };
    match v {
        Some(JsonValue::Str(s)) => Some(text::chars_of(s.as_str())),
        _ => None,
    }
}

fn looks_like_command_exec(c: &Vec<char>) -> (r: bool)
    ensures
        r == looks_like_command(c@),
{
    c.len() > 0 && !text::contains_exec(c, &text::lit("\"action\"")) && (text::starts_with_exec(
        c,
        &text::lit("cargo"),
    ) || text::starts_with_exec(c, &text::lit("git")) || text::starts_with_exec(
        c,
        &text::lit("ls"),
    ) || text::starts_with_exec(c, &text::lit("cat")) || text::starts_with_exec(
        c,
        &text::lit("pwd"),
    ) || text::starts_with_exec(c, &text::lit("sh ")) || text::contains_exec(c, &text::lit(" ")))
}

/// The command of a shell tool input (see `input_command`).
pub fn input_command_exec(input: &JsonValue) -> (r: Option<Vec<char>>)
    ensures
        match r {
            Some(v) => input_command(*input) == Some(v@),
            None => input_command(*input) is None,
        },
{
    match trimmed_nonempty_exec(command_or_cmd_exec(input)) {
        Some(c) => Some(c),
        None => {
            let raw = match str_field_chars(input, "content") {
                Some(v) => v,
                None => Vec::new(),
            };
            let c0 = text::trim_vec(&raw);
            let run = text::lit("run ");
            proof {
                reveal_strlit("run ");
            }
            let c = if text::starts_with_exec(&c0, &run) {
                let rest = text::sub_vec(&c0, 4, c0.len());
                assert(rest@ =~= c0@.skip(4));
                text::trim_vec(&rest)
            } else {
                c0
            };
            if looks_like_command_exec(&c) {
                Some(c)
            } else {
                None
            }
        },
    }
}

fn command_base_exec(cmd: &Vec<char>) -> (r: Vec<char>)
    ensures
        r@ == command_base(cmd@),
{
    let ws = text::split_words(cmd, text::WordSep::Ascii);
    if ws.len() > 0 {
        text::sub_vec(&ws[0], 0, ws[0].len())
    } else {
        text::sub_vec(cmd, 0, cmd.len())
    }
}

impl CliTool {
    /// Finds the command in a tool input and checks it against the lists. On
    /// `NotAllowed` the refusal names the command's first word.
    pub fn decide(&self, input: &JsonValue) -> (r: Result<String, CliRefusal>)
        ensures
            match input_command(*input) {
                None => r == Err::<String, CliRefusal>(CliRefusal::Missing),
                Some(c) => {
                    let cmd = text::trim(c);
                    if cmd.len() == 0 {
                        r == Err::<String, CliRefusal>(CliRefusal::Empty)
                    } else if !allowed_spec(
                        names(self.allowlist@),
                        names(self.blocklist@),
                        command_base(cmd),
                    ) {
                        r matches Err(CliRefusal::NotAllowed(b)) && b@ == command_base(cmd)
                    } else {
                        r matches Ok(s) && s@ == cmd
                    }
                },
            },
    {
        let c = match input_command_exec(input) {
            Some(c) => c,
            None => return Err(CliRefusal::Missing),
        };
        let cmd = text::trim_vec(&c);
        if cmd.len() == 0 {
            return Err(CliRefusal::Empty);
        }
        let base = command_base_exec(&cmd);
        let bs = text::string_of(&base);
        if !self.allowed(bs.as_str()) {
            return Err(CliRefusal::NotAllowed(bs));
        }
        Ok(text::string_of(&cmd))
    }
}

/// The tool's report of a finished command: stdout, then stderr (after a `stderr:`
/// header when there was stdout), or the exit code when both are empty; cut to
/// `max - 1` characters plus an ellipsis when longer than `max` bytes.
pub open spec fn cli_output(stdout: Seq<char>, stderr: Seq<char>, code: Option<i32>, max: nat) -> Seq<char> {
    let a = if stderr.len() > 0 {
        if stdout.len() > 0 {
            stdout + "\nstderr:\n"@ + stderr
        } else {
            stderr
        }
    } else {
        stdout
    };
    let b = if a.len() == 0 {
        "exit code "@ + text::decimal_i(
            match code {
                Some(c) => c as int,
                None => -1,
            },
        )
    } else {
        a
    };
    if text::byte_len(b) > max {
        text::take_chars(b, (max - 1) as nat).push('\u{2026}')
    } else {
        b
    }
}

/// A finished command's report keeps what it printed. When the text fits in `max` bytes:
/// a command that wrote only to stderr is reported by exactly its stderr, one that wrote
/// only to stdout by exactly its stdout, and one that wrote to both by its stdout, a
/// `stderr:` header line, then its stderr, so the stderr text is never lost.
pub proof fn lemma_cli_output_keeps_streams(stdout: Seq<char>, stderr: Seq<char>, code: Option<i32>, max: nat)
    requires
        max > 0,
    ensures
        stdout.len() == 0 && stderr.len() > 0 && text::byte_len(stderr) <= max ==> cli_output(
            stdout,
            stderr,
            code,
            max,
        ) == stderr,
        stdout.len() > 0 && stderr.len() == 0 && text::byte_len(stdout) <= max ==> cli_output(
            stdout,
            stderr,
            code,
            max,
        ) == stdout,
        stdout.len() > 0 && stderr.len() > 0 && text::byte_len(stdout + "\nstderr:\n"@ + stderr) <= max
            ==> cli_output(stdout, stderr, code, max) == stdout + "\nstderr:\n"@ + stderr,
        stderr.len() > 0 && text::byte_len(stdout + "\nstderr:\n"@ + stderr) <= max ==> text::ends_with(
            cli_output(stdout, stderr, code, max),
            stderr,
        ),
        stdout.len() == 0 && stderr.len() == 0 && code is None && max >= 12 ==> cli_output(
            stdout,
            stderr,
            code,
            max,
        ) == "exit code -1"@,
        stdout.len() > 0 && stderr.len() == 0 && text::byte_len(stdout) > max ==> cli_output(
            stdout,
            stderr,
            code,
            max,
        ) == stdout.take(if stdout.len() < max - 1 {
            stdout.len() as int
        } else {
            max - 1
        }).push('\u{2026}'),
{
    if stdout.len() > 0 && stderr.len() == 0 && stdout.len() < max - 1 {
        assert(stdout.take(stdout.len() as int) =~= stdout);
    }
    if stdout.len() == 0 && stderr.len() == 0 && code is None {
        reveal_strlit("exit code ");
        reveal_strlit("exit code -1");
        assert(text::decimal(1) == seq!['1']);
        assert(text::decimal_i(-1) =~= seq!['-', '1']);
        assert("exit code "@ + text::decimal_i(-1) =~= "exit code -1"@);
        reveal_with_fuel(text::byte_len, 13);
        assert(text::byte_len("exit code -1"@) == 12);
    }
    if stderr.len() > 0 && text::byte_len(stdout + "\nstderr:\n"@ + stderr) <= max {
        let full = stdout + "\nstderr:\n"@ + stderr;
        text::lemma_byte_len_concat(stdout + "\nstderr:\n"@, stderr);
        let out = cli_output(stdout, stderr, code, max);
        if stdout.len() > 0 {
            assert(out == full);
            assert(full.skip(full.len() - stderr.len()) =~= stderr);
        } else {
            assert(out == stderr);
            assert(stderr.skip(0) =~= stderr);
        }
    }
}

/// The report of a command never has more than `max` characters.
pub proof fn lemma_cli_output_within_max(stdout: Seq<char>, stderr: Seq<char>, code: Option<i32>, max: nat)
    requires
        max > 0,
    ensures
        cli_output(stdout, stderr, code, max).len() <= max,
{
    let a = if stderr.len() > 0 {
        if stdout.len() > 0 {
            stdout + "\nstderr:\n"@ + stderr
        } else {
            stderr
        }
    } else {
        stdout
    };
    let b = if a.len() == 0 {
        "exit code "@ + text::decimal_i(
            match code {
                Some(c) => c as int,
                None => -1,
            },
        )
    } else {
        a
    };
    if text::byte_len(b) <= max {
        text::lemma_len_le_byte_len(b);
    }
}

pub fn cli_output_exec(stdout: &str, stderr: &str, code: Option<i32>, max: usize) -> (r: String)
    requires
        max > 0,
    ensures
        r@ == cli_output(stdout@, stderr@, code, max as nat),
{
    let mut a = text::chars_of(stdout);
    let e = text::chars_of(stderr);
    if e.len() > 0 {
        if a.len() > 0 {
            let mut h = text::lit("\nstderr:\n");
            a.append(&mut h);
        }
        let mut e2 = text::sub_vec(&e, 0, e.len());
        a.append(&mut e2);
    }
    assert(a@ =~= if stderr@.len() > 0 {
        if stdout@.len() > 0 {
            stdout@ + "\nstderr:\n"@ + stderr@
        } else {
            stderr@
        }
    } else {
        stdout@
    });
    if a.len() == 0 {
        let mut v = text::lit("exit code ");
        let c: i64 = match code {
            Some(c) => c as i64,
            None => -1,
        };
        text::push_decimal_i64(&mut v, c);
        assert(v@ =~= "exit code "@ + text::decimal_i(
            match code {
                Some(c) => c as int,
                None => -1,
            },
        ));
        a = v;
    }
    if text::byte_len_exceeds(&a, max) {
        let mut t = text::take_chars_exec(&a, max - 1);
        t.push('\u{2026}');
        text::string_of(&t)
    } else {
        text::string_of(&a)
    }
}

/// The command an alias tool (`git`, `cargo`) runs for its input.
pub enum AliasCommand {
    /// Run this command.
    Command(String),
    /// Pass the input on unchanged.
    Unchanged,
}

/// `"<tool> <s>"`
pub open spec fn prefixed(tool: Seq<char>, s: Seq<char>) -> Seq<char> {
    tool + " "@ + s
}

/// The first member (other than `action` and `parameters`) holding a string that is
/// non-empty and shorter than 200 bytes once trimmed.
pub open spec fn first_param(entries: Seq<(String, JsonValue)>) -> Option<Seq<char>>
    decreases entries.len(),
{
    if entries.len() == 0 {
        None
    } else {
        let (k, v) = entries[0];
        if k@ != "action"@ && k@ != "parameters"@ && v is Str && text::trim(v->Str_0@).len() > 0
            && text::byte_len(text::trim(v->Str_0@)) < 200 {
            Some(text::trim(v->Str_0@))
        } else {
            first_param(entries.drop_first())
        }
    }
}

/// How an alias tool fixes up its input: content that is already a full command is
/// used as is; a one-word command (or one not starting with `git `/`cargo `) is taken
/// as a subcommand of the tool; otherwise the first short string parameter is.
pub open spec fn alias_command(tool: Seq<char>, input: JsonValue) -> Option<Seq<char>> {
    let cmd = trimmed_nonempty(command_or_cmd(input));
    let content = trimmed_nonempty(json::str_field(input, "content"@));
    if content is Some && (text::starts_with(content->0, "git "@) || text::starts_with(
        content->0,
        "cargo "@,
    ) || text::starts_with(content->0, "run "@)) {
        content
    } else if cmd is Some {
        let c = cmd->0;
        if (!c.contains(' ') && text::byte_len(c) < 80) || (!text::starts_with(c, "git "@)
            && !text::starts_with(c, "cargo "@)) {
            Some(prefixed(tool, c))
        } else {
            Some(c)
        }
    } else {
        match input {
            JsonValue::Object(entries) => match first_param(entries@) {
                Some(s) => Some(prefixed(tool, s)),
                None => None,
            },
            _ => None,
        }
    }
}

fn prefixed_exec(tool: &Vec<char>, s: &Vec<char>) -> (r: String)
    ensures
        r@ == prefixed(tool@, s@),
{
    let mut v = text::sub_vec(tool, 0, tool.len());
    v.push(' ');
    let mut w = text::sub_vec(s, 0, s.len());
    v.append(&mut w);
    proof {
        reveal_strlit(" ");
    }
    assert(v@ =~= prefixed(tool@, s@));
    text::string_of(&v)
}

fn first_param_exec(entries: &Vec<(String, JsonValue)>) -> (r: Option<Vec<char>>)
    ensures
        match r {
            Some(v) => first_param(entries@) == Some(v@),
            None => first_param(entries@) is None,
        },
{
    let mut i: usize = 0;
    assert(entries@.skip(0) =~= entries@);
    let action = text::lit("action");
    let parameters = text::lit("parameters");
    while i < entries.len()
        invariant
            i <= entries.len(),
            action@ == "action"@,
            parameters@ == "parameters"@,
            first_param(entries@) == first_param(entries@.skip(i as int)),
        decreases entries.len() - i,
    {
        assert(entries@.skip(i as int).drop_first() =~= entries@.skip(i + 1));
        assert(entries@.skip(i as int)[0] == entries@[i as int]);
        let k = text::chars_of(entries[i].0.as_str());
        if !vec_eq(&k, &action) && !vec_eq(&k, &parameters) {
            match &entries[i].1 {
                JsonValue::Str(s) => {
                    let t = text::trim_str(s.as_str());
                    if t.len() > 0 && !text::byte_len_exceeds(&t, 199) {
                        return Some(t);
                    }
                },
                _ => {},
            }
        }
        i = i + 1;
    }
    None
}

impl CliToolAlias {
    /// The command to run for an input (see `alias_command`).
    pub fn normalize_alias_input(&self, input: &JsonValue) -> (r: AliasCommand)
        ensures
            match r {
                AliasCommand::Command(c) => alias_command(self.name@, *input) == Some(c@),
                AliasCommand::Unchanged => alias_command(self.name@, *input) is None,
            },
    {
        let tool = text::chars_of(self.name.as_str());
        let cmd = trimmed_nonempty_exec(command_or_cmd_exec(input));
        let content = trimmed_nonempty_exec(str_field_chars(input, "content"));
        match &content {
            Some(c) => {
                if text::starts_with_exec(c, &text::lit("git ")) || text::starts_with_exec(
                    c,
                    &text::lit("cargo "),
                ) || text::starts_with_exec(c, &text::lit("run ")) {
                    return AliasCommand::Command(text::string_of(c));
                }
            },
            None => {},
        }
        match &cmd {
            Some(c) => {
                if (!text::has_char(c, ' ') && !text::byte_len_exceeds(c, 79)) || (
                !text::starts_with_exec(c, &text::lit("git ")) && !text::starts_with_exec(
                    c,
                    &text::lit("cargo "),
                )) {
                    return AliasCommand::Command(prefixed_exec(&tool, c));
                }
                return AliasCommand::Command(text::string_of(c));
            },
            None => {},
        }
        match input {
            JsonValue::Object(entries) => match first_param_exec(entries) {
                Some(s) => AliasCommand::Command(prefixed_exec(&tool, &s)),
                None => AliasCommand::Unchanged,
            },
            _ => AliasCommand::Unchanged,
        }
    }
}

} // verus!
