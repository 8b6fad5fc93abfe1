//! Log lines for messages, replies and CLI runs, request ids, and redaction of secrets.
//!
//! Writing the lines to `logs/chump.log`, reading the clock and the environment are
//! left to the caller; these functions compute what is written.
use vstd::prelude::*;
use crate::text;

verus! {

/// Lower-case hexadecimal digit for `d < 16`.
pub open spec fn hex_char(d: nat) -> char {
    if d < 10 {
        (48 + d) as char
    } else {
        (87 + d) as char
    }
}

/// The last `k` hexadecimal digits of `n`, zero-padded.
pub open spec fn hex_digits(n: nat, k: nat) -> Seq<char>
    decreases k,
{
    if k == 0 {
        Seq::empty()
    } else {
        hex_digits(n / 16, (k - 1) as nat).push(hex_char(n % 16))
    }
}

/// A request id made from a clock reading in nanoseconds: `format!("{:08x}", n % 0xffff_ffff)`.
pub open spec fn request_id(nanos: u64) -> Seq<char> {
    hex_digits((nanos % 0xffff_ffff) as nat, 8)
}

fn hex_exec(d: u64) -> (c: char)
    requires
        d < 16,
    ensures
        c == hex_char(d as nat),
{
    let b: u8 = if d < 10 {
        (48 + d) as u8
    } else {
        (87 + d) as u8
    };
    b as char
}

fn push_hex(out: &mut Vec<char>, n: u64, k: u64)
    ensures
        final(out)@ == old(out)@ + hex_digits(n as nat, k as nat),
    decreases k,
{
    if k > 0 {
        push_hex(out, n / 16, k - 1);
        out.push(hex_exec(n % 16));
    }
    assert(final(out)@ =~= old(out)@ + hex_digits(n as nat, k as nat));
}

/// Short id for one turn, from the current time in nanoseconds (for grepping the log).
pub fn gen_request_id(nanos: u64) -> (r: String)
    ensures
        r@ == request_id(nanos),
        r@.len() == 8,
{
    let mut v: Vec<char> = Vec::new();
    push_hex(&mut v, nanos % 0xffff_ffff, 8);
    proof {
        lemma_hex_len((nanos % 0xffff_ffff) as nat, 8);
    }
    assert(v@ =~= request_id(nanos));
    text::string_of(&v)
}

proof fn lemma_hex_len(n: nat, k: nat)
    ensures
        hex_digits(n, k).len() == k,
    decreases k,
{
    if k > 0 {
        lemma_hex_len(n / 16, (k - 1) as nat);
    }
}

/// `"{secs}.{millis:03}"`: a timestamp with milliseconds.
pub open spec fn timestamp(secs: u64, millis: u64) -> Seq<char> {
    text::decimal(secs as nat) + seq!['.'] + pad3(millis as nat)
}

/// `{:03}` for a number below 1000.
pub open spec fn pad3(n: nat) -> Seq<char> {
    if n < 10 {
        seq!['0', '0'] + text::decimal(n)
    } else if n < 100 {
        seq!['0'] + text::decimal(n)
    } else {
        text::decimal(n)
    }
}

/// The timestamp written in logs and tables, from seconds and milliseconds since the epoch.
pub fn format_timestamp(secs: u64, millis: u64) -> (r: String)
    requires
        millis < 1000,
    ensures
        r@ == timestamp(secs, millis),
{
    let mut v: Vec<char> = Vec::new();
    text::push_decimal(&mut v, secs);
    v.push('.');
    if millis < 10 {
        v.push('0');
        v.push('0');
    } else if millis < 100 {
        v.push('0');
    }
    text::push_decimal(&mut v, millis);
    assert(v@ =~= timestamp(secs, millis));
    text::string_of(&v)
}

/// An environment flag is on: `"1"` or `"true"` in any ASCII case.
pub open spec fn flag_on(v: Option<Seq<char>>) -> bool {
    match v {
        Some(s) => s == seq!['1'] || text::eq_ignore_ascii_case(s, seq!['t', 'r', 'u', 'e']),
        None => false,
    }
}

pub fn env_flag(v: Option<&str>) -> (r: bool)
    ensures
        r == flag_on(
            match v {
                Some(s) => Some(s@),
                None => None,
            },
        ),
{
    match v {
        Some(s) => {
            let c = text::chars_of(s);
            let one = vec!['1'];
            let t = vec!['t', 'r', 'u', 'e'];
            assert(one@ =~= seq!['1']);
            assert(t@ =~= seq!['t', 'r', 'u', 'e']);
            let is_one = c.len() == 1 && c[0] == '1';
            assert(is_one == (c@ == seq!['1'])) by {
                if c@.len() == 1 && c@[0] == '1' {
                    assert(c@ =~= seq!['1']);
                }
            }
            is_one || text::eq_ignore_ascii_case_exec(&c, &t)
        },
        None => false,
    }
}

/// Newlines replaced by spaces, cut to 64 characters (user names in log lines).
pub open spec fn sanitize(s: Seq<char>) -> Seq<char> {
    text::take_chars(text::replace_char(s, '\n', seq![' ']), 64)
}

pub fn sanitize_exec(s: &str) -> (r: Vec<char>)
    ensures
        r@ == sanitize(s@),
{
    let v = text::chars_of(s);
    let sp = vec![' '];
    assert(sp@ =~= seq![' ']);
    let w = text::replace_char_exec(&v, '\n', &sp);
    text::take_chars_exec(&w, 64)
}

/// A preview: content longer than `max` bytes is cut to its first `max` bytes and
/// followed by an ellipsis; newlines become spaces.
pub open spec fn preview(s: Seq<char>, max: nat) -> Seq<char> {
    let cut = if text::byte_len(s) > max {
        text::prefix_bytes(s, max).push('\u{2026}')
    } else {
        s
    };
    text::replace_char(cut, '\n', seq![' '])
}

pub fn preview_exec(s: &str, max: usize) -> (r: Vec<char>)
    requires
        text::can_cut(s@, max as nat),
    ensures
        r@ == preview(s@, max as nat),
{
    let v = text::chars_of(s);
    let cut = if text::byte_len_exceeds(&v, max) {
        match text::char_index_of_byte(&v, max) {
            Some(k) => {
                let mut p = text::sub_vec(&v, 0, k);
                proof {
                    let c = choose|k: int| #[trigger] text::splits_at_byte(v@, k, max as nat);
                    text::lemma_split_unique(v@, k as int, c, max as nat);
                    assert(p@ =~= text::prefix_bytes(v@, max as nat));
                }
                p.push('\u{2026}');
                p
            },
            None => v,
        }
    } else {
        v
    };
    let sp = vec![' '];
    assert(sp@ =~= seq![' ']);
    text::replace_char_exec(&cut, '\n', &sp)
}

/// `" | req=<id>"`, or nothing without a request id.
pub open spec fn rid_suffix(request_id: Option<Seq<char>>) -> Seq<char> {
    match request_id {
        Some(r) => seq![' ', '|', ' ', 'r', 'e', 'q', '='] + r,
        None => Seq::empty(),
    }
}

fn push_rid_suffix(out: &mut Vec<char>, request_id: Option<&str>)
    ensures
        final(out)@ == old(out)@ + rid_suffix(
            match request_id {
                Some(r) => Some(r@),
                None => None,
            },
        ),
{
    match request_id {
        Some(r) => {
            out.push(' ');
            out.push('|');
            out.push(' ');
            out.push('r');
            out.push('e');
            out.push('q');
            out.push('=');
            let rv = text::chars_of(r);
            out.append(&mut rv.clone());
            assert(final(out)@ =~= old(out)@ + rid_suffix(Some(r@)));
        },
        None => {
            assert(final(out)@ =~= old(out)@ + Seq::<char>::empty());
        },
    }
}

fn push_str(out: &mut Vec<char>, s: &str)
    ensures
        final(out)@ == old(out)@ + s@,
{
    let mut v = text::chars_of(s);
    out.append(&mut v);
}

/// The plain log line for an incoming message.
pub open spec fn message_line(
    ts: Seq<char>,
    channel_id: u64,
    user: Seq<char>,
    content: Seq<char>,
    request_id: Option<Seq<char>>,
) -> Seq<char> {
    ts + " | msg | ch="@ + text::decimal(channel_id as nat) + " | user="@ + sanitize(user) + " | "@
        + preview(content, 200) + rid_suffix(request_id)
}

/// Log line for an incoming message (plain format): timestamp, channel, sanitized user,
/// content preview (200 bytes), optional request id.
pub fn log_message(
    ts: &str,
    channel_id: u64,
    user: &str,
    content: &str,
    request_id: Option<&str>,
) -> (r: String)
    requires
        text::can_cut(content@, 200),
    ensures
        r@ == message_line(
            ts@,
            channel_id,
            user@,
            content@,
            match request_id {
                Some(x) => Some(x@),
                None => None,
            },
        ),
{
    let mut v: Vec<char> = Vec::new();
    push_str(&mut v, ts);
    push_str(&mut v, " | msg | ch=");
    text::push_decimal(&mut v, channel_id);
    push_str(&mut v, " | user=");
    let mut u = sanitize_exec(user);
    v.append(&mut u);
    push_str(&mut v, " | ");
    let mut p = preview_exec(content, 200);
    v.append(&mut p);
    push_rid_suffix(&mut v, request_id);
    let ghost rv = match request_id {
        Some(x) => Some(x@),
        None => None,
    };
    assert(v@ =~= message_line(ts@, channel_id, user@, content@, rv));
    text::string_of(&v)
}

/// The plain log line for a reply.
pub open spec fn reply_line(
    ts: Seq<char>,
    channel_id: u64,
    reply_len: u64,
    reply_preview: Option<Seq<char>>,
    request_id: Option<Seq<char>>,
) -> Seq<char> {
    ts + " | reply | ch="@ + text::decimal(channel_id as nat) + " | len="@ + text::decimal(
        reply_len as nat,
    ) + " | "@ + match reply_preview {
        Some(p) => preview(p, 300),
        None => Seq::empty(),
    } + rid_suffix(request_id)
}

/// Log line for a reply sent (plain format): length and a 300-byte preview.
pub fn log_reply(
    ts: &str,
    channel_id: u64,
    reply_len: u64,
    reply_preview: Option<&str>,
    request_id: Option<&str>,
) -> (r: String)
    requires
        match reply_preview {
            Some(p) => text::can_cut(p@, 300),
            None => true,
        },
    ensures
        r@ == reply_line(
            ts@,
            channel_id,
            reply_len,
            match reply_preview {
                Some(x) => Some(x@),
                None => None,
            },
            match request_id {
                Some(x) => Some(x@),
                None => None,
            },
        ),
{
    let mut v: Vec<char> = Vec::new();
    push_str(&mut v, ts);
    push_str(&mut v, " | reply | ch=");
    text::push_decimal(&mut v, channel_id);
    push_str(&mut v, " | len=");
    text::push_decimal(&mut v, reply_len);
    push_str(&mut v, " | ");
    let ghost before = v@;
    match reply_preview {
        Some(p) => {
            let mut pv = preview_exec(p, 300);
            v.append(&mut pv);
        },
        None => {},
    }
    push_rid_suffix(&mut v, request_id);
    let ghost pv = match reply_preview {
        Some(x) => Some(x@),
        None => None,
    };
    let ghost rv = match request_id {
        Some(x) => Some(x@),
        None => None,
    };
    assert(v@ =~= reply_line(ts@, channel_id, reply_len, pv, rv));
    text::string_of(&v)
}

/// `{:?}` of an optional exit code.
pub open spec fn exit_debug(code: Option<i32>) -> Seq<char> {
    match code {
        Some(c) => "Some("@ + text::decimal_i(c as int) + ")"@,
        None => "None"@,
    }
}

/// The plain log line for a CLI run: the command, the first 80 characters of the
/// space-joined arguments, the exit code and the output length.
pub open spec fn cli_line(
    ts: Seq<char>,
    command: Seq<char>,
    args: Seq<Seq<char>>,
    exit_code: Option<i32>,
    output_len: u64,
    request_id: Option<Seq<char>>,
) -> Seq<char> {
    ts + " | cli | cmd="@ + command + " "@ + text::take_chars(text::join(args, " "@), 80)
        + " | exit="@ + exit_debug(exit_code) + " | out_len="@ + text::decimal(output_len as nat)
        + rid_suffix(request_id)
}

pub fn log_cli(
    ts: &str,
    command: &str,
    args: &Vec<String>,
    exit_code: Option<i32>,
    output_len: u64,
    request_id: Option<&str>,
) -> (r: String)
    ensures
        r@ == cli_line(
            ts@,
            command@,
            args@.map_values(|a: String| a@),
            exit_code,
            output_len,
            match request_id {
                Some(x) => Some(x@),
                None => None,
            },
        ),
{
    let mut parts: Vec<Vec<char>> = Vec::new();
    let mut i: usize = 0;
    while i < args.len()
        invariant
            i <= args.len(),
            parts@.len() == i,
            forall|k: int| 0 <= k < i ==> #[trigger] parts@[k]@ == args@[k]@,
        decreases args.len() - i,
    {
        parts.push(text::chars_of(args[i].as_str()));
        i = i + 1;
    }
    assert(parts@.map_values(|p: Vec<char>| p@) =~= args@.map_values(|a: String| a@));
    let sp = text::lit(" ");
    let joined = text::join_exec(&parts, &sp);
    let mut preview = text::take_chars_exec(&joined, 80);
    let mut v: Vec<char> = Vec::new();
    push_str(&mut v, ts);
    push_str(&mut v, " | cli | cmd=");
    push_str(&mut v, command);
    push_str(&mut v, " ");
    v.append(&mut preview);
    push_str(&mut v, " | exit=");
    let ghost before = v@;
    match exit_code {
        Some(c) => {
            push_str(&mut v, "Some(");
            text::push_decimal_i64(&mut v, c as i64);
            push_str(&mut v, ")");
        },
        None => {
            push_str(&mut v, "None");
        },
    }
    assert(v@ =~= before + exit_debug(exit_code));
    push_str(&mut v, " | out_len=");
    text::push_decimal(&mut v, output_len);
    push_rid_suffix(&mut v, request_id);
    let ghost rv = match request_id {
        Some(x) => Some(x@),
        None => None,
    };
    assert(v@ =~= cli_line(ts@, command@, args@.map_values(|a: String| a@), exit_code, output_len, rv));
    text::string_of(&v)
}

/// The text that replaces a secret.
pub open spec fn redacted() -> Seq<char> {
    "[REDACTED]"@
}

/// Every non-empty secret, in turn, replaced by `[REDACTED]`.
pub open spec fn redact_all(s: Seq<char>, secrets: Seq<Seq<char>>) -> Seq<char>
    decreases secrets.len(),
{
    if secrets.len() == 0 {
        s
    } else {
        let prev = redact_all(s, secrets.drop_last());
        let v = secrets.last();
        if v.len() > 0 {
            text::replace_all(prev, v, redacted())
        } else {
            prev
        }
    }
}

/// Redacts the given secret values (those of `DISCORD_TOKEN`, `TAVILY_API_KEY`,
/// `OPENAI_API_KEY`, `GITHUB_TOKEN`, in that order, when set) from `s`.
pub fn redact(s: &str, secrets: &Vec<String>) -> (r: String)
    ensures
        r@ == redact_all(s@, secrets@.map_values(|x: String| x@)),
{
    let ghost ss = secrets@.map_values(|x: String| x@);
    let rep = text::lit("[REDACTED]");
    let mut out = text::chars_of(s);
    let mut i: usize = 0;
    while i < secrets.len()
        invariant
            i <= secrets.len(),
            ss == secrets@.map_values(|x: String| x@),
            rep@ == redacted(),
            out@ == redact_all(s@, ss.take(i as int)),
        decreases secrets.len() - i,
    {
        assert(ss.take(i + 1).drop_last() =~= ss.take(i as int));
        let v = text::chars_of(secrets[i].as_str());
        if v.len() > 0 && text::contains_exec(&out, &v) {
            out = text::replace_all_exec(&out, &v, &rep);
        } else if v.len() > 0 {
            proof {
                lemma_replace_absent(out@, v@, rep@);
            }
        }
        i = i + 1;
    }
    assert(ss.take(secrets@.len() as int) =~= ss);
    text::string_of(&out)
}

/// Replacing a pattern that does not occur changes nothing.
pub proof fn lemma_replace_absent(s: Seq<char>, p: Seq<char>, rep: Seq<char>)
    requires
        p.len() > 0,
        !text::contains(s, p),
    ensures
        text::replace_all(s, p, rep) == s,
    decreases s.len(),
{
    if s.len() > 0 {
        if text::starts_with(s, p) {
            assert(text::occurs_at(s, p, 0)) by {
                assert(s.subrange(0, p.len() as int) =~= s.take(p.len() as int));
            }
        }
        assert(!text::contains(s.drop_first(), p)) by {
            if text::contains(s.drop_first(), p) {
                let i = choose|i: int| text::occurs_at(s.drop_first(), p, i);
                assert(s.subrange(i + 1, i + 1 + p.len()) =~= s.drop_first().subrange(i, i + p.len()));
                assert(text::occurs_at(s, p, i + 1));
            }
        }
        lemma_replace_absent(s.drop_first(), p, rep);
        assert(s =~= seq![s[0]] + s.drop_first());
    }
}

/// `v` and `r` overlap at the edge: the `n` characters of `v` from `a` are those of `r`
/// from `c`, where one of the two stretches starts its text and one of them ends its
/// text. This is how an occurrence of `v` can meet a copy of `r` placed in a text.
pub open spec fn dock_at(v: Seq<char>, r: Seq<char>, a: int, c: int, n: int) -> bool {
    &&& 0 <= a && 0 <= c && n > 0
    &&& a + n <= v.len() && c + n <= r.len()
    &&& (a == 0 || c == 0)
    &&& (a + n == v.len() || c + n == r.len())
    &&& v.subrange(a, a + n) == r.subrange(c, c + n)
}

/// Some part of `v` can overlap a copy of `r`: `v` lies inside `r`, holds `r`, or starts
/// with an end of `r` or ends with a start of `r`.
pub open spec fn docks(v: Seq<char>, r: Seq<char>) -> bool {
    exists|a: int, c: int, n: int| #[trigger] dock_at(v, r, a, c, n)
}

/// When a replacement's output starts with the part of `v` from `k` on, and `v` cannot
/// overlap the replacement text, the input starts with that part too.
proof fn lemma_replace_front(x: Seq<char>, w: Seq<char>, r: Seq<char>, v: Seq<char>, k: int)
    requires
        w.len() > 0,
        r.len() > 0,
        0 <= k <= v.len(),
        !docks(v, r),
        text::replace_all(x, w, r).len() >= v.len() - k,
        text::replace_all(x, w, r).take(v.len() - k) == v.skip(k),
    ensures
        x.len() >= v.len() - k,
        x.take(v.len() - k) == v.skip(k),
    decreases x.len(),
{
    let o = text::replace_all(x, w, r);
    let m = v.len() - k;
    if m == 0 {
        assert(x.take(0) =~= v.skip(k));
    } else if x.len() == 0 {
    } else if text::starts_with(x, w) {
        let rest = text::replace_all(x.skip(w.len() as int), w, r);
        assert(o == r + rest);
        let n = if m <= r.len() { m } else { r.len() as int };
        assert(v.subrange(k, k + n) =~= r.subrange(0, n)) by {
            assert forall|t: int| 0 <= t < n implies #[trigger] v.subrange(k, k + n)[t] == r.subrange(0, n)[t] by {
                assert(o.take(m)[t] == v.skip(k)[t]);
                assert(o[t] == r[t]);
            }
        }
        assert(dock_at(v, r, k, 0, n));
    } else {
        let rest = text::replace_all(x.drop_first(), w, r);
        assert(o == seq![x[0]] + rest);
        assert(rest.take(v.len() - (k + 1)) =~= v.skip(k + 1)) by {
            assert forall|t: int| 0 <= t < m - 1 implies #[trigger] rest.take(m - 1)[t] == v.skip(k + 1)[t] by {
                assert(o.take(m)[t + 1] == v.skip(k)[t + 1]);
            }
        }
        lemma_replace_front(x.drop_first(), w, r, v, k + 1);
        assert(o.take(m)[0] == v.skip(k)[0]);
        assert(x.take(m) =~= v.skip(k)) by {
            assert forall|t: int| 0 <= t < m implies #[trigger] x.take(m)[t] == v.skip(k)[t] by {
                if t > 0 {
                    assert(x.drop_first().take(m - 1)[t - 1] == v.skip(k + 1)[t - 1]);
                }
            }
        }
    }
}

/// An occurrence of `v` that starts inside a copy of `r` at the front of a text overlaps
/// it at the edge.
proof fn lemma_front_copy_docks(r: Seq<char>, rest: Seq<char>, v: Seq<char>, i: int)
    requires
        0 <= i < r.len(),
        v.len() > 0,
        text::occurs_at(r + rest, v, i),
    ensures
        docks(v, r),
{
    let o = r + rest;
    let n = if i + v.len() <= r.len() { v.len() as int } else { r.len() - i };
    assert(v.subrange(0, n) =~= r.subrange(i, i + n)) by {
        assert forall|t: int| 0 <= t < n implies #[trigger] v.subrange(0, n)[t] == r.subrange(i, i + n)[t] by {
            assert(o.subrange(i, i + v.len())[t] == v[t]);
            assert(o[i + t] == r[i + t]);
        }
    }
    assert(dock_at(v, r, 0, i, n));
}

/// Replacing `w` by `r` creates no occurrence of a text that cannot overlap `r`.
proof fn lemma_replace_keeps_absent(x: Seq<char>, w: Seq<char>, r: Seq<char>, v: Seq<char>)
    requires
        w.len() > 0,
        r.len() > 0,
        v.len() > 0,
        !docks(v, r),
        !text::contains(x, v),
    ensures
        !text::contains(text::replace_all(x, w, r), v),
    decreases x.len(),
{
    let o = text::replace_all(x, w, r);
    if text::contains(o, v) {
        let i = choose|i: int| text::occurs_at(o, v, i);
        if x.len() == 0 {
        } else if text::starts_with(x, w) {
            let rest = text::replace_all(x.skip(w.len() as int), w, r);
            assert(o == r + rest);
            if i < r.len() {
                lemma_front_copy_docks(r, rest, v, i);
            } else {
                assert(rest.subrange(i - r.len(), i - r.len() + v.len()) =~= o.subrange(i, i + v.len()));
                assert(text::occurs_at(rest, v, i - r.len()));
                assert(!text::contains(x.skip(w.len() as int), v)) by {
                    if text::contains(x.skip(w.len() as int), v) {
                        let j = choose|j: int| text::occurs_at(x.skip(w.len() as int), v, j);
                        assert(x.subrange(j + w.len(), j + w.len() + v.len()) =~= x.skip(w.len() as int).subrange(j, j + v.len()));
                        assert(text::occurs_at(x, v, j + w.len()));
                    }
                }
                lemma_replace_keeps_absent(x.skip(w.len() as int), w, r, v);
            }
        } else {
            let rest = text::replace_all(x.drop_first(), w, r);
            assert(o == seq![x[0]] + rest);
            if i == 0 {
                assert(o.take(v.len() as int) =~= v.skip(0));
                lemma_replace_front(x, w, r, v, 0);
                assert(x.subrange(0, v.len() as int) =~= x.take(v.len() as int));
                assert(text::occurs_at(x, v, 0));
            } else {
                assert(rest.subrange(i - 1, i - 1 + v.len()) =~= o.subrange(i, i + v.len()));
                assert(text::occurs_at(rest, v, i - 1));
                assert(!text::contains(x.drop_first(), v)) by {
                    if text::contains(x.drop_first(), v) {
                        let j = choose|j: int| text::occurs_at(x.drop_first(), v, j);
                        assert(x.subrange(j + 1, j + 1 + v.len()) =~= x.drop_first().subrange(j, j + v.len()));
                        assert(text::occurs_at(x, v, j + 1));
                    }
                }
                lemma_replace_keeps_absent(x.drop_first(), w, r, v);
            }
        }
    }
}

/// Replacing `v` by a text it cannot overlap leaves no `v`.
proof fn lemma_replace_removes(x: Seq<char>, v: Seq<char>, r: Seq<char>)
    requires
        v.len() > 0,
        r.len() > 0,
        !docks(v, r),
    ensures
        !text::contains(text::replace_all(x, v, r), v),
    decreases x.len(),
{
    let o = text::replace_all(x, v, r);
    if text::contains(o, v) {
        let i = choose|i: int| text::occurs_at(o, v, i);
        if x.len() == 0 {
        } else if text::starts_with(x, v) {
            let rest = text::replace_all(x.skip(v.len() as int), v, r);
            assert(o == r + rest);
            if i < r.len() {
                lemma_front_copy_docks(r, rest, v, i);
            } else {
                assert(rest.subrange(i - r.len(), i - r.len() + v.len()) =~= o.subrange(i, i + v.len()));
                assert(text::occurs_at(rest, v, i - r.len()));
                lemma_replace_removes(x.skip(v.len() as int), v, r);
            }
        } else {
            let rest = text::replace_all(x.drop_first(), v, r);
            assert(o == seq![x[0]] + rest);
            if i == 0 {
                assert(o.take(v.len() as int) =~= v.skip(0));
                lemma_replace_front(x, v, r, v, 0);
                assert(x.take(v.len() as int) =~= v);
                assert(text::starts_with(x, v));
            } else {
                assert(rest.subrange(i - 1, i - 1 + v.len()) =~= o.subrange(i, i + v.len()));
                assert(text::occurs_at(rest, v, i - 1));
                lemma_replace_removes(x.drop_first(), v, r);
            }
        }
    }
}

/// A redacted text holds none of the secrets, however the secrets overlap one another,
/// unless a secret can overlap `[REDACTED]` itself (it lies inside it, holds it, or
/// starts with an end of it or ends with a start of it).
pub proof fn lemma_redact_removes_secret(s: Seq<char>, secrets: Seq<Seq<char>>, k: int)
    requires
        0 <= k < secrets.len(),
        secrets[k].len() > 0,
        !docks(secrets[k], redacted()),
    ensures
        !text::contains(redact_all(s, secrets), secrets[k]),
    decreases secrets.len(),
{
    reveal_strlit("[REDACTED]");
    let v = secrets[k];
    let prev = redact_all(s, secrets.drop_last());
    let w = secrets.last();
    if k == secrets.len() - 1 {
        lemma_replace_removes(prev, v, redacted());
    } else {
        assert(secrets.drop_last()[k] == v);
        lemma_redact_removes_secret(s, secrets.drop_last(), k);
        if w.len() > 0 {
            lemma_replace_keeps_absent(prev, w, redacted(), v);
        }
    }
}

} // verus!
