//! Character-level text utilities with mathematical specifications.
//!
//! Strings are specified through their views as `Seq<char>`. Byte lengths (what
//! `str::len` reports) are given by `byte_len`, the sum of the UTF-8 widths of
//! the characters.
use vstd::prelude::*;

verus! {

// ---------------------------------------------------------------------------
// Widths and byte lengths
// ---------------------------------------------------------------------------

/// Number of bytes of the UTF-8 encoding of `c`.
pub open spec fn char_width(c: char) -> nat {
    if (c as u32) < 0x80 {
        1
    } else if (c as u32) < 0x800 {
        2
    } else if (c as u32) < 0x10000 {
        3
    } else {
        4
    }
}

/// Number of bytes of the UTF-8 encoding of `s`.
pub open spec fn byte_len(s: Seq<char>) -> nat
    decreases s.len(),
{
    if s.len() == 0 {
        0
    } else {
        byte_len(s.drop_last()) + char_width(s.last())
    }
}

/// Index `k` splits `s` at byte offset `b`: the first `k` characters take exactly `b` bytes.
pub open spec fn splits_at_byte(s: Seq<char>, k: int, b: nat) -> bool {
    0 <= k <= s.len() && byte_len(s.take(k)) == b
}

/// Byte offset `b` is a character boundary of `s`.
pub open spec fn is_boundary(s: Seq<char>, b: nat) -> bool {
    exists|k: int| splits_at_byte(s, k, b)
}

/// The characters of `s` that come before byte offset `b` (meaningful when `b` is a boundary).
pub open spec fn prefix_bytes(s: Seq<char>, b: nat) -> Seq<char> {
    s.take(choose|k: int| splits_at_byte(s, k, b))
}

pub fn char_width_exec(c: char) -> (w: usize)
    ensures
        w == char_width(c),
        1 <= w <= 4,
{
    let u = c as u32;
    if u < 0x80 {
        1
    } else if u < 0x800 {
        2
    } else if u < 0x10000 {
        3
    } else {
        4
    }
}

pub proof fn lemma_byte_len_take_step(s: Seq<char>, i: int)
    requires
        0 <= i < s.len(),
    ensures
        byte_len(s.take(i + 1)) == byte_len(s.take(i)) + char_width(s[i]),
{
    assert(s.take(i + 1).drop_last() =~= s.take(i));
}

pub proof fn lemma_byte_len_take_mono(s: Seq<char>, i: int, j: int)
    requires
        0 <= i <= j <= s.len(),
    ensures
        byte_len(s.take(i)) + (j - i) <= byte_len(s.take(j)),
    decreases j - i,
{
    if i < j {
        lemma_byte_len_take_mono(s, i, j - 1);
        lemma_byte_len_take_step(s, j - 1);
    }
}

pub proof fn lemma_byte_len_full(s: Seq<char>)
    ensures
        byte_len(s.take(s.len() as int)) == byte_len(s),
{
    assert(s.take(s.len() as int) =~= s);
}

/// Whether the UTF-8 length of `s` is greater than `bound` (no overflow whatever the length).
pub fn byte_len_exceeds(s: &Vec<char>, bound: usize) -> (r: bool)
    ensures
        r == (byte_len(s@) > bound),
{
    let mut total: usize = 0;
    let mut i: usize = 0;
    while i < s.len()
        invariant
            i <= s.len(),
            total == byte_len(s@.take(i as int)),
            total <= bound,
        decreases s.len() - i,
    {
        proof {
            lemma_byte_len_take_step(s@, i as int);
        }
        let w = char_width_exec(s[i]);
        if w > bound - total {
            proof {
                lemma_byte_len_take_mono(s@, i as int + 1, s@.len() as int);
                lemma_byte_len_full(s@);
            }
            return true;
        }
        total = total + w;
        i = i + 1;
    }
    proof {
        lemma_byte_len_full(s@);
    }
    false
}

/// UTF-8 length of `s`, for sequences whose length fits in `usize`.
pub fn byte_len_exec(s: &Vec<char>) -> (n: usize)
    requires
        byte_len(s@) <= usize::MAX,
    ensures
        n == byte_len(s@),
{
    let mut total: usize = 0;
    let mut i: usize = 0;
    while i < s.len()
        invariant
            i <= s.len(),
            total == byte_len(s@.take(i as int)),
            byte_len(s@) <= usize::MAX,
        decreases s.len() - i,
    {
        proof {
            lemma_byte_len_take_step(s@, i as int);
            lemma_byte_len_take_mono(s@, i as int + 1, s@.len() as int);
            lemma_byte_len_full(s@);
        }
        total = total + char_width_exec(s[i]);
        i = i + 1;
    }
    proof {
        lemma_byte_len_full(s@);
    }
    total
}

/// Number of leading characters of `s` that make up exactly `b` bytes, if `b` is a boundary.
pub fn char_index_of_byte(s: &Vec<char>, b: usize) -> (r: Option<usize>)
    ensures
        match r {
            Some(k) => splits_at_byte(s@, k as int, b as nat),
            None => !is_boundary(s@, b as nat),
        },
{
    let mut total: usize = 0;
    let mut i: usize = 0;
    while i < s.len()
        invariant
            i <= s.len(),
            total == byte_len(s@.take(i as int)),
            total <= b,
            forall|k: int| 0 <= k < i ==> byte_len(s@.take(k)) < b,
        decreases s.len() - i,
    {
        if total == b {
            return Some(i);
        }
        proof {
            lemma_byte_len_take_step(s@, i as int);
        }
        let w = char_width_exec(s[i]);
        if w > b - total {
            proof {
                assert forall|k: int| splits_at_byte(s@, k, b as nat) implies false by {
                    if k > i {
                        lemma_byte_len_take_mono(s@, i as int + 1, k);
                    }
                }
            }
            return None;
        }
        total = total + w;
        i = i + 1;
    }
    if total == b {
        return Some(i);
    }
    proof {
        assert forall|k: int| splits_at_byte(s@, k, b as nat) implies false by {
            assert(k <= i);
        }
    }
    None
}

/// The characters of `s` from byte offset `b` on (meaningful when `b` is a boundary).
pub open spec fn suffix_bytes(s: Seq<char>, b: nat) -> Seq<char> {
    s.skip(choose|k: int| splits_at_byte(s, k, b))
}

/// Byte lengths add up over concatenation.
pub proof fn lemma_byte_len_concat(a: Seq<char>, b: Seq<char>)
    ensures
        byte_len(a + b) == byte_len(a) + byte_len(b),
    decreases b.len(),
{
    if b.len() == 0 {
        assert(a + b =~= a);
    } else {
        lemma_byte_len_concat(a, b.drop_last());
        assert((a + b).drop_last() =~= a + b.drop_last());
    }
}

/// The characters from a boundary on take the bytes that remain.
pub proof fn lemma_suffix_bytes(s: Seq<char>, b: nat)
    requires
        is_boundary(s, b),
    ensures
        b <= byte_len(s),
        byte_len(suffix_bytes(s, b)) == byte_len(s) - b,
{
    let k = choose|k: int| splits_at_byte(s, k, b);
    assert(s =~= s.take(k) + s.skip(k));
    lemma_byte_len_concat(s.take(k), s.skip(k));
}

/// UTF-8 length of the first `n` characters of `s` (wide enough for any `n`).
pub fn byte_len_upto(s: &Vec<char>, n: usize) -> (r: u128)
    requires
        n <= s.len(),
    ensures
        r == byte_len(s@.take(n as int)),
{
    let mut total: u128 = 0;
    let mut i: usize = 0;
    while i < n
        invariant
            i <= n <= s.len(),
            total == byte_len(s@.take(i as int)),
            total <= 4 * i,
        decreases n - i,
    {
        proof {
            lemma_byte_len_take_step(s@, i as int);
        }
        let w = char_width_exec(s[i]);
        total = total + w as u128;
        i = i + 1;
    }
    total
}

/// Number of leading characters of `s` that make up exactly `b` bytes, if `b` is a
/// boundary (any `b`, however large).
pub fn split_index(s: &Vec<char>, b: u128) -> (r: Option<usize>)
    ensures
        match r {
            Some(k) => splits_at_byte(s@, k as int, b as nat),
            None => !is_boundary(s@, b as nat),
        },
{
    let mut total: u128 = 0;
    let mut i: usize = 0;
    while i < s.len()
        invariant
            i <= s.len(),
            total == byte_len(s@.take(i as int)),
            total <= b,
            forall|k: int| 0 <= k < i ==> byte_len(s@.take(k)) < b,
        decreases s.len() - i,
    {
        if total == b {
            return Some(i);
        }
        proof {
            lemma_byte_len_take_step(s@, i as int);
        }
        let w = char_width_exec(s[i]) as u128;
        if w > b - total {
            proof {
                assert forall|k: int| splits_at_byte(s@, k, b as nat) implies false by {
                    if k > i {
                        lemma_byte_len_take_mono(s@, i as int + 1, k);
                    }
                }
            }
            return None;
        }
        total = total + w;
        i = i + 1;
    }
    if total == b {
        return Some(i);
    }
    proof {
        assert forall|k: int| splits_at_byte(s@, k, b as nat) implies false by {
            assert(k <= i);
        }
    }
    None
}

// ---------------------------------------------------------------------------
// Conversions between `str`/`String` and character vectors
// ---------------------------------------------------------------------------

/// Appends one character to a `String` (`String::push`).
#[verifier::external_body]
pub(crate) fn push_char(s: &mut String, c: char)
    ensures
        final(s)@ == old(s)@.push(c),
{
    s.push(c);
}

/// The characters of `s`.
pub fn chars_of(s: &str) -> (v: Vec<char>)
    ensures
        v@ == s@,
{
    let n = s.unicode_len();
    let mut v: Vec<char> = Vec::new();
    let mut i: usize = 0;
    while i < n
        invariant
            n == s@.len(),
            i <= n,
            v@ == s@.take(i as int),
        decreases n - i,
    {
        v.push(s.get_char(i));
        i = i + 1;
        assert(v@ =~= s@.take(i as int));
    }
    assert(v@ =~= s@);
    v
}

/// A `String` holding exactly the characters of `v`.
pub fn string_of(v: &Vec<char>) -> (s: String)
    ensures
        s@ == v@,
{
    let mut s = String::new();
    let mut i: usize = 0;
    while i < v.len()
        invariant
            i <= v.len(),
            s@ == v@.take(i as int),
        decreases v.len() - i,
    {
        push_char(&mut s, v[i]);
        i = i + 1;
        assert(s@ =~= v@.take(i as int));
    }
    assert(v@.take(v@.len() as int) =~= v@);
    s
}

/// Appends the characters of `v` to `s`.
pub fn push_chars(s: &mut String, v: &Vec<char>)
    ensures
        final(s)@ == old(s)@ + v@,
{
    let mut i: usize = 0;
    while i < v.len()
        invariant
            i <= v.len(),
            s@ == old(s)@ + v@.take(i as int),
        decreases v.len() - i,
    {
        push_char(s, v[i]);
        i = i + 1;
        assert(s@ =~= old(s)@ + v@.take(i as int));
    }
    assert(v@.take(v@.len() as int) =~= v@);
}

/// A copy of `v[from..to]`.
pub fn sub_vec(v: &Vec<char>, from: usize, to: usize) -> (r: Vec<char>)
    requires
        from <= to <= v.len(),
    ensures
        r@ == v@.subrange(from as int, to as int),
{
    let mut r: Vec<char> = Vec::new();
    let mut i = from;
    while i < to
        invariant
            from <= i <= to <= v.len(),
            r@ == v@.subrange(from as int, i as int),
        decreases to - i,
    {
        r.push(v[i]);
        i = i + 1;
        assert(r@ =~= v@.subrange(from as int, i as int));
    }
    r
}

// ---------------------------------------------------------------------------
// Whitespace and trimming
// ---------------------------------------------------------------------------

/// Unicode `White_Space` (what `char::is_whitespace` and `str::trim` use).
pub open spec fn is_ws(c: char) -> bool {
    let u = c as u32;
    (0x9 <= u <= 0xd) || u == 0x20 || u == 0x85 || u == 0xa0 || u == 0x1680 || (0x2000 <= u
        <= 0x200a) || u == 0x2028 || u == 0x2029 || u == 0x202f || u == 0x205f || u == 0x3000
}

/// ASCII whitespace (what `split_ascii_whitespace` splits on).
pub open spec fn is_ascii_ws(c: char) -> bool {
    c == ' ' || c == '\t' || c == '\n' || c == '\x0C' || c == '\r'
}

pub fn is_ws_exec(c: char) -> (r: bool)
    ensures
        r == is_ws(c),
{
    let u = c as u32;
    (0x9 <= u && u <= 0xd) || u == 0x20 || u == 0x85 || u == 0xa0 || u == 0x1680 || (0x2000 <= u
        && u <= 0x200a) || u == 0x2028 || u == 0x2029 || u == 0x202f || u == 0x205f || u == 0x3000
}

pub fn is_ascii_ws_exec(c: char) -> (r: bool)
    ensures
        r == is_ascii_ws(c),
{
    c == ' ' || c == '\t' || c == '\n' || c == '\x0C' || c == '\r'
}

pub open spec fn trim_start(s: Seq<char>) -> Seq<char>
    decreases s.len(),
{
    if s.len() > 0 && is_ws(s[0]) {
        trim_start(s.drop_first())
    } else {
        s
    }
}

pub open spec fn trim_end(s: Seq<char>) -> Seq<char>
    decreases s.len(),
{
    if s.len() > 0 && is_ws(s.last()) {
        trim_end(s.drop_last())
    } else {
        s
    }
}

/// `str::trim`: leading and trailing whitespace removed.
pub open spec fn trim(s: Seq<char>) -> Seq<char> {
    trim_end(trim_start(s))
}

proof fn lemma_trim_start_skip(s: Seq<char>, i: int)
    requires
        0 <= i <= s.len(),
        forall|k: int| 0 <= k < i ==> is_ws(s[k]),
    ensures
        trim_start(s) == trim_start(s.skip(i)),
    decreases i,
{
    if i > 0 {
        assert(s.drop_first().skip(i - 1) =~= s.skip(i));
        lemma_trim_start_skip(s.drop_first(), i - 1);
    } else {
        assert(s.skip(0) =~= s);
    }
}

proof fn lemma_trim_end_take(s: Seq<char>, j: int)
    requires
        0 <= j <= s.len(),
        forall|k: int| j <= k < s.len() ==> is_ws(s[k]),
    ensures
        trim_end(s) == trim_end(s.take(j)),
    decreases s.len() - j,
{
    if j < s.len() {
        assert(s.drop_last().take(j) =~= s.take(j));
        lemma_trim_end_take(s.drop_last(), j);
    } else {
        assert(s.take(j) =~= s);
    }
}

/// `str::trim` on a character vector.
pub fn trim_vec(s: &Vec<char>) -> (r: Vec<char>)
    ensures
        r@ == trim(s@),
{
    let n = s.len();
    let mut a: usize = 0;
    while a < n && is_ws_exec(s[a])
        invariant
            a <= n == s.len(),
            forall|k: int| 0 <= k < a ==> is_ws(s@[k]),
        decreases n - a,
    {
        a = a + 1;
    }
    proof {
        lemma_trim_start_skip(s@, a as int);
    }
    let mut b: usize = n;
    while b > a && is_ws_exec(s[b - 1])
        invariant
            a <= b <= n == s.len(),
            forall|k: int| b <= k < n ==> is_ws(s@[k]),
        decreases b,
    {
        b = b - 1;
    }
    let r = sub_vec(s, a, b);
    proof {
        let t = s@.skip(a as int);
        assert(a == n || !is_ws(t[0]));
        assert(trim_start(t) == t);
        lemma_trim_end_take(t, (b - a) as int);
        assert(t.take((b - a) as int) =~= r@);
        assert(b == a || !is_ws(r@.last()));
    }
    r
}

/// `str::trim_start` on a character vector.
pub fn trim_start_vec(s: &Vec<char>) -> (r: Vec<char>)
    ensures
        r@ == trim_start(s@),
{
    let n = s.len();
    let mut a: usize = 0;
    while a < n && is_ws_exec(s[a])
        invariant
            a <= n == s.len(),
            forall|k: int| 0 <= k < a ==> is_ws(s@[k]),
        decreases n - a,
    {
        a = a + 1;
    }
    proof {
        lemma_trim_start_skip(s@, a as int);
    }
    let r = sub_vec(s, a, n);
    assert(r@ =~= s@.skip(a as int));
    r
}

/// `str::trim_end` on a character vector.
pub fn trim_end_vec(s: &Vec<char>) -> (r: Vec<char>)
    ensures
        r@ == trim_end(s@),
{
    let n = s.len();
    let mut b: usize = n;
    while b > 0 && is_ws_exec(s[b - 1])
        invariant
            b <= n == s.len(),
            forall|k: int| b <= k < n ==> is_ws(s@[k]),
        decreases b,
    {
        b = b - 1;
    }
    let r = sub_vec(s, 0, b);
    proof {
        lemma_trim_end_take(s@, b as int);
        assert(s@.take(b as int) =~= r@);
    }
    r
}

/// `str::trim` on a string slice.
pub fn trim_str(s: &str) -> (r: Vec<char>)
    ensures
        r@ == trim(s@),
{
    let v = chars_of(s);
    trim_vec(&v)
}

// ---------------------------------------------------------------------------
// Lower-casing
// ---------------------------------------------------------------------------

/// What `str::to_lowercase` returns for a string with the given characters.
pub uninterp spec fn lowercase(s: Seq<char>) -> Seq<char>;

/// `str::to_lowercase` (Unicode lower-casing). Its result depends on the characters alone.
#[verifier::external_body]
pub(crate) fn str_to_lowercase(s: &str) -> (r: String)
    ensures
        r@ == lowercase(s@),
{
    s.to_lowercase()
}

/// Lower-cases a character vector as `str::to_lowercase` does.
pub fn lowercase_vec(v: &Vec<char>) -> (r: Vec<char>)
    ensures
        r@ == lowercase(v@),
{
    let s = string_of(v);
    let l = str_to_lowercase(s.as_str());
    chars_of(l.as_str())
}

/// ASCII case folding of one character.
pub open spec fn ascii_lower(c: char) -> char {
    if 'A' <= c <= 'Z' {
        ((c as u32) + 32) as char
    } else {
        c
    }
}

/// `str::eq_ignore_ascii_case`.
pub open spec fn eq_ignore_ascii_case(a: Seq<char>, b: Seq<char>) -> bool {
    a.len() == b.len() && forall|i: int| 0 <= i < a.len() ==> ascii_lower(a[i]) == ascii_lower(b[i])
}

fn ascii_lower_exec(c: char) -> (r: char)
    ensures
        r == ascii_lower(c),
{
    if 'A' <= c && c <= 'Z' {
        let u = (c as u32) + 32;
        assert(0x61 <= u <= 0x7a);
        // an ASCII letter plus 32 is still ASCII
        char_from_ascii(u)
    } else {
        c
    }
}

fn char_from_ascii(u: u32) -> (c: char)
    requires
        u < 0x80,
    ensures
        c == u as char,
{
    let b = u as u8;
    b as char
}

pub fn eq_ignore_ascii_case_exec(a: &Vec<char>, b: &Vec<char>) -> (r: bool)
    ensures
        r == eq_ignore_ascii_case(a@, b@),
{
    if a.len() != b.len() {
        return false;
    }
    let mut i: usize = 0;
    while i < a.len()
        invariant
            i <= a.len() == b.len(),
            forall|k: int| 0 <= k < i ==> ascii_lower(a@[k]) == ascii_lower(b@[k]),
        decreases a.len() - i,
    {
        if ascii_lower_exec(a[i]) != ascii_lower_exec(b[i]) {
            return false;
        }
        i = i + 1;
    }
    true
}

// ---------------------------------------------------------------------------
// Prefixes, suffixes, substrings
// ---------------------------------------------------------------------------

pub open spec fn starts_with(s: Seq<char>, p: Seq<char>) -> bool {
    p.len() <= s.len() && s.take(p.len() as int) == p
}

pub open spec fn ends_with(s: Seq<char>, p: Seq<char>) -> bool {
    p.len() <= s.len() && s.skip(s.len() - p.len()) == p
}

/// `p` occurs in `s` starting at character index `i`.
pub open spec fn occurs_at(s: Seq<char>, p: Seq<char>, i: int) -> bool {
    0 <= i && i + p.len() <= s.len() && s.subrange(i, i + p.len()) == p
}

/// `str::contains` with a string pattern.
pub open spec fn contains(s: Seq<char>, p: Seq<char>) -> bool {
    exists|i: int| occurs_at(s, p, i)
}

pub fn occurs_at_exec(s: &Vec<char>, p: &Vec<char>, i: usize) -> (r: bool)
    ensures
        r == occurs_at(s@, p@, i as int),
{
    if i > s.len() || p.len() > s.len() - i {
        return false;
    }
    let mut k: usize = 0;
    while k < p.len()
        invariant
            i + p.len() <= s.len(),
            k <= p.len(),
            forall|j: int| 0 <= j < k ==> s@[i + j] == p@[j],
        decreases p.len() - k,
    {
        if s[i + k] != p[k] {
            assert(s@.subrange(i as int, i + p.len())[k as int] != p@[k as int]);
            return false;
        }
        k = k + 1;
    }
    assert(s@.subrange(i as int, i + p.len()) =~= p@);
    true
}

pub fn starts_with_exec(s: &Vec<char>, p: &Vec<char>) -> (r: bool)
    ensures
        r == starts_with(s@, p@),
{
    let r = occurs_at_exec(s, p, 0);
    proof {
        if p@.len() <= s@.len() {
            assert(s@.subrange(0, p@.len() as int) =~= s@.take(p@.len() as int));
        }
    }
    r
}

pub fn ends_with_exec(s: &Vec<char>, p: &Vec<char>) -> (r: bool)
    ensures
        r == ends_with(s@, p@),
{
    if p.len() > s.len() {
        return false;
    }
    let r = occurs_at_exec(s, p, s.len() - p.len());
    proof {
        assert(s@.subrange(s@.len() - p@.len(), s@.len() as int) =~= s@.skip(
            s@.len() - p@.len(),
        ));
    }
    r
}

/// First character index at which `p` occurs in `s`.
pub fn find_exec(s: &Vec<char>, p: &Vec<char>) -> (r: Option<usize>)
    ensures
        match r {
            Some(i) => occurs_at(s@, p@, i as int) && forall|j: int|
                0 <= j < i ==> !occurs_at(s@, p@, j),
            None => !contains(s@, p@),
        },
{
    let mut i: usize = 0;
    while i < s.len()
        invariant
            i <= s.len(),
            forall|j: int| 0 <= j < i ==> !occurs_at(s@, p@, j),
        decreases s.len() - i,
    {
        if occurs_at_exec(s, p, i) {
            return Some(i);
        }
        i = i + 1;
    }
    if occurs_at_exec(s, p, i) {
        return Some(i);
    }
    proof {
        assert forall|j: int| occurs_at(s@, p@, j) implies false by {
            assert(j <= s@.len());
        }
    }
    None
}

pub fn contains_exec(s: &Vec<char>, p: &Vec<char>) -> (r: bool)
    ensures
        r == contains(s@, p@),
{
    match find_exec(s, p) {
        Some(_) => true,
        None => false,
    }
}

/// `s` contains the character `c`.
pub fn has_char(s: &Vec<char>, c: char) -> (r: bool)
    ensures
        r == s@.contains(c),
{
    let mut i: usize = 0;
    while i < s.len()
        invariant
            i <= s.len(),
            forall|k: int| 0 <= k < i ==> s@[k] != c,
        decreases s.len() - i,
    {
        if s[i] == c {
            return true;
        }
        i = i + 1;
    }
    false
}

/// Literal characters of a string literal, as a vector.
pub fn lit(s: &str) -> (v: Vec<char>)
    ensures
        v@ == s@,
{
    chars_of(s)
}

/// Whether the characters of `v` spell `s`.
pub fn is_lit(v: &Vec<char>, s: &str) -> (r: bool)
    ensures
        r == (v@ == s@),
{
    crate::cli::vec_eq(v, &lit(s))
}

// ---------------------------------------------------------------------------
// Splitting
// ---------------------------------------------------------------------------

/// Which characters separate words.
pub enum WordSep {
    /// `split_ascii_whitespace`
    Ascii,
    /// `split_whitespace`
    Unicode,
}

pub open spec fn is_sep(kind: WordSep, c: char) -> bool {
    match kind {
        WordSep::Ascii => is_ascii_ws(c),
        WordSep::Unicode => is_ws(c),
    }
}

/// Words completed so far and the word in progress, after reading `s` left to right.
pub open spec fn word_scan(s: Seq<char>, kind: WordSep) -> (Seq<Seq<char>>, Seq<char>)
    decreases s.len(),
{
    if s.len() == 0 {
        (Seq::empty(), Seq::empty())
    } else {
        let (done, cur) = word_scan(s.drop_last(), kind);
        if is_sep(kind, s.last()) {
            if cur.len() > 0 {
                (done.push(cur), Seq::empty())
            } else {
                (done, cur)
            }
        } else {
            (done, cur.push(s.last()))
        }
    }
}

/// The non-empty maximal runs of non-separator characters of `s`, in order.
pub open spec fn words(s: Seq<char>, kind: WordSep) -> Seq<Seq<char>> {
    let (done, cur) = word_scan(s, kind);
    if cur.len() > 0 {
        done.push(cur)
    } else {
        done
    }
}

fn is_sep_exec(kind: &WordSep, c: char) -> (r: bool)
    ensures
        r == is_sep(*kind, c),
{
    match kind {
        WordSep::Ascii => is_ascii_ws_exec(c),
        WordSep::Unicode => is_ws_exec(c),
    }
}

/// `split_ascii_whitespace` / `split_whitespace`.
pub fn split_words(s: &Vec<char>, kind: WordSep) -> (r: Vec<Vec<char>>)
    ensures
        r@.len() == words(s@, kind).len(),
        forall|i: int| 0 <= i < r@.len() ==> #[trigger] r@[i]@ == words(s@, kind)[i],
{
    let mut done: Vec<Vec<char>> = Vec::new();
    let mut cur: Vec<char> = Vec::new();
    let mut i: usize = 0;
    while i < s.len()
        invariant
            i <= s.len(),
            done@.len() == word_scan(s@.take(i as int), kind).0.len(),
            forall|k: int|
                0 <= k < done@.len() ==> #[trigger] done@[k]@ == word_scan(
                    s@.take(i as int),
                    kind,
                ).0[k],
            cur@ == word_scan(s@.take(i as int), kind).1,
        decreases s.len() - i,
    {
        assert(s@.take(i + 1).drop_last() =~= s@.take(i as int));
        let c = s[i];
        if is_sep_exec(&kind, c) {
            if cur.len() > 0 {
                let w = cur;
                done.push(w);
                cur = Vec::new();
            }
        } else {
            cur.push(c);
        }
        i = i + 1;
    }
    assert(s@.take(s@.len() as int) =~= s@);
    if cur.len() > 0 {
        done.push(cur);
    }
    done
}

/// Pieces already closed by a separator, and the piece in progress (`str::split` with a char).
pub open spec fn piece_scan(s: Seq<char>, sep: char) -> (Seq<Seq<char>>, Seq<char>)
    decreases s.len(),
{
    if s.len() == 0 {
        (Seq::empty(), Seq::empty())
    } else {
        let (done, cur) = piece_scan(s.drop_last(), sep);
        if s.last() == sep {
            (done.push(cur), Seq::empty())
        } else {
            (done, cur.push(s.last()))
        }
    }
}

/// `str::split(sep)`: the pieces between separators, empty pieces included.
pub open spec fn split_on(s: Seq<char>, sep: char) -> Seq<Seq<char>> {
    let (done, cur) = piece_scan(s, sep);
    done.push(cur)
}

pub fn split_on_exec(s: &Vec<char>, sep: char) -> (r: Vec<Vec<char>>)
    ensures
        r@.len() == split_on(s@, sep).len(),
        forall|i: int| 0 <= i < r@.len() ==> #[trigger] r@[i]@ == split_on(s@, sep)[i],
{
    let mut done: Vec<Vec<char>> = Vec::new();
    let mut cur: Vec<char> = Vec::new();
    let mut i: usize = 0;
    while i < s.len()
        invariant
            i <= s.len(),
            done@.len() == piece_scan(s@.take(i as int), sep).0.len(),
            forall|k: int|
                0 <= k < done@.len() ==> #[trigger] done@[k]@ == piece_scan(
                    s@.take(i as int),
                    sep,
                ).0[k],
            cur@ == piece_scan(s@.take(i as int), sep).1,
        decreases s.len() - i,
    {
        assert(s@.take(i + 1).drop_last() =~= s@.take(i as int));
        let c = s[i];
        if c == sep {
            let w = cur;
            done.push(w);
            cur = Vec::new();
        } else {
            cur.push(c);
        }
        i = i + 1;
    }
    assert(s@.take(s@.len() as int) =~= s@);
    done.push(cur);
    done
}

// ---------------------------------------------------------------------------
// Replacing
// ---------------------------------------------------------------------------

/// `str::replace(pat, rep)` for a non-empty pattern: left-to-right, non-overlapping.
pub open spec fn replace_all(s: Seq<char>, pat: Seq<char>, rep: Seq<char>) -> Seq<char>
    recommends
        pat.len() > 0,
    decreases s.len(),
{
    if s.len() == 0 || pat.len() == 0 {
        s
    } else if starts_with(s, pat) {
        rep + replace_all(s.skip(pat.len() as int), pat, rep)
    } else {
        seq![s[0]] + replace_all(s.drop_first(), pat, rep)
    }
}

/// `str::replace(c, rep)` for a single-character pattern.
pub open spec fn replace_char(s: Seq<char>, c: char, rep: Seq<char>) -> Seq<char>
    decreases s.len(),
{
    if s.len() == 0 {
        s
    } else if s[0] == c {
        rep + replace_char(s.drop_first(), c, rep)
    } else {
        seq![s[0]] + replace_char(s.drop_first(), c, rep)
    }
}

pub fn replace_all_exec(s: &Vec<char>, pat: &Vec<char>, rep: &Vec<char>) -> (r: Vec<char>)
    requires
        pat@.len() > 0,
    ensures
        r@ == replace_all(s@, pat@, rep@),
{
    let mut out: Vec<char> = Vec::new();
    let mut i: usize = 0;
    assert(s@.skip(0) =~= s@);
    assert(out@ + replace_all(s@, pat@, rep@) =~= replace_all(s@, pat@, rep@));
    while i < s.len()
        invariant
            i <= s.len(),
            pat@.len() > 0,
            replace_all(s@, pat@, rep@) == out@ + replace_all(s@.skip(i as int), pat@, rep@),
        decreases s.len() - i,
    {
        let t = Ghost(s@.skip(i as int));
        if occurs_at_exec(s, pat, i) {
            proof {
                assert(t@.take(pat@.len() as int) =~= s@.subrange(i as int, i + pat@.len()));
                assert(t@.skip(pat@.len() as int) =~= s@.skip(i + pat@.len()));
            }
            let mut k: usize = 0;
            let ghost before = out@;
            while k < rep.len()
                invariant
                    k <= rep.len(),
                    out@ == before + rep@.take(k as int),
                decreases rep.len() - k,
            {
                out.push(rep[k]);
                k = k + 1;
                assert(out@ =~= before + rep@.take(k as int));
            }
            assert(rep@.take(rep@.len() as int) =~= rep@);
            assert(out@ + replace_all(s@.skip(i + pat@.len()), pat@, rep@) =~= before + (rep@
                + replace_all(t@.skip(pat@.len() as int), pat@, rep@)));
            i = i + pat.len();
        } else {
            proof {
                if pat@.len() <= t@.len() {
                    assert(t@.take(pat@.len() as int) =~= s@.subrange(i as int, i + pat@.len()));
                }
                assert(t@.drop_first() =~= s@.skip(i + 1));
            }
            let ghost before = out@;
            out.push(s[i]);
            assert(out@ + replace_all(s@.skip(i + 1), pat@, rep@) =~= before + (seq![t@[0]]
                + replace_all(t@.drop_first(), pat@, rep@)));
            i = i + 1;
        }
    }
    assert(s@.skip(s@.len() as int) =~= Seq::<char>::empty());
    assert(out@ + Seq::<char>::empty() =~= out@);
    out
}

pub fn replace_char_exec(s: &Vec<char>, c: char, rep: &Vec<char>) -> (r: Vec<char>)
    ensures
        r@ == replace_char(s@, c, rep@),
{
    let mut out: Vec<char> = Vec::new();
    let mut i: usize = 0;
    assert(s@.skip(0) =~= s@);
    assert(out@ + replace_char(s@, c, rep@) =~= replace_char(s@, c, rep@));
    while i < s.len()
        invariant
            i <= s.len(),
            replace_char(s@, c, rep@) == out@ + replace_char(s@.skip(i as int), c, rep@),
        decreases s.len() - i,
    {
        let t = Ghost(s@.skip(i as int));
        assert(t@.drop_first() =~= s@.skip(i + 1));
        let ghost before = out@;
        if s[i] == c {
            let mut k: usize = 0;
            while k < rep.len()
                invariant
                    k <= rep.len(),
                    out@ == before + rep@.take(k as int),
                decreases rep.len() - k,
            {
                out.push(rep[k]);
                k = k + 1;
                assert(out@ =~= before + rep@.take(k as int));
            }
            assert(rep@.take(rep@.len() as int) =~= rep@);
            assert(out@ + replace_char(s@.skip(i + 1), c, rep@) =~= before + (rep@ + replace_char(
                t@.drop_first(),
                c,
                rep@,
            )));
        } else {
            out.push(s[i]);
            assert(out@ + replace_char(s@.skip(i + 1), c, rep@) =~= before + (seq![t@[0]]
                + replace_char(t@.drop_first(), c, rep@)));
        }
        i = i + 1;
    }
    assert(s@.skip(s@.len() as int) =~= Seq::<char>::empty());
    assert(out@ + Seq::<char>::empty() =~= out@);
    out
}

// ---------------------------------------------------------------------------
// Joining and numbering
// ---------------------------------------------------------------------------

/// `parts.join(sep)`.
pub open spec fn join(parts: Seq<Seq<char>>, sep: Seq<char>) -> Seq<char>
    decreases parts.len(),
{
    if parts.len() == 0 {
        Seq::empty()
    } else if parts.len() == 1 {
        parts[0]
    } else {
        join(parts.drop_last(), sep) + sep + parts.last()
    }
}

pub fn join_exec(parts: &Vec<Vec<char>>, sep: &Vec<char>) -> (r: Vec<char>)
    ensures
        r@ == join(parts@.map_values(|p: Vec<char>| p@), sep@),
{
    let ghost ps = parts@.map_values(|p: Vec<char>| p@);
    let mut out: Vec<char> = Vec::new();
    let mut i: usize = 0;
    while i < parts.len()
        invariant
            i <= parts.len(),
            ps == parts@.map_values(|p: Vec<char>| p@),
            out@ == join(ps.take(i as int), sep@),
        decreases parts.len() - i,
    {
        assert(ps.take(i + 1).drop_last() =~= ps.take(i as int));
        if i > 0 {
            let mut k: usize = 0;
            let ghost before = out@;
            while k < sep.len()
                invariant
                    k <= sep.len(),
                    out@ == before + sep@.take(k as int),
                decreases sep.len() - k,
            {
                out.push(sep[k]);
                k = k + 1;
                assert(out@ =~= before + sep@.take(k as int));
            }
            assert(sep@.take(sep@.len() as int) =~= sep@);
        }
        let ghost mid = out@;
        let mut k: usize = 0;
        while k < parts[i].len()
            invariant
                i < parts.len(),
                k <= parts@[i as int]@.len(),
                out@ == mid + parts@[i as int]@.take(k as int),
            decreases parts@[i as int]@.len() - k,
        {
            out.push(parts[i][k]);
            k = k + 1;
            assert(out@ =~= mid + parts@[i as int]@.take(k as int));
        }
        assert(parts@[i as int]@.take(parts@[i as int]@.len() as int) =~= parts@[i as int]@);
        assert(ps.take(i + 1).last() == parts@[i as int]@);
        if i == 0 {
            assert(out@ =~= join(ps.take(1), sep@));
        }
        i = i + 1;
    }
    assert(ps.take(parts@.len() as int) =~= ps);
    out
}

/// ASCII decimal digit for `d < 10`.
pub open spec fn digit_char(d: nat) -> char {
    (48 + d) as char
}

/// Decimal representation of `n`, as `format!("{}", n)` writes it.
pub open spec fn decimal(n: nat) -> Seq<char>
    decreases n,
{
    if n < 10 {
        seq![digit_char(n)]
    } else {
        decimal(n / 10).push(digit_char(n % 10))
    }
}

fn digit_exec(d: u64) -> (c: char)
    requires
        d < 10,
    ensures
        c == digit_char(d as nat),
{
    let b = (48 + d) as u8;
    b as char
}

/// Appends the decimal representation of `n` to `out`.
pub fn push_decimal(out: &mut Vec<char>, n: u64)
    ensures
        final(out)@ == old(out)@ + decimal(n as nat),
    decreases n,
{
    if n >= 10 {
        push_decimal(out, n / 10);
    }
    out.push(digit_exec(n % 10));
    assert(final(out)@ =~= old(out)@ + decimal(n as nat));
}

/// Decimal representation of a signed integer, as `format!("{}", n)` writes it.
pub open spec fn decimal_i(n: int) -> Seq<char> {
    if n < 0 {
        seq!['-'] + decimal((-n) as nat)
    } else {
        decimal(n as nat)
    }
}

pub fn push_decimal_i64(out: &mut Vec<char>, n: i64)
    ensures
        final(out)@ == old(out)@ + decimal_i(n as int),
{
    if n < 0 {
        out.push('-');
        let m: u64 = if n == i64::MIN {
            9223372036854775808u64
        } else {
            (-n) as u64
        };
        push_decimal(out, m);
        assert(final(out)@ =~= old(out)@ + decimal_i(n as int));
    } else {
        push_decimal(out, n as u64);
    }
}

/// Decimal representation of `n`, as a fresh vector.
pub fn decimal_vec(n: u64) -> (r: Vec<char>)
    ensures
        r@ == decimal(n as nat),
{
    let mut v: Vec<char> = Vec::new();
    push_decimal(&mut v, n);
    assert(v@ =~= decimal(n as nat));
    v
}

/// The line `"{i}. {item}"` of a numbered list.
pub open spec fn numbered_line(i: nat, item: Seq<char>) -> Seq<char> {
    decimal(i) + seq!['.', ' '] + item
}

/// Items numbered from 1, one per line: `"1. a\n2. b"`.
pub open spec fn numbered_list(items: Seq<Seq<char>>) -> Seq<char> {
    join(Seq::new(items.len(), |i: int| numbered_line((i + 1) as nat, items[i])), seq!['\n'])
}

pub fn numbered_list_exec(items: &Vec<Vec<char>>) -> (r: Vec<char>)
    requires
        items@.len() < u64::MAX,
    ensures
        r@ == numbered_list(items@.map_values(|p: Vec<char>| p@)),
{
    let ghost its = items@.map_values(|p: Vec<char>| p@);
    let mut lines: Vec<Vec<char>> = Vec::new();
    let mut i: usize = 0;
    while i < items.len()
        invariant
            i <= items.len() < u64::MAX,
            its == items@.map_values(|p: Vec<char>| p@),
            lines@.len() == i,
            forall|k: int|
                0 <= k < i ==> #[trigger] lines@[k]@ == numbered_line((k + 1) as nat, its[k]),
        decreases items.len() - i,
    {
        let mut line = decimal_vec((i + 1) as u64);
        line.push('.');
        line.push(' ');
        let ghost l0 = line@;
        let mut k: usize = 0;
        while k < items[i].len()
            invariant
                i < items.len(),
                k <= items@[i as int]@.len(),
                line@ == l0 + items@[i as int]@.take(k as int),
            decreases items@[i as int]@.len() - k,
        {
            line.push(items[i][k]);
            k = k + 1;
            assert(line@ =~= l0 + items@[i as int]@.take(k as int));
        }
        assert(items@[i as int]@.take(items@[i as int]@.len() as int) =~= items@[i as int]@);
        assert(line@ =~= numbered_line((i + 1) as nat, its[i as int]));
        lines.push(line);
        i = i + 1;
    }
    let nl = vec!['\n'];
    let r = join_exec(&lines, &nl);
    assert(nl@ =~= seq!['\n']);
    let ghost target = Seq::new(its.len(), |i: int| numbered_line((i + 1) as nat, its[i]));
    assert(lines@.map_values(|p: Vec<char>| p@) =~= target);
    assert(numbered_list(its) == join(target, seq!['\n']));
    r
}

// ---------------------------------------------------------------------------
// Truncation
// ---------------------------------------------------------------------------

/// The first `n` characters (`s.chars().take(n)`).
pub open spec fn take_chars(s: Seq<char>, n: nat) -> Seq<char> {
    if n <= s.len() {
        s.take(n as int)
    } else {
        s
    }
}

pub fn take_chars_exec(s: &Vec<char>, n: usize) -> (r: Vec<char>)
    ensures
        r@ == take_chars(s@, n as nat),
{
    let m = if n < s.len() {
        n
    } else {
        s.len()
    };
    let r = sub_vec(s, 0, m);
    assert(r@ =~= take_chars(s@, n as nat));
    r
}

/// Appends the characters of `s`.
pub fn push_str(out: &mut Vec<char>, s: &str)
    ensures
        final(out)@ == old(out)@ + s@,
{
    let mut v = chars_of(s);
    out.append(&mut v);
}

/// Appends a copy of `v`.
pub fn push_vec(out: &mut Vec<char>, v: &Vec<char>)
    ensures
        final(out)@ == old(out)@ + v@,
{
    let mut w = sub_vec(v, 0, v.len());
    assert(w@ =~= v@);
    out.append(&mut w);
}

/// `s` with leading characters `c` removed (`trim_start_matches(c)`).
pub open spec fn trim_start_char(s: Seq<char>, c: char) -> Seq<char>
    decreases s.len(),
{
    if s.len() > 0 && s[0] == c {
        trim_start_char(s.drop_first(), c)
    } else {
        s
    }
}

pub fn trim_start_char_exec(s: &Vec<char>, c: char) -> (r: Vec<char>)
    ensures
        r@ == trim_start_char(s@, c),
{
    let mut a: usize = 0;
    assert(s@.skip(0) =~= s@);
    while a < s.len() && s[a] == c
        invariant
            a <= s.len(),
            trim_start_char(s@, c) == trim_start_char(s@.skip(a as int), c),
        decreases s.len() - a,
    {
        assert(s@.skip(a as int).drop_first() =~= s@.skip(a + 1));
        a = a + 1;
    }
    let r = sub_vec(s, a, s.len());
    assert(r@ =~= s@.skip(a as int));
    r
}

/// Byte `max` is a boundary of `s` whenever `s` is longer than `max` bytes (so `&s[..max]` cannot panic).
pub open spec fn can_cut(s: Seq<char>, max: nat) -> bool {
    byte_len(s) > max ==> is_boundary(s, max)
}

/// `s` when at most `max` bytes long, else its first `max` bytes and an ellipsis.
pub open spec fn cut_bytes(s: Seq<char>, max: nat) -> Seq<char> {
    if byte_len(s) > max {
        prefix_bytes(s, max).push('\u{2026}')
    } else {
        s
    }
}

/// Only one prefix of `s` has a given byte length.
pub proof fn lemma_split_unique(s: Seq<char>, i: int, j: int, b: nat)
    requires
        splits_at_byte(s, i, b),
        splits_at_byte(s, j, b),
    ensures
        i == j,
{
    if i < j {
        lemma_byte_len_take_mono(s, i + 1, j);
        lemma_byte_len_take_step(s, i);
    } else if j < i {
        lemma_byte_len_take_mono(s, j + 1, i);
        lemma_byte_len_take_step(s, j);
    }
}

/// A string has at least as many bytes as characters.
pub proof fn lemma_len_le_byte_len(s: Seq<char>)
    ensures
        s.len() <= byte_len(s),
    decreases s.len(),
{
    if s.len() > 0 {
        lemma_len_le_byte_len(s.drop_last());
    }
}

/// Appending a character adds its width.
pub proof fn lemma_push_byte_len(s: Seq<char>, c: char)
    ensures
        byte_len(s.push(c)) == byte_len(s) + char_width(c),
{
    assert(s.push(c).drop_last() =~= s);
}

/// The characters before a boundary take exactly that many bytes, so there are no more
/// of them than bytes.
pub proof fn lemma_prefix_bytes(s: Seq<char>, b: nat)
    requires
        is_boundary(s, b),
    ensures
        byte_len(prefix_bytes(s, b)) == b,
        prefix_bytes(s, b).len() <= b,
{
    let k = choose|k: int| splits_at_byte(s, k, b);
    lemma_len_le_byte_len(s.take(k));
}

/// A cut text has at most `max + 1` characters and `max + 3` bytes: the ellipsis is one
/// character of three bytes.
pub proof fn lemma_cut_bytes_fits(s: Seq<char>, max: nat)
    requires
        can_cut(s, max),
    ensures
        cut_bytes(s, max).len() <= max + 1,
        byte_len(cut_bytes(s, max)) <= max + 3,
{
    if byte_len(s) > max {
        lemma_prefix_bytes(s, max);
        lemma_push_byte_len(prefix_bytes(s, max), '\u{2026}');
    } else {
        lemma_len_le_byte_len(s);
    }
}

pub fn cut_bytes_exec(s: &Vec<char>, max: usize) -> (r: Vec<char>)
    requires
        can_cut(s@, max as nat),
    ensures
        r@ == cut_bytes(s@, max as nat),
{
    if byte_len_exceeds(s, max) {
        match char_index_of_byte(s, max) {
            Some(k) => {
                let mut p = sub_vec(s, 0, k);
                proof {
                    let c = choose|k: int| #[trigger] splits_at_byte(s@, k, max as nat);
                    lemma_split_unique(s@, k as int, c, max as nat);
                    assert(p@ =~= prefix_bytes(s@, max as nat));
                }
                p.push('\u{2026}');
                p
            },
            None => sub_vec(s, 0, s.len()),
        }
    } else {
        let r = sub_vec(s, 0, s.len());
        assert(r@ =~= s@);
        r
    }
}

} // verus!
