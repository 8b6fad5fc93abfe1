//! RFC 3339 date-times (`2030-01-01T00:00:00Z`, `2030-01-01t09:30:00.25+05:30`) read as
//! seconds since the Unix epoch.
use vstd::prelude::*;

verus! {

pub open spec fn is_digit(c: char) -> bool {
    '0' <= c <= '9'
}

pub open spec fn dval(c: char) -> int {
    (c as int) - ('0' as int)
}

/// The two digits at `i` and `i + 1`, as a number.
pub open spec fn num2(t: Seq<char>, i: int) -> int {
    10 * dval(t[i]) + dval(t[i + 1])
}

/// The four digits from `i`, as a number.
pub open spec fn num4(t: Seq<char>, i: int) -> int {
    100 * num2(t, i) + num2(t, i + 2)
}

pub open spec fn digits_at(t: Seq<char>, i: int, n: int) -> bool {
    forall|k: int| i <= k < i + n ==> #[trigger] is_digit(t[k])
}

pub open spec fn is_leap(y: int) -> bool {
    (y % 4 == 0 && y % 100 != 0) || y % 400 == 0
}

pub open spec fn days_in_month(y: int, m: int) -> int {
    if m == 2 {
        if is_leap(y) {
            29
        } else {
            28
        }
    } else if m == 4 || m == 6 || m == 9 || m == 11 {
        30
    } else {
        31
    }
}

/// Days in the months of a common year before month `m`.
pub open spec fn days_before_month(m: int) -> int {
    if m <= 1 {
        0
    } else if m == 2 {
        31
    } else if m == 3 {
        59
    } else if m == 4 {
        90
    } else if m == 5 {
        120
    } else if m == 6 {
        151
    } else if m == 7 {
        181
    } else if m == 8 {
        212
    } else if m == 9 {
        243
    } else if m == 10 {
        273
    } else if m == 11 {
        304
    } else {
        334
    }
}

/// Leap days in the (proleptic Gregorian) years before year `y`, counted from year 1;
/// year 0 is itself a leap year, so there is one less before it.
pub open spec fn leap_days_before(y: int) -> int {
    if y >= 1 {
        (y - 1) / 4 - (y - 1) / 100 + (y - 1) / 400
    } else {
        -1
    }
}

/// Days from 1970-01-01 to the date `y-m-d`.
pub open spec fn days_from_epoch(y: int, m: int, d: int) -> int {
    365 * (y - 1) + leap_days_before(y) + days_before_month(m) + (if m > 2 && is_leap(y) {
        1int
    } else {
        0
    }) + (d - 1) - 719162
}

/// The number of digits from `i` on.
pub open spec fn digit_run(t: Seq<char>, i: int) -> nat
    decreases t.len() - i,
{
    if 0 <= i < t.len() && is_digit(t[i]) {
        1 + digit_run(t, i + 1)
    } else {
        0
    }
}

/// Where the offset starts: after the seconds and an optional fraction (a `.` and at
/// least one digit); `None` for a `.` with no digit.
pub open spec fn offset_start(t: Seq<char>) -> Option<int> {
    if 19 < t.len() && t[19] == '.' {
        if digit_run(t, 20) > 0 {
            Some(20 + digit_run(t, 20) as int)
        } else {
            None
        }
    } else {
        Some(19)
    }
}

/// The offset from UTC in seconds: `Z` (any case) or `+HH:MM` / `-HH:MM`.
pub open spec fn utc_offset(r: Seq<char>) -> Option<int> {
    if r.len() == 1 && (r[0] == 'Z' || r[0] == 'z') {
        Some(0)
    } else if r.len() == 6 && (r[0] == '+' || r[0] == '-') && is_digit(r[1]) && is_digit(r[2]) && r[3]
        == ':' && is_digit(r[4]) && is_digit(r[5]) && num2(r, 1) <= 23 && num2(r, 4) <= 59 {
        let v = num2(r, 1) * 3600 + num2(r, 4) * 60;
        Some(
            if r[0] == '+' {
                v
            } else {
                -v
            },
        )
    } else {
        None
    }
}

/// The shape `YYYY-MM-DDTHH:MM:SS` (the `T` in either case, or a space) at the front.
pub open spec fn date_time_shape(t: Seq<char>) -> bool {
    &&& t.len() >= 20
    &&& digits_at(t, 0, 4) && t[4] == '-' && digits_at(t, 5, 2) && t[7] == '-' && digits_at(t, 8, 2)
    &&& (t[10] == 'T' || t[10] == 't' || t[10] == ' ')
    &&& digits_at(t, 11, 2) && t[13] == ':' && digits_at(t, 14, 2) && t[16] == ':' && digits_at(t, 17, 2)
}

/// The fields name a real date and time of day (seconds up to 59).
pub open spec fn valid_fields(t: Seq<char>) -> bool {
    let y = num4(t, 0);
    let mo = num2(t, 5);
    let d = num2(t, 8);
    &&& 1 <= mo <= 12
    &&& 1 <= d <= days_in_month(y, mo)
    &&& num2(t, 11) <= 23 && num2(t, 14) <= 59 && num2(t, 17) <= 59
}

/// Seconds since the epoch of an RFC 3339 date-time (a fraction of a second is dropped),
/// or `None` when `t` is not one.
pub open spec fn rfc3339_secs(t: Seq<char>) -> Option<int> {
    if !date_time_shape(t) || !valid_fields(t) {
        None
    } else {
        match offset_start(t) {
            None => None,
            Some(k) => match utc_offset(t.skip(k)) {
                None => None,
                Some(off) => Some(
                    days_from_epoch(num4(t, 0), num2(t, 5), num2(t, 8)) * 86400 + num2(t, 11) * 3600
                        + num2(t, 14) * 60 + num2(t, 17) - off,
                ),
            },
        }
    }
}

/// The day after `y-m-d`.
pub open spec fn next_day(y: int, m: int, d: int) -> (int, int, int) {
    if d < days_in_month(y, m) {
        (y, m, d + 1)
    } else if m < 12 {
        (y, m + 1, 1)
    } else {
        (y + 1, 1, 1)
    }
}

/// The Gregorian calendar's months: 30 days in April, June, September and November,
/// 28 in February (29 in a leap year: one divisible by 4 but not by 100, or by 400),
/// and 31 in the others.
pub proof fn lemma_month_lengths(y: int, m: int)
    requires
        1 <= m <= 12,
    ensures
        m == 1 || m == 3 || m == 5 || m == 7 || m == 8 || m == 10 || m == 12 ==> days_in_month(y, m) == 31,
        m == 4 || m == 6 || m == 9 || m == 11 ==> days_in_month(y, m) == 30,
        m == 2 && ((y % 4 == 0 && y % 100 != 0) || y % 400 == 0) ==> days_in_month(y, m) == 29,
        m == 2 && !((y % 4 == 0 && y % 100 != 0) || y % 400 == 0) ==> days_in_month(y, m) == 28,
{
}

/// Leap days counted before year `y + 1` are those before `y`, plus one when `y` is a
/// leap year.
proof fn lemma_leap_days_step(y: int)
    requires
        y >= 0,
    ensures
        leap_days_before(y + 1) == leap_days_before(y) + (if is_leap(y) {
            1int
        } else {
            0
        }),
{
    if y >= 1 {
        assert(y / 4 - (y - 1) / 4 == (if y % 4 == 0 { 1int } else { 0 }));
        assert(y / 100 - (y - 1) / 100 == (if y % 100 == 0 { 1int } else { 0 }));
        assert(y / 400 - (y - 1) / 400 == (if y % 400 == 0 { 1int } else { 0 }));
        assert(y % 400 == 0 ==> y % 100 == 0);
        assert(y % 100 == 0 ==> y % 4 == 0);
    }
}

/// Days are counted without gaps or overlaps: 1970-01-01 is day 0, and the day after any
/// date (from year 0 on) is counted one more than it, across month and year ends.
pub proof fn lemma_days_are_consecutive(y: int, m: int, d: int)
    requires
        y >= 0,
        1 <= m <= 12,
        1 <= d <= days_in_month(y, m),
    ensures
        days_from_epoch(1970, 1, 1) == 0,
        days_from_epoch(next_day(y, m, d).0, next_day(y, m, d).1, next_day(y, m, d).2) == days_from_epoch(
            y,
            m,
            d,
        ) + 1,
{
    assert(leap_days_before(1970) == 477);
    if d == days_in_month(y, m) && m == 12 {
        lemma_leap_days_step(y);
    }
}

proof fn lemma_digit_run_same(t: Seq<char>, u: Seq<char>, lo: int, i: int)
    requires
        0 <= lo <= i,
        t.len() == u.len(),
        forall|k: int| lo <= k < t.len() ==> t[k] == u[k],
    ensures
        digit_run(t, i) == digit_run(u, i),
    decreases t.len() - i,
{
    if 0 <= i < t.len() && is_digit(t[i]) {
        lemma_digit_run_same(t, u, lo, i + 1);
    }
}

proof fn lemma_digit_run_bound(t: Seq<char>, i: int)
    requires
        0 <= i <= t.len(),
    ensures
        i + digit_run(t, i) <= t.len(),
    decreases t.len() - i,
{
    if i < t.len() && is_digit(t[i]) {
        lemma_digit_run_bound(t, i + 1);
    }
}

/// The same time of day on the next day is 86400 seconds later: two date-times that
/// differ only in their date, the second's date being the day after the first's, are
/// read as exactly one day apart.
pub proof fn lemma_next_day_is_a_day_later(t: Seq<char>, u: Seq<char>)
    requires
        rfc3339_secs(t) is Some,
        date_time_shape(u),
        u.skip(10) == t.skip(10),
        (num4(u, 0), num2(u, 5), num2(u, 8)) == next_day(num4(t, 0), num2(t, 5), num2(t, 8)),
    ensures
        rfc3339_secs(u) == Some(rfc3339_secs(t)->0 + 86400),
{
    assert(date_time_shape(t) && valid_fields(t));
    assert(t.len() == u.len()) by {
        assert(t.skip(10).len() == t.len() - 10);
        assert(u.skip(10).len() == u.len() - 10);
    }
    assert forall|k: int| 10 <= k < t.len() implies t[k] == u[k] by {
        assert(t[k] == t.skip(10)[k - 10]);
        assert(u[k] == u.skip(10)[k - 10]);
    }
    let y = num4(t, 0);
    let m = num2(t, 5);
    let d = num2(t, 8);
    assert(is_digit(t[0]) && is_digit(t[1]) && is_digit(t[2]) && is_digit(t[3]));
    assert(y >= 0);
    lemma_days_are_consecutive(y, m, d);
    assert(valid_fields(u));
    lemma_digit_run_same(t, u, 10, 20);
    assert(offset_start(u) == offset_start(t));
    let k = offset_start(t)->0;
    assert(k >= 19);
    if t[19] == '.' {
        lemma_digit_run_bound(t, 20);
    }
    assert(k <= t.len());
    assert forall|j: int| 0 <= j < t.len() - k implies u.skip(k)[j] == t.skip(k)[j] by {
        assert(t[k + j] == u[k + j]);
    }
    assert(u.skip(k) =~= t.skip(k));
    assert(num2(u, 11) == num2(t, 11) && num2(u, 14) == num2(t, 14) && num2(u, 17) == num2(t, 17));
}

/// Within one day, clock time counts in hours of 3600 seconds, minutes of 60 and
/// seconds: two date-times with the same date, fraction and offset are apart by the
/// difference of their clock times.
pub proof fn lemma_clock_time(t: Seq<char>, u: Seq<char>)
    requires
        rfc3339_secs(t) is Some,
        date_time_shape(u),
        u.take(11) == t.take(11),
        u.skip(19) == t.skip(19),
        num2(u, 11) <= 23,
        num2(u, 14) <= 59,
        num2(u, 17) <= 59,
    ensures
        rfc3339_secs(u) == Some(
            rfc3339_secs(t)->0 + (num2(u, 11) - num2(t, 11)) * 3600 + (num2(u, 14) - num2(t, 14)) * 60 + (
            num2(u, 17) - num2(t, 17)),
        ),
{
    assert(date_time_shape(t) && valid_fields(t));
    assert(t.len() == u.len()) by {
        assert(t.skip(19).len() == t.len() - 19);
        assert(u.skip(19).len() == u.len() - 19);
    }
    assert forall|k: int| 0 <= k < 11 implies t[k] == u[k] by {
        assert(t[k] == t.take(11)[k]);
        assert(u[k] == u.take(11)[k]);
    }
    assert forall|k: int| 19 <= k < t.len() implies t[k] == u[k] by {
        assert(t[k] == t.skip(19)[k - 19]);
        assert(u[k] == u.skip(19)[k - 19]);
    }
    assert(valid_fields(u));
    lemma_digit_run_same(t, u, 19, 20);
    assert(offset_start(u) == offset_start(t));
    let k = offset_start(t)->0;
    if t[19] == '.' {
        lemma_digit_run_bound(t, 20);
    }
    assert forall|j: int| 0 <= j < t.len() - k implies u.skip(k)[j] == t.skip(k)[j] by {
        assert(t[k + j] == u[k + j]);
    }
    assert(u.skip(k) =~= t.skip(k));
}

/// An offset from UTC shifts the instant back by its hours and minutes: a date-time
/// written `+HH:MM` (or `-HH:MM`) in place of `Z` names the instant `HH:MM` earlier (or
/// later).
pub proof fn lemma_utc_offset_shift(t: Seq<char>, u: Seq<char>)
    requires
        rfc3339_secs(t) is Some,
        t.len() == 20,
        t[19] == 'Z' || t[19] == 'z',
        u.len() == 25,
        u.take(19) == t.take(19),
        u[19] == '+' || u[19] == '-',
        is_digit(u[20]) && is_digit(u[21]) && u[22] == ':' && is_digit(u[23]) && is_digit(u[24]),
        num2(u, 20) <= 23,
        num2(u, 23) <= 59,
    ensures
        u[19] == '+' ==> rfc3339_secs(u) == Some(
            rfc3339_secs(t)->0 - (num2(u, 20) * 3600 + num2(u, 23) * 60),
        ),
        u[19] == '-' ==> rfc3339_secs(u) == Some(
            rfc3339_secs(t)->0 + (num2(u, 20) * 3600 + num2(u, 23) * 60),
        ),
{
    assert(date_time_shape(t) && valid_fields(t));
    assert forall|k: int| 0 <= k < 19 implies t[k] == u[k] by {
        assert(t[k] == t.take(19)[k]);
        assert(u[k] == u.take(19)[k]);
    }
    assert(date_time_shape(u));
    assert(valid_fields(u));
    assert(offset_start(t) == Some(19int));
    assert(offset_start(u) == Some(19int));
    let r = u.skip(19);
    assert(r.len() == 6);
    assert(r[0] == u[19] && r[1] == u[20] && r[2] == u[21] && r[3] == u[22] && r[4] == u[23] && r[5] == u[24]);
    assert(num2(r, 1) == num2(u, 20) && num2(r, 4) == num2(u, 23));
    assert(t.skip(19).len() == 1 && t.skip(19)[0] == t[19]);
    assert(utc_offset(t.skip(19)) == Some(0int));
    let v = num2(u, 20) * 3600 + num2(u, 23) * 60;
    assert(num2(u, 0) == num2(t, 0) && num2(u, 2) == num2(t, 2) && num2(u, 5) == num2(t, 5) && num2(u, 8)
        == num2(t, 8));
    assert(num2(u, 11) == num2(t, 11) && num2(u, 14) == num2(t, 14) && num2(u, 17) == num2(t, 17));
    if u[19] == '+' {
        assert(utc_offset(r) == Some(v));
    } else {
        assert(utc_offset(r) == Some(-v));
    }
}

/// Only real dates and times are read: a date-time that is read has a month from 1 to
/// 12, a day that exists in that month, an hour up to 23, minutes up to 59 and seconds up
/// to 59.
pub proof fn lemma_read_times_are_real(t: Seq<char>)
    requires
        rfc3339_secs(t) is Some,
    ensures
        t.len() >= 20,
        1 <= num2(t, 5) <= 12,
        1 <= num2(t, 8) <= days_in_month(num4(t, 0), num2(t, 5)),
        num2(t, 11) <= 23,
        num2(t, 14) <= 59,
        num2(t, 17) <= 59,
{
}

/// Every real date and time written in UTC (`Z`) is read.
pub proof fn lemma_utc_times_are_read(t: Seq<char>)
    requires
        date_time_shape(t),
        t.len() == 20,
        t[19] == 'Z' || t[19] == 'z',
        1 <= num2(t, 5) <= 12,
        1 <= num2(t, 8) <= days_in_month(num4(t, 0), num2(t, 5)),
        num2(t, 11) <= 23,
        num2(t, 14) <= 59,
        num2(t, 17) <= 59,
    ensures
        rfc3339_secs(t) is Some,
{
    assert(offset_start(t) == Some(19int));
    assert(t.skip(19).len() == 1 && t.skip(19)[0] == t[19]);
}

proof fn lemma_digit_run_of_fraction(u: Seq<char>, f: Seq<char>, i: int)
    requires
        20 <= i <= 20 + f.len(),
        u.len() > 20 + f.len(),
        forall|k: int| 0 <= k < f.len() ==> #[trigger] u[20 + k] == f[k],
        forall|k: int| 0 <= k < f.len() ==> is_digit(#[trigger] f[k]),
        !is_digit(u[20 + f.len() as int]),
    ensures
        digit_run(u, i) == 20 + f.len() - i,
    decreases 20 + f.len() - i,
{
    if i < 20 + f.len() {
        assert(u[20 + (i - 20)] == f[i - 20]);
        lemma_digit_run_of_fraction(u, f, i + 1);
    }
}

/// A fraction of a second is dropped: writing `.` and digits after the seconds does not
/// change the instant read.
pub proof fn lemma_fraction_dropped(t: Seq<char>, f: Seq<char>)
    requires
        rfc3339_secs(t) is Some,
        t[19] != '.',
        f.len() > 0,
        forall|k: int| 0 <= k < f.len() ==> is_digit(#[trigger] f[k]),
    ensures
        rfc3339_secs(t.take(19) + seq!['.'] + f + t.skip(19)) == rfc3339_secs(t),
{
    let u = t.take(19) + seq!['.'] + f + t.skip(19);
    assert(date_time_shape(t) && valid_fields(t));
    assert(offset_start(t) == Some(19int));
    let r = t.skip(19);
    assert(utc_offset(r) is Some);
    assert(r.len() >= 1 && r[0] == t[19]);
    assert(!is_digit(t[19]));
    assert forall|k: int| 0 <= k < 19 implies u[k] == t[k] by {
        assert(u[k] == t.take(19)[k]);
    }
    assert(u[19] == '.');
    assert forall|k: int| 0 <= k < f.len() implies #[trigger] u[20 + k] == f[k] by {}
    assert(u[20 + f.len() as int] == t[19]);
    lemma_digit_run_of_fraction(u, f, 20);
    assert(date_time_shape(u));
    assert(num4(u, 0) == num4(t, 0) && num2(u, 5) == num2(t, 5) && num2(u, 8) == num2(t, 8));
    assert(num2(u, 11) == num2(t, 11) && num2(u, 14) == num2(t, 14) && num2(u, 17) == num2(t, 17));
    assert(valid_fields(u));
    assert(offset_start(u) == Some(20 + f.len() as int));
    assert(u.skip(20 + f.len() as int) =~= r);
}

/// The date and the time may be separated by `T`, `t` or a space, with the same meaning.
pub proof fn lemma_separator_free(t: Seq<char>, c: char)
    requires
        rfc3339_secs(t) is Some,
        c == 'T' || c == 't' || c == ' ',
    ensures
        rfc3339_secs(t.update(10, c)) == rfc3339_secs(t),
{
    let u = t.update(10, c);
    assert(date_time_shape(t) && valid_fields(t));
    assert forall|k: int| 0 <= k < t.len() && k != 10 implies u[k] == t[k] by {}
    assert(date_time_shape(u));
    assert(num4(u, 0) == num4(t, 0) && num2(u, 5) == num2(t, 5) && num2(u, 8) == num2(t, 8));
    assert(num2(u, 11) == num2(t, 11) && num2(u, 14) == num2(t, 14) && num2(u, 17) == num2(t, 17));
    lemma_digit_run_same(t, u, 11, 20);
    assert(offset_start(u) == offset_start(t));
    let k = offset_start(t)->0;
    if t[19] == '.' {
        lemma_digit_run_bound(t, 20);
    }
    assert(u.skip(k) =~= t.skip(k));
}

fn is_digit_exec(c: char) -> (r: bool)
    ensures
        r == is_digit(c),
{
    '0' <= c && c <= '9'
}

fn num2_exec(t: &Vec<char>, i: usize) -> (r: u64)
    requires
        i + 1 < t.len(),
        is_digit(t@[i as int]),
        is_digit(t@[i + 1]),
    ensures
        r == num2(t@, i as int),
        r <= 99,
{
    let ca = t[i] as u32;
    let cb = t[i + 1] as u32;
    assert(ca >= 48 && ca <= 57 && cb >= 48 && cb <= 57);
    let a = (ca - 48) as u64;
    let b = (cb - 48) as u64;
    10 * a + b
}

fn digits_exec(t: &Vec<char>, i: usize, n: usize) -> (r: bool)
    requires
        i + n <= t.len(),
    ensures
        r == digits_at(t@, i as int, n as int),
{
    let end = i + n;
    let mut k: usize = i;
    while k < end
        invariant
            i <= k <= end,
            end == i + n,
            end <= t@.len(),
            forall|j: int| i <= j < k ==> #[trigger] is_digit(t@[j]),
        decreases end - k,
    {
        if !is_digit_exec(t[k]) {
            assert(!is_digit(t@[k as int]));
            return false;
        }
        k = k + 1;
    }
    true
}

fn digit_run_exec(t: &Vec<char>, i: usize) -> (r: usize)
    requires
        i <= t@.len(),
    ensures
        r == digit_run(t@, i as int),
        i + r <= t@.len(),
{
    let mut j: usize = i;
    while j < t.len() && is_digit_exec(t[j])
        invariant
            i <= j <= t@.len(),
            forall|m: int| i <= m < j ==> #[trigger] is_digit(t@[m]),
        decreases t.len() - j,
    {
        j = j + 1;
    }
    proof {
        lemma_digit_run(t@, i as int, j as int);
    }
    j - i
}

proof fn lemma_digit_run(t: Seq<char>, i: int, k: int)
    requires
        0 <= i <= k <= t.len(),
        forall|m: int| i <= m < k ==> #[trigger] is_digit(t[m]),
        k == t.len() || !is_digit(t[k]),
    ensures
        digit_run(t, i) == k - i,
    decreases k - i,
{
    if i < k {
        lemma_digit_run(t, i + 1, k);
    }
}

fn utc_offset_exec(t: &Vec<char>, k: usize) -> (r: Option<i64>)
    requires
        k <= t@.len(),
    ensures
        match utc_offset(t@.skip(k as int)) {
            Some(v) => r == Some(v as i64),
            None => r is None,
        },
{
    let ghost r = t@.skip(k as int);
    let n = t.len() - k;
    if n == 1 && (t[k] == 'Z' || t[k] == 'z') {
        assert(r[0] == t@[k as int]);
        return Some(0);
    }
    if n == 6 && (t[k] == '+' || t[k] == '-') && is_digit_exec(t[k + 1]) && is_digit_exec(t[k + 2])
        && t[k + 3] == ':' && is_digit_exec(t[k + 4]) && is_digit_exec(t[k + 5]) {
        assert(r[0] == t@[k as int] && r[1] == t@[k + 1] && r[2] == t@[k + 2] && r[3] == t@[k + 3]
            && r[4] == t@[k + 4] && r[5] == t@[k + 5]);
        let hh = num2_exec(t, k + 1);
        let mm = num2_exec(t, k + 4);
        assert(num2(r, 1) == num2(t@, k + 1));
        assert(num2(r, 4) == num2(t@, k + 4));
        if hh <= 23 && mm <= 59 {
            let v = (hh * 3600 + mm * 60) as i64;
            if t[k] == '+' {
                return Some(v);
            } else {
                return Some(-v);
            }
        }
        return None;
    }
    if n == 1 {
        assert(r[0] == t@[k as int]);
    }
    if n == 6 {
        assert(r[0] == t@[k as int] && r[1] == t@[k + 1] && r[2] == t@[k + 2] && r[3] == t@[k + 3]
            && r[4] == t@[k + 4] && r[5] == t@[k + 5]);
    }
    None
}

fn days_from_epoch_exec(y: u64, m: u64, d: u64) -> (r: i64)
    requires
        y <= 9999,
        1 <= m <= 12,
        1 <= d <= 31,
    ensures
        r == days_from_epoch(y as int, m as int, d as int),
        -800000 <= r <= 3000000,
{
    let leap = (y % 4 == 0 && y % 100 != 0) || y % 400 == 0;
    let before: u64 = if m <= 1 {
        0
    } else if m == 2 {
        31
    } else if m == 3 {
        59
    } else if m == 4 {
        90
    } else if m == 5 {
        120
    } else if m == 6 {
        151
    } else if m == 7 {
        181
    } else if m == 8 {
        212
    } else if m == 9 {
        243
    } else if m == 10 {
        273
    } else if m == 11 {
        304
    } else {
        334
    };
    let extra: u64 = if m > 2 && leap {
        1
    } else {
        0
    };
    let base: i64 = if y >= 1 {
        let p = y - 1;
        (365 * p + p / 4 - p / 100 + p / 400) as i64
    } else {
        -366
    };
    base + (before + extra + (d - 1)) as i64 - 719162
}

/// Seconds since the epoch of an RFC 3339 date-time, or `None` when `t` is not one.
pub fn parse_rfc3339(t: &Vec<char>) -> (r: Option<i64>)
    ensures
        match rfc3339_secs(t@) {
            Some(x) => r matches Some(v) && v == x,
            None => r is None,
        },
{
    if t.len() < 20 {
        return None;
    }
    let shape = digits_exec(t, 0, 4) && t[4] == '-' && digits_exec(t, 5, 2) && t[7] == '-' && digits_exec(t, 8, 2)
        && (t[10] == 'T' || t[10] == 't' || t[10] == ' ') && digits_exec(t, 11, 2) && t[13] == ':'
        && digits_exec(t, 14, 2) && t[16] == ':' && digits_exec(t, 17, 2);
    if !shape {
        return None;
    }
    assert(is_digit(t@[0]) && is_digit(t@[1]) && is_digit(t@[2]) && is_digit(t@[3]));
    assert(is_digit(t@[5]) && is_digit(t@[6]) && is_digit(t@[8]) && is_digit(t@[9]));
    assert(is_digit(t@[11]) && is_digit(t@[12]) && is_digit(t@[14]) && is_digit(t@[15]));
    assert(is_digit(t@[17]) && is_digit(t@[18]));
    let y = 100 * num2_exec(t, 0) + num2_exec(t, 2);
    let mo = num2_exec(t, 5);
    let d = num2_exec(t, 8);
    let h = num2_exec(t, 11);
    let mi = num2_exec(t, 14);
    let s = num2_exec(t, 17);
    if mo < 1 || mo > 12 || d < 1 || h > 23 || mi > 59 || s > 59 {
        return None;
    }
    let leap = (y % 4 == 0 && y % 100 != 0) || y % 400 == 0;
    let dim: u64 = if mo == 2 {
        if leap {
            29
        } else {
            28
        }
    } else if mo == 4 || mo == 6 || mo == 9 || mo == 11 {
        30
    } else {
        31
    };
    assert(dim == days_in_month(y as int, mo as int));
    if d > dim {
        return None;
    }
    let k: usize = if 19 < t.len() && t[19] == '.' {
        let n = digit_run_exec(t, 20);
        if n == 0 {
            return None;
        }
        20 + n
    } else {
        19
    };
    assert(offset_start(t@) == Some(k as int));
    let off = match utc_offset_exec(t, k) {
        Some(o) => o,
        None => return None,
    };
    let days = days_from_epoch_exec(y, mo, d);
    Some(days * 86400 + (h * 3600 + mi * 60 + s) as i64 - off)
}

} // verus!
