use vstd::prelude::*;

use crate::route_http::request::{char_is_whitespace, is_whitespace};
use crate::route_http::response::{header_lines, is_header_value, status_line, writable_headers, Response};
use crate::text::{decimal, decimal_u128, digit, digit_char, pairs_view, push_char};

verus! {

/// A server that has no application yet.
#[derive(Debug, Clone, Copy, PartialEq, Eq, Structural)]
pub struct NoApp;

/// `s` without white space at its start.
pub open spec fn trim_start(s: Seq<char>) -> Seq<char>
    decreases s.len(),
{
    if s.len() > 0 && is_whitespace(s[0]) {
        trim_start(s.drop_first())
    } else {
        s
    }
}

/// `s` without white space at its end.
pub open spec fn trim_end(s: Seq<char>) -> Seq<char>
    decreases s.len(),
{
    if s.len() > 0 && is_whitespace(s.last()) {
        trim_end(s.drop_last())
    } else {
        s
    }
}

/// `s` without white space at either end, as `str::trim` gives it.
pub open spec fn trim(s: Seq<char>) -> Seq<char> {
    trim_end(trim_start(s))
}

proof fn lemma_trim_start_skip(s: Seq<char>, i: int)
    requires
        0 <= i <= s.len(),
        forall|k: int| 0 <= k < i ==> is_whitespace(#[trigger] s[k]),
    ensures
        trim_start(s) == trim_start(s.subrange(i, s.len() as int)),
    decreases i,
{
    if i > 0 {
        assert(s.drop_first().subrange(i - 1, s.drop_first().len() as int) =~= s.subrange(i, s.len() as int));
        assert forall|k: int| 0 <= k < i - 1 implies is_whitespace(#[trigger] s.drop_first()[k]) by {
            assert(s.drop_first()[k] == s[k + 1]);
        }
        lemma_trim_start_skip(s.drop_first(), i - 1);
    } else {
        assert(s.subrange(0, s.len() as int) =~= s);
    }
}

proof fn lemma_trim_end_skip(s: Seq<char>, j: int)
    requires
        0 <= j <= s.len(),
        forall|k: int| j <= k < s.len() ==> is_whitespace(#[trigger] s[k]),
    ensures
        trim_end(s) == trim_end(s.subrange(0, j)),
    decreases s.len() - j,
{
    if j < s.len() {
        assert(s.drop_last().subrange(0, j) =~= s.subrange(0, j));
        lemma_trim_end_skip(s.drop_last(), j);
    } else {
        assert(s.subrange(0, j) =~= s);
    }
}

/// `s` without white space at either end.
pub fn trim_text(s: &str) -> (r: String)
    ensures
        r@ == trim(s@),
{
    let n = s.unicode_len();
    let mut i: usize = 0;
    while i < n && char_is_whitespace(s.get_char(i))
        invariant
            n == s@.len(),
            i <= n,
            forall|k: int| 0 <= k < i ==> is_whitespace(#[trigger] s@[k]),
        decreases n - i,
    {
        i = i + 1;
    }
    proof {
        lemma_trim_start_skip(s@, i as int);
    }
    let ghost rest = s@.subrange(i as int, n as int);
    let mut j: usize = n;
    while j > i && char_is_whitespace(s.get_char(j - 1))
        invariant
            n == s@.len(),
            i <= j <= n,
            forall|k: int| j <= k < n ==> is_whitespace(#[trigger] s@[k]),
        decreases j,
    {
        j = j - 1;
    }
    proof {
        assert(i < n ==> !is_whitespace(s@[i as int]));
        assert(trim_start(rest) == rest);
        assert forall|k: int| j - i <= k < rest.len() implies is_whitespace(#[trigger] rest[k]) by {
            assert(rest[k] == s@[i + k]);
        }
        lemma_trim_end_skip(rest, j - i);
        assert(rest.subrange(0, j - i) =~= s@.subrange(i as int, j as int));
        if j > i {
            assert(!is_whitespace(s@[j - 1]));
        }
    }
    String::from_str(s.substring_char(i, j))
}

/// One line of a request head as read from the connection: its text
/// without surrounding white space, or nothing for the empty line that
/// ends the head.
pub fn head_line(line: &str) -> (r: Option<String>)
    ensures
        match r {
            Some(t) => t@ == trim(line@) && t@.len() > 0,
            None => trim(line@).len() == 0,
        },
{
    let t = trim_text(line);
    if t.unicode_len() == 0 {
        None
    } else {
        Some(t)
    }
}

/// The response as it goes on the wire once the server has added its
/// `date` and `server` headers after the others; nothing when it cannot be
/// written.
pub fn finish_response(res: Response, date: String) -> (r: Option<String>)
    requires
        is_header_value(date@),
    ensures
        ({
            let hs = pairs_view(res.headers@).push(("date"@, date@)).push(("server"@, "route-rs"@));
            match r {
                Some(t) => writable_headers(hs) && t@ == status_line(res.status) + header_lines(hs) + "\r\n"@
                    + res.body@,
                None => !writable_headers(hs),
            }
        }),
{
    let ghost hv = pairs_view(res.headers@);
    let ghost dv = date@;
    let mut res = res;
    res.headers.push((String::from_str("date"), date));
    res.headers.push((String::from_str("server"), String::from_str("route-rs")));
    assert(pairs_view(res.headers@) =~= hv.push(("date"@, dv)).push(("server"@, "route-rs"@)));
    res.to_text()
}

/// Whether `y` is a leap year of the Gregorian calendar.
pub open spec fn is_leap(y: nat) -> bool {
    (y % 4 == 0 && y % 100 != 0) || y % 400 == 0
}

pub open spec fn year_days(y: nat) -> nat {
    if is_leap(y) {
        366
    } else {
        365
    }
}

/// The number of days of month `m` (1 to 12) of year `y`.
pub open spec fn month_days(y: nat, m: nat) -> nat {
    if m == 2 {
        if is_leap(y) {
            29
        } else {
            28
        }
    } else if m == 4 || m == 6 || m == 9 || m == 11 {
        30
    } else {
        31
    }
}

/// The year of day `d` counted from the first day of year `y`, and the day
/// within that year.
pub open spec fn year_of(d: nat, y: nat) -> (nat, nat)
    decreases d,
{
    if d < year_days(y) {
        (y, d)
    } else {
        year_of((d - year_days(y)) as nat, y + 1)
    }
}

/// The month of day `d` of year `y` counted from the first day of month
/// `m`, and the day within that month.
pub open spec fn month_of(d: nat, y: nat, m: nat) -> (nat, nat)
    decreases 12 - m,
{
    if m >= 12 || d < month_days(y, m) {
        (m, d)
    } else {
        month_of((d - month_days(y, m)) as nat, y, m + 1)
    }
}

/// The number of days of year `y` before month `m`.
pub open spec fn days_before_month(y: nat, m: nat) -> nat
    decreases m,
{
    if m <= 1 {
        0
    } else {
        days_before_month(y, (m - 1) as nat) + month_days(y, (m - 1) as nat)
    }
}

pub open spec fn month_name(m: nat) -> Seq<char> {
    if m == 1 {
        "Jan"@
    } else if m == 2 {
        "Feb"@
    } else if m == 3 {
        "Mar"@
    } else if m == 4 {
        "Apr"@
    } else if m == 5 {
        "May"@
    } else if m == 6 {
        "Jun"@
    } else if m == 7 {
        "Jul"@
    } else if m == 8 {
        "Aug"@
    } else if m == 9 {
        "Sep"@
    } else if m == 10 {
        "Oct"@
    } else if m == 11 {
        "Nov"@
    } else {
        "Dec"@
    }
}

/// The day of the week of day `d` after 1 January 1970, a Thursday.
pub open spec fn weekday_name(d: nat) -> Seq<char> {
    let w = (d + 4) % 7;
    if w == 0 {
        "Sun"@
    } else if w == 1 {
        "Mon"@
    } else if w == 2 {
        "Tue"@
    } else if w == 3 {
        "Wed"@
    } else if w == 4 {
        "Thu"@
    } else if w == 5 {
        "Fri"@
    } else {
        "Sat"@
    }
}

/// A number below 100 in two digits.
pub open spec fn two_digits(n: nat) -> Seq<char> {
    seq![digit_char(n / 10), digit_char(n % 10)]
}

/// The http date (`Thu, 01 Jan 1970 00:00:00 GMT`) of `secs` seconds
/// after the start of 1970, in UTC.
pub open spec fn spec_http_date(secs: nat) -> Seq<char> {
    let days = secs / 86400;
    let rest = secs % 86400;
    let (year, day_of_year) = year_of(days, 1970);
    let (month, day) = month_of(day_of_year, year, 1);
    weekday_name(days) + ", "@ + two_digits(day + 1) + seq![' '] + month_name(month) + seq![' '] + decimal(year)
        + seq![' '] + two_digits(rest / 3600) + seq![':'] + two_digits((rest % 3600) / 60) + seq![':'] + two_digits(
        rest % 60,
    ) + " GMT"@
}

fn push_two_digits(s: &mut String, n: u64)
    requires
        n < 100,
    ensures
        final(s)@ == old(s)@ + two_digits(n as nat),
{
    push_char(s, digit((n / 10) as u128));
    push_char(s, digit((n % 10) as u128));
}

fn year_len(y: u64) -> (r: u64)
    ensures
        r == year_days(y as nat),
{
    if (y % 4 == 0 && y % 100 != 0) || y % 400 == 0 {
        366
    } else {
        365
    }
}

fn month_len(y: u64, m: u64) -> (r: u64)
    ensures
        r == month_days(y as nat, m as nat),
{
    if m == 2 {
        if (y % 4 == 0 && y % 100 != 0) || y % 400 == 0 {
            29
        } else {
            28
        }
    } else if m == 4 || m == 6 || m == 9 || m == 11 {
        30
    } else {
        31
    }
}

fn month_text(m: u64) -> (r: &'static str)
    ensures
        r@ == month_name(m as nat),
{
    if m == 1 {
        "Jan"
    } else if m == 2 {
        "Feb"
    } else if m == 3 {
        "Mar"
    } else if m == 4 {
        "Apr"
    } else if m == 5 {
        "May"
    } else if m == 6 {
        "Jun"
    } else if m == 7 {
        "Jul"
    } else if m == 8 {
        "Aug"
    } else if m == 9 {
        "Sep"
    } else if m == 10 {
        "Oct"
    } else if m == 11 {
        "Nov"
    } else {
        "Dec"
    }
}

fn weekday_text(days: u64) -> (r: &'static str)
    ensures
        r@ == weekday_name(days as nat),
{
    let w = (days % 7 + 4) % 7;
    assert(w == (days + 4) % 7) by (nonlinear_arith)
        requires
            w == (days % 7 + 4) % 7,
    ;
    if w == 0 {
        "Sun"
    } else if w == 1 {
        "Mon"
    } else if w == 2 {
        "Tue"
    } else if w == 3 {
        "Wed"
    } else if w == 4 {
        "Thu"
    } else if w == 5 {
        "Fri"
    } else {
        "Sat"
    }
}

/// The http date of `secs` seconds after the start of 1970, in UTC, as
/// the `date` header carries it.
pub fn http_date(secs: u64) -> (r: String)
    ensures
        r@ == spec_http_date(secs as nat),
{
    let days = secs / 86400;
    let rest = secs % 86400;
    let mut d = days;
    let mut y: u64 = 1970;
    while d >= year_len(y)
        invariant
            d <= days,
            1970 <= y <= 1970 + (days - d),
            days <= u64::MAX / 86400,
            year_of(days as nat, 1970) == year_of(d as nat, y as nat),
        decreases d,
    {
        d = d - year_len(y);
        y = y + 1;
    }
    assert(d < year_days(y as nat));
    assert(days_before_month(y as nat, 12) + 31 == year_days(y as nat)) by {
        reveal_with_fuel(days_before_month, 12);
    }
    let mut m: u64 = 1;
    while m < 12 && d >= month_len(y, m)
        invariant
            1 <= m <= 12,
            d + days_before_month(y as nat, m as nat) < year_days(y as nat),
            days_before_month(y as nat, 12) + 31 == year_days(y as nat),
            month_of(year_of(days as nat, 1970).1, year_of(days as nat, 1970).0, 1) == month_of(
                d as nat,
                y as nat,
                m as nat,
            ),
        decreases 12 - m,
    {
        d = d - month_len(y, m);
        m = m + 1;
    }
    assert(d < 31) by {
        assert(month_days(y as nat, m as nat) <= 31);
    }
    let mut out = String::from_str(weekday_text(days));
    out.append(", ");
    push_two_digits(&mut out, d + 1);
    push_char(&mut out, ' ');
    out.append(month_text(m));
    push_char(&mut out, ' ');
    out.append(decimal_u128(y as u128).as_str());
    push_char(&mut out, ' ');
    push_two_digits(&mut out, rest / 3600);
    push_char(&mut out, ':');
    push_two_digits(&mut out, (rest % 3600) / 60);
    push_char(&mut out, ':');
    push_two_digits(&mut out, rest % 60);
    out.append(" GMT");
    out
}

/// The months of the Gregorian calendar: April, June, September and
/// November have 30 days, February 28 (29 in a leap year), the others 31;
/// the twelve make up the year.
pub proof fn lemma_month_lengths(y: nat)
    ensures
        month_days(y, 1) == 31,
        month_days(y, 2) == (if is_leap(y) { 29int } else { 28int }),
        month_days(y, 3) == 31,
        month_days(y, 4) == 30,
        month_days(y, 5) == 31,
        month_days(y, 6) == 30,
        month_days(y, 7) == 31,
        month_days(y, 8) == 31,
        month_days(y, 9) == 30,
        month_days(y, 10) == 31,
        month_days(y, 11) == 30,
        month_days(y, 12) == 31,
        days_before_month(y, 12) + month_days(y, 12) == year_days(y),
        year_days(y) == (if is_leap(y) { 366int } else { 365int }),
{
    reveal_with_fuel(days_before_month, 12);
}

/// The first day of each month is day 1 of that month: counting a year's
/// days from January, the day after the days of the months before month
/// `m` falls in month `m`, as its first day.
pub proof fn lemma_first_of_month(y: nat, m: nat)
    requires
        1 <= m <= 12,
    ensures
        month_of(days_before_month(y, m), y, 1) == (m, 0nat),
    decreases m,
{
    lemma_month_of_shift(y, 1, m);
}

proof fn lemma_month_of_shift(y: nat, k: nat, m: nat)
    requires
        1 <= k <= m <= 12,
    ensures
        month_of((days_before_month(y, m) - days_before_month(y, k)) as nat, y, k) == (m, 0nat),
    decreases m - k,
{
    lemma_days_before_month_grows(y, k, m);
    if k < m {
        lemma_days_before_month_grows(y, k + 1, m);
        assert(days_before_month(y, k + 1) == days_before_month(y, k) + month_days(y, k));
        lemma_month_of_shift(y, k + 1, m);
    }
}

proof fn lemma_days_before_month_grows(y: nat, k: nat, m: nat)
    requires
        1 <= k <= m,
    ensures
        days_before_month(y, k) <= days_before_month(y, m),
        k < m ==> days_before_month(y, k) + month_days(y, k) <= days_before_month(y, m),
    decreases m - k,
{
    if k < m {
        lemma_days_before_month_grows(y, k, (m - 1) as nat);
    }
}

/// The English month and day names of an http date: month 1 is January,
/// and day 0, 1 January 1970, was a Thursday, with the days of the week
/// coming round every seven days.
pub proof fn lemma_calendar_names(d: nat)
    ensures
        month_name(1) == seq!['J', 'a', 'n'],
        month_name(2) == seq!['F', 'e', 'b'],
        month_name(3) == seq!['M', 'a', 'r'],
        month_name(4) == seq!['A', 'p', 'r'],
        month_name(5) == seq!['M', 'a', 'y'],
        month_name(6) == seq!['J', 'u', 'n'],
        month_name(7) == seq!['J', 'u', 'l'],
        month_name(8) == seq!['A', 'u', 'g'],
        month_name(9) == seq!['S', 'e', 'p'],
        month_name(10) == seq!['O', 'c', 't'],
        month_name(11) == seq!['N', 'o', 'v'],
        month_name(12) == seq!['D', 'e', 'c'],
        weekday_name(0) == seq!['T', 'h', 'u'],
        weekday_name(1) == seq!['F', 'r', 'i'],
        weekday_name(2) == seq!['S', 'a', 't'],
        weekday_name(3) == seq!['S', 'u', 'n'],
        weekday_name(4) == seq!['M', 'o', 'n'],
        weekday_name(5) == seq!['T', 'u', 'e'],
        weekday_name(6) == seq!['W', 'e', 'd'],
        weekday_name(d + 7) == weekday_name(d),
{
    reveal_strlit("Jan");
    reveal_strlit("Feb");
    reveal_strlit("Mar");
    reveal_strlit("Apr");
    reveal_strlit("May");
    reveal_strlit("Jun");
    reveal_strlit("Jul");
    reveal_strlit("Aug");
    reveal_strlit("Sep");
    reveal_strlit("Oct");
    reveal_strlit("Nov");
    reveal_strlit("Dec");
    reveal_strlit("Sun");
    reveal_strlit("Mon");
    reveal_strlit("Tue");
    reveal_strlit("Wed");
    reveal_strlit("Thu");
    reveal_strlit("Fri");
    reveal_strlit("Sat");
    assert(month_name(1) =~= seq!['J', 'a', 'n']);
    assert(month_name(2) =~= seq!['F', 'e', 'b']);
    assert(month_name(3) =~= seq!['M', 'a', 'r']);
    assert(month_name(4) =~= seq!['A', 'p', 'r']);
    assert(month_name(5) =~= seq!['M', 'a', 'y']);
    assert(month_name(6) =~= seq!['J', 'u', 'n']);
    assert(month_name(7) =~= seq!['J', 'u', 'l']);
    assert(month_name(8) =~= seq!['A', 'u', 'g']);
    assert(month_name(9) =~= seq!['S', 'e', 'p']);
    assert(month_name(10) =~= seq!['O', 'c', 't']);
    assert(month_name(11) =~= seq!['N', 'o', 'v']);
    assert(month_name(12) =~= seq!['D', 'e', 'c']);
    assert(weekday_name(0) =~= seq!['T', 'h', 'u']);
    assert(weekday_name(1) =~= seq!['F', 'r', 'i']);
    assert(weekday_name(2) =~= seq!['S', 'a', 't']);
    assert(weekday_name(3) =~= seq!['S', 'u', 'n']);
    assert(weekday_name(4) =~= seq!['M', 'o', 'n']);
    assert(weekday_name(5) =~= seq!['T', 'u', 'e']);
    assert(weekday_name(6) =~= seq!['W', 'e', 'd']);
    assert((d + 7 + 4) % 7 == (d + 4) % 7);
}

} // verus!
