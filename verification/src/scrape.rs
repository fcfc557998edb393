//! Announced stage windows and their ingestion.
//!
//! A `LoadShedTime` is one announced window: a validated time range during
//! which a given stage is in effect, possibly marked as a forecast. Windows
//! are ingested either from a structured feed (ISO-8601 start and end, a
//! decimal stage) or from an announcement page, where a date line and a
//! stage/time line are recognised inside the text of a fixed page section.
//! Malformed records are dropped, never fatal; a window whose raw end does
//! not lie after its start is understood to roll over to the next day.

use vstd::prelude::*;

use vstd::string::StrSliceExecFns;
use vstd::string::StringExecFns;

use crate::datetime::day_of;
use crate::datetime::EPOCH_JULIAN_DAY;
use crate::datetime::MAX_DAY_NUMBER;
use crate::datetime::MAX_JULIAN_DAY;
use crate::datetime::SECONDS_PER_DAY;

verus! {

/// One announced stage window: the stage is in effect from `start` to `end`
/// (seconds of local time since the epoch). Forecast windows are synthesized
/// past the announced horizon and are marked so their events stay
/// distinguishable.
#[derive(Clone, Copy, Debug, PartialEq, Eq, Structural)]
pub struct LoadShedTime {
    pub start: u64,
    pub end: u64,
    pub stage: u64,
    pub is_forecast: bool,
}

/// A window the engine accepts: a non-empty range, a stage in 1..=8, and a
/// start inside the engine's representable range (at or after
/// 1970-01-01T02:00 local, with a following day to evaluate).
pub open spec fn window_valid(w: LoadShedTime) -> bool {
    &&& 7200 <= w.start < w.end
    &&& 1 <= w.stage <= 8
    &&& day_of(w.start as int) + 1 <= MAX_DAY_NUMBER
}

/// What `LoadShedTime::new` builds from a day number, a stage and two local
/// clock times in minutes of the day: an end at or before the start rolls
/// over to the next day.
pub open spec fn new_window_spec(day: int, stage: int, start_minute: int, end_minute: int)
    -> LoadShedTime {
    let start = day * 86400 + start_minute * 60;
    let raw_end = day * 86400 + end_minute * 60;
    let end = if end_minute <= start_minute {
        raw_end + 86400
    } else {
        raw_end
    };
    LoadShedTime { start: start as u64, end: end as u64, stage: stage as u64, is_forecast: false }
}

/// The digit character of a stage in 1..=8.
pub open spec fn stage_char(stage: int) -> char {
    seq!['1', '2', '3', '4', '5', '6', '7', '8'][stage - 1]
}

/// What `title` returns: the stage number in a fixed phrase, prefixed with
/// an uncertainty marker for forecast windows.
pub open spec fn title_spec(stage: int, is_forecast: bool) -> Seq<char> {
    let base = "Load shedding ("@ + seq![stage_char(stage)] + ")"@;
    if is_forecast {
        "Forecast: "@ + base
    } else {
        base
    }
}

impl LoadShedTime {
    /// Build a window from a day number, a stage, and local start and end
    /// clock times in minutes of the day.
    pub fn new(day: u64, stage: u64, start_minute: u64, end_minute: u64) -> (w: LoadShedTime)
        requires
            1 <= day,
            day + 1 <= MAX_DAY_NUMBER,
            1 <= stage <= 8,
            start_minute < 1440,
            end_minute < 1440,
        ensures
            w == new_window_spec(day as int, stage as int, start_minute as int, end_minute as int),
            window_valid(w),
    {
        let start = day * SECONDS_PER_DAY + start_minute * 60;
        let end = if end_minute <= start_minute {
            day * SECONDS_PER_DAY + end_minute * 60 + SECONDS_PER_DAY
        } else {
            day * SECONDS_PER_DAY + end_minute * 60
        };
        let w = LoadShedTime { start, end, stage, is_forecast: false };
        proof {
            assert(day_of(w.start as int) == day);
        }
        w
    }

    /// The event title of the window's stage, marked when it is a forecast.
    pub fn title(&self) -> (r: String)
        requires
            1 <= self.stage <= 8,
        ensures
            r@ == title_spec(self.stage as int, self.is_forecast),
    {
        let mut s = String::new();
        proof {
            reveal_strlit("Forecast: ");
            reveal_strlit("Load shedding (");
            reveal_strlit(")");
        }
        if self.is_forecast {
            s.append("Forecast: ");
        }
        s.append("Load shedding (");
        s.append(stage_digit_str(self.stage));
        s.append(")");
        proof {
            assert(s@ =~= title_spec(self.stage as int, self.is_forecast));
        }
        s
    }
}

/// The digit of a stage in 1..=8 as a string slice.
fn stage_digit_str(stage: u64) -> (r: &'static str)
    requires
        1 <= stage <= 8,
    ensures
        r@ == seq![stage_char(stage as int)],
{
    proof {
        reveal_strlit("1");
        reveal_strlit("2");
        reveal_strlit("3");
        reveal_strlit("4");
        reveal_strlit("5");
        reveal_strlit("6");
        reveal_strlit("7");
        reveal_strlit("8");
    }
    match stage {
        1 => "1",
        2 => "2",
        3 => "3",
        4 => "4",
        5 => "5",
        6 => "6",
        7 => "7",
        _ => "8",
    }
}

/// The characters of a string slice as a vector.
fn to_char_vec(s: &str) -> (r: Vec<char>)
    ensures
        r@ == s@,
{
    let n = s.unicode_len();
    let mut r: Vec<char> = Vec::new();
    let mut i: usize = 0;
    while i < n
        invariant
            n == s@.len(),
            0 <= i <= n,
            r@ == s@.take(i as int),
        decreases n - i,
    {
        let c = s.get_char(i);
        r.push(c);
        proof {
            assert(s@.take(i + 1 as int) =~= s@.take(i as int).push(s@[i as int]));
        }
        i += 1;
    }
    proof {
        assert(s@.take(n as int) =~= s@);
    }
    r
}

/// Whether a character is a decimal digit.
pub open spec fn is_digit(c: char) -> bool {
    48 <= c as int <= 57
}

/// The value of a decimal digit character.
pub open spec fn digit_val(c: char) -> int {
    c as int - 48
}

/// Whether every character of a sequence is a decimal digit.
pub open spec fn all_digits(s: Seq<char>) -> bool {
    forall|i: int| 0 <= i < s.len() ==> is_digit(#[trigger] s[i])
}

/// The value of a sequence of decimal digits.
pub open spec fn digits_value(s: Seq<char>) -> int
    decreases s.len(),
{
    if s.len() == 0 {
        0
    } else {
        digits_value(s.drop_last()) * 10 + digit_val(s.last())
    }
}

/// The digit characters of a decimal integer literal as the standard library
/// reads one: at least one digit, with one optional leading plus sign.
pub open spec fn stage_str_digits(s: Seq<char>) -> Option<Seq<char>> {
    let ds = if s.len() >= 1 && s[0] == '+' {
        s.drop_first()
    } else {
        s
    };
    if ds.len() >= 1 && all_digits(ds) {
        Some(ds)
    } else {
        None
    }
}

/// What `parse_stage` returns: the stage value when the text is a decimal
/// integer in 1..=8 — the only stages the engine accepts; anything else is a
/// dropped record.
pub open spec fn parse_stage_spec(s: Seq<char>) -> Option<u64> {
    match stage_str_digits(s) {
        Some(ds) => if 1 <= digits_value(ds) <= 8 {
            Some(digits_value(ds) as u64)
        } else {
            None
        },
        None => None,
    }
}

/// Parse a stage number: a decimal integer with value in 1..=8.
pub fn parse_stage(text: &str) -> (r: Option<u64>)
    ensures
        r == parse_stage_spec(text@),
{
    let v = to_char_vec(text);
    let n = v.len();
    let first: usize = if n >= 1 && v[0] == '+' {
        1
    } else {
        0
    };
    let ghost dseq = text@.subrange(first as int, text@.len() as int);
    proof {
        if text@.len() >= 1 && text@[0] == '+' {
            assert(text@.drop_first() =~= dseq);
        } else {
            assert(text@ =~= dseq);
        }
    }
    if n == first {
        return None;
    }
    let mut value: u64 = 0;
    let mut big: bool = false;
    let mut i: usize = first;
    while i < n
        invariant
            first <= i <= n,
            n == text@.len(),
            v@ == text@,
            first <= 1,
            dseq == text@.subrange(first as int, text@.len() as int),
            dseq == if text@.len() >= 1 && text@[0] == '+' {
                text@.drop_first()
            } else {
                text@
            },
            all_digits(dseq.take(i - first)),
            big <==> digits_value(dseq.take(i - first)) > 8,
            !big ==> value == digits_value(dseq.take(i - first)),
            big ==> value > 8,
        decreases n - i,
    {
        let c = v[i];
        if c < '0' || c > '9' {
            proof {
                assert(dseq[i - first] == text@[i as int]);
                assert(!is_digit(dseq[i - first]));
                assert(!all_digits(dseq));
                assert(stage_str_digits(text@) is None);
            }
            return None;
        }
        proof {
            assert(is_digit(text@[i as int]));
            assert(dseq.take(i - first + 1) =~= dseq.take(i - first).push(text@[i as int]));
            assert(dseq.take(i - first + 1).drop_last() =~= dseq.take(i - first));
            assert(dseq.take(i - first + 1).last() == text@[i as int]);
            assert forall|j: int| 0 <= j < i - first + 1 implies is_digit(
                #[trigger] dseq.take(i - first + 1)[j],
            ) by {
                if j < i - first {
                    assert(dseq.take(i - first + 1)[j] == dseq.take(i - first)[j]);
                    assert(is_digit(dseq.take(i - first)[j]));
                }
            }
        }
        let d = (c as u32 - 48) as u64;
        if big {
            // the value only grows with more digits
        } else {
            value = value * 10 + d;
            if value > 8 {
                big = true;
            }
        }
        i += 1;
    }
    proof {
        assert(dseq.take(n - first) =~= dseq);
        assert(dseq.len() >= 1);
        assert(all_digits(dseq));
        assert(stage_str_digits(text@) == Some(dseq));
    }
    if big || value == 0 {
        None
    } else {
        Some(value)
    }
}

/// Whether a character can stand in the word that ends a date line: a
/// letter, a digit or an underscore.
pub open spec fn is_word_char(c: char) -> bool {
    is_digit(c) || (97 <= c as int <= 122) || (65 <= c as int <= 90) || c == '_'
}

/// The length of the run of word characters that ends a text.
pub open spec fn word_suffix_len(s: Seq<char>) -> int
    decreases s.len(),
{
    if s.len() == 0 {
        0
    } else if is_word_char(s.last()) {
        1 + word_suffix_len(s.drop_last())
    } else {
        0
    }
}

/// The month number of an English month name, written in full.
pub open spec fn month_num_of(name: Seq<char>) -> Option<int> {
    if name == "January"@ {
        Some(1)
    } else if name == "February"@ {
        Some(2)
    } else if name == "March"@ {
        Some(3)
    } else if name == "April"@ {
        Some(4)
    } else if name == "May"@ {
        Some(5)
    } else if name == "June"@ {
        Some(6)
    } else if name == "July"@ {
        Some(7)
    } else if name == "August"@ {
        Some(8)
    } else if name == "September"@ {
        Some(9)
    } else if name == "October"@ {
        Some(10)
    } else if name == "November"@ {
        Some(11)
    } else if name == "December"@ {
        Some(12)
    } else {
        None
    }
}

/// The day and month a date line denotes, shape only: the line must end in
/// a month name (the maximal trailing word), preceded by one space, preceded
/// by at least one digit; the day is the value of the last two digits, or of
/// the last one when only one is there. The day's validity against the month
/// is judged later, by the calendar.
pub open spec fn date_line_parts(s: Seq<char>) -> Option<(int, int)> {
    let n = s.len() as int;
    let w = word_suffix_len(s);
    if w < 1 || n - w - 1 < 0 || s[n - w - 1] != ' ' {
        None
    } else {
        let rest = s.take(n - w - 1);
        if rest.len() >= 1 && is_digit(rest.last()) {
            let day = if rest.len() >= 2 && is_digit(rest[rest.len() - 2]) {
                10 * digit_val(rest[rest.len() - 2]) + digit_val(rest.last())
            } else {
                digit_val(rest.last())
            };
            match month_num_of(s.subrange(n - w, n)) {
                Some(m) => Some((day, m)),
                None => None,
            }
        } else {
            None
        }
    }
}

/// What `try_parse_date` returns, as a day number: the date-line day and
/// month at the given year, when the day fits the month.
pub open spec fn date_result_spec(s: Seq<char>, year: int) -> Option<int> {
    match date_line_parts(s) {
        Some(p) => if 1 <= p.0 <= crate::datetime::days_in_month_spec(year, p.1) {
            Some(crate::datetime::day_number_of_civil(year, p.1, p.0))
        } else {
            None
        },
        None => None,
    }
}

/// Whether the characters of `v` from `from` to the end equal a literal.
fn suffix_eq(v: &Vec<char>, from: usize, lit: &str) -> (r: bool)
    requires
        from <= v@.len(),
    ensures
        r == (v@.subrange(from as int, v@.len() as int) == lit@),
{
    let m = lit.unicode_len();
    if v.len() - from != m {
        return false;
    }
    let mut i: usize = 0;
    while i < m
        invariant
            0 <= i <= m,
            from + m == v@.len(),
            m == lit@.len(),
            from <= v@.len(),
            v@.len() <= usize::MAX,
            forall|j: int| 0 <= j < i ==> v@[from + j] == lit@[j],
        decreases m - i,
    {
        if v[from + i] != lit.get_char(i) {
            proof {
                assert(v@.subrange(from as int, v@.len() as int)[i as int] != lit@[i as int]);
            }
            return false;
        }
        i += 1;
    }
    proof {
        assert(v@.subrange(from as int, v@.len() as int) =~= lit@);
    }
    true
}

/// The month number of the trailing word of `v`, when it is a month name.
fn month_from_name(v: &Vec<char>, from: usize) -> (r: Option<u8>)
    requires
        from <= v@.len(),
    ensures
        match month_num_of(v@.subrange(from as int, v@.len() as int)) {
            Some(m) => r == Some(m as u8),
            None => r is None,
        },
        r matches Some(m) ==> 1 <= m <= 12,
{
    if suffix_eq(v, from, "January") {
        Some(1)
    } else if suffix_eq(v, from, "February") {
        Some(2)
    } else if suffix_eq(v, from, "March") {
        Some(3)
    } else if suffix_eq(v, from, "April") {
        Some(4)
    } else if suffix_eq(v, from, "May") {
        Some(5)
    } else if suffix_eq(v, from, "June") {
        Some(6)
    } else if suffix_eq(v, from, "July") {
        Some(7)
    } else if suffix_eq(v, from, "August") {
        Some(8)
    } else if suffix_eq(v, from, "September") {
        Some(9)
    } else if suffix_eq(v, from, "October") {
        Some(10)
    } else if suffix_eq(v, from, "November") {
        Some(11)
    } else if suffix_eq(v, from, "December") {
        Some(12)
    } else {
        None
    }
}

/// Whether a character is a word character.
fn is_word_char_exec(c: char) -> (r: bool)
    ensures
        r == is_word_char(c),
{
    (c >= '0' && c <= '9') || (c >= 'a' && c <= 'z') || (c >= 'A' && c <= 'Z') || c == '_'
}

/// The value of a digit character.
fn digit_val_exec(c: char) -> (r: u64)
    requires
        is_digit(c),
    ensures
        r as int == digit_val(c),
        r <= 9,
{
    (c as u32 - 48) as u64
}

/// Parse a date line — a day of month and a full English month name at the
/// line's end — into a day number at the given year. Yields no value when
/// the line has no such shape, the word is no month name, or the day does
/// not exist in that month and year.
pub fn try_parse_date(text: &str, year: i32) -> (r: Option<u64>)
    requires
        1970 <= year <= 9999,
    ensures
        r is Some <==> date_result_spec(text@, year as int) is Some,
        r matches Some(dn) ==> Some(dn as int) == date_result_spec(text@, year as int) && dn
            <= MAX_DAY_NUMBER,
{
    let v = to_char_vec(text);
    let n = v.len();
    let mut w: usize = 0;
    let mut i: usize = 0;
    while i < n
        invariant
            0 <= i <= n,
            n == text@.len(),
            v@ == text@,
            w <= i,
            w as int == word_suffix_len(text@.take(i as int)),
        decreases n - i,
    {
        proof {
            assert(text@.take(i + 1).drop_last() =~= text@.take(i as int));
            assert(text@.take(i + 1).last() == text@[i as int]);
        }
        if is_word_char_exec(v[i]) {
            w += 1;
        } else {
            w = 0;
        }
        i += 1;
    }
    proof {
        assert(text@.take(n as int) =~= text@);
        assert(w == word_suffix_len(text@));
    }
    if w < 1 || w >= n {
        return None;
    }
    let sp = n - w - 1;
    if v[sp] != ' ' {
        return None;
    }
    if sp == 0 || !(v[sp - 1] >= '0' && v[sp - 1] <= '9') {
        proof {
            let rest = text@.take(sp as int);
            if sp > 0 {
                assert(rest.last() == text@[sp - 1]);
            }
        }
        return None;
    }
    let day: u64 = if sp >= 2 && (v[sp - 2] >= '0' && v[sp - 2] <= '9') {
        10 * digit_val_exec(v[sp - 2]) + digit_val_exec(v[sp - 1])
    } else {
        digit_val_exec(v[sp - 1])
    };
    proof {
        let rest = text@.take(sp as int);
        assert(rest.last() == text@[sp - 1]);
        if sp >= 2 {
            assert(rest[rest.len() - 2] == text@[sp - 2]);
        }
        assert(date_line_parts(text@) matches Some(p) ==> p.0 == day as int);
    }
    let month = match month_from_name(&v, n - w) {
        Some(m) => m,
        None => {
            return None;
        },
    };
    if day > 31 {
        return None;
    }
    crate::datetime::day_from_civil(year, month, day as u8)
}

/// Whether a literal stands in `s` at position `p`.
pub open spec fn lit_at(s: Seq<char>, p: int, lit: Seq<char>) -> bool {
    0 <= p && p + lit.len() <= s.len() && s.subrange(p, p + lit.len()) == lit
}

/// Whether a two-digit clock time `HH:MM` stands at position `p`, shape
/// only: any digits, a colon between.
pub open spec fn hhmm_at(s: Seq<char>, p: int) -> bool {
    &&& 0 <= p && p + 5 <= s.len()
    &&& is_digit(s[p]) && is_digit(s[p + 1])
    &&& s[p + 2] == ':'
    &&& is_digit(s[p + 3]) && is_digit(s[p + 4])
}

/// The raw hour and minute of a clock time at position `p`.
pub open spec fn hhmm_raw(s: Seq<char>, p: int) -> (int, int) {
    (10 * digit_val(s[p]) + digit_val(s[p + 1]), 10 * digit_val(s[p + 3]) + digit_val(s[p + 4]))
}

/// The position after the stage digit and the optional no-load-shedding
/// note.
pub open spec fn after_stage(s: Seq<char>, p: int) -> int {
    if lit_at(s, p + 7, " (no load-shedding)"@) {
        p + 26
    } else {
        p + 7
    }
}

/// The position of the end time after the separating space at `u`: an
/// optional dash first.
pub open spec fn end_time_pos(s: Seq<char>, u: int) -> int {
    if lit_at(s, u + 1, "- "@) {
        u + 3
    } else {
        u + 1
    }
}

/// Whether a space, an optional dash, and an end time stand at `u`.
pub open spec fn end_part_at(s: Seq<char>, u: int) -> bool {
    lit_at(s, u, " "@) && hhmm_at(s, end_time_pos(s, u))
}

/// Whether a whole stage/time line shape stands at position `p`: the word
/// `Stage`, a stage digit, an optional no-load-shedding note, a colon, then
/// either `underway until` or a start time, and an end time.
pub open spec fn time_range_match_at(s: Seq<char>, p: int) -> bool {
    &&& lit_at(s, p, "Stage "@)
    &&& p + 6 < s.len() && is_digit(s[p + 6])
    &&& lit_at(s, after_stage(s, p), ": "@)
    &&& {
        let t = after_stage(s, p) + 2;
        if lit_at(s, t, "underway until"@) {
            end_part_at(s, t + 14)
        } else {
            hhmm_at(s, t) && end_part_at(s, t + 5)
        }
    }
}

/// The stage digit, raw start time (none when the outage is underway) and
/// raw end time of a matching line.
pub open spec fn time_range_raw(s: Seq<char>, p: int) -> (int, Option<(int, int)>, (int, int)) {
    let stage = digit_val(s[p + 6]);
    let t = after_stage(s, p) + 2;
    if lit_at(s, t, "underway until"@) {
        (stage, None, hhmm_raw(s, end_time_pos(s, t + 14)))
    } else {
        (stage, Some(hhmm_raw(s, t)), hhmm_raw(s, end_time_pos(s, t + 5)))
    }
}

/// The values a matching line yields once the clock times are validated:
/// minutes of the day, the current time standing in for an underway start.
pub open spec fn line_values(s: Seq<char>, p: int, now_minute: int) -> Option<(int, int, int)> {
    let (stage, st, en) = time_range_raw(s, p);
    if 0 <= en.0 <= 23 && 0 <= en.1 <= 59 {
        match st {
            None => Some((stage, now_minute, en.0 * 60 + en.1)),
            Some(sr) => if 0 <= sr.0 <= 23 && 0 <= sr.1 <= 59 {
                Some((stage, sr.0 * 60 + sr.1, en.0 * 60 + en.1))
            } else {
                None
            },
        }
    } else {
        None
    }
}

/// The first position at or after `p` where a stage/time line shape stands.
pub open spec fn first_match_from(s: Seq<char>, p: int) -> Option<int>
    decreases s.len() - p,
{
    if p < 0 || p >= s.len() {
        None
    } else if time_range_match_at(s, p) {
        Some(p)
    } else {
        first_match_from(s, p + 1)
    }
}

/// What `try_parse_time_range` returns: the values of the leftmost matching
/// shape, or nothing when no shape matches or the matched times are no valid
/// clock times.
pub open spec fn parse_time_range_spec(s: Seq<char>, now_minute: int) -> Option<(int, int, int)> {
    match first_match_from(s, 0) {
        Some(p) => line_values(s, p, now_minute),
        None => None,
    }
}

/// Without a match at any position from `p` on, the search from `p` fails.
proof fn lemma_no_match_from(s: Seq<char>, p: int)
    requires
        forall|q: int| p <= q < s.len() ==> !time_range_match_at(s, q),
    ensures
        first_match_from(s, p) is None,
    decreases s.len() - p,
{
    if 0 <= p < s.len() {
        lemma_no_match_from(s, p + 1);
    }
}

/// With no match before `p` and a match at `p`, the search from the start
/// finds `p`.
proof fn lemma_first_match_found(s: Seq<char>, p: int, q: int)
    requires
        0 <= q <= p < s.len(),
        time_range_match_at(s, p),
        forall|j: int| 0 <= j < p ==> !time_range_match_at(s, j),
    ensures
        first_match_from(s, q) == Some(p),
    decreases p - q,
{
    if q < p {
        lemma_first_match_found(s, p, q + 1);
    }
}

/// Whether a literal stands in `v` at position `p`.
fn lit_at_exec(v: &Vec<char>, p: usize, lit: &str) -> (r: bool)
    ensures
        r == lit_at(v@, p as int, lit@),
{
    let m = lit.unicode_len();
    let n = v.len();
    if p > n || n - p < m {
        return false;
    }
    let mut i: usize = 0;
    while i < m
        invariant
            0 <= i <= m,
            p + m <= v@.len(),
            m == lit@.len(),
            v@.len() <= usize::MAX,
            forall|j: int| 0 <= j < i ==> v@[p + j] == lit@[j],
        decreases m - i,
    {
        if v[p + i] != lit.get_char(i) {
            proof {
                assert(v@.subrange(p as int, p + lit@.len())[i as int] != lit@[i as int]);
            }
            return false;
        }
        i += 1;
    }
    proof {
        assert(v@.subrange(p as int, p + lit@.len()) =~= lit@);
    }
    true
}

/// Whether a character is a decimal digit.
fn is_digit_exec(c: char) -> (r: bool)
    ensures
        r == is_digit(c),
{
    c >= '0' && c <= '9'
}

/// Whether a clock-time shape stands in `v` at position `p`.
fn hhmm_at_exec(v: &Vec<char>, p: usize) -> (r: bool)
    ensures
        r == hhmm_at(v@, p as int),
{
    let n = v.len();
    if p > n || n - p < 5 {
        return false;
    }
    is_digit_exec(v[p]) && is_digit_exec(v[p + 1]) && v[p + 2] == ':' && is_digit_exec(v[p + 3])
        && is_digit_exec(v[p + 4])
}

/// The raw hour and minute of the clock time at position `p`.
fn hhmm_val_exec(v: &Vec<char>, p: usize) -> (r: (u64, u64))
    requires
        hhmm_at(v@, p as int),
    ensures
        (r.0 as int, r.1 as int) == hhmm_raw(v@, p as int),
        r.0 <= 99 && r.1 <= 99,
{
    let n = v.len();
    (
        10 * digit_val_exec(v[p]) + digit_val_exec(v[p + 1]),
        10 * digit_val_exec(v[p + 3]) + digit_val_exec(v[p + 4]),
    )
}

/// Whether a whole stage/time line shape stands in `v` at position `p`.
fn match_at_exec(v: &Vec<char>, p: usize) -> (r: bool)
    ensures
        r == time_range_match_at(v@, p as int),
{
    proof {
        reveal_strlit("Stage ");
        reveal_strlit(" (no load-shedding)");
        reveal_strlit(": ");
        reveal_strlit("underway until");
        reveal_strlit(" ");
        reveal_strlit("- ");
    }
    let n = v.len();
    if !lit_at_exec(v, p, "Stage ") {
        return false;
    }
    if p + 6 == n || !is_digit_exec(v[p + 6]) {
        return false;
    }
    let q = if lit_at_exec(v, p + 7, " (no load-shedding)") {
        p + 26
    } else {
        p + 7
    };
    if !lit_at_exec(v, q, ": ") {
        return false;
    }
    let t = q + 2;
    if lit_at_exec(v, t, "underway until") {
        end_part_exec(v, t + 14)
    } else {
        hhmm_at_exec(v, t) && end_part_exec(v, t + 5)
    }
}

/// Whether a space, an optional dash, and an end time stand at `u`.
fn end_part_exec(v: &Vec<char>, u: usize) -> (r: bool)
    ensures
        r == end_part_at(v@, u as int),
{
    proof {
        reveal_strlit(" ");
        reveal_strlit("- ");
    }
    let n = v.len();
    if !lit_at_exec(v, u, " ") {
        return false;
    }
    let e = if lit_at_exec(v, u + 1, "- ") {
        u + 3
    } else {
        u + 1
    };
    hhmm_at_exec(v, e)
}

/// Parse a stage/time line: the leftmost `Stage <digit>` shape with a time
/// range, yielding the stage digit and the start and end as minutes of the
/// local day. An outage already underway starts at the current time.
pub fn try_parse_time_range(text: &str, now_minute: u64) -> (r: Option<(u64, u64, u64)>)
    requires
        now_minute < 1440,
    ensures
        r is Some <==> parse_time_range_spec(text@, now_minute as int) is Some,
        r matches Some(t) ==> parse_time_range_spec(text@, now_minute as int) == Some(
            (t.0 as int, t.1 as int, t.2 as int),
        ),
        r matches Some(t) ==> t.0 <= 9 && t.1 < 1440 && t.2 < 1440,
{
    proof {
        reveal_strlit("Stage ");
        reveal_strlit(" (no load-shedding)");
        reveal_strlit(": ");
        reveal_strlit("underway until");
        reveal_strlit(" ");
        reveal_strlit("- ");
    }
    let v = to_char_vec(text);
    let n = v.len();
    let mut p: usize = 0;
    while p < n
        invariant
            0 <= p <= n,
            n == text@.len(),
            v@ == text@,
            now_minute < 1440,
            forall|j: int| 0 <= j < p ==> !time_range_match_at(text@, j),
        decreases n - p,
    {
        if match_at_exec(&v, p) {
            proof {
                lemma_first_match_found(text@, p as int, 0);
            }
            let stage = digit_val_exec(v[p + 6]);
            let q = if lit_at_exec(&v, p + 7, " (no load-shedding)") {
                p + 26
            } else {
                p + 7
            };
            let t = q + 2;
            let (start_raw, u) = if lit_at_exec(&v, t, "underway until") {
                (None, t + 14)
            } else {
                (Some(hhmm_val_exec(&v, t)), t + 5)
            };
            let e = if lit_at_exec(&v, u + 1, "- ") {
                u + 3
            } else {
                u + 1
            };
            let (eh, em) = hhmm_val_exec(&v, e);
            if eh > 23 || em > 59 {
                return None;
            }
            let end_minute = eh * 60 + em;
            match start_raw {
                None => {
                    return Some((stage, now_minute, end_minute));
                },
                Some((sh, sm)) => {
                    if sh > 23 || sm > 59 {
                        return None;
                    }
                    return Some((stage, sh * 60 + sm, end_minute));
                },
            }
        }
        p += 1;
    }
    proof {
        lemma_no_match_from(text@, 0);
    }
    None
}

/// The text fragments under the first `div.section-pull` element of a
/// document: a function of the document text alone, named because HTML
/// parsing takes pages to state. No value when the document has no such
/// element.
pub uninterp spec fn section_lines_of(html: Seq<char>) -> Option<Seq<Seq<char>>>;

/// Relies on scraper's `Selector::parse` (on a fixed, valid selector),
/// `Html::parse_document`, `Html::select` and `ElementRef::text`: the text
/// fragments under the document's first `div.section-pull` element, in
/// document order, or no value when no element matches.
#[verifier::external_body]
fn section_lines(html: &str) -> (r: Option<Vec<String>>)
    ensures
        r matches Some(v) ==> section_lines_of(html@) == Some(v.deep_view()),
        r is Some <==> section_lines_of(html@) is Some,
{
    let sel = scraper::Selector::parse("div.section-pull").unwrap();
    let doc = scraper::Html::parse_document(html);
    let el = doc.select(&sel).next()?;
    Some(el.text().map(|t| t.to_string()).collect())
}

/// The (Julian day, hour, minute, second) a text denotes as an ISO-8601
/// local timestamp: a function of the text alone, named because the ISO-8601
/// grammar takes pages to state. No value when the text does not parse.
pub uninterp spec fn iso_local_of(s: Seq<char>) -> Option<(int, int, int, int)>;

/// Relies on `time::PrimitiveDateTime::parse` with the default ISO-8601
/// format, `Date::to_julian_day` and the hour/minute/second getters: the
/// parsed components are a function of the text alone; hours are below 24,
/// minutes and seconds below 60, and a parsed date's Julian day is at most
/// the last representable date's.
#[verifier::external_body]
fn parse_iso_local(s: &str) -> (r: Option<(i64, u8, u8, u8)>)
    ensures
        r matches Some(v) ==> iso_local_of(s@) == Some(
            (v.0 as int, v.1 as int, v.2 as int, v.3 as int),
        ),
        r is Some <==> iso_local_of(s@) is Some,
        r matches Some(v) ==> v.0 <= MAX_JULIAN_DAY as i64 && v.1 < 24 && v.2 < 60 && v.3 < 60,
{
    match time::PrimitiveDateTime::parse(
        s,
        &time::format_description::well_known::Iso8601::DEFAULT,
    ) {
        Ok(dt) => Some((dt.date().to_julian_day() as i64, dt.hour(), dt.minute(), dt.second())),
        Err(_) => None,
    }
}

/// A day number held while walking the lines, as a mathematical value.
pub open spec fn opt_int_of(o: Option<u64>) -> Option<int> {
    match o {
        Some(d) => Some(d as int),
        None => None,
    }
}

/// What `parse_html` collects from the section's text lines: a date line
/// sets the current date; a stage/time line with a current date, a stage in
/// 1..=8 and a date inside the engine's range yields one window; every other
/// line is passed over.
pub open spec fn parse_lines_spec(
    lines: Seq<Seq<char>>,
    year: int,
    now_minute: int,
    curr: Option<int>,
) -> Seq<LoadShedTime>
    decreases lines.len(),
{
    if lines.len() == 0 {
        Seq::empty()
    } else {
        let line = lines[0];
        let curr2 = match date_result_spec(line, year) {
            Some(dn) => Some(dn),
            None => curr,
        };
        let here = match parse_time_range_spec(line, now_minute) {
            Some(v) => match curr2 {
                Some(dn) => if 1 <= v.0 <= 8 && 1 <= dn && dn + 1 <= MAX_DAY_NUMBER {
                    seq![new_window_spec(dn, v.0, v.1, v.2)]
                } else {
                    Seq::empty()
                },
                None => Seq::empty(),
            },
            None => Seq::empty(),
        };
        here + parse_lines_spec(lines.drop_first(), year, now_minute, curr2)
    }
}

/// Extract the announced windows from an announcement page: the date and
/// stage/time lines of the page's fixed section, read in order against the
/// current time's year; yields no value when the page has no such section.
/// Records without a preceding date, with a stage outside 1..=8 or with a
/// date outside the engine's range are dropped.
pub fn parse_html(html: &str, now: u64) -> (r: Option<Vec<LoadShedTime>>)
    requires
        day_of(now as int) <= MAX_DAY_NUMBER,
    ensures
        r is Some <==> section_lines_of(html@) is Some,
        r matches Some(res) ==> (section_lines_of(html@) matches Some(lines) && res@
            == parse_lines_spec(
            lines,
            crate::datetime::civil_of_day(day_of(now as int)).0,
            (now as int) % 86400 / 60,
            None,
        )),
        r matches Some(res) ==> forall|k: int|
            0 <= k < res@.len() ==> window_valid(#[trigger] res@[k]),
{
    let lines = match section_lines(html) {
        Some(l) => l,
        None => {
            return None;
        },
    };
    let (year, _month, _dom) = crate::datetime::civil_from_day(now / SECONDS_PER_DAY);
    let now_minute = now % SECONDS_PER_DAY / 60;
    let ghost lseq = lines.deep_view();
    let mut res: Vec<LoadShedTime> = Vec::new();
    let mut curr: Option<u64> = None;
    let mut i: usize = 0;
    proof {
        assert(lseq.skip(0) =~= lseq);
        assert(res@ + parse_lines_spec(lseq, year as int, now_minute as int, opt_int_of(curr))
            =~= parse_lines_spec(lseq, year as int, now_minute as int, None));
    }
    while i < lines.len()
        invariant
            0 <= i <= lines@.len(),
            lseq == lines.deep_view(),
            lines@.len() == lseq.len(),
            1970 <= year <= 9999,
            year as int == crate::datetime::civil_of_day(day_of(now as int)).0,
            now_minute < 1440,
            now_minute as int == (now as int) % 86400 / 60,
            curr matches Some(d) ==> d <= MAX_DAY_NUMBER,
            forall|k: int| 0 <= k < res@.len() ==> window_valid(#[trigger] res@[k]),
            parse_lines_spec(lseq, year as int, now_minute as int, None) == res@
                + parse_lines_spec(
                lseq.skip(i as int),
                year as int,
                now_minute as int,
                opt_int_of(curr),
            ),
        decreases lines@.len() - i,
    {
        let ghost old_res = res@;
        let ghost old_curr = curr;
        let line: &String = &lines[i];
        proof {
            assert(lseq[i as int] == lines@[i as int]@);
            assert(lseq.skip(i as int)[0] == lseq[i as int]);
            assert(lseq.skip(i as int).drop_first() =~= lseq.skip(i + 1));
        }
        match try_parse_date(line.as_str(), year) {
            Some(dn) => {
                curr = Some(dn);
            },
            None => {},
        }
        match try_parse_time_range(line.as_str(), now_minute) {
            Some((stage, st, en)) => {
                match curr {
                    Some(dn) => {
                        if 1 <= stage && stage <= 8 && 1 <= dn && dn + 1 <= MAX_DAY_NUMBER {
                            let w = LoadShedTime::new(dn, stage, st, en);
                            res.push(w);
                        }
                    },
                    None => {},
                }
            },
            None => {},
        }
        proof {
            let ghost here = res@.skip(old_res.len() as int);
            assert(res@ =~= old_res + here);
            assert(parse_lines_spec(lseq.skip(i as int), year as int, now_minute as int,
                opt_int_of(old_curr)) == here + parse_lines_spec(
                lseq.skip(i + 1),
                year as int,
                now_minute as int,
                opt_int_of(curr),
            ));
            assert(old_res + (here + parse_lines_spec(lseq.skip(i + 1), year as int,
                now_minute as int, opt_int_of(curr))) =~= (old_res + here) + parse_lines_spec(
                lseq.skip(i + 1),
                year as int,
                now_minute as int,
                opt_int_of(curr),
            ));
        }
        i += 1;
    }
    proof {
        assert(lseq.skip(lseq.len() as int) =~= Seq::<Seq<char>>::empty());
        assert(res@ + Seq::<LoadShedTime>::empty() =~= res@);
    }
    Some(res)
}

/// The engine timestamp of parsed ISO-8601 components: defined for dates
/// from the epoch up to one day short of the last representable date, so a
/// window's evaluation never leaves the calendar.
pub open spec fn iso_timestamp_of(p: Option<(int, int, int, int)>) -> Option<int> {
    match p {
        Some(v) => if EPOCH_JULIAN_DAY <= v.0 && v.0 + 1 <= MAX_JULIAN_DAY {
            Some((v.0 - EPOCH_JULIAN_DAY) * 86400 + v.1 * 3600 + v.2 * 60 + v.3)
        } else {
            None
        },
        None => None,
    }
}

/// What `from_raw` returns: a validated window exactly when both timestamps
/// parse and fall in the engine's range, the stage is a decimal in 1..=8,
/// and the range is non-empty after the roll-over adjustment.
pub open spec fn from_raw_spec(start_s: Seq<char>, end_s: Seq<char>, stage_s: Seq<char>) -> Option<
    LoadShedTime,
> {
    match (iso_timestamp_of(iso_local_of(start_s)), iso_timestamp_of(iso_local_of(end_s)),
    parse_stage_spec(stage_s)) {
        (Some(st), Some(en0), Some(stage)) => {
            let en = if en0 <= st {
                en0 + 86400
            } else {
                en0
            };
            if 7200 <= st && st < en {
                Some(LoadShedTime { start: st as u64, end: en as u64, stage, is_forecast: false })
            } else {
                None
            }
        },
        _ => None,
    }
}

/// Build a window from one raw feed record: ISO-8601 local start and end,
/// and a decimal stage. Malformed or out-of-range records yield no value and
/// are dropped by the caller.
pub fn from_raw(start: &str, end: &str, stage: &str) -> (r: Option<LoadShedTime>)
    ensures
        r == from_raw_spec(start@, end@, stage@),
        r matches Some(w) ==> window_valid(w),
{
    let st = match iso_timestamp(start) {
        Some(t) => t,
        None => return None,
    };
    let en0 = match iso_timestamp(end) {
        Some(t) => t,
        None => return None,
    };
    let stage_v = match parse_stage(stage) {
        Some(v) => v,
        None => return None,
    };
    let en = if en0 <= st {
        en0 + SECONDS_PER_DAY
    } else {
        en0
    };
    if st < 7200 || st >= en {
        return None;
    }
    let w = LoadShedTime { start: st, end: en, stage: stage_v, is_forecast: false };
    proof {
        assert(day_of(w.start as int) + 1 <= MAX_DAY_NUMBER);
        assert(from_raw_spec(start@, end@, stage@) == Some(w));
    }
    Some(w)
}

/// Parse an ISO-8601 local timestamp into an engine timestamp.
fn iso_timestamp(s: &str) -> (r: Option<u64>)
    ensures
        r is Some <==> iso_timestamp_of(iso_local_of(s@)) is Some,
        r matches Some(t) ==> iso_timestamp_of(iso_local_of(s@)) == Some(t as int),
        r matches Some(t) ==> day_of(t as int) + 1 <= MAX_DAY_NUMBER && t
            < MAX_DAY_NUMBER * SECONDS_PER_DAY,
{
    match parse_iso_local(s) {
        Some((jd, h, m, sec)) => {
            if jd < EPOCH_JULIAN_DAY as i64 || jd + 1 > MAX_JULIAN_DAY as i64 {
                None
            } else {
                let day = (jd as u64) - EPOCH_JULIAN_DAY;
                let t = day * SECONDS_PER_DAY + (h as u64) * 3600 + (m as u64) * 60 + (sec as u64);
                proof {
                    assert(day <= MAX_DAY_NUMBER - 1);
                    assert(day_of(t as int) == day);
                }
                Some(t)
            }
        },
        None => None,
    }
}

} // verus!
