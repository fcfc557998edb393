//! Calendar-text rendering: one VEVENT block per outage event, wrapped in a
//! VCALENDAR envelope with a fixed version and product identifier.
//!
//! Timestamps are rendered in `YYYYMMDDThhmmssZ` UTC form; local time is two
//! hours ahead of UTC. Every block carries a freshly generated unique id.

use vstd::prelude::*;

use vstd::string::StringExecFns;

use crate::datetime::civil_of_day;
use crate::datetime::day_of;
use crate::datetime::MAX_DAY_NUMBER;

verus! {

/// Seconds the local clock runs ahead of UTC.
pub const UTC_OFFSET_SECONDS: u64 = 7200;

/// The decimal digit characters in order.
pub open spec fn digit_char(d: int) -> char {
    seq!['0', '1', '2', '3', '4', '5', '6', '7', '8', '9'][d]
}

/// A number below 100 as two zero-padded decimal digits.
pub open spec fn two_digits(n: int) -> Seq<char> {
    seq![digit_char(n / 10), digit_char(n % 10)]
}

/// A number below 10000 as four zero-padded decimal digits.
pub open spec fn four_digits(n: int) -> Seq<char> {
    two_digits(n / 100) + two_digits(n % 100)
}

/// What `fmt_dt` returns: the timestamp shifted to UTC and rendered as
/// `YYYYMMDDThhmmssZ`.
pub open spec fn fmt_dt_spec(t: int) -> Seq<char> {
    let utc = t - UTC_OFFSET_SECONDS;
    let day = day_of(utc);
    let second_of_day = utc % 86400;
    four_digits(civil_of_day(day).0) + two_digits(civil_of_day(day).1) + two_digits(
        civil_of_day(day).2,
    ) + seq!['T'] + two_digits(second_of_day / 3600) + two_digits((second_of_day % 3600) / 60)
        + two_digits(second_of_day % 60) + seq!['Z']
}

/// What `event_` returns: one VEVENT block, stamped with the start time.
pub open spec fn event_spec(start: int, end: int, title: Seq<char>, uid: Seq<char>) -> Seq<char> {
    "\nBEGIN:VEVENT\nUID:"@ + uid + "\nDTSTAMP:"@ + fmt_dt_spec(start) + "\nDTSTART:"@
        + fmt_dt_spec(start) + "\nDTEND:"@ + fmt_dt_spec(end) + "\nSUMMARY:"@ + title
        + "\nEND:VEVENT"@
}

/// The concatenation of a sequence of rendered blocks.
pub open spec fn concat_all(events: Seq<Seq<char>>) -> Seq<char>
    decreases events.len(),
{
    if events.len() == 0 {
        Seq::empty()
    } else {
        events[0] + concat_all(events.drop_first())
    }
}

/// What `ical` returns: the fixed VCALENDAR envelope around the blocks.
pub open spec fn ical_spec(events: Seq<Seq<char>>) -> Seq<char> {
    "BEGIN:VCALENDAR\nVERSION:2.0\nPRODID:-//io.github.daveduthie//load-shedding-calendar//EN"@
        + concat_all(events) + "\nEND:VCALENDAR"@
}

/// A timestamp can be rendered when its UTC form is not before the epoch and
/// not past the last representable date.
pub open spec fn renderable(t: int) -> bool {
    UTC_OFFSET_SECONDS <= t && day_of(t - UTC_OFFSET_SECONDS) <= MAX_DAY_NUMBER
}

/// One decimal digit as a string slice.
fn digit_str(d: u64) -> (r: &'static str)
    requires
        d < 10,
    ensures
        r@ == seq![digit_char(d as int)],
{
    proof {
        reveal_strlit("0");
        reveal_strlit("1");
        reveal_strlit("2");
        reveal_strlit("3");
        reveal_strlit("4");
        reveal_strlit("5");
        reveal_strlit("6");
        reveal_strlit("7");
        reveal_strlit("8");
        reveal_strlit("9");
    }
    match d {
        0 => "0",
        1 => "1",
        2 => "2",
        3 => "3",
        4 => "4",
        5 => "5",
        6 => "6",
        7 => "7",
        8 => "8",
        _ => "9",
    }
}

/// Append a number below 100 as two zero-padded digits.
fn push_two_digits(s: &mut String, n: u64)
    requires
        n < 100,
    ensures
        final (s)@ == old(s)@ + two_digits(n as int),
{
    s.append(digit_str(n / 10));
    s.append(digit_str(n % 10));
}

/// Render a timestamp (seconds of local time since the epoch) in
/// `YYYYMMDDThhmmssZ` UTC form.
pub fn fmt_dt(t: u64) -> (r: String)
    requires
        renderable(t as int),
    ensures
        r@ == fmt_dt_spec(t as int),
{
    let utc = t - UTC_OFFSET_SECONDS;
    let day = utc / 86400;
    let second_of_day = utc % 86400;
    let (year, month, dom) = crate::datetime::civil_from_day(day);
    let mut s = String::new();
    push_two_digits(&mut s, (year as u64) / 100);
    push_two_digits(&mut s, (year as u64) % 100);
    push_two_digits(&mut s, month as u64);
    push_two_digits(&mut s, dom as u64);
    proof {
        reveal_strlit("T");
    }
    s.append("T");
    push_two_digits(&mut s, second_of_day / 3600);
    push_two_digits(&mut s, (second_of_day % 3600) / 60);
    push_two_digits(&mut s, second_of_day % 60);
    proof {
        reveal_strlit("Z");
    }
    s.append("Z");
    proof {
        assert(s@ =~= fmt_dt_spec(t as int));
    }
    s
}

/// Relies on `uuid::Uuid::new_v4` and `uuid::fmt::Hyphenated::encode_lower`:
/// a random version-4 UUID rendered in hyphenated lowercase form is 36
/// characters long. Nothing else holds of the value: it is random.
#[verifier::external_body]
fn fresh_uid() -> (r: String)
    ensures
        r@.len() == 36,
{
    String::from(
        uuid::Uuid::new_v4().as_hyphenated().encode_lower(&mut uuid::Uuid::encode_buffer()),
    )
}

/// Render one VEVENT block with the given unique id.
pub fn event_(start: u64, end: u64, title: &str, uid: &str) -> (r: String)
    requires
        renderable(start as int),
        renderable(end as int),
    ensures
        r@ == event_spec(start as int, end as int, title@, uid@),
{
    let start_str = fmt_dt(start);
    let mut s = String::new();
    proof {
        reveal_strlit("\nBEGIN:VEVENT\nUID:");
        reveal_strlit("\nDTSTAMP:");
        reveal_strlit("\nDTSTART:");
        reveal_strlit("\nDTEND:");
        reveal_strlit("\nSUMMARY:");
        reveal_strlit("\nEND:VEVENT");
    }
    s.append("\nBEGIN:VEVENT\nUID:");
    s.append(uid);
    s.append("\nDTSTAMP:");
    s.append(start_str.as_str());
    s.append("\nDTSTART:");
    s.append(start_str.as_str());
    s.append("\nDTEND:");
    s.append(fmt_dt(end).as_str());
    s.append("\nSUMMARY:");
    s.append(title);
    s.append("\nEND:VEVENT");
    proof {
        assert(s@ =~= event_spec(start as int, end as int, title@, uid@));
    }
    s
}

/// Render one VEVENT block with a freshly generated unique id.
pub fn event(start: u64, end: u64, title: &str) -> (r: String)
    requires
        renderable(start as int),
        renderable(end as int),
    ensures
        exists|uid: Seq<char>|
            uid.len() == 36 && r@ == event_spec(start as int, end as int, title@, uid),
{
    let uid = fresh_uid();
    let r = event_(start, end, title, uid.as_str());
    proof {
        assert(uid@.len() == 36 && r@ == event_spec(start as int, end as int, title@, uid@));
    }
    r
}

/// Wrap rendered VEVENT blocks in the fixed VCALENDAR envelope.
pub fn ical(events: &Vec<String>) -> (r: String)
    ensures
        r@ == ical_spec(events.deep_view()),
{
    let mut s = String::new();
    proof {
        reveal_strlit(
            "BEGIN:VCALENDAR\nVERSION:2.0\nPRODID:-//io.github.daveduthie//load-shedding-calendar//EN",
        );
        reveal_strlit("\nEND:VCALENDAR");
    }
    s.append("BEGIN:VCALENDAR\nVERSION:2.0\nPRODID:-//io.github.daveduthie//load-shedding-calendar//EN");
    let mut i: usize = 0;
    while i < events.len()
        invariant
            0 <= i <= events@.len(),
            s@ == "BEGIN:VCALENDAR\nVERSION:2.0\nPRODID:-//io.github.daveduthie//load-shedding-calendar//EN"@
                + concat_all(events.deep_view().take(i as int)),
        decreases events@.len() - i,
    {
        s.append(events[i].as_str());
        proof {
            lemma_concat_all_snoc(events.deep_view(), i as int);
        }
        i += 1;
    }
    s.append("\nEND:VCALENDAR");
    proof {
        assert(events.deep_view().take(events.deep_view().len() as int) =~= events.deep_view());
        assert(s@ =~= ical_spec(events.deep_view()));
    }
    s
}

/// Concatenating one more block extends the concatenation of a prefix.
proof fn lemma_concat_all_snoc(events: Seq<Seq<char>>, i: int)
    requires
        0 <= i < events.len(),
    ensures
        concat_all(events.take(i + 1)) == concat_all(events.take(i)) + events[i],
    decreases i,
{
    if i == 0 {
        assert(events.take(1) =~= seq![events[0]]);
        assert(concat_all(events.take(1).drop_first()) == Seq::<char>::empty());
        assert(concat_all(events.take(0)) + events[0] =~= events[0]);
        assert(concat_all(events.take(1)) =~= events[0]);
    } else {
        lemma_concat_all_snoc(events.drop_first(), i - 1);
        assert(events.take(i + 1).drop_first() =~= events.drop_first().take(i));
        assert(events.take(i).drop_first() =~= events.drop_first().take(i - 1));
        assert(concat_all(events.take(i + 1)) == events[0] + concat_all(events.drop_first().take(i)));
        assert(concat_all(events.take(i)) == events[0] + concat_all(events.drop_first().take(i - 1)));
        assert(concat_all(events.take(i + 1)) =~= concat_all(events.take(i)) + events[i]);
    }
}

} // verus!
