use load_shedding::ical::{event, event_, fmt_dt, ical};

// 2023-06-11 local noon: day number 19519 since the epoch.
const NOW: u64 = 19519 * 86400 + 43200;

#[test]
fn event_test() {
    let an_hours_time = NOW + 3600;
    assert_eq!(
        event_(NOW, an_hours_time, "hi there", "id"),
        format!(
            "\nBEGIN:VEVENT\nUID:id\nDTSTAMP:{}\nDTSTART:{}\nDTEND:{}\nSUMMARY:hi there\nEND:VEVENT",
            fmt_dt(NOW),
            fmt_dt(NOW),
            fmt_dt(an_hours_time)
        )
    )
}

#[test]
fn ical_test() {
    let an_hours_time = NOW + 3600;
    let ic = ical(&vec![event_(NOW, an_hours_time, "test event", "id")]);
    let expected = format!(
        "BEGIN:VCALENDAR\nVERSION:2.0\nPRODID:-//io.github.daveduthie//load-shedding-calendar//EN\nBEGIN:VEVENT\nUID:id\nDTSTAMP:{}\nDTSTART:{}\nDTEND:{}\nSUMMARY:test event\nEND:VEVENT\nEND:VCALENDAR",
        fmt_dt(NOW),
        fmt_dt(NOW),
        fmt_dt(an_hours_time)
    );
    assert_eq!(ic, expected);
}

#[test]
fn fmt_dt_renders_utc() {
    // Local 2023-06-11T14:00 is 12:00 UTC.
    assert_eq!(fmt_dt(19519 * 86400 + 14 * 3600), "20230611T120000Z");
    // Local 2023-06-11T01:30 is 23:30 UTC of the previous day.
    assert_eq!(fmt_dt(19519 * 86400 + 5400), "20230610T233000Z");
}

#[test]
fn event_carries_a_fresh_uid() {
    let s = event(NOW, NOW + 3600, "t");
    let uid_line = s
        .lines()
        .find(|l| l.starts_with("UID:"))
        .expect("event should carry a UID line");
    assert_eq!(uid_line.len(), 4 + 36);
    let other = event(NOW, NOW + 3600, "t");
    assert_ne!(s, other);
}
