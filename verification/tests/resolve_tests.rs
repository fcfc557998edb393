use load_shedding::interval::Interval;
use load_shedding::resolve::{calendar_for, extend_with_forecast, forecast_windows, resolve};
use load_shedding::scrape::LoadShedTime;

// 2023-06-11 is day number 19519 since the epoch.
const DAY: u64 = 19519;

#[test]
fn resolve_intersects_windows_with_the_zone_timetable() {
    // A stage-4 window on 2023-06-11 from 05:00 to 22:00, zone 4: the zone's
    // stage-4 slots that day open at 02:00, 10:00 and 18:00; the first block
    // ends before the window opens, the next day's blocks start after it
    // closes.
    let windows = vec![LoadShedTime::new(DAY, 4, 5 * 60, 22 * 60)];
    let events = resolve(&windows, 4);
    assert_eq!(events.len(), 2);
    assert_eq!(
        events[0].interval,
        Interval {
            start: DAY * 86400 + 10 * 3600,
            end: DAY * 86400 + 12 * 3600 + 1800,
        }
    );
    assert_eq!(
        events[1].interval,
        Interval {
            start: DAY * 86400 + 18 * 3600,
            end: DAY * 86400 + 20 * 3600 + 1800,
        }
    );
    for e in &events {
        assert!(e.interval.start >= DAY * 86400 + 5 * 3600);
        assert!(e.interval.end <= DAY * 86400 + 22 * 3600);
        assert_eq!(e.title, "Load shedding (4)");
    }
}

#[test]
fn resolve_clips_events_to_the_window() {
    // The same day for zone 4, but the window closes mid-block at 11:00.
    let windows = vec![LoadShedTime::new(DAY, 4, 5 * 60, 11 * 60)];
    let events = resolve(&windows, 4);
    assert_eq!(events.len(), 1);
    assert_eq!(
        events[0].interval,
        Interval {
            start: DAY * 86400 + 10 * 3600,
            end: DAY * 86400 + 11 * 3600,
        }
    );
}

#[test]
fn forecast_windows_extend_four_days() {
    let last = LoadShedTime {
        start: DAY * 86400 + 5 * 3600,
        end: DAY * 86400 + 22 * 3600,
        stage: 3,
        is_forecast: false,
    };
    let f = forecast_windows(&last);
    assert_eq!(f.len(), 4);
    assert_eq!(f[0].start, last.end);
    for k in 0..3 {
        assert_eq!(f[k].end, f[k + 1].start);
    }
    for w in &f {
        assert!(w.is_forecast);
        assert_eq!(w.stage, 3);
        assert!(w.start < w.end);
    }
    assert_eq!(f[3].end, (DAY + 4) * 86400);
}

#[test]
fn forecast_from_midnight_still_covers_four_days() {
    let last = LoadShedTime {
        start: DAY * 86400 - 3600,
        end: DAY * 86400,
        stage: 1,
        is_forecast: false,
    };
    let f = forecast_windows(&last);
    assert_eq!(f[0].start, DAY * 86400);
    assert_eq!(f[0].end, (DAY + 1) * 86400);
    assert_eq!(f[3].end, (DAY + 4) * 86400);
}

#[test]
fn extend_with_forecast_appends_after_the_last_window() {
    let w = LoadShedTime::new(DAY, 4, 5 * 60, 22 * 60);
    let extended = extend_with_forecast(vec![w]);
    assert_eq!(extended.len(), 5);
    assert_eq!(extended[0], w);
    assert_eq!(extended[1].start, w.end);
    assert!(extended[1..].iter().all(|x| x.is_forecast && x.stage == 4));
    assert_eq!(extend_with_forecast(vec![]), vec![]);
}

#[test]
fn calendar_for_wraps_resolved_events() {
    let windows = vec![LoadShedTime::new(DAY, 4, 5 * 60, 22 * 60)];
    let cal = calendar_for(&windows, 4);
    assert!(cal.starts_with("BEGIN:VCALENDAR\nVERSION:2.0\nPRODID:"));
    assert!(cal.ends_with("\nEND:VCALENDAR"));
    assert_eq!(cal.matches("BEGIN:VEVENT").count(), 2);
    assert_eq!(cal.matches("SUMMARY:Load shedding (4)").count(), 2);
    assert!(cal.contains("DTSTART:20230611T080000Z"));
    assert!(cal.contains("DTEND:20230611T103000Z"));
}
