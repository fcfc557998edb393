use load_shedding::datetime::{civil_from_day, day_from_civil, day_of_month};
use load_shedding::scrape::{
    from_raw, parse_html, parse_stage, try_parse_date, try_parse_time_range, LoadShedTime,
};

#[test]
fn parse_dates() {
    let year = 2023;
    assert_eq!(try_parse_date("1 March", year), day_from_civil(year, 3, 1));
    assert_eq!(
        try_parse_date("31 December", year),
        day_from_civil(year, 12, 31)
    )
}

#[test]
fn parse_dates_edge_shapes() {
    let year = 2023;
    // The day is the last two digits before the month word.
    assert_eq!(try_parse_date("123 March", year), day_from_civil(year, 3, 23));
    // Not a month name, no digits, or a day that month does not have.
    assert_eq!(try_parse_date("1 Marches", year), None);
    assert_eq!(try_parse_date("March", year), None);
    assert_eq!(try_parse_date("31 April", year), None);
    assert_eq!(try_parse_date("29 February", 2023), None);
    assert_eq!(try_parse_date("29 February", 2024), day_from_civil(2024, 2, 29));
    assert_eq!(try_parse_date("Load shedding on 5 July", year), day_from_civil(year, 7, 5));
}

#[test]
fn parse_time_ranges() {
    let now_minute = 645;
    assert_eq!(
        try_parse_time_range("Stage 4: 05:00 - 22:00", now_minute),
        Some((4, 5 * 60, 22 * 60))
    );
    assert_eq!(
        try_parse_time_range("Stage 4: underway until 22:00", now_minute),
        Some((4, now_minute, 22 * 60))
    )
}

#[test]
fn parse_time_ranges_edge_shapes() {
    let nm = 100;
    assert_eq!(
        try_parse_time_range("Stage 1 (no load-shedding): 06:00 - 22:00", nm),
        Some((1, 6 * 60, 22 * 60))
    );
    // No dash is accepted too.
    assert_eq!(
        try_parse_time_range("Stage 2: 06:00 22:00", nm),
        Some((2, 6 * 60, 22 * 60))
    );
    // The leftmost match decides; invalid clock values yield nothing.
    assert_eq!(try_parse_time_range("Stage 5: 25:00 - 26:00", nm), None);
    assert_eq!(try_parse_time_range("no stage here", nm), None);
    assert_eq!(
        try_parse_time_range("note: Stage 3: 00:00 - 02:30 tomorrow", nm),
        Some((3, 0, 150))
    );
}

#[test]
fn parse_stage_accepts_decimal_stages() {
    assert_eq!(parse_stage("4"), Some(4));
    assert_eq!(parse_stage("+4"), Some(4));
    assert_eq!(parse_stage("04"), Some(4));
    assert_eq!(parse_stage("8"), Some(8));
    assert_eq!(parse_stage("0"), None);
    assert_eq!(parse_stage("9"), None);
    assert_eq!(parse_stage("12"), None);
    assert_eq!(parse_stage(""), None);
    assert_eq!(parse_stage("four"), None);
    assert_eq!(parse_stage("4x"), None);
}

// 2023-06-11 is day number 19519 since the epoch.
const DAY: u64 = 19519;

#[test]
fn from_raw_parses_a_feed_record() {
    let w = from_raw("2023-06-11T10:00:00", "2023-06-11T12:30:00", "4").unwrap();
    assert_eq!(
        w,
        LoadShedTime {
            start: DAY * 86400 + 10 * 3600,
            end: DAY * 86400 + 12 * 3600 + 1800,
            stage: 4,
            is_forecast: false,
        }
    );
}

#[test]
fn from_raw_rolls_an_early_end_to_the_next_day() {
    let w = from_raw("2023-06-11T22:00:00", "2023-06-11T00:30:00", "2").unwrap();
    assert_eq!(w.start, DAY * 86400 + 22 * 3600);
    assert_eq!(w.end, (DAY + 1) * 86400 + 1800);
}

#[test]
fn from_raw_drops_malformed_records() {
    assert_eq!(from_raw("not a time", "2023-06-11T12:00:00", "4"), None);
    assert_eq!(from_raw("2023-06-11T10:00:00", "not a time", "4"), None);
    assert_eq!(from_raw("2023-06-11T10:00:00", "2023-06-11T12:00:00", "9"), None);
    assert_eq!(from_raw("2023-06-11T10:00:00", "2023-06-11T12:00:00", "x"), None);
}

#[test]
fn new_rolls_an_early_end_to_the_next_day() {
    let w = LoadShedTime::new(DAY, 4, 22 * 60, 30);
    assert_eq!(w.start, DAY * 86400 + 22 * 3600);
    assert_eq!(w.end, (DAY + 1) * 86400 + 1800);
    let w2 = LoadShedTime::new(DAY, 4, 5 * 60, 22 * 60);
    assert_eq!(w2.start, DAY * 86400 + 5 * 3600);
    assert_eq!(w2.end, DAY * 86400 + 22 * 3600);
}

#[test]
fn title_names_the_stage() {
    let w = LoadShedTime {
        start: 7200,
        end: 10800,
        stage: 4,
        is_forecast: false,
    };
    assert_eq!(w.title(), "Load shedding (4)");
    let f = LoadShedTime {
        start: 7200,
        end: 10800,
        stage: 4,
        is_forecast: true,
    };
    assert_eq!(f.title(), "Forecast: Load shedding (4)");
}

#[test]
fn parse_html_collects_dated_time_ranges() {
    let html = "<html><body><div class=\"section-pull\">\
        <p>11 June</p>\
        <p>Stage 4: 05:00 - 22:00</p>\
        <p>12 June</p>\
        <p>Stage 2: 22:00 - 05:00</p>\
        <p>Stage 9: 06:00 - 08:00</p>\
        </div></body></html>";
    let now = DAY * 86400 + 9 * 3600;
    let windows = parse_html(html, now).unwrap();
    assert_eq!(
        windows,
        vec![
            LoadShedTime::new(DAY, 4, 5 * 60, 22 * 60),
            LoadShedTime::new(DAY + 1, 2, 22 * 60, 5 * 60),
        ]
    );
}

#[test]
fn parse_html_needs_the_section() {
    let html = "<html><body><div class=\"other\">11 June</div></body></html>";
    assert_eq!(parse_html(html, DAY * 86400), None);
}

#[test]
fn parse_html_drops_time_ranges_before_any_date() {
    let html = "<html><body><div class=\"section-pull\">\
        <p>Stage 4: 05:00 - 22:00</p>\
        </div></body></html>";
    let windows = parse_html(html, DAY * 86400).unwrap();
    assert_eq!(windows, vec![]);
}

#[test]
fn calendar_round_trips() {
    assert_eq!(day_from_civil(2023, 6, 11), Some(DAY));
    assert_eq!(civil_from_day(DAY), (2023, 6, 11));
    assert_eq!(day_of_month(DAY), 11);
    assert_eq!(day_from_civil(2023, 2, 29), None);
    assert_eq!(day_from_civil(2024, 2, 29), Some(day_from_civil(2024, 2, 28).unwrap() + 1));
    assert_eq!(civil_from_day(0), (1970, 1, 1));
}
