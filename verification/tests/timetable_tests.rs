use load_shedding::interval;
use load_shedding::timetable;
use load_shedding::timetable::initial_zones_for_stage;
use load_shedding::timetable::schedule;
use load_shedding::timetable::shift;
use load_shedding::timetable::timetable_for_stage_and_zone;

#[test]
fn column_tests() {
    assert_eq!(
        (1..=31).map(timetable::column).collect::<Vec<u64>>(),
        vec![
            0, 1, 2, 3, 4, 5, 6, 7, 8, 9, 10, 11, 12, 13, 14, 15, 0, 1, 2, 3, 4, 5, 6, 7, 8, 9,
            10, 11, 12, 13, 14
        ]
    );
}

#[test]
fn timetable_column_tests() {
    assert_eq!(
        (1..=31).map(timetable::column).collect::<Vec<u64>>(),
        vec![
            0, 1, 2, 3, 4, 5, 6, 7, 8, 9, 10, 11, 12, 13, 14, 15, 0, 1, 2, 3, 4, 5, 6, 7, 8, 9,
            10, 11, 12, 13, 14
        ]
    );
}

#[test]
fn offset_tests() {
    assert_eq!(
        (1..=31).map(timetable::offset).collect::<Vec<u64>>(),
        vec![
            0, 12, 24, 36, 48, 60, 72, 84, 96, 108, 120, 132, 144, 156, 168, 180, 0, 12, 24, 36,
            48, 60, 72, 84, 96, 108, 120, 132, 144, 156, 168
        ]
    )
}

#[test]
fn timetable_offset_tests() {
    assert_eq!(
        (1..=31).map(timetable::offset).collect::<Vec<u64>>(),
        vec![
            0, 12, 24, 36, 48, 60, 72, 84, 96, 108, 120, 132, 144, 156, 168, 180, 0, 12, 24, 36,
            48, 60, 72, 84, 96, 108, 120, 132, 144, 156, 168
        ]
    )
}

#[test]
fn shift_tests() {
    assert_eq!(
        (1..=31).map(shift).collect::<Vec<u64>>(),
        vec![
            0, 0, 0, 0, 1, 1, 1, 1, 2, 2, 2, 2, 3, 3, 3, 3, 0, 0, 0, 0, 1, 1, 1, 1, 2, 2, 2, 2, 3,
            3, 3
        ]
    )
}

#[test]
fn timetable_shift_tests() {
    assert_eq!(
        (1..=31).map(shift).collect::<Vec<u64>>(),
        vec![
            0, 0, 0, 0, 1, 1, 1, 1, 2, 2, 2, 2, 3, 3, 3, 3, 0, 0, 0, 0, 1, 1, 1, 1, 2, 2, 2, 2, 3,
            3, 3
        ]
    )
}

#[test]
fn initial_zones_for_stage_tests() {
    assert_eq!(
        (1..=8)
            .map(initial_zones_for_stage)
            .collect::<Vec<Vec<u64>>>(),
        vec![
            vec![0],
            vec![0, 8],
            vec![0, 8, 12],
            vec![0, 8, 12, 4],
            vec![0, 8, 12, 4, 1],
            vec![0, 8, 12, 4, 1, 9],
            vec![0, 8, 12, 4, 1, 9, 13],
            vec![0, 8, 12, 4, 1, 9, 13, 5]
        ]
    )
}

#[test]
fn timetable_initial_zones_for_stage_tests() {
    assert_eq!(
        (1..=8)
            .map(initial_zones_for_stage)
            .collect::<Vec<Vec<u64>>>(),
        vec![
            vec![0],
            vec![0, 8],
            vec![0, 8, 12],
            vec![0, 8, 12, 4],
            vec![0, 8, 12, 4, 1],
            vec![0, 8, 12, 4, 1, 9],
            vec![0, 8, 12, 4, 1, 9, 13],
            vec![0, 8, 12, 4, 1, 9, 13, 5]
        ]
    )
}

#[test]
fn schedule_tests() {
    assert_eq!(
        schedule(8, 2),
        vec![
            vec![1, 2, 5, 6, 9, 10, 13, 14],
            vec![2, 3, 6, 7, 10, 11, 14, 15],
            vec![3, 4, 7, 8, 11, 12, 15, 16],
            vec![1, 4, 5, 8, 9, 12, 13, 16],
            vec![1, 2, 5, 6, 9, 10, 13, 14],
            vec![2, 3, 6, 7, 10, 11, 14, 15],
            vec![3, 4, 7, 8, 11, 12, 15, 16],
            vec![1, 4, 5, 8, 9, 12, 13, 16],
            vec![1, 2, 5, 6, 9, 10, 13, 14],
            vec![2, 3, 6, 7, 10, 11, 14, 15],
            vec![3, 4, 7, 8, 11, 12, 15, 16],
            vec![1, 4, 5, 8, 9, 12, 13, 16]
        ]
    )
}

#[test]
fn schedule_is_deterministic() {
    for stage in 1..=8 {
        for day in 1..=31 {
            assert_eq!(schedule(stage, day), schedule(stage, day));
        }
    }
}

#[test]
fn column_cycles_with_period_16() {
    for day in 1..=15 {
        assert_eq!(timetable::column(day), timetable::column(day + 16));
    }
}

// 2023-06-11 is day number 19519 since the epoch; its day of month, 11,
// falls in rotation column 10, and the following day in column 11.
const DAY: u64 = 19519;

#[test]
fn timetable_for_zone_tests() {
    let noon = DAY * 86400 + 43200;
    let timetable = timetable_for_stage_and_zone(3, 2, noon);
    assert_eq!(
        timetable,
        vec![
            interval::interval(DAY * 86400 + 14 * 3600, DAY * 86400 + 16 * 3600 + 1800).unwrap(),
            interval::interval(DAY * 86400 + 22 * 3600, (DAY + 1) * 86400 + 1800).unwrap(),
            interval::interval((DAY + 1) * 86400 + 6 * 3600, (DAY + 1) * 86400 + 8 * 3600 + 1800)
                .unwrap(),
            interval::interval((DAY + 1) * 86400 + 22 * 3600, (DAY + 2) * 86400 + 1800).unwrap(),
        ]
    )
}
