use shift_scheduler::calendar::{
    first_shift_day, first_shift_day_at, Date, ScheduleError, MAX_JULIAN_DAY, MAX_TIMESTAMP,
};
use shift_scheduler::schedule::{
    schedule_shifts_from, schedule_worker_shifts, schedule_worker_shifts_at, ScheduleNeed, Shift,
    SHIFT_HOURS, SHIFT_SECONDS,
};
use std::collections::HashSet;
use time::ext::NumericalDuration;

fn utc(year: i32, month: time::Month, day: u8, hour: u8) -> time::OffsetDateTime {
    let date = time::Date::from_calendar_date(year, month, day).unwrap();
    let time_of_day = time::Time::from_hms(hour, 0, 0).unwrap();
    time::OffsetDateTime::new_utc(date, time_of_day)
}

fn instant(seconds: i64) -> time::OffsetDateTime {
    time::OffsetDateTime::from_unix_timestamp(seconds).unwrap()
}

fn need(work: u32, workers: Vec<u32>) -> ScheduleNeed {
    ScheduleNeed { work, workers }
}

#[test]
fn thirty_three_hours_for_two_workers_take_five_shifts_on_three_days() {
    let now = utc(2024, time::Month::February, 26, 23).unix_timestamp();
    let shifts = schedule_worker_shifts_at(&need(33, vec![1, 2]), now).unwrap();
    assert_eq!(shifts.len(), 5);
    let workers: Vec<u32> = shifts.iter().map(|shift| shift.worker).collect();
    assert_eq!(workers, vec![1, 2, 1, 2, 1]);
    let days = [
        (time::Month::February, 28),
        (time::Month::February, 28),
        (time::Month::February, 29),
        (time::Month::February, 29),
        (time::Month::March, 1),
    ];
    for (shift, (month, day)) in shifts.iter().zip(days) {
        assert_eq!(instant(shift.start_time), utc(2024, month, day, 0));
        assert_eq!(instant(shift.end_time), utc(2024, month, day, 8));
        assert_eq!(instant(shift.start_time).offset(), time::UtcOffset::UTC);
    }
}

#[test]
fn thirty_three_hours_from_the_epoch_in_seconds() {
    let shifts = schedule_worker_shifts_at(&need(33, vec![1, 2]), 0).unwrap();
    let expected = vec![
        Shift { worker: 1, start_time: 172_800, end_time: 201_600 },
        Shift { worker: 2, start_time: 172_800, end_time: 201_600 },
        Shift { worker: 1, start_time: 259_200, end_time: 288_000 },
        Shift { worker: 2, start_time: 259_200, end_time: 288_000 },
        Shift { worker: 1, start_time: 345_600, end_time: 374_400 },
    ];
    assert_eq!(shifts, expected);
}

#[test]
fn no_work_gives_no_shift_at_any_instant() {
    assert_eq!(schedule_worker_shifts_at(&need(0, vec![1, 2]), 0), Ok(vec![]));
    assert_eq!(
        schedule_worker_shifts_at(&need(0, vec![1, 2]), i64::MAX),
        Ok(vec![])
    );
    assert_eq!(schedule_worker_shifts(need(0, vec![1, 2])), Ok(vec![]));
}

#[test]
fn no_worker_gives_no_shift_at_any_instant() {
    assert_eq!(schedule_worker_shifts_at(&need(10, vec![]), 0), Ok(vec![]));
    assert_eq!(
        schedule_worker_shifts_at(&need(10, vec![]), i64::MIN),
        Ok(vec![])
    );
    assert_eq!(
        schedule_worker_shifts_at(&need(u32::MAX, vec![]), MAX_TIMESTAMP),
        Ok(vec![])
    );
    assert_eq!(schedule_worker_shifts(need(10, vec![])), Ok(vec![]));
    let anchor = Date::from_julian_day(MAX_JULIAN_DAY).unwrap();
    assert_eq!(schedule_shifts_from(&need(10, vec![]), anchor), Ok(vec![]));
}

#[test]
fn eight_hours_for_one_worker_is_one_shift_on_the_anchor_day() {
    let now = utc(2025, time::Month::June, 14, 17).unix_timestamp();
    let shifts = schedule_worker_shifts_at(&need(8, vec![7]), now).unwrap();
    assert_eq!(shifts.len(), 1);
    assert_eq!(shifts[0].worker, 7);
    assert_eq!(instant(shifts[0].start_time), utc(2025, time::Month::June, 16, 0));
    assert_eq!(instant(shifts[0].end_time), utc(2025, time::Month::June, 16, 8));
}

#[test]
fn eight_hours_for_one_worker_from_the_clock() {
    let before = first_shift_day().unwrap();
    let shifts = schedule_worker_shifts(need(8, vec![7])).unwrap();
    let after = first_shift_day().unwrap();
    assert_eq!(shifts.len(), 1);
    assert_eq!(shifts[0].worker, 7);
    let start = instant(shifts[0].start_time);
    let end = instant(shifts[0].end_time);
    assert_eq!(start.time(), time::Time::MIDNIGHT);
    assert_eq!(end.time(), time::Time::from_hms(8, 0, 0).unwrap());
    assert_eq!(start.date(), end.date());
    let day = start.date().to_julian_day();
    assert!(before.julian_day() <= day && day <= after.julian_day());
}

#[test]
fn shift_count_is_work_over_eight_rounded_up() {
    let cases: [(u32, usize); 9] = [
        (1, 1),
        (7, 1),
        (8, 1),
        (9, 2),
        (16, 2),
        (17, 3),
        (33, 5),
        (333, 42),
        (8_000, 1_000),
    ];
    for (work, count) in cases {
        for workers in [vec![1], vec![1, 2], vec![4, 5, 6, 7, 8]] {
            let shifts = schedule_worker_shifts_at(&need(work, workers), 0).unwrap();
            assert_eq!(shifts.len(), count);
        }
    }
}

#[test]
fn every_shift_lasts_eight_hours() {
    assert_eq!(SHIFT_SECONDS, 8 * 3_600);
    assert_eq!(SHIFT_HOURS, 8);
    let shifts = schedule_worker_shifts_at(&need(1_000, vec![3, 1, 4]), -1_000_000).unwrap();
    assert_eq!(shifts.len(), 125);
    for shift in shifts.iter() {
        assert_eq!(shift.end_time - shift.start_time, 28_800);
        assert_eq!(instant(shift.end_time) - instant(shift.start_time), 8.hours());
        assert_eq!(instant(shift.start_time).time(), time::Time::MIDNIGHT);
    }
}

#[test]
fn some_work_and_a_roster_give_a_shift() {
    let shifts = schedule_worker_shifts_at(&need(1, vec![9]), 0).unwrap();
    assert_eq!(
        shifts,
        vec![Shift { worker: 9, start_time: 172_800, end_time: 201_600 }]
    );
}

#[test]
fn shifts_follow_the_roster_day_by_day() {
    let roster = vec![10, 20, 30];
    let anchor = first_shift_day_at(0).unwrap();
    let shifts = schedule_shifts_from(&need(80, roster.clone()), anchor).unwrap();
    assert_eq!(shifts.len(), 10);
    for (index, shift) in shifts.iter().enumerate() {
        assert_eq!(shift.worker, roster[index % 3]);
        let day = instant(shift.start_time).date().to_julian_day();
        assert_eq!(i64::from(day), i64::from(anchor.julian_day()) + (index / 3) as i64);
    }
}

#[test]
fn distinct_workers_have_one_shift_a_day() {
    let shifts = schedule_worker_shifts_at(&need(2_000, vec![5, 3, 8, 1]), 1_700_000_000).unwrap();
    let mut seen: HashSet<(u32, i32)> = HashSet::new();
    for shift in shifts.iter() {
        let start_day = instant(shift.start_time).date().to_julian_day();
        let end_day = instant(shift.end_time).date().to_julian_day();
        assert_eq!(start_day, end_day);
        assert!(seen.insert((shift.worker, start_day)));
    }
    assert_eq!(seen.len(), 250);
}

#[test]
fn a_worker_listed_twice_takes_two_turns_a_day() {
    let shifts = schedule_worker_shifts_at(&need(24, vec![5, 5]), 0).unwrap();
    let expected = vec![
        Shift { worker: 5, start_time: 172_800, end_time: 201_600 },
        Shift { worker: 5, start_time: 172_800, end_time: 201_600 },
        Shift { worker: 5, start_time: 259_200, end_time: 288_000 },
    ];
    assert_eq!(shifts, expected);
}

#[test]
fn schedule_from_a_given_anchor() {
    let anchor = Date::from_julian_day(2_451_545).unwrap();
    let shifts = schedule_shifts_from(&need(20, vec![2, 1]), anchor).unwrap();
    assert_eq!(shifts.len(), 3);
    assert_eq!(instant(shifts[0].start_time), utc(2000, time::Month::January, 1, 0));
    assert_eq!(instant(shifts[1].end_time), utc(2000, time::Month::January, 1, 8));
    assert_eq!(instant(shifts[2].start_time), utc(2000, time::Month::January, 2, 0));
    assert_eq!(shifts[0].worker, 2);
    assert_eq!(shifts[1].worker, 1);
    assert_eq!(shifts[2].worker, 2);
}

#[test]
fn schedule_stops_at_the_end_of_the_calendar() {
    let last = Date::from_julian_day(MAX_JULIAN_DAY).unwrap();
    let fits = schedule_shifts_from(&need(16, vec![1, 2]), last).unwrap();
    assert_eq!(fits.len(), 2);
    assert_eq!(fits[1].end_time, MAX_TIMESTAMP - 86_399 + 28_800);
    assert_eq!(
        schedule_shifts_from(&need(17, vec![1, 2]), last),
        Err(ScheduleError::DateOutOfRange)
    );
    assert_eq!(
        schedule_shifts_from(&need(9, vec![1]), last),
        Err(ScheduleError::DateOutOfRange)
    );
    assert!(schedule_shifts_from(&need(8, vec![1]), last).is_ok());
}

#[test]
fn schedule_fails_where_the_anchor_does_not_exist() {
    assert_eq!(
        schedule_worker_shifts_at(&need(8, vec![1]), MAX_TIMESTAMP),
        Err(ScheduleError::DateOutOfRange)
    );
    assert_eq!(
        schedule_worker_shifts_at(&need(8, vec![1]), i64::MIN),
        Err(ScheduleError::DateOutOfRange)
    );
    assert!(schedule_worker_shifts_at(&need(8, vec![1]), MAX_TIMESTAMP - 172_800).is_ok());
    assert_eq!(
        schedule_worker_shifts_at(&need(9, vec![1]), MAX_TIMESTAMP - 172_800),
        Err(ScheduleError::DateOutOfRange)
    );
}

#[test]
fn the_largest_work_for_one_worker_runs_out_of_calendar() {
    assert_eq!(
        schedule_worker_shifts_at(&need(u32::MAX, vec![1]), 0),
        Err(ScheduleError::DateOutOfRange)
    );
}
