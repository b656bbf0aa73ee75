//! The shift allocator: from a work need and an anchor day to the sequence of
//! shifts that covers the work.

use crate::calendar::{
    anchor_day, anchor_in_range, day_of_timestamp, first_shift_day_at, lemma_timestamp_at_is_on_day,
    now_utc_timestamp, timestamp_at, valid_julian_day, valid_timestamp, Date, ScheduleError,
};
use vstd::arithmetic::div_mod::{
    lemma_div_is_ordered, lemma_div_pos_is_pos, lemma_fundamental_div_mod,
    lemma_fundamental_div_mod_converse,
};
use vstd::prelude::*;

verus! {

/// Length of every shift, in hours.
pub const SHIFT_HOURS: u32 = 8;

/// Length of every shift, in seconds.
pub const SHIFT_SECONDS: i64 = 28_800;

/// Hour of the day, in UTC, at which every shift starts.
pub const SHIFT_START_HOUR: u8 = 0;

/// Hour of the day, in UTC, at which every shift ends.
pub const SHIFT_END_HOUR: u8 = 8;

/// A request: the hours of work to cover and the roster, in rotation order.
/// A worker listed twice takes two turns in each rotation.
#[derive(Clone, Debug)]
pub struct ScheduleNeed {
    pub work: u32,
    pub workers: Vec<u32>,
}

/// One shift of one worker. Both instants are Unix timestamps, in UTC.
#[derive(Clone, Copy, Debug, PartialEq, Eq, Structural)]
pub struct Shift {
    pub worker: u32,
    pub start_time: i64,
    pub end_time: i64,
}

impl Shift {
    /// Every shift lasts exactly eight hours.
    pub open spec fn wf(self) -> bool {
        self.end_time - self.start_time == SHIFT_SECONDS
    }
}

/// The number of shifts that cover `work` hours: `work / 8`, rounded up.
pub open spec fn shift_count(work: nat) -> nat {
    (work + 7) / 8
}

/// The number of days after the anchor on which the shift at `index` falls:
/// the number of whole rotations through the roster before it.
pub open spec fn day_offset(roster_len: nat, index: int) -> int {
    index / (roster_len as int)
}

/// Whether `shift` is the one that stands at `index` in the schedule of the
/// roster `workers` that starts on the day `anchor`.
pub open spec fn is_shift_at(shift: Shift, workers: Seq<u32>, anchor: int, index: int) -> bool {
    let day = anchor + day_offset(workers.len(), index);
    &&& shift.worker == workers[index % (workers.len() as int)]
    &&& shift.start_time == timestamp_at(day, SHIFT_START_HOUR as int, 0, 0)
    &&& shift.end_time == timestamp_at(day, SHIFT_END_HOUR as int, 0, 0)
}

/// Whether `shifts` is the schedule for `work` hours over the roster
/// `workers`, starting on the day `anchor`. At most one sequence is.
pub open spec fn is_schedule(shifts: Seq<Shift>, work: nat, workers: Seq<u32>, anchor: int) -> bool {
    if workers.len() == 0 {
        shifts.len() == 0
    } else {
        &&& shifts.len() == shift_count(work)
        &&& forall|i: int|
            0 <= i < shifts.len() ==> is_shift_at(#[trigger] shifts[i], workers, anchor, i)
    }
}

/// Whether every shift of `shifts` lasts exactly eight hours.
pub open spec fn all_eight_hours(shifts: Seq<Shift>) -> bool {
    forall|i: int| 0 <= i < shifts.len() ==> (#[trigger] shifts[i]).wf()
}

/// Whether no worker has two shifts of `shifts` on one calendar day: two
/// different shifts of one worker start on different days, and every shift
/// ends on the day on which it starts.
pub open spec fn no_double_booking(shifts: Seq<Shift>) -> bool {
    &&& forall|i: int, j: int|
        0 <= i < j < shifts.len() && (#[trigger] shifts[i]).worker == (#[trigger] shifts[j]).worker
            ==> day_of_timestamp(shifts[i].start_time as int) != day_of_timestamp(
            shifts[j].start_time as int,
        )
    &&& forall|i: int|
        0 <= i < shifts.len() ==> day_of_timestamp((#[trigger] shifts[i]).start_time as int)
            == day_of_timestamp(shifts[i].end_time as int)
}

/// Whether every day of the schedule for `work` hours over a roster of
/// `roster_len` workers, starting on the day `anchor`, is a day of the
/// calendar: the last shift's day is.
pub open spec fn fits_calendar(work: nat, roster_len: nat, anchor: int) -> bool {
    roster_len == 0 || work == 0 || valid_julian_day(
        anchor + day_offset(roster_len, shift_count(work) - 1),
    )
}

/// Whether `res` is the outcome of scheduling `work` hours over `workers`
/// when the current instant is `now`.
pub open spec fn is_outcome_at(
    res: Result<Vec<Shift>, ScheduleError>,
    work: nat,
    workers: Seq<u32>,
    now: int,
) -> bool {
    let served = workers.len() == 0 || work == 0 || (anchor_in_range(now) && fits_calendar(
        work,
        workers.len(),
        anchor_day(now),
    ));
    match res {
        Ok(shifts) => served && is_schedule(shifts@, work, workers, anchor_day(now)),
        Err(e) => !served && e == ScheduleError::DateOutOfRange,
    }
}

/// The schedule for `need` that starts on the day `anchor`.
///
/// Shifts are handed out in roster order; each pass through the roster fills
/// one day, and the next pass moves to the next day. The last shift may cover
/// more than the work that is left. Fails, with nothing scheduled, exactly
/// where the last shift would fall after the calendar's last day.
pub fn schedule_shifts_from(need: &ScheduleNeed, anchor: Date) -> (res: Result<
    Vec<Shift>,
    ScheduleError,
>)
    requires
        anchor.wf(),
    ensures
        res is Ok <==> fits_calendar(need.work as nat, need.workers@.len(), anchor@),
        res matches Ok(shifts) ==> is_schedule(
            shifts@,
            need.work as nat,
            need.workers@,
            anchor@,
        ),
        res matches Ok(shifts) ==> all_eight_hours(shifts@),
        res matches Ok(shifts) ==> need.workers@.no_duplicates() ==> no_double_booking(shifts@),
        res matches Err(e) ==> e == ScheduleError::DateOutOfRange,
{
    let mut shifts: Vec<Shift> = Vec::new();
    let roster_len: usize = need.workers.len();
    if roster_len == 0 {
        return Ok(shifts);
    }
    let work: u64 = need.work as u64;
    let mut shifts_scheduled: usize = 0;
    let mut hours_scheduled: u64 = 0;
    while hours_scheduled < work
        invariant
            anchor.wf(),
            roster_len == need.workers@.len(),
            roster_len > 0,
            work == need.work,
            hours_scheduled == 8 * shifts_scheduled,
            shifts_scheduled > 0 ==> 8 * (shifts_scheduled - 1) < work,
            shifts_scheduled > 0 ==> valid_julian_day(
                anchor@ + day_offset(roster_len as nat, shifts_scheduled - 1),
            ),
            shifts@.len() == shifts_scheduled,
            forall|i: int|
                0 <= i < shifts@.len() ==> is_shift_at(
                    #[trigger] shifts@[i],
                    need.workers@,
                    anchor@,
                    i,
                ),
        decreases work + SHIFT_HOURS - hours_scheduled,
    {
        let rotations: usize = shifts_scheduled / roster_len;
        let turn: usize = shifts_scheduled % roster_len;
        proof {
            let last = shift_count(work as nat) - 1;
            lemma_div_pos_is_pos(shifts_scheduled as int, roster_len as int);
            lemma_div_is_ordered(shifts_scheduled as int, last, roster_len as int);
        }
        let day = match anchor.checked_add_days(rotations as i64) {
            Some(day) => day,
            None => {
                return Err(ScheduleError::DateOutOfRange);
            },
        };
        let start_time: i64 = day.timestamp_at(SHIFT_START_HOUR, 0, 0);
        let end_time: i64 = day.timestamp_at(SHIFT_END_HOUR, 0, 0);
        shifts.push(Shift { worker: need.workers[turn], start_time, end_time });
        hours_scheduled += SHIFT_HOURS as u64;
        shifts_scheduled += 1;
    }
    proof {
        lemma_shifts_last_eight_hours(shifts@, need.work as nat, need.workers@, anchor@);
        if need.workers@.no_duplicates() {
            lemma_no_double_booking(shifts@, need.work as nat, need.workers@, anchor@);
        }
    }
    Ok(shifts)
}

/// The schedule for `need` when the current instant is `now`, a Unix
/// timestamp: the one that starts on the anchor day of `now`. With nobody on
/// the roster, or no work, the schedule is empty whatever `now` is.
pub fn schedule_worker_shifts_at(need: &ScheduleNeed, now: i64) -> (res: Result<
    Vec<Shift>,
    ScheduleError,
>)
    ensures
        is_outcome_at(res, need.work as nat, need.workers@, now as int),
        res matches Ok(shifts) ==> all_eight_hours(shifts@),
        res matches Ok(shifts) ==> need.workers@.no_duplicates() ==> no_double_booking(shifts@),
{
    if need.workers.len() == 0 || need.work == 0 {
        return Ok(Vec::new());
    }
    match first_shift_day_at(now) {
        Ok(shifts_start_from) => schedule_shifts_from(need, shifts_start_from),
        Err(e) => Err(e),
    }
}

/// The schedule for `payload`, counted from the system clock.
///
/// The outcome is that of `schedule_worker_shifts_at` on some instant of the
/// calendar. Whatever the clock says: an empty roster or no work gives the
/// empty schedule; any schedule returned has `work / 8` shifts, rounded up,
/// each of eight hours; one for some work and a roster is not empty; and with
/// no worker listed twice, no worker has two shifts on one day.
pub fn schedule_worker_shifts(payload: ScheduleNeed) -> (res: Result<Vec<Shift>, ScheduleError>)
    ensures
        exists|now: int|
            valid_timestamp(now) && #[trigger] is_outcome_at(
                res,
                payload.work as nat,
                payload.workers@,
                now,
            ),
        payload.workers@.len() == 0 ==> res is Ok && res.unwrap()@.len() == 0,
        payload.work == 0 ==> res is Ok && res.unwrap()@.len() == 0,
        res matches Ok(shifts) ==> all_eight_hours(shifts@),
        res matches Ok(shifts) ==> payload.workers@.len() > 0 ==> shifts@.len() == shift_count(
            payload.work as nat,
        ),
        res matches Ok(shifts) ==> payload.workers@.len() > 0 && payload.work > 0
            ==> shifts@.len() > 0,
        res matches Ok(shifts) ==> payload.workers@.no_duplicates() ==> no_double_booking(
            shifts@,
        ),
{
    let now: i64 = now_utc_timestamp();
    schedule_worker_shifts_at(&payload, now)
}

/// Every shift of a schedule lasts exactly eight hours.
pub proof fn lemma_shifts_last_eight_hours(
    shifts: Seq<Shift>,
    work: nat,
    workers: Seq<u32>,
    anchor: int,
)
    requires
        is_schedule(shifts, work, workers, anchor),
    ensures
        all_eight_hours(shifts),
{
    assert forall|i: int| 0 <= i < shifts.len() implies (#[trigger] shifts[i]).wf() by {
        assert(is_shift_at(shifts[i], workers, anchor, i));
    }
}

/// A schedule is empty where the roster is empty or there is no work, and
/// only there. Where there is a roster it has `work / 8` shifts, rounded up:
/// its shifts cover the work, and all but the last do not.
pub proof fn lemma_schedule_len(shifts: Seq<Shift>, work: nat, workers: Seq<u32>, anchor: int)
    requires
        is_schedule(shifts, work, workers, anchor),
    ensures
        workers.len() == 0 ==> shifts.len() == 0,
        work == 0 ==> shifts.len() == 0,
        workers.len() > 0 ==> shifts.len() == shift_count(work),
        workers.len() > 0 && work > 0 ==> shifts.len() > 0,
        workers.len() > 0 ==> SHIFT_HOURS * shifts.len() >= work,
        shifts.len() > 0 ==> SHIFT_HOURS * (shifts.len() - 1) < work,
{
}

/// At most one sequence is the schedule for a given need and anchor.
pub proof fn lemma_schedule_is_unique(
    first: Seq<Shift>,
    second: Seq<Shift>,
    work: nat,
    workers: Seq<u32>,
    anchor: int,
)
    requires
        is_schedule(first, work, workers, anchor),
        is_schedule(second, work, workers, anchor),
    ensures
        first == second,
{
    assert forall|i: int| 0 <= i < first.len() implies first[i] == second[i] by {
        assert(is_shift_at(first[i], workers, anchor, i));
        assert(is_shift_at(second[i], workers, anchor, i));
    }
    assert(first =~= second);
}

/// Each pass through the roster fills one day in roster order: in a
/// schedule, the shift of the `turn`-th worker in the `rotation`-th pass goes
/// to that worker and starts at midnight, UTC, `rotation` days after the
/// anchor.
pub proof fn lemma_rotation_fills_one_day(
    shifts: Seq<Shift>,
    work: nat,
    workers: Seq<u32>,
    anchor: int,
    rotation: int,
    turn: int,
)
    requires
        is_schedule(shifts, work, workers, anchor),
        0 <= rotation,
        0 <= turn < workers.len(),
        rotation * workers.len() + turn < shifts.len(),
    ensures
        0 <= rotation * workers.len() + turn,
        shifts[rotation * workers.len() + turn].worker == workers[turn],
        shifts[rotation * workers.len() + turn].start_time == timestamp_at(
            anchor + rotation,
            0,
            0,
            0,
        ),
        day_of_timestamp(shifts[rotation * workers.len() + turn].start_time as int) == anchor
            + rotation,
{
    let n = workers.len() as int;
    let index = rotation * n + turn;
    assert(0 <= rotation * n) by (nonlinear_arith)
        requires
            0 <= rotation,
            0 <= n,
    ;
    lemma_fundamental_div_mod_converse(index, n, rotation, turn);
    assert(is_shift_at(shifts[index], workers, anchor, index));
    lemma_timestamp_at_is_on_day(anchor + rotation, SHIFT_START_HOUR as int, 0, 0);
}

/// With no worker listed twice, no worker has two shifts on one day: two
/// different shifts of a schedule that go to the same worker start on
/// different days, and each shift ends on the day on which it starts.
pub proof fn lemma_no_double_booking(
    shifts: Seq<Shift>,
    work: nat,
    workers: Seq<u32>,
    anchor: int,
)
    requires
        is_schedule(shifts, work, workers, anchor),
        workers.no_duplicates(),
    ensures
        no_double_booking(shifts),
{
    let n = workers.len() as int;
    assert forall|i: int| 0 <= i < shifts.len() implies day_of_timestamp(
        (#[trigger] shifts[i]).start_time as int,
    ) == anchor + day_offset(workers.len(), i) && day_of_timestamp(shifts[i].end_time as int)
        == anchor + day_offset(workers.len(), i) by {
        assert(is_shift_at(shifts[i], workers, anchor, i));
        let day = anchor + day_offset(workers.len(), i);
        lemma_timestamp_at_is_on_day(day, SHIFT_START_HOUR as int, 0, 0);
        lemma_timestamp_at_is_on_day(day, SHIFT_END_HOUR as int, 0, 0);
    }
    assert forall|i: int, j: int|
        0 <= i < j < shifts.len() && (#[trigger] shifts[i]).worker == (
        #[trigger] shifts[j]).worker implies day_of_timestamp(shifts[i].start_time as int)
        != day_of_timestamp(shifts[j].start_time as int) by {
        assert(is_shift_at(shifts[i], workers, anchor, i));
        assert(is_shift_at(shifts[j], workers, anchor, j));
        lemma_fundamental_div_mod(i, n);
        lemma_fundamental_div_mod(j, n);
        if i / n == j / n {
            assert(i % n != j % n);
            assert(workers[i % n] != workers[j % n]);
        }
    }
}

} // verus!
