//! The deterministic zone-rotation schedule.
//!
//! A calendar day of month selects one of 16 rotation columns; a stage
//! activates the first `stage` of 8 fixed zone-group identifiers. Each
//! active group walks the cyclic zone numbers 1..=16, offset by the column's
//! rotation and by its own group identifier, across the day's 12 two-hour
//! slots. The zones without power in a slot are the union of the active
//! groups' current zone numbers, listed in ascending order.

use vstd::prelude::*;

use crate::datetime::day_of;
use crate::datetime::day_of_month;
use crate::datetime::day_of_month_of;
use crate::datetime::MAX_DAY_NUMBER;
use crate::datetime::SECONDS_PER_DAY;
use crate::interval::Interval;

verus! {

/// Number of rotation columns the day of month cycles through.
pub const COLUMNS: u64 = 16;

/// Number of two-hour slots per day.
pub const SLOTS_PER_DAY: u64 = 12;

/// What `column` returns: the rotation column of a 1-based day of month.
pub open spec fn column_spec(day_of_month: int) -> int {
    (day_of_month - 1) % (COLUMNS as int)
}

/// What `offset` returns: the per-column rotation offset.
pub open spec fn offset_spec(day_of_month: int) -> int {
    column_spec(day_of_month) * 12
}

/// What `shift` returns: the extra shift shared by blocks of four columns.
pub open spec fn shift_spec(day_of_month: int) -> int {
    column_spec(day_of_month) / 4
}

/// The fixed canonical starting zone-group identifiers for stages 1..=8.
pub open spec fn base_group_ids() -> Seq<int> {
    seq![0int, 8int, 12int, 4int, 1int, 9int, 13int, 5int]
}

/// How many of the base groups a stage activates: the first `stage` of them,
/// all 8 for stages beyond the end of the list.
pub open spec fn active_group_count(stage: int) -> int {
    if stage <= 8 {
        stage
    } else {
        8
    }
}

/// The zone number (in 1..=16) that `group_id` occupies in `slot` on a day
/// with the given day of month: the cyclic sequence 1,2,...,16,1,... after
/// dropping `shift + offset` elements for the day and a further `group_id`
/// elements for the group.
pub open spec fn zone_for_group(day_of_month: int, group_id: int, slot: int) -> int {
    (shift_spec(day_of_month) + offset_spec(day_of_month) + group_id + slot) % 16 + 1
}

/// The set of zones without power in `slot`: each active group contributes
/// its current zone number.
pub open spec fn slot_zone_set(stage: int, day_of_month: int, slot: int) -> Set<int> {
    Set::new(
        |z: int|
            exists|k: int|
                0 <= k < active_group_count(stage) && z == zone_for_group(
                    day_of_month,
                    #[trigger] base_group_ids()[k],
                    slot,
                ),
    )
}

/// A row of the schedule lists zone numbers in strictly ascending order.
pub open spec fn strictly_sorted(row: Seq<u64>) -> bool {
    forall|p: int, q: int| 0 <= p < q < row.len() ==> row[p] < row[q]
}

/// The rotation column of a 1-based day of month.
pub fn column(day_of_month: u64) -> (r: u64)
    requires
        1 <= day_of_month,
    ensures
        r as int == column_spec(day_of_month as int),
        r < 16,
{
    (day_of_month - 1) % 16
}

/// The per-column rotation offset.
pub fn offset(day_of_month: u64) -> (r: u64)
    requires
        1 <= day_of_month,
    ensures
        r as int == offset_spec(day_of_month as int),
        r <= 180,
{
    column(day_of_month) * 12
}

/// The extra shift shared by blocks of four columns.
pub fn shift(day_of_month: u64) -> (r: u64)
    requires
        1 <= day_of_month,
    ensures
        r as int == shift_spec(day_of_month as int),
        r < 4,
{
    column(day_of_month) / 4
}

/// The first `stage` of the fixed zone-group identifiers, in order; stages
/// past the end of the list activate all 8 groups.
pub fn initial_zones_for_stage(stage: u64) -> (r: Vec<u64>)
    ensures
        r@.len() == active_group_count(stage as int),
        forall|i: int| 0 <= i < r@.len() ==> r@[i] as int == base_group_ids()[i],
{
    let ids: [u64; 8] = [0, 8, 12, 4, 1, 9, 13, 5];
    let mut r: Vec<u64> = Vec::new();
    let mut i: usize = 0;
    while i < 8 && (i as u64) < stage
        invariant
            0 <= i <= 8,
            i as int <= active_group_count(stage as int),
            i < 8 ==> i as int == r@.len(),
            i == 8 ==> r@.len() == active_group_count(stage as int),
            r@.len() == if i as u64 <= stage { i as int } else { active_group_count(stage as int) },
            forall|j: int| 0 <= j < r@.len() ==> r@[j] as int == base_group_ids()[j],
            ids@ =~= seq![0u64, 8u64, 12u64, 4u64, 1u64, 9u64, 13u64, 5u64],
        decreases 8 - i,
    {
        r.push(ids[i]);
        i += 1;
    }
    r
}

/// Whether some active group puts zone `z` in `slot`.
fn groups_cover_zone(groups: &Vec<u64>, rotation: u64, slot: u64, z: u64) -> (r: bool)
    requires
        rotation <= 184,
        slot < 12,
        forall|k: int| 0 <= k < groups@.len() ==> groups@[k] <= 13,
    ensures
        r == exists|k: int|
            0 <= k < groups@.len() && z as int == zone_for_group_total(
                rotation as int,
                #[trigger] groups@[k] as int,
                slot as int,
            ),
{
    let mut k: usize = 0;
    while k < groups.len()
        invariant
            0 <= k <= groups@.len(),
            rotation <= 184,
            slot < 12,
            forall|j: int| 0 <= j < groups@.len() ==> groups@[j] <= 13,
            forall|j: int|
                0 <= j < k ==> z as int != zone_for_group_total(
                    rotation as int,
                    #[trigger] groups@[j] as int,
                    slot as int,
                ),
        decreases groups@.len() - k,
    {
        let zone = (rotation + groups[k] + slot) % 16 + 1;
        if zone == z {
            return true;
        }
        k += 1;
    }
    false
}

/// `zone_for_group` with the day's rotation already combined, so the helper
/// above need not recompute the column arithmetic.
pub open spec fn zone_for_group_total(rotation: int, group_id: int, slot: int) -> int {
    (rotation + group_id + slot) % 16 + 1
}

/// The day's full rotation schedule: for each of the 12 slots, the zones
/// without power, in strictly ascending order. Deterministic: the result is
/// a function of `stage` and `day_of_month` alone, as the contract states.
pub fn schedule(stage: u64, day_of_month: u64) -> (r: Vec<Vec<u64>>)
    requires
        1 <= day_of_month,
    ensures
        r@.len() == 12,
        forall|i: int| 0 <= i < 12 ==> strictly_sorted(#[trigger] r@[i]@),
        forall|i: int, z: u64|
            0 <= i < 12 ==> (#[trigger] r@[i]@.contains(z) <==> slot_zone_set(
                stage as int,
                day_of_month as int,
                i,
            ).contains(z as int)),
{
    let groups = initial_zones_for_stage(stage);
    let rotation = shift(day_of_month) + offset(day_of_month);
    proof {
        assert(forall|k: int|
            0 <= k < groups@.len() ==> #[trigger] groups@[k] as int == base_group_ids()[k]);
        assert(forall|k: int| 0 <= k < groups@.len() ==> groups@[k] <= 13) by {
            assert(forall|k: int|
                0 <= k < base_group_ids().len() ==> #[trigger] base_group_ids()[k] <= 13);
        }
    }
    let mut r: Vec<Vec<u64>> = Vec::new();
    let mut slot: u64 = 0;
    while slot < 12
        invariant
            0 <= slot <= 12,
            r@.len() == slot,
            rotation as int == shift_spec(day_of_month as int) + offset_spec(day_of_month as int),
            rotation <= 184,
            groups@.len() == active_group_count(stage as int),
            forall|k: int| 0 <= k < groups@.len() ==> #[trigger] groups@[k] as int
                == base_group_ids()[k],
            forall|k: int| 0 <= k < groups@.len() ==> groups@[k] <= 13,
            forall|i: int| 0 <= i < slot ==> strictly_sorted(#[trigger] r@[i]@),
            forall|i: int, z: u64|
                0 <= i < slot ==> (#[trigger] r@[i]@.contains(z) <==> slot_zone_set(
                    stage as int,
                    day_of_month as int,
                    i,
                ).contains(z as int)),
        decreases 12 - slot,
    {
        let mut row: Vec<u64> = Vec::new();
        let mut z: u64 = 1;
        while z <= 16
            invariant
                1 <= z <= 17,
                rotation <= 184,
                slot < 12,
                rotation as int == shift_spec(day_of_month as int) + offset_spec(
                    day_of_month as int,
                ),
                groups@.len() == active_group_count(stage as int),
                forall|k: int| 0 <= k < groups@.len() ==> #[trigger] groups@[k] as int
                    == base_group_ids()[k],
                forall|k: int| 0 <= k < groups@.len() ==> groups@[k] <= 13,
                forall|p: int| 0 <= p < row@.len() ==> 1 <= #[trigger] row@[p] < z,
                strictly_sorted(row@),
                forall|w: u64|
                    #[trigger] row@.contains(w) <==> (w < z && slot_zone_set(
                        stage as int,
                        day_of_month as int,
                        slot as int,
                    ).contains(w as int)),
            decreases 17 - z,
        {
            if groups_cover_zone(&groups, rotation, slot, z) {
                proof {
                    let k = choose|k: int|
                        0 <= k < groups@.len() && z as int == zone_for_group_total(
                            rotation as int,
                            #[trigger] groups@[k] as int,
                            slot as int,
                        );
                    assert(z as int == zone_for_group(
                        day_of_month as int,
                        base_group_ids()[k],
                        slot as int,
                    ));
                    assert(slot_zone_set(stage as int, day_of_month as int, slot as int).contains(
                        z as int,
                    ));
                }
                let ghost old_row = row@;
                row.push(z);
                proof {
                    assert(row@ =~= old_row.push(z));
                    assert forall|w: u64| old_row.contains(w) implies #[trigger] row@.contains(
                        w,
                    ) by {
                        let i = choose|i: int| 0 <= i < old_row.len() && old_row[i] == w;
                        assert(row@[i] == w);
                    }
                    assert(row@[old_row.len() as int] == z);
                    assert(row@.contains(z));
                    assert forall|w: u64| #[trigger] row@.contains(w) implies (old_row.contains(w)
                        || w == z) by {
                        let i = choose|i: int| 0 <= i < row@.len() && row@[i] == w;
                        if i < old_row.len() {
                            assert(old_row[i] == w);
                        }
                    }
                }
            } else {
                proof {
                    if slot_zone_set(stage as int, day_of_month as int, slot as int).contains(
                        z as int,
                    ) {
                        let k = choose|k: int|
                            0 <= k < active_group_count(stage as int) && z as int
                                == zone_for_group(
                                day_of_month as int,
                                #[trigger] base_group_ids()[k],
                                slot as int,
                            );
                        assert(z as int == zone_for_group_total(
                            rotation as int,
                            groups@[k] as int,
                            slot as int,
                        ));
                        assert(false);
                    }
                }
            }
            z += 1;
        }
        proof {
            assert(forall|w: u64|
                #[trigger] row@.contains(w) <==> slot_zone_set(
                    stage as int,
                    day_of_month as int,
                    slot as int,
                ).contains(w as int)) by {
                assert(forall|w: u64|
                    slot_zone_set(stage as int, day_of_month as int, slot as int).contains(
                        w as int,
                    ) ==> w < 17) by {
                    assert(forall|g: int, s: int|
                        1 <= #[trigger] zone_for_group(day_of_month as int, g, s) <= 16);
                }
            }
        }
        r.push(row);
        slot += 1;
    }
    r
}

/// Seconds between the starts of consecutive slots: each slot covers a
/// nominal two hours of local time.
pub const SECONDS_PER_SLOT: u64 = 7200;

/// Seconds an outage block lasts: the nominal two-hour slot plus a fixed
/// half-hour cushion.
pub const OUTAGE_SECONDS: u64 = 9000;

/// The candidate outage interval of a slot on a day: it opens at the slot's
/// local clock hour and lasts 2 hours 30 minutes.
pub open spec fn slot_interval(day: int, slot: int) -> Interval {
    Interval {
        start: (day * (SECONDS_PER_DAY as int) + slot * (SECONDS_PER_SLOT as int)) as u64,
        end: (day * (SECONDS_PER_DAY as int) + slot * (SECONDS_PER_SLOT as int) + (
        OUTAGE_SECONDS as int)) as u64,
    }
}

/// The candidate intervals of the first `n` slots of a day whose day of
/// month is `dom`: one interval per slot whose zone set contains `zone`.
pub open spec fn day_intervals_upto(stage: int, zone: int, day: int, dom: int, n: int) -> Seq<
    Interval,
>
    decreases n,
{
    if n <= 0 {
        Seq::empty()
    } else {
        let pre = day_intervals_upto(stage, zone, day, dom, n - 1);
        if slot_zone_set(stage, dom, n - 1).contains(zone) {
            pre.push(slot_interval(day, n - 1))
        } else {
            pre
        }
    }
}

/// The candidate intervals of a whole day.
pub open spec fn day_intervals(stage: int, zone: int, day: int, dom: int) -> Seq<Interval> {
    day_intervals_upto(stage, zone, day, dom, SLOTS_PER_DAY as int)
}

/// What `timetable_for_stage_and_zone` returns: the candidate intervals of
/// the day `t` falls on, then those of the following day, in slot order.
pub open spec fn timetable_spec(stage: int, zone: int, t: int) -> Seq<Interval> {
    let day = day_of(t);
    day_intervals(stage, zone, day, day_of_month_of(day)) + day_intervals(
        stage,
        zone,
        day + 1,
        day_of_month_of(day + 1),
    )
}

/// Whether a zone list of the schedule contains a zone.
fn vec_contains(v: &Vec<u64>, x: u64) -> (r: bool)
    ensures
        r == v@.contains(x),
{
    let mut i: usize = 0;
    while i < v.len()
        invariant
            0 <= i <= v@.len(),
            forall|j: int| 0 <= j < i ==> v@[j] != x,
        decreases v@.len() - i,
    {
        if v[i] == x {
            return true;
        }
        i += 1;
    }
    false
}

/// Append the candidate intervals of one day for a zone.
fn push_day_intervals(r: &mut Vec<Interval>, stage: u64, zone_id: u64, day: u64)
    requires
        day <= MAX_DAY_NUMBER,
    ensures
        final (r)@ == old(r)@ + day_intervals(
            stage as int,
            zone_id as int,
            day as int,
            day_of_month_of(day as int),
        ),
{
    let dom = day_of_month(day);
    let sched = schedule(stage, dom as u64);
    let mut slot: u64 = 0;
    while slot < 12
        invariant
            0 <= slot <= 12,
            day <= MAX_DAY_NUMBER,
            dom as int == day_of_month_of(day as int),
            sched@.len() == 12,
            forall|i: int, z: u64|
                0 <= i < 12 ==> (#[trigger] sched@[i]@.contains(z) <==> slot_zone_set(
                    stage as int,
                    dom as int,
                    i,
                ).contains(z as int)),
            r@ == old(r)@ + day_intervals_upto(
                stage as int,
                zone_id as int,
                day as int,
                day_of_month_of(day as int),
                slot as int,
            ),
        decreases 12 - slot,
    {
        if vec_contains(&sched[slot as usize], zone_id) {
            let start = day * SECONDS_PER_DAY + slot * SECONDS_PER_SLOT;
            let end = start + OUTAGE_SECONDS;
            proof {
                assert(Interval { start, end } == slot_interval(day as int, slot as int));
            }
            r.push(Interval { start, end });
        }
        slot += 1;
    }
}

/// The ordered candidate outage intervals for a zone at a stage: the 2.5-hour
/// blocks of every rotation slot containing the zone, evaluated for the day
/// the reference timestamp falls on and for the following day, so that
/// windows straddling local midnight still meet their candidates.
pub fn timetable_for_stage_and_zone(stage: u64, zone_id: u64, now: u64) -> (r: Vec<Interval>)
    requires
        1 <= stage <= 8,
        day_of(now as int) + 1 <= MAX_DAY_NUMBER,
    ensures
        r@ == timetable_spec(stage as int, zone_id as int, now as int),
{
    let day = now / SECONDS_PER_DAY;
    let mut r: Vec<Interval> = Vec::new();
    push_day_intervals(&mut r, stage, zone_id, day);
    push_day_intervals(&mut r, stage, zone_id, day + 1);
    r
}

/// Two strictly sorted rows that contain exactly the zones of the same set
/// are the same row.
proof fn lemma_sorted_rows_equal(a: Seq<u64>, b: Seq<u64>, s: Set<int>)
    requires
        strictly_sorted(a),
        strictly_sorted(b),
        forall|z: u64| #[trigger] a.contains(z) <==> s.contains(z as int),
        forall|z: u64| #[trigger] b.contains(z) <==> s.contains(z as int),
    ensures
        a == b,
    decreases a.len(),
{
    if a.len() == 0 {
        if b.len() > 0 {
            assert(b.contains(b[0]));
            assert(a.contains(b[0]));
            assert(false);
        }
        assert(a =~= b);
    } else {
        assert(a.contains(a[0]));
        assert(b.len() > 0) by {
            assert(b.contains(a[0]));
        }
        assert(a[0] == b[0]) by {
            assert(b.contains(a[0]));
            let j = choose|j: int| 0 <= j < b.len() && b[j] == a[0];
            assert(b[0] <= b[j]);
            assert(b.contains(b[0]));
            assert(a.contains(b[0]));
            let i = choose|i: int| 0 <= i < a.len() && a[i] == b[0];
            assert(a[0] <= a[i]);
        }
        let ta = a.drop_first();
        let tb = b.drop_first();
        let s2 = s.remove(a[0] as int);
        assert forall|z: u64| #[trigger] ta.contains(z) <==> s2.contains(z as int) by {
            if ta.contains(z) {
                let i = choose|i: int| 0 <= i < ta.len() && ta[i] == z;
                assert(a[i + 1] == z);
                assert(a.contains(z));
                assert(a[0] < a[i + 1]);
            }
            if s2.contains(z as int) {
                assert(a.contains(z));
                let i = choose|i: int| 0 <= i < a.len() && a[i] == z;
                assert(i != 0);
                assert(ta[i - 1] == z);
                assert(ta.contains(z));
            }
        }
        assert forall|z: u64| #[trigger] tb.contains(z) <==> s2.contains(z as int) by {
            if tb.contains(z) {
                let i = choose|i: int| 0 <= i < tb.len() && tb[i] == z;
                assert(b[i + 1] == z);
                assert(b.contains(z));
                assert(b[0] < b[i + 1]);
            }
            if s2.contains(z as int) {
                assert(b.contains(z));
                let i = choose|i: int| 0 <= i < b.len() && b[i] == z;
                assert(i != 0);
                assert(tb[i - 1] == z);
                assert(tb.contains(z));
            }
        }
        assert(strictly_sorted(ta)) by {
            assert(forall|p: int, q: int|
                0 <= p < q < ta.len() ==> ta[p] == a[p + 1] && ta[q] == a[q + 1]);
        }
        assert(strictly_sorted(tb)) by {
            assert(forall|p: int, q: int|
                0 <= p < q < tb.len() ==> tb[p] == b[p + 1] && tb[q] == b[q + 1]);
        }
        lemma_sorted_rows_equal(ta, tb, s2);
        assert(a =~= b) by {
            assert(forall|i: int| 1 <= i < a.len() ==> a[i] == ta[i - 1] && b[i] == tb[i - 1]);
        }
    }
}

/// The rotation schedule is deterministic: any two schedules that meet the
/// contract of `schedule` for the same stage and day of month — twelve
/// strictly sorted rows, each containing exactly the zones of its slot's set
/// — are equal, so two calls with identical arguments yield identical slot
/// sequences.
pub proof fn lemma_rotation_deterministic(r1: Seq<Seq<u64>>, r2: Seq<Seq<u64>>, stage: int, day_of_month: int)
    requires
        r1.len() == 12,
        r2.len() == 12,
        forall|i: int| 0 <= i < 12 ==> strictly_sorted(#[trigger] r1[i]),
        forall|i: int| 0 <= i < 12 ==> strictly_sorted(#[trigger] r2[i]),
        forall|i: int, z: u64|
            0 <= i < 12 ==> (#[trigger] r1[i].contains(z) <==> slot_zone_set(
                stage,
                day_of_month,
                i,
            ).contains(z as int)),
        forall|i: int, z: u64|
            0 <= i < 12 ==> (#[trigger] r2[i].contains(z) <==> slot_zone_set(
                stage,
                day_of_month,
                i,
            ).contains(z as int)),
    ensures
        r1 == r2,
{
    assert forall|i: int| 0 <= i < 12 implies r1[i] == r2[i] by {
        lemma_sorted_rows_equal(r1[i], r2[i], slot_zone_set(stage, day_of_month, i));
    }
    assert(r1 =~= r2);
}

/// The rotation column cycles with period 16 in the day of month.
pub proof fn lemma_column_period(day_of_month: int)
    requires
        1 <= day_of_month,
        day_of_month + 16 <= 31,
    ensures
        column_spec(day_of_month) == column_spec(day_of_month + 16),
{
}

} // verus!
