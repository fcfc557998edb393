//! The outage resolver and the forecast extension.
//!
//! The resolver intersects each announced stage window with the zone's
//! rotation timetable for the window's dates and emits one titled outage
//! event per non-empty overlap, in window order and slot order. The forecast
//! extension appends synthesized, forecast-marked windows past the announced
//! horizon, so forward-looking events can still be produced.

use vstd::prelude::*;

use crate::datetime::day_of;
use crate::datetime::MAX_DAY_NUMBER;
use crate::datetime::SECONDS_PER_DAY;
use crate::interval::intersection;
use crate::interval::intersection_spec;
use crate::interval::Interval;
use crate::scrape::title_spec;
use crate::scrape::window_valid;
use crate::scrape::LoadShedTime;
use crate::timetable::day_intervals_upto;
use crate::timetable::slot_interval;
use crate::timetable::timetable_for_stage_and_zone;
use crate::timetable::timetable_spec;

verus! {

/// One final outage event: a resolved interval and its display title.
pub struct OutageEvent {
    pub interval: Interval,
    pub title: String,
}

/// The intervals and title of the events one window yields from a candidate
/// list: one event per candidate that overlaps the window.
pub open spec fn intersected(cands: Seq<Interval>, win: Interval, title: Seq<char>) -> Seq<
    (Interval, Seq<char>),
>
    decreases cands.len(),
{
    if cands.len() == 0 {
        Seq::empty()
    } else {
        let rest = intersected(cands.drop_first(), win, title);
        match intersection_spec(cands[0], win) {
            Some(iv) => seq![(iv, title)] + rest,
            None => rest,
        }
    }
}

/// The events one announced window yields for a zone.
pub open spec fn window_events(w: LoadShedTime, zone: int) -> Seq<(Interval, Seq<char>)> {
    intersected(
        timetable_spec(w.stage as int, zone, w.start as int),
        Interval { start: w.start, end: w.end },
        title_spec(w.stage as int, w.is_forecast),
    )
}

/// What `resolve` returns: the events of every window in input order.
pub open spec fn resolve_spec(ws: Seq<LoadShedTime>, zone: int) -> Seq<(Interval, Seq<char>)>
    decreases ws.len(),
{
    if ws.len() == 0 {
        Seq::empty()
    } else {
        window_events(ws[0], zone) + resolve_spec(ws.drop_first(), zone)
    }
}

/// The model of a vector of events: each event's interval and title text.
pub open spec fn events_model(evs: Seq<OutageEvent>) -> Seq<(Interval, Seq<char>)> {
    Seq::new(evs.len(), |k: int| (evs[k].interval, evs[k].title@))
}

/// Appending one event extends the model by its interval and title.
proof fn lemma_events_model_push(evs: Seq<OutageEvent>, e: OutageEvent)
    ensures
        events_model(evs.push(e)) =~= events_model(evs) + seq![(e.interval, e.title@)],
{
    assert forall|k: int| 0 <= k < evs.len() + 1 implies events_model(evs.push(e))[k] == (
    events_model(evs) + seq![(e.interval, e.title@)])[k] by {
        if k < evs.len() {
            assert(evs.push(e)[k] == evs[k]);
        } else {
            assert(evs.push(e)[k] == e);
        }
    }
}

/// Every candidate interval of a day lies inside that day's opening stretch:
/// it starts at or after the day's first second and ends within 88200
/// seconds of it.
proof fn lemma_day_intervals_bounds(stage: int, zone: int, day: int, dom: int, n: int)
    requires
        0 <= n <= 12,
        0 <= day <= MAX_DAY_NUMBER,
    ensures
        forall|k: int|
            0 <= k < day_intervals_upto(stage, zone, day, dom, n).len() ==> {
                let iv = #[trigger] day_intervals_upto(stage, zone, day, dom, n)[k];
                day * 86400 <= iv.start as int && iv.start < iv.end && iv.end as int <= day * 86400
                    + 88200
            },
    decreases n,
{
    if n > 0 {
        lemma_day_intervals_bounds(stage, zone, day, dom, n - 1);
        let pre = day_intervals_upto(stage, zone, day, dom, n - 1);
        let cur = day_intervals_upto(stage, zone, day, dom, n);
        assert(slot_interval(day, n - 1).start as int == day * 86400 + (n - 1) * 7200);
        assert(slot_interval(day, n - 1).end as int == day * 86400 + (n - 1) * 7200 + 9000);
        assert forall|k: int| 0 <= k < cur.len() implies {
            let iv = #[trigger] cur[k];
            day * 86400 <= iv.start as int && iv.start < iv.end && iv.end as int <= day * 86400
                + 88200
        } by {
            if crate::timetable::slot_zone_set(stage, dom, n - 1).contains(zone) {
                assert(cur == pre.push(slot_interval(day, n - 1)));
                if k < pre.len() {
                    assert(cur[k] == pre[k]);
                } else {
                    assert(cur[k] == slot_interval(day, n - 1));
                }
            } else {
                assert(cur == pre);
            }
        }
    }
}

/// Every interval of a zone timetable ends within the stretch of the day
/// after the reference timestamp's.
proof fn lemma_timetable_bounds(stage: int, zone: int, t: int)
    requires
        0 <= t,
        day_of(t) + 1 <= MAX_DAY_NUMBER,
    ensures
        forall|k: int|
            0 <= k < timetable_spec(stage, zone, t).len() ==> {
                let iv = #[trigger] timetable_spec(stage, zone, t)[k];
                iv.start < iv.end && iv.end as int <= (day_of(t) + 1) * 86400 + 88200
            },
{
    let day = day_of(t);
    lemma_day_intervals_bounds(stage, zone, day, crate::datetime::day_of_month_of(day), 12);
    lemma_day_intervals_bounds(stage, zone, day + 1, crate::datetime::day_of_month_of(day + 1), 12);
}

/// Resolve the announced windows for one zone: for each window, intersect
/// the zone's timetable for the window's dates and stage with the window,
/// emitting one titled event per non-empty overlap, in window order and slot
/// order within each window.
pub fn resolve(windows: &Vec<LoadShedTime>, zone_id: u64) -> (r: Vec<OutageEvent>)
    requires
        forall|k: int| 0 <= k < windows@.len() ==> window_valid(#[trigger] windows@[k]),
    ensures
        events_model(r@) == resolve_spec(windows@, zone_id as int),
        forall|k: int|
            0 <= k < r@.len() ==> crate::ical::renderable((#[trigger] r@[k]).interval.start as int)
                && crate::ical::renderable(r@[k].interval.end as int),
{
    let mut events: Vec<OutageEvent> = Vec::new();
    let ghost zone = zone_id as int;
    let mut wi: usize = 0;
    proof {
        assert(windows@.skip(0) =~= windows@);
        assert(events_model(events@) =~= Seq::<(Interval, Seq<char>)>::empty());
        assert(events_model(events@) + resolve_spec(windows@, zone) =~= resolve_spec(
            windows@,
            zone,
        ));
    }
    while wi < windows.len()
        invariant
            0 <= wi <= windows@.len(),
            zone == zone_id as int,
            forall|k: int| 0 <= k < windows@.len() ==> window_valid(#[trigger] windows@[k]),
            events_model(events@) + resolve_spec(windows@.skip(wi as int), zone) == resolve_spec(
                windows@,
                zone,
            ),
            forall|k: int|
                0 <= k < events@.len() ==> crate::ical::renderable(
                    (#[trigger] events@[k]).interval.start as int,
                ) && crate::ical::renderable(events@[k].interval.end as int),
        decreases windows@.len() - wi,
    {
        let w = windows[wi];
        proof {
            assert(windows@.skip(wi as int)[0] == windows@[wi as int]);
            assert(windows@.skip(wi as int).drop_first() =~= windows@.skip(wi + 1));
        }
        let title = w.title();
        let cands = timetable_for_stage_and_zone(w.stage, zone_id, w.start);
        let win = Interval { start: w.start, end: w.end };
        proof {
            lemma_timetable_bounds(w.stage as int, zone, w.start as int);
        }
        let ghost entry_events = events@;
        let mut ci: usize = 0;
        proof {
            assert(cands@.skip(0) =~= cands@);
            assert(events_model(entry_events) + intersected(cands@, win, title@) =~= events_model(
                entry_events,
            ) + intersected(cands@.skip(0), win, title@));
        }
        while ci < cands.len()
            invariant
                0 <= ci <= cands@.len(),
                zone == zone_id as int,
                title@ == title_spec(w.stage as int, w.is_forecast),
                win == (Interval { start: w.start, end: w.end }),
                window_valid(w),
                day_of(w.start as int) + 1 <= MAX_DAY_NUMBER,
                forall|k: int|
                    0 <= k < cands@.len() ==> (#[trigger] cands@[k]).start < cands@[k].end
                        && cands@[k].end as int <= (day_of(w.start as int) + 1) * 86400 + 88200,
                events_model(events@) + intersected(cands@.skip(ci as int), win, title@)
                    == events_model(entry_events) + intersected(cands@, win, title@),
                forall|k: int|
                    0 <= k < events@.len() ==> crate::ical::renderable(
                        (#[trigger] events@[k]).interval.start as int,
                    ) && crate::ical::renderable(events@[k].interval.end as int),
            decreases cands@.len() - ci,
        {
            proof {
                assert(cands@.skip(ci as int)[0] == cands@[ci as int]);
                assert(cands@.skip(ci as int).drop_first() =~= cands@.skip(ci + 1));
            }
            let ghost pre = events@;
            match intersection(cands[ci], win) {
                Some(iv) => {
                    proof {
                        assert(7200 <= iv.start);
                        assert(iv.end as int <= (day_of(w.start as int) + 1) * 86400 + 88200);
                        assert((iv.end as int - 7200) / 86400 <= MAX_DAY_NUMBER) by {
                            vstd::arithmetic::div_mod::lemma_div_is_ordered(
                                iv.end as int - 7200,
                                MAX_DAY_NUMBER as int * 86400 + 86399,
                                86400,
                            );
                            assert((MAX_DAY_NUMBER as int * 86400 + 86399) / 86400
                                == MAX_DAY_NUMBER);
                        }
                        assert((iv.start as int - 7200) / 86400 <= MAX_DAY_NUMBER) by {
                            vstd::arithmetic::div_mod::lemma_div_is_ordered(
                                iv.start as int - 7200,
                                MAX_DAY_NUMBER as int * 86400 + 86399,
                                86400,
                            );
                            assert((MAX_DAY_NUMBER as int * 86400 + 86399) / 86400
                                == MAX_DAY_NUMBER);
                        }
                        assert(crate::ical::renderable(iv.start as int));
                        assert(crate::ical::renderable(iv.end as int));
                    }
                    let e = OutageEvent { interval: iv, title: title.clone() };
                    proof {
                        assert(e.title@ == title@);
                    }
                    events.push(e);
                    proof {
                        lemma_events_model_push(pre, e);
                        assert(forall|k: int| 0 <= k < pre.len() ==> #[trigger] events@[k] == pre[k]);
                        assert(events_model(events@) + intersected(
                            cands@.skip(ci + 1),
                            win,
                            title@,
                        ) =~= events_model(pre) + intersected(cands@.skip(ci as int), win, title@));
                    }
                },
                None => {
                    proof {
                        assert(intersected(cands@.skip(ci as int), win, title@) == intersected(
                            cands@.skip(ci + 1),
                            win,
                            title@,
                        ));
                    }
                },
            }
            ci += 1;
        }
        proof {
            assert(cands@.skip(cands@.len() as int) =~= Seq::<Interval>::empty());
            assert(events_model(events@) + Seq::<(Interval, Seq<char>)>::empty() =~= events_model(
                events@,
            ));
            assert(events_model(events@) == events_model(entry_events) + window_events(
                windows@[wi as int],
                zone,
            ));
            assert(events_model(events@) + resolve_spec(windows@.skip(wi + 1), zone)
                =~= events_model(entry_events) + (window_events(windows@[wi as int], zone)
                + resolve_spec(windows@.skip(wi + 1), zone)));
        }
        wi += 1;
    }
    proof {
        assert(windows@.skip(windows@.len() as int) =~= Seq::<LoadShedTime>::empty());
        assert(events_model(events@) + Seq::<(Interval, Seq<char>)>::empty() =~= events_model(
            events@,
        ));
    }
    events
}

/// Every event of a candidate list is a clipped candidate: its interval is
/// non-empty, lies within the window, and carries the given title.
proof fn lemma_intersected_within(cands: Seq<Interval>, win: Interval, title: Seq<char>)
    ensures
        forall|k: int|
            0 <= k < intersected(cands, win, title).len() ==> {
                let e = #[trigger] intersected(cands, win, title)[k];
                &&& win.start <= e.0.start
                &&& e.0.end <= win.end
                &&& e.0.start < e.0.end
                &&& e.1 == title
            },
    decreases cands.len(),
{
    if cands.len() > 0 {
        lemma_intersected_within(cands.drop_first(), win, title);
        let rest = intersected(cands.drop_first(), win, title);
        let cur = intersected(cands, win, title);
        assert forall|k: int| 0 <= k < cur.len() implies {
            let e = #[trigger] cur[k];
            &&& win.start <= e.0.start
            &&& e.0.end <= win.end
            &&& e.0.start < e.0.end
            &&& e.1 == title
        } by {
            match intersection_spec(cands[0], win) {
                Some(iv) => {
                    assert(cur == seq![(iv, title)] + rest);
                    if k == 0 {
                        assert(cur[0] == (iv, title));
                    } else {
                        assert(cur[k] == rest[k - 1]);
                    }
                },
                None => {
                    assert(cur == rest);
                },
            }
        }
    }
}

/// Resolver law: an announced window's events never leave it. Every event
/// the window yields has a non-empty interval contained in the window's
/// range, and carries the window's title.
pub proof fn lemma_events_within_window(w: LoadShedTime, zone: int)
    ensures
        forall|k: int|
            0 <= k < window_events(w, zone).len() ==> {
                let e = #[trigger] window_events(w, zone)[k];
                &&& w.start <= e.0.start
                &&& e.0.end <= w.end
                &&& e.0.start < e.0.end
                &&& e.1 == title_spec(w.stage as int, w.is_forecast)
            },
{
    lemma_intersected_within(
        timetable_spec(w.stage as int, zone, w.start as int),
        Interval { start: w.start, end: w.end },
        title_spec(w.stage as int, w.is_forecast),
    );
}

/// The rendered blocks of resolved events under given unique ids.
pub open spec fn events_rendered(models: Seq<(Interval, Seq<char>)>, uids: Seq<Seq<char>>) -> Seq<
    Seq<char>,
> {
    Seq::new(
        models.len(),
        |i: int|
            crate::ical::event_spec(
                models[i].0.start as int,
                models[i].0.end as int,
                models[i].1,
                uids[i],
            ),
    )
}

/// Assemble the calendar document for a zone: one VEVENT block per resolved
/// outage event, each under a fresh unique id, inside the fixed envelope.
pub fn calendar_for(windows: &Vec<LoadShedTime>, zone_id: u64) -> (r: String)
    requires
        forall|k: int| 0 <= k < windows@.len() ==> window_valid(#[trigger] windows@[k]),
    ensures
        exists|uids: Seq<Seq<char>>|
            {
                &&& uids.len() == resolve_spec(windows@, zone_id as int).len()
                &&& (forall|k: int| 0 <= k < uids.len() ==> (#[trigger] uids[k]).len() == 36)
                &&& r@ == crate::ical::ical_spec(
                    events_rendered(resolve_spec(windows@, zone_id as int), uids),
                )
            },
{
    let events = resolve(windows, zone_id);
    let ghost model = resolve_spec(windows@, zone_id as int);
    let mut strs: Vec<String> = Vec::new();
    let ghost mut uids: Seq<Seq<char>> = Seq::empty();
    let mut i: usize = 0;
    proof {
        assert(strs.deep_view() =~= events_rendered(model.take(0), uids));
    }
    while i < events.len()
        invariant
            0 <= i <= events@.len(),
            events_model(events@) == model,
            uids.len() == i,
            forall|k: int| 0 <= k < uids.len() ==> (#[trigger] uids[k]).len() == 36,
            strs.deep_view() == events_rendered(model.take(i as int), uids),
            forall|k: int|
                0 <= k < events@.len() ==> crate::ical::renderable(
                    (#[trigger] events@[k]).interval.start as int,
                ) && crate::ical::renderable(events@[k].interval.end as int),
        decreases events@.len() - i,
    {
        let e = &events[i];
        proof {
            assert(events_model(events@)[i as int] == (e.interval, e.title@));
        }
        let s = crate::ical::event(e.interval.start, e.interval.end, e.title.as_str());
        let ghost pre = strs.deep_view();
        let ghost old_strs = strs@;
        let ghost old_uids = uids;
        proof {
            let uid = choose|uid: Seq<char>|
                uid.len() == 36 && s@ == crate::ical::event_spec(
                    e.interval.start as int,
                    e.interval.end as int,
                    e.title@,
                    uid,
                );
            uids = uids.push(uid);
        }
        strs.push(s);
        proof {
            assert(pre.len() == i);
            assert(old_strs.len() == i);
            assert(strs@ == old_strs.push(s));
            assert forall|k: int| 0 <= k < i + 1 implies strs.deep_view()[k] == events_rendered(
                model.take(i + 1),
                uids,
            )[k] by {
                assert(model.take(i + 1)[k] == model[k]);
                if k < i as int {
                    assert(strs@[k] == old_strs[k]);
                    assert(strs.deep_view()[k] == pre[k]);
                    assert(pre[k] == events_rendered(model.take(i as int), old_uids)[k]);
                    assert(model.take(i as int)[k] == model[k]);
                    assert(uids[k] == old_uids[k]);
                } else {
                    assert(strs@[k] == s);
                    assert(strs.deep_view()[k] == s@);
                    assert(model[k] == (e.interval, e.title@));
                    assert(uids[k] == uids.last());
                }
            }
            assert(strs.deep_view() =~= events_rendered(model.take(i + 1), uids));
        }
        i += 1;
    }
    proof {
        assert(model.take(model.len() as int) =~= model);
    }
    crate::ical::ical(&strs)
}

/// What the forecast extension synthesizes from the last known window: one
/// window from its end to the next local midnight, then one full-day window
/// for each of the three following calendar days, all at the last known
/// stage and all marked as forecasts.
pub open spec fn forecast_spec(last: LoadShedTime) -> Seq<LoadShedTime> {
    let m = (day_of(last.end as int) + 1) * 86400;
    seq![
        LoadShedTime { start: last.end, end: m as u64, stage: last.stage, is_forecast: true },
        LoadShedTime { start: m as u64, end: (m + 86400) as u64, stage: last.stage, is_forecast: true },
        LoadShedTime {
            start: (m + 86400) as u64,
            end: (m + 172800) as u64,
            stage: last.stage,
            is_forecast: true,
        },
        LoadShedTime {
            start: (m + 172800) as u64,
            end: (m + 259200) as u64,
            stage: last.stage,
            is_forecast: true,
        },
    ]
}

/// The synthesized forecast windows of the last known window.
pub fn forecast_windows(last: &LoadShedTime) -> (r: Vec<LoadShedTime>)
    requires
        window_valid(*last),
        day_of(last.end as int) + 4 <= MAX_DAY_NUMBER,
    ensures
        r@ == forecast_spec(*last),
        forall|k: int| 0 <= k < r@.len() ==> window_valid(#[trigger] r@[k]),
{
    let m = (last.end / SECONDS_PER_DAY + 1) * SECONDS_PER_DAY;
    proof {
        vstd::arithmetic::div_mod::lemma_fundamental_div_mod(last.end as int, 86400);
        assert(last.end < m);
        assert(day_of(m as int) == day_of(last.end as int) + 1);
        assert(day_of(m as int + 86400) == day_of(last.end as int) + 2);
        assert(day_of(m as int + 172800) == day_of(last.end as int) + 3);
    }
    let mut r: Vec<LoadShedTime> = Vec::new();
    r.push(LoadShedTime { start: last.end, end: m, stage: last.stage, is_forecast: true });
    r.push(
        LoadShedTime {
            start: m,
            end: m + SECONDS_PER_DAY,
            stage: last.stage,
            is_forecast: true,
        },
    );
    r.push(
        LoadShedTime {
            start: m + SECONDS_PER_DAY,
            end: m + 2 * SECONDS_PER_DAY,
            stage: last.stage,
            is_forecast: true,
        },
    );
    r.push(
        LoadShedTime {
            start: m + 2 * SECONDS_PER_DAY,
            end: m + 3 * SECONDS_PER_DAY,
            stage: last.stage,
            is_forecast: true,
        },
    );
    proof {
        assert(r@ =~= forecast_spec(*last));
    }
    r
}

/// Append the forecast extension to the announced windows: when there is a
/// last window and its end leaves room in the calendar, the four synthesized
/// windows follow it; otherwise the sequence is unchanged.
pub fn extend_with_forecast(windows: Vec<LoadShedTime>) -> (r: Vec<LoadShedTime>)
    requires
        forall|k: int| 0 <= k < windows@.len() ==> window_valid(#[trigger] windows@[k]),
    ensures
        windows@.len() == 0 ==> r@ == windows@,
        windows@.len() > 0 ==> r@ == if day_of(windows@.last().end as int) + 4 <= MAX_DAY_NUMBER {
            windows@ + forecast_spec(windows@.last())
        } else {
            windows@
        },
        forall|k: int| 0 <= k < r@.len() ==> window_valid(#[trigger] r@[k]),
{
    let n = windows.len();
    if n == 0 {
        return windows;
    }
    let last = windows[n - 1];
    if !(last.end / SECONDS_PER_DAY <= MAX_DAY_NUMBER - 4) {
        proof {
            assert(day_of(last.end as int) + 4 > MAX_DAY_NUMBER);
        }
        return windows;
    }
    let extra = forecast_windows(&last);
    let mut r = windows;
    let ghost base = r@;
    let mut i: usize = 0;
    while i < extra.len()
        invariant
            0 <= i <= extra@.len(),
            r@ == base + extra@.take(i as int),
            forall|k: int| 0 <= k < base.len() ==> window_valid(#[trigger] base[k]),
            forall|k: int| 0 <= k < extra@.len() ==> window_valid(#[trigger] extra@[k]),
        decreases extra@.len() - i,
    {
        r.push(extra[i]);
        proof {
            assert(extra@.take(i + 1) =~= extra@.take(i as int).push(extra@[i as int]));
            assert(base + extra@.take(i + 1) =~= (base + extra@.take(i as int)).push(
                extra@[i as int],
            ));
        }
        i += 1;
    }
    proof {
        assert(extra@.take(extra@.len() as int) =~= extra@);
        assert(forall|k: int| 0 <= k < r@.len() ==> window_valid(#[trigger] r@[k]));
    }
    r
}

/// Forecast extension law: the four synthesized windows are contiguous and
/// chronologically ordered with non-empty ranges, they begin exactly at the
/// last known end, they all carry the last known stage and the forecast
/// marker, and together they reach the local midnight four calendar days
/// past the day the last known end falls on.
pub proof fn lemma_forecast_extension(last: LoadShedTime)
    requires
        window_valid(last),
        day_of(last.end as int) + 4 <= MAX_DAY_NUMBER,
    ensures
        forecast_spec(last).len() == 4,
        forecast_spec(last)[0].start == last.end,
        forall|k: int| 0 <= k < 4 ==> (#[trigger] forecast_spec(last)[k]).is_forecast,
        forall|k: int| 0 <= k < 4 ==> (#[trigger] forecast_spec(last)[k]).stage == last.stage,
        forall|k: int| 0 <= k < 3 ==> (#[trigger] forecast_spec(last)[k]).end == forecast_spec(
            last,
        )[k + 1].start,
        forall|k: int| 0 <= k < 4 ==> (#[trigger] forecast_spec(last)[k]).start < forecast_spec(
            last,
        )[k].end,
        forecast_spec(last)[3].end as int == (day_of(last.end as int) + 4) * 86400,
{
    vstd::arithmetic::div_mod::lemma_fundamental_div_mod(last.end as int, 86400);
}

} // verus!
