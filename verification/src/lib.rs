//! Load-shedding outage engine: a deterministic zone-rotation timetable,
//! validated time intervals with intersection, a resolver that reconciles
//! announced stage windows with the per-zone rotation, forecast extension
//! past the announced horizon, and calendar-text rendering.

pub mod datetime;
pub mod ical;
pub mod interval;
pub mod resolve;
pub mod scrape;
pub mod timetable;
