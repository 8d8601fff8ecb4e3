//! The durable form of metrics: what a record looks like as a stored row, how
//! a row is read back, and which rows a cleanup removes.

use crate::attention::{Metrics, MetricsView};
use crate::time::{now, representable_secs, time_from_secs, Timestamp};
use vstd::prelude::*;

verus! {

/// Seconds in one day.
pub const SECS_PER_DAY: i64 = 86_400;

/// One row of the metrics table. Times are whole seconds since the epoch.
#[derive(Debug)]
pub struct MetricsRow {
    pub content_id: String,
    pub total_duration: i64,
    pub interactions: i32,
    pub last_interaction: i64,
    pub created_at: i64,
}

/// What a `MetricsRow` holds.
pub struct MetricsRowView {
    pub content_id: Seq<char>,
    pub total_duration: int,
    pub interactions: int,
    pub last_interaction: i64,
    pub created_at: i64,
}

impl View for MetricsRow {
    type V = MetricsRowView;

    open spec fn view(&self) -> MetricsRowView {
        MetricsRowView {
            content_id: self.content_id@,
            total_duration: self.total_duration as int,
            interactions: self.interactions as int,
            last_interaction: self.last_interaction,
            created_at: self.created_at,
        }
    }
}

/// The row under which `record` is stored for the key `content_id`: the whole
/// record replaces what was stored, and its times lose their nanoseconds.
pub open spec fn row_of(content_id: Seq<char>, record: MetricsView) -> MetricsRowView {
    MetricsRowView {
        content_id,
        total_duration: record.total_duration,
        interactions: record.interactions,
        last_interaction: record.last_interaction.secs,
        created_at: record.created_at.secs,
    }
}

/// The time that a stored number of seconds stands for; `fallback` where the
/// number is out of the calendar's range.
pub open spec fn time_of(secs: i64, fallback: Timestamp) -> Timestamp {
    if representable_secs(secs) {
        Timestamp { secs, nanos: 0 }
    } else {
        fallback
    }
}

/// The record that `row` is read back as.
pub open spec fn record_of_row(
    row: MetricsRowView,
    last_fallback: Timestamp,
    created_fallback: Timestamp,
) -> MetricsView {
    MetricsView {
        content_id: row.content_id,
        total_duration: row.total_duration,
        interactions: row.interactions,
        last_interaction: time_of(row.last_interaction, last_fallback),
        created_at: time_of(row.created_at, created_fallback),
    }
}

/// `record` with its times cut to whole seconds.
pub open spec fn to_whole_seconds(record: MetricsView) -> MetricsView {
    MetricsView {
        last_interaction: Timestamp { secs: record.last_interaction.secs, nanos: 0 },
        created_at: Timestamp { secs: record.created_at.secs, nanos: 0 },
        ..record
    }
}

/// The time before which a cleanup that keeps `days_to_keep` days removes
/// records, in seconds since the epoch.
pub open spec fn cutoff(now_secs: i64, days_to_keep: i64) -> int {
    now_secs - days_to_keep * SECS_PER_DAY
}

/// A record that is stored under its own identifier and read back is the same
/// record with its times cut to whole seconds, as long as its times are
/// within the calendar's range.
pub proof fn law_row_round_trip(
    record: MetricsView,
    last_fallback: Timestamp,
    created_fallback: Timestamp,
)
    requires
        representable_secs(record.last_interaction.secs),
        representable_secs(record.created_at.secs),
    ensures
        record_of_row(row_of(record.content_id, record), last_fallback, created_fallback)
            == to_whole_seconds(record),
{
}

/// The row to store for `metrics` under the key `content_id`.
pub fn metrics_row(content_id: &str, metrics: &Metrics) -> (row: MetricsRow)
    ensures
        row@ == row_of(content_id@, metrics@),
{
    MetricsRow {
        content_id: content_id.to_owned(),
        total_duration: metrics.total_duration,
        interactions: metrics.interactions,
        last_interaction: metrics.last_interaction.secs,
        created_at: metrics.created_at.secs,
    }
}

/// The time that a stored number of seconds stands for; the time the clock
/// shows where the number is out of the calendar's range.
pub fn stored_time(secs: i64) -> (time: Timestamp)
    ensures
        representable_secs(secs) ==> time == (Timestamp { secs, nanos: 0 }),
        !representable_secs(secs) ==> time.is_clock_reading(),
{
    match time_from_secs(secs) {
        Some(time) => time,
        None => now(),
    }
}

/// The record that `row` holds. A stored time that is out of the calendar's
/// range is read as the time the clock shows.
pub fn metrics_from_row(row: &MetricsRow) -> (metrics: Metrics)
    ensures
        exists|last_fallback: Timestamp, created_fallback: Timestamp|
            last_fallback.is_clock_reading() && created_fallback.is_clock_reading() && metrics@
                == #[trigger] record_of_row(row@, last_fallback, created_fallback),
{
    let last_interaction = stored_time(row.last_interaction);
    let created_at = stored_time(row.created_at);
    let metrics = Metrics {
        content_id: row.content_id.clone(),
        total_duration: row.total_duration,
        interactions: row.interactions,
        last_interaction,
        created_at,
    };
    proof {
        let clock = Timestamp { secs: 0, nanos: 0 };
        let last_fallback = if representable_secs(row.last_interaction) {
            clock
        } else {
            last_interaction
        };
        let created_fallback = if representable_secs(row.created_at) {
            clock
        } else {
            created_at
        };
        assert(metrics@ == record_of_row(row@, last_fallback, created_fallback));
    }
    metrics
}

/// The cutoff of a cleanup at `now_secs` that keeps `days_to_keep` days, or
/// nothing where it does not fit into 64 bits.
pub fn cleanup_cutoff(now_secs: i64, days_to_keep: i64) -> (limit: Option<i64>)
    ensures
        limit is Some <==> i64::MIN <= cutoff(now_secs, days_to_keep) <= i64::MAX
            && i64::MIN <= days_to_keep * SECS_PER_DAY <= i64::MAX,
        limit matches Some(secs) ==> secs == cutoff(now_secs, days_to_keep),
{
    match days_to_keep.checked_mul(SECS_PER_DAY) {
        Some(span) => now_secs.checked_sub(span),
        None => None,
    }
}

} // verus!
