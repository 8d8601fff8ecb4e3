use sap::attention::Metrics;
use sap::store::{cleanup_cutoff, metrics_from_row, metrics_row, stored_time, MetricsRow};
use sap::time::Timestamp;

fn record() -> Metrics {
    Metrics {
        content_id: "test".to_string(),
        total_duration: 1000,
        interactions: 1,
        last_interaction: Timestamp { secs: 1_700_000_100, nanos: 999_999_999 },
        created_at: Timestamp { secs: 1_700_000_000, nanos: 1 },
    }
}

#[test]
fn a_row_holds_the_record_with_times_in_whole_seconds() {
    let row = metrics_row("test", &record());
    assert_eq!(row.content_id, "test");
    assert_eq!(row.total_duration, 1000);
    assert_eq!(row.interactions, 1);
    assert_eq!(row.last_interaction, 1_700_000_100);
    assert_eq!(row.created_at, 1_700_000_000);
}

#[test]
fn a_row_is_keyed_by_the_identifier_it_is_stored_under() {
    let row = metrics_row("other-key", &record());
    assert_eq!(row.content_id, "other-key");
}

#[test]
fn a_stored_record_reads_back_with_the_same_counts() {
    let original = record();
    let restored = metrics_from_row(&metrics_row(&original.content_id, &original));
    assert_eq!(restored.content_id, original.content_id);
    assert_eq!(restored.total_duration, original.total_duration);
    assert_eq!(restored.interactions, original.interactions);
    assert_eq!(restored.last_interaction, Timestamp { secs: 1_700_000_100, nanos: 0 });
    assert_eq!(restored.created_at, Timestamp { secs: 1_700_000_000, nanos: 0 });
}

#[test]
fn a_time_before_the_epoch_reads_back_as_it_was_stored() {
    assert_eq!(stored_time(-86_400), Timestamp { secs: -86_400, nanos: 0 });
    assert_eq!(stored_time(0), Timestamp { secs: 0, nanos: 0 });
    assert_eq!(stored_time(1_431_648_000), Timestamp { secs: 1_431_648_000, nanos: 0 });
}

#[test]
fn a_stored_time_out_of_range_reads_as_the_present() {
    for secs in [i64::MAX, i64::MIN] {
        let time = stored_time(secs);
        assert!(time.secs > 1_000_000_000);
        assert!(time.secs < 100_000_000_000);
        assert!(time.nanos < 1_000_000_000);
    }
}

#[test]
fn a_row_with_a_time_out_of_range_keeps_its_counts() {
    let row = MetricsRow {
        content_id: "odd".to_string(),
        total_duration: 5,
        interactions: 2,
        last_interaction: i64::MAX,
        created_at: 10,
    };
    let restored = metrics_from_row(&row);
    assert_eq!(restored.content_id, "odd");
    assert_eq!(restored.total_duration, 5);
    assert_eq!(restored.interactions, 2);
    assert_eq!(restored.created_at, Timestamp { secs: 10, nanos: 0 });
    assert!(restored.last_interaction.secs < 100_000_000_000);
}

#[test]
fn the_cutoff_lies_the_kept_days_before_now() {
    assert_eq!(cleanup_cutoff(1_700_000_000, 30), Some(1_700_000_000 - 30 * 86_400));
    assert_eq!(cleanup_cutoff(1_700_000_000, 0), Some(1_700_000_000));
    assert_eq!(cleanup_cutoff(0, 1), Some(-86_400));
    assert_eq!(cleanup_cutoff(100, -1), Some(100 + 86_400));
}

#[test]
fn a_cutoff_that_does_not_fit_is_refused() {
    assert_eq!(cleanup_cutoff(0, i64::MAX), None);
    assert_eq!(cleanup_cutoff(0, i64::MAX / 86_400 + 1), None);
    assert_eq!(cleanup_cutoff(i64::MIN, 1), None);
    assert_eq!(cleanup_cutoff(i64::MAX, -1), None);
    assert_eq!(cleanup_cutoff(0, i64::MAX / 86_400), Some(-(i64::MAX / 86_400 * 86_400)));
}
