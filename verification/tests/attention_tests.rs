use sap::attention::{AttentionTracker, Ratio, Share};
use sap::time::Timestamp;

fn percentage(share: &Share) -> f64 {
    (share.fraction.numerator as f64 / share.fraction.denominator as f64) * 100.0
}

fn share_of<'a>(shares: &'a [Share], content_id: &str) -> &'a Share {
    shares.iter().find(|share| share.content_id == content_id).unwrap()
}

fn at(secs: i64) -> Timestamp {
    Timestamp { secs, nanos: 0 }
}

#[test]
fn test_track_focus() {
    let mut tracker = AttentionTracker::new();
    tracker.track_focus("test-content", 1000);

    let metrics = tracker.get_focus_metrics("test-content").unwrap();
    assert_eq!(metrics.total_duration, 1000);
    assert_eq!(metrics.interactions, 1);
}

#[test]
fn test_multiple_interactions() {
    let mut tracker = AttentionTracker::new();

    tracker.track_focus("test-content", 1000);
    tracker.track_focus("test-content", 2000);

    let metrics = tracker.get_focus_metrics("test-content").unwrap();
    assert_eq!(metrics.total_duration, 3000);
    assert_eq!(metrics.interactions, 2);
}

#[test]
fn test_attention_distribution() {
    let mut tracker = AttentionTracker::new();

    tracker.track_focus("content-1", 6000); // 60%
    tracker.track_focus("content-2", 4000); // 40%

    let distribution = tracker.get_attention_distribution();

    assert!((percentage(share_of(&distribution, "content-1")) - 60.0).abs() < f64::EPSILON);
    assert!((percentage(share_of(&distribution, "content-2")) - 40.0).abs() < f64::EPSILON);
}

#[test]
fn test_most_interacted() {
    let mut tracker = AttentionTracker::new();

    tracker.track_focus("content-1", 1000);
    tracker.track_focus("content-2", 1000);
    tracker.track_focus("content-2", 1000);

    let most_interacted = tracker.get_most_interacted(1);
    assert_eq!(most_interacted[0].content_id, "content-2");
    assert_eq!(most_interacted[0].interactions, 2);
}

#[test]
fn a_new_tracker_holds_nothing() {
    let tracker = AttentionTracker::new();
    assert!(tracker.get_all_metrics().is_empty());
    assert!(tracker.get_focus_metrics("anything").is_none());
    assert_eq!(tracker.get_total_duration(), 0);
    assert!(tracker.get_average_duration().is_none());
    assert!(tracker.get_attention_distribution().is_empty());
    assert!(tracker.get_most_interacted(5).is_empty());
}

#[test]
fn the_first_interaction_creates_the_record() {
    let mut tracker = AttentionTracker::starting_at(at(100));
    tracker.track_focus_at("a", 250, at(200));

    let record = tracker.get_focus_metrics("a").unwrap();
    assert_eq!(record.content_id, "a");
    assert_eq!(record.total_duration, 250);
    assert_eq!(record.interactions, 1);
    assert_eq!(record.created_at, at(200));
    assert_eq!(record.last_interaction, at(200));
}

#[test]
fn later_interactions_update_the_record_and_keep_its_creation_time() {
    let mut tracker = AttentionTracker::starting_at(at(100));
    tracker.track_focus_at("a", 250, at(200));
    tracker.track_focus_at("b", 10, at(210));
    tracker.track_focus_at("a", 750, at(300));

    let record = tracker.get_focus_metrics("a").unwrap();
    assert_eq!(record.total_duration, 1000);
    assert_eq!(record.interactions, 2);
    assert_eq!(record.created_at, at(200));
    assert_eq!(record.last_interaction, at(300));

    let other = tracker.get_focus_metrics("b").unwrap();
    assert_eq!(other.total_duration, 10);
    assert_eq!(other.interactions, 1);
    assert_eq!(other.last_interaction, at(210));
}

#[test]
fn records_stay_in_the_order_of_their_first_interaction() {
    let mut tracker = AttentionTracker::starting_at(at(0));
    tracker.track_focus_at("b", 1, at(1));
    tracker.track_focus_at("a", 1, at(2));
    tracker.track_focus_at("b", 1, at(3));

    let ids: Vec<String> =
        tracker.get_all_metrics().into_iter().map(|record| record.content_id).collect();
    assert_eq!(ids, vec!["b".to_string(), "a".to_string()]);
}

#[test]
fn a_zero_duration_still_counts_as_an_interaction() {
    let mut tracker = AttentionTracker::starting_at(at(0));
    tracker.track_focus_at("a", 0, at(1));
    let record = tracker.get_focus_metrics("a").unwrap();
    assert_eq!(record.total_duration, 0);
    assert_eq!(record.interactions, 1);
}

#[test]
fn the_total_duration_is_the_sum_over_all_records() {
    let mut tracker = AttentionTracker::starting_at(at(0));
    tracker.track_focus_at("a", 1500, at(1));
    tracker.track_focus_at("b", 2500, at(2));
    tracker.track_focus_at("a", 500, at(3));
    assert_eq!(tracker.get_total_duration(), 4500);
    assert_eq!(tracker.total_interactions(), 3);
}

#[test]
fn the_average_is_total_duration_over_total_interactions() {
    let mut tracker = AttentionTracker::starting_at(at(0));
    tracker.track_focus_at("a", 1000, at(1));
    tracker.track_focus_at("a", 2000, at(2));
    tracker.track_focus_at("b", 1500, at(3));

    let average = tracker.get_average_duration().unwrap();
    assert_eq!(average, Ratio { numerator: 4500, denominator: 3 });
    assert_eq!(average.numerator as f64 / average.denominator as f64, 1500.0);
}

#[test]
fn the_shares_of_a_distribution_add_up_to_the_whole() {
    let mut tracker = AttentionTracker::starting_at(at(0));
    tracker.track_focus_at("a", 1, at(1));
    tracker.track_focus_at("b", 2, at(2));
    tracker.track_focus_at("c", 4, at(3));

    let shares = tracker.get_attention_distribution();
    assert_eq!(shares.len(), 3);
    assert!(shares.iter().all(|share| share.fraction.denominator == 7));
    assert_eq!(shares.iter().map(|share| share.fraction.numerator).sum::<i64>(), 7);
    let percent: f64 = shares.iter().map(percentage).sum();
    assert!((percent - 100.0).abs() < 1e-9);
}

#[test]
fn the_distribution_is_empty_while_the_total_duration_is_zero() {
    let mut tracker = AttentionTracker::starting_at(at(0));
    tracker.track_focus_at("a", 0, at(1));
    tracker.track_focus_at("b", 0, at(2));
    assert!(tracker.get_attention_distribution().is_empty());
}

#[test]
fn most_interacted_ranks_by_descending_interactions() {
    let mut tracker = AttentionTracker::starting_at(at(0));
    tracker.track_focus_at("one", 1, at(1));
    tracker.track_focus_at("three", 1, at(2));
    tracker.track_focus_at("two", 1, at(3));
    tracker.track_focus_at("three", 1, at(4));
    tracker.track_focus_at("two", 1, at(5));
    tracker.track_focus_at("three", 1, at(6));

    let ranked: Vec<(String, i32)> = tracker
        .get_most_interacted(10)
        .into_iter()
        .map(|record| (record.content_id, record.interactions))
        .collect();
    assert_eq!(
        ranked,
        vec![("three".to_string(), 3), ("two".to_string(), 2), ("one".to_string(), 1)]
    );
}

#[test]
fn records_of_equal_rank_keep_their_order() {
    let mut tracker = AttentionTracker::starting_at(at(0));
    tracker.track_focus_at("first", 1, at(1));
    tracker.track_focus_at("second", 1, at(2));
    tracker.track_focus_at("third", 1, at(3));
    tracker.track_focus_at("second", 1, at(4));
    tracker.track_focus_at("first", 1, at(5));

    let ids: Vec<String> =
        tracker.get_most_interacted(3).into_iter().map(|record| record.content_id).collect();
    assert_eq!(ids, vec!["first".to_string(), "second".to_string(), "third".to_string()]);
}

#[test]
fn a_limit_cuts_the_ranking_and_a_limit_of_zero_yields_nothing() {
    let mut tracker = AttentionTracker::starting_at(at(0));
    tracker.track_focus_at("a", 1, at(1));
    tracker.track_focus_at("b", 1, at(2));
    tracker.track_focus_at("b", 1, at(3));
    tracker.track_focus_at("c", 1, at(4));

    assert!(tracker.get_most_interacted(0).is_empty());
    assert_eq!(tracker.get_most_interacted(2).len(), 2);
    assert_eq!(tracker.get_most_interacted(3).len(), 3);
    assert_eq!(tracker.get_most_interacted(usize::MAX).len(), 3);
    assert_eq!(tracker.get_recent_interactions(1).len(), 1);
}

#[test]
fn recent_interactions_rank_by_latest_interaction() {
    let mut tracker = AttentionTracker::starting_at(at(0));
    tracker.track_focus_at("old", 1, Timestamp { secs: 10, nanos: 5 });
    tracker.track_focus_at("new", 1, Timestamp { secs: 30, nanos: 0 });
    tracker.track_focus_at("mid", 1, Timestamp { secs: 20, nanos: 0 });
    tracker.track_focus_at("old", 1, Timestamp { secs: 20, nanos: 1 });

    let ids: Vec<String> =
        tracker.get_recent_interactions(10).into_iter().map(|record| record.content_id).collect();
    assert_eq!(ids, vec!["new".to_string(), "old".to_string(), "mid".to_string()]);

    let latest = tracker.get_recent_interactions(1);
    assert_eq!(latest[0].content_id, "new");
}

#[test]
fn ranking_keeps_every_record() {
    let mut tracker = AttentionTracker::starting_at(at(0));
    tracker.track_focus_at("a", 1, at(4));
    tracker.track_focus_at("b", 1, at(3));
    tracker.track_focus_at("c", 1, at(2));
    tracker.track_focus_at("c", 1, at(1));

    let mut ids: Vec<String> = tracker
        .ranked_by(sap::attention::Ranking::ByInteractions)
        .into_iter()
        .map(|record| record.content_id)
        .collect();
    ids.sort();
    assert_eq!(ids, vec!["a".to_string(), "b".to_string(), "c".to_string()]);
}

#[test]
fn can_track_refuses_what_would_not_fit() {
    let mut tracker = AttentionTracker::starting_at(at(0));
    assert!(tracker.can_track(0));
    assert!(tracker.can_track(i64::MAX));
    assert!(!tracker.can_track(-1));

    tracker.track_focus_at("a", i64::MAX - 10, at(1));
    assert!(tracker.can_track(10));
    assert!(!tracker.can_track(11));
    assert_eq!(tracker.get_total_duration(), i64::MAX - 10);
}

#[test]
fn uptime_counts_whole_seconds_since_the_start() {
    let tracker = AttentionTracker::starting_at(Timestamp { secs: 100, nanos: 900_000_000 });
    assert_eq!(tracker.uptime_at(Timestamp { secs: 100, nanos: 900_000_000 }), 0);
    assert_eq!(tracker.uptime_at(Timestamp { secs: 103, nanos: 899_999_999 }), 2);
    assert_eq!(tracker.uptime_at(Timestamp { secs: 103, nanos: 900_000_000 }), 3);
    assert_eq!(tracker.uptime_at(Timestamp { secs: 99, nanos: 0 }), -1);
    assert_eq!(tracker.uptime_at(Timestamp { secs: 100, nanos: 0 }), 0);
}

#[test]
fn a_tracker_started_now_has_been_up_for_a_moment() {
    let tracker = AttentionTracker::new();
    let uptime = tracker.get_uptime();
    assert!((0..5).contains(&uptime));
}

#[test]
fn track_focus_reads_the_clock() {
    let mut tracker = AttentionTracker::new();
    tracker.track_focus("a", 1);
    let record = tracker.get_focus_metrics("a").unwrap();
    assert!(record.created_at.secs > 0);
    assert!(record.created_at.nanos < 1_000_000_000);
    assert_eq!(record.created_at, record.last_interaction);
}

#[test]
fn a_cloned_record_equals_its_original() {
    let mut tracker = AttentionTracker::starting_at(at(0));
    tracker.track_focus_at("a", 5, at(7));
    let record = tracker.get_focus_metrics("a").unwrap();
    let copy = record.clone();
    assert_eq!(copy.content_id, record.content_id);
    assert_eq!(copy.total_duration, record.total_duration);
    assert_eq!(copy.interactions, record.interactions);
    assert_eq!(copy.last_interaction, record.last_interaction);
    assert_eq!(copy.created_at, record.created_at);
}
