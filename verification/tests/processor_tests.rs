use sap::content::{ActionType, ConditionType, Content, Rule, RuleError};
use sap::time::Timestamp;
use sap::LocalProcessor;
use std::collections::HashMap;

fn content(id: &str, text: &str, view_duration: i64) -> Content {
    Content {
        id: id.to_string(),
        text: text.to_string(),
        view_duration,
        metadata: HashMap::new(),
        flags: vec![],
    }
}

fn no_ads() -> Rule {
    Rule {
        id: "no-ads".to_string(),
        condition: ConditionType::Keyword("sponsored".to_string()),
        action: ActionType::Filter,
    }
}

fn at(secs: i64) -> Timestamp {
    Timestamp { secs, nanos: 0 }
}

#[test]
fn surviving_content_is_tracked_and_its_record_handed_back() {
    let mut processor = LocalProcessor::new();
    processor.add_rule(no_ads()).unwrap();

    let processed =
        processor.process_content_at(content("c1", "a plain post", 3000), at(50)).unwrap().unwrap();
    assert_eq!(processed.content.id, "c1");
    assert_eq!(processed.content.text, "a plain post");
    assert_eq!(processed.metrics.content_id, "c1");
    assert_eq!(processed.metrics.total_duration, 3000);
    assert_eq!(processed.metrics.interactions, 1);
    assert_eq!(processed.metrics.created_at, at(50));

    let again =
        processor.process_content_at(content("c1", "a plain post", 2000), at(60)).unwrap().unwrap();
    assert_eq!(again.metrics.total_duration, 5000);
    assert_eq!(again.metrics.interactions, 2);
    assert_eq!(again.metrics.created_at, at(50));
    assert_eq!(again.metrics.last_interaction, at(60));

    let held = processor.tracked_metrics("c1").unwrap();
    assert_eq!(held.total_duration, 5000);
}

#[test]
fn filtered_content_leaves_the_metrics_untouched() {
    let mut processor = LocalProcessor::new();
    processor.add_rule(no_ads()).unwrap();

    let outcome =
        processor.process_content_at(content("ad", "a Sponsored post", 9000), at(50)).unwrap();
    assert!(outcome.is_none());
    assert!(processor.tracked_metrics("ad").is_none());
}

#[test]
fn content_is_tracked_as_the_rules_leave_it() {
    let mut processor = LocalProcessor::new();
    processor
        .add_rule(Rule {
            id: "mark".to_string(),
            condition: ConditionType::Regex("^draft".to_string()),
            action: ActionType::Flag { flags: vec!["draft".to_string()] },
        })
        .unwrap();

    let processed =
        processor.process_content_at(content("d", "draft one", 10), at(1)).unwrap().unwrap();
    assert_eq!(processed.content.flags, vec!["draft".to_string()]);
    assert_eq!(processed.metrics.total_duration, 10);
}

#[test]
fn processing_reads_the_clock() {
    let mut processor = LocalProcessor::new();
    let processed = processor.process_content(content("c", "text", 1)).unwrap().unwrap();
    assert!(processed.metrics.last_interaction.secs > 0);
    assert_eq!(processed.metrics.interactions, 1);
}

#[test]
fn a_refused_rule_is_not_active() {
    let mut processor = LocalProcessor::new();
    let outcome = processor.add_rule(Rule {
        id: "broken".to_string(),
        condition: ConditionType::Regex("(".to_string()),
        action: ActionType::Filter,
    });
    assert!(matches!(outcome, Err(RuleError::InvalidPattern { .. })));
    assert!(processor.active_rules().is_empty());

    processor.add_rule(no_ads()).unwrap();
    let ids: Vec<String> = processor.active_rules().into_iter().map(|rule| rule.id).collect();
    assert_eq!(ids, vec!["no-ads".to_string()]);
}

#[test]
fn content_can_be_processed_while_its_duration_fits() {
    let mut processor = LocalProcessor::new();
    processor.add_rule(no_ads()).unwrap();

    assert!(processor.can_process(&content("c", "text", 0)));
    assert!(!processor.can_process(&content("c", "text", -1)));
    assert!(processor.can_process(&content("c", "sponsored text", -1)));

    processor.process_content_at(content("c", "text", i64::MAX), at(1)).unwrap();
    assert!(processor.can_process(&content("c", "text", 0)));
    assert!(!processor.can_process(&content("d", "text", 1)));
}
