//! Rule-based content filtering with attention metrics.
//!
//! Content units run through an ordered set of rules; what survives is
//! counted by the metrics tracker. This library decides and counts; writing
//! the results to durable storage is left to its caller.

use crate::attention::{
    law_tracking_is_local, metrics_view, record_of, trackable, with_interaction, AttentionTracker,
    Metrics, MetricsView,
};
use crate::content::{
    evaluable, process, rule_views, upsert, ConditionView, Content, ContentFilter, ContentView,
    Rule, RuleError, RuleView,
};
use crate::time::{now, Timestamp};
use vstd::prelude::*;

pub mod attention;
pub mod content;
pub mod pattern;
pub mod store;
pub mod text;
pub mod time;

verus! {

/// What became of a content unit that the rules let through: the content as
/// the rules left it, and its refreshed metrics record, which the caller is
/// to store.
#[derive(Debug)]
pub struct Processed {
    pub content: Content,
    pub metrics: Metrics,
}

/// What an optional `Processed` holds.
pub open spec fn processed_view(outcome: Option<Processed>) -> Option<(ContentView, MetricsView)> {
    match outcome {
        Some(processed) => Some((processed.content@, processed.metrics@)),
        None => None,
    }
}

/// What processing `content` at time `now` hands back, given the rules and
/// the records before it: nothing where the rules drop the content, else the
/// content as the rules leave it and its record after the interaction.
pub open spec fn processing_outcome(
    rules: Seq<RuleView>,
    records: Seq<MetricsView>,
    content: ContentView,
    now: Timestamp,
) -> Option<(ContentView, MetricsView)> {
    match process(rules, content) {
        Some(kept) => Some(
            (
                kept,
                record_of(with_interaction(records, kept.id, kept.view_duration, now), kept.id)->0,
            ),
        ),
        None => None,
    }
}

/// The records after processing `content` at time `now`: untouched where the
/// rules drop the content, else with one more interaction for it.
pub open spec fn records_after(
    rules: Seq<RuleView>,
    records: Seq<MetricsView>,
    content: ContentView,
    now: Timestamp,
) -> Seq<MetricsView> {
    match process(rules, content) {
        Some(kept) => with_interaction(records, kept.id, kept.view_duration, now),
        None => records,
    }
}

/// Whether `content` can be processed: where the rules let it through, its
/// view duration can be recorded.
pub open spec fn processable(
    rules: Seq<RuleView>,
    records: Seq<MetricsView>,
    content: ContentView,
) -> bool {
    process(rules, content) matches Some(kept) ==> trackable(records, kept.view_duration)
}

/// Core processor: runs content through the filter and tracks attention for
/// what survives.
pub struct LocalProcessor {
    attention_tracker: AttentionTracker,
    content_filter: ContentFilter,
}

impl LocalProcessor {
    /// The active rules, in evaluation order.
    pub closed spec fn rules(&self) -> Seq<RuleView> {
        self.content_filter@
    }

    /// The metrics records, in the order in which their content was first
    /// tracked.
    pub closed spec fn records(&self) -> Seq<MetricsView> {
        self.attention_tracker@
    }

    /// The processor's invariant: that of its filter and of its tracker.
    pub closed spec fn wf(&self) -> bool {
        self.content_filter.wf() && self.attention_tracker.wf()
    }

    /// Create a new LocalProcessor instance with no rules and no records.
    pub fn new() -> (processor: Self)
        ensures
            processor.wf(),
            processor.rules() == Seq::<RuleView>::empty(),
            processor.records() == Seq::<MetricsView>::empty(),
    {
        LocalProcessor {
            attention_tracker: AttentionTracker::new(),
            content_filter: ContentFilter::new(),
        }
    }

    /// Whether `content` can be processed.
    pub fn can_process(&self, content: &Content) -> (possible: bool)
        requires
            self.wf(),
        ensures
            possible == processable(self.rules(), self.records(), content@),
    {
        match self.content_filter.process_content(content) {
            Ok(Some(kept)) => self.attention_tracker.can_track(kept.view_duration),
            _ => true,
        }
    }

    /// Process content through the filter and track attention at time `now`.
    /// Content that a rule drops leaves the metrics untouched.
    pub fn process_content_at(&mut self, content: Content, now: Timestamp) -> (outcome: Result<
        Option<Processed>,
        RuleError,
    >)
        requires
            old(self).wf(),
            processable(old(self).rules(), old(self).records(), content@),
        ensures
            final(self).wf(),
            final(self).rules() == old(self).rules(),
            final(self).records() == records_after(
                old(self).rules(),
                old(self).records(),
                content@,
                now,
            ),
            outcome matches Ok(handed) && processed_view(handed) == processing_outcome(
                old(self).rules(),
                old(self).records(),
                content@,
                now,
            ),
    {
        match self.content_filter.process_content(&content) {
            Ok(Some(kept)) => {
                proof {
                    law_tracking_is_local(
                        self.attention_tracker@,
                        kept.id@,
                        kept.view_duration as int,
                        now,
                        kept.id@,
                    );
                }
                self.attention_tracker.track_focus_at(kept.id.as_str(), kept.view_duration, now);
                let metrics = self.attention_tracker.get_focus_metrics(kept.id.as_str()).unwrap();
                Ok(Some(Processed { content: kept, metrics }))
            },
            Ok(None) => Ok(None),
            Err(error) => Err(error),
        }
    }

    /// Process content through the filter and track attention, at the time
    /// the clock shows.
    pub fn process_content(&mut self, content: Content) -> (outcome: Result<
        Option<Processed>,
        RuleError,
    >)
        requires
            old(self).wf(),
            processable(old(self).rules(), old(self).records(), content@),
        ensures
            final(self).wf(),
            final(self).rules() == old(self).rules(),
            exists|now: Timestamp|
                {
                    &&& now.is_clock_reading()
                    &&& final(self).records() == #[trigger] records_after(
                        old(self).rules(),
                        old(self).records(),
                        content@,
                        now,
                    )
                    &&& outcome matches Ok(handed)
                    &&& processed_view(handed) == processing_outcome(
                        old(self).rules(),
                        old(self).records(),
                        content@,
                        now,
                    )
                },
    {
        let at = now();
        self.process_content_at(content, at)
    }

    /// Add a content filtering rule. A rule that the filter refuses changes
    /// nothing and is not to be stored.
    pub fn add_rule(&mut self, rule: Rule) -> (outcome: Result<(), RuleError>)
        requires
            old(self).wf(),
        ensures
            final(self).wf(),
            final(self).records() == old(self).records(),
            outcome is Ok <==> evaluable(rule@.condition),
            outcome is Ok ==> final(self).rules() == upsert(old(self).rules(), rule@),
            outcome matches Err(error) ==> {
                &&& final(self).rules() == old(self).rules()
                &&& error matches RuleError::InvalidPattern { pattern, .. }
                &&& rule@.condition == ConditionView::Regex(pattern@)
            },
    {
        self.content_filter.add_rule(rule)
    }

    /// The metrics record of `content_id`, as the tracker holds it.
    pub fn tracked_metrics(&self, content_id: &str) -> (record: Option<Metrics>)
        requires
            self.wf(),
        ensures
            metrics_view(record) == record_of(self.records(), content_id@),
    {
        self.attention_tracker.get_focus_metrics(content_id)
    }

    /// The active rules, in evaluation order.
    pub fn active_rules(&self) -> (rules: Vec<Rule>)
        ensures
            rule_views(rules@) == self.rules(),
    {
        self.content_filter.get_rules()
    }
}

} // verus!
