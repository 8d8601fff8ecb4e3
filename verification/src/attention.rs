//! Attention metrics: how long, how often and how recently each content unit
//! was looked at.

use crate::text::same_text;
use crate::time::{now, whole_seconds_between, Timestamp};
use vstd::prelude::*;

verus! {

/// Metrics for content interaction.
#[derive(Debug)]
pub struct Metrics {
    /// Unique identifier for the content.
    pub content_id: String,
    /// Total duration of attention in milliseconds.
    pub total_duration: i64,
    /// Number of interactions with the content.
    pub interactions: i32,
    /// Time of the last interaction.
    pub last_interaction: Timestamp,
    /// When the metrics were first created.
    pub created_at: Timestamp,
}

/// What a `Metrics` record holds.
pub struct MetricsView {
    pub content_id: Seq<char>,
    pub total_duration: int,
    pub interactions: int,
    pub last_interaction: Timestamp,
    pub created_at: Timestamp,
}

impl View for Metrics {
    type V = MetricsView;

    open spec fn view(&self) -> MetricsView {
        MetricsView {
            content_id: self.content_id@,
            total_duration: self.total_duration as int,
            interactions: self.interactions as int,
            last_interaction: self.last_interaction,
            created_at: self.created_at,
        }
    }
}

impl Clone for Metrics {
    fn clone(&self) -> (copy: Self)
        ensures
            copy@ == self@,
    {
        Metrics {
            content_id: self.content_id.clone(),
            total_duration: self.total_duration,
            interactions: self.interactions,
            last_interaction: self.last_interaction,
            created_at: self.created_at,
        }
    }
}

/// What a list of records holds.
pub open spec fn metrics_views(records: Seq<Metrics>) -> Seq<MetricsView> {
    records.map_values(|record: Metrics| record@)
}

/// What an optional record holds.
pub open spec fn metrics_view(record: Option<Metrics>) -> Option<MetricsView> {
    match record {
        Some(record) => Some(record@),
        None => None,
    }
}

/// The sum of the durations of all records.
pub open spec fn total_duration(records: Seq<MetricsView>) -> int
    decreases records.len(),
{
    if records.len() == 0 {
        0
    } else {
        total_duration(records.drop_last()) + records.last().total_duration
    }
}

/// The sum of the interaction counts of all records.
pub open spec fn total_interactions(records: Seq<MetricsView>) -> int
    decreases records.len(),
{
    if records.len() == 0 {
        0
    } else {
        total_interactions(records.drop_last()) + records.last().interactions
    }
}

/// No two records speak of the same content.
pub open spec fn distinct_content(records: Seq<MetricsView>) -> bool {
    forall|i: int, j: int|
        0 <= i < j < records.len() ==> records[i].content_id != records[j].content_id
}

/// Every record has a duration that is not negative and at least one
/// interaction.
pub open spec fn counts_in_range(records: Seq<MetricsView>) -> bool {
    forall|i: int|
        0 <= i < records.len() ==> (#[trigger] records[i]).total_duration >= 0
            && records[i].interactions >= 1
}

/// Where the record of `content_id` stands in `records`, if there is one.
pub open spec fn position_of(records: Seq<MetricsView>, content_id: Seq<char>) -> Option<int> {
    if exists|i: int| 0 <= i < records.len() && records[i].content_id == content_id {
        Some(choose|i: int| 0 <= i < records.len() && records[i].content_id == content_id)
    } else {
        None
    }
}

/// The record of `content_id` in `records`, if there is one.
pub open spec fn record_of(records: Seq<MetricsView>, content_id: Seq<char>) -> Option<
    MetricsView,
> {
    match position_of(records, content_id) {
        Some(at) => Some(records[at]),
        None => None,
    }
}

/// The record that one more interaction of `duration` at time `now` makes of
/// `record`.
pub open spec fn touched(record: MetricsView, duration: int, now: Timestamp) -> MetricsView {
    MetricsView {
        total_duration: record.total_duration + duration,
        interactions: record.interactions + 1,
        last_interaction: now,
        ..record
    }
}

/// The record of a content unit that is tracked for the first time.
pub open spec fn first_record(content_id: Seq<char>, duration: int, now: Timestamp) -> MetricsView {
    MetricsView {
        content_id,
        total_duration: duration,
        interactions: 1,
        last_interaction: now,
        created_at: now,
    }
}

/// `records` after an interaction of `duration` with `content_id` at time
/// `now`: the content's record is updated where it stands, or a new record
/// goes to the end.
pub open spec fn with_interaction(
    records: Seq<MetricsView>,
    content_id: Seq<char>,
    duration: int,
    now: Timestamp,
) -> Seq<MetricsView> {
    match position_of(records, content_id) {
        Some(at) => records.update(at, touched(records[at], duration, now)),
        None => records.push(first_record(content_id, duration, now)),
    }
}

/// Whether one more interaction of `duration` can be recorded: the duration
/// is not negative, and the sums over all records stay within what their
/// integer types hold.
pub open spec fn trackable(records: Seq<MetricsView>, duration: int) -> bool {
    &&& 0 <= duration
    &&& total_duration(records) + duration <= i64::MAX
    &&& total_interactions(records) + 1 <= i32::MAX
}

/// Dropping the last record keeps the counts in range.
proof fn lemma_front_in_range(records: Seq<MetricsView>, upto: int)
    requires
        counts_in_range(records),
        0 <= upto <= records.len(),
    ensures
        counts_in_range(records.take(upto)),
{
    let front = records.take(upto);
    assert forall|i: int| 0 <= i < front.len() implies (#[trigger] front[i]).total_duration >= 0
        && front[i].interactions >= 1 by {
        assert(front[i] == records[i]);
    }
}

/// Sums of counts in range are not negative.
proof fn lemma_totals_not_negative(records: Seq<MetricsView>)
    requires
        counts_in_range(records),
    ensures
        0 <= total_duration(records),
        0 <= total_interactions(records),
    decreases records.len(),
{
    if records.len() > 0 {
        lemma_front_in_range(records, records.len() - 1);
        assert(records.take(records.len() - 1) =~= records.drop_last());
        lemma_totals_not_negative(records.drop_last());
        assert(records[records.len() - 1].interactions >= 1);
    }
}

/// A record's counts are bounded by the sums over all records.
proof fn lemma_record_within_totals(records: Seq<MetricsView>, at: int)
    requires
        counts_in_range(records),
        0 <= at < records.len(),
    ensures
        records[at].total_duration <= total_duration(records),
        records[at].interactions <= total_interactions(records),
    decreases records.len(),
{
    let front = records.drop_last();
    lemma_front_in_range(records, records.len() - 1);
    assert(records.take(records.len() - 1) =~= front);
    lemma_totals_not_negative(front);
    assert(records[records.len() - 1].interactions >= 1);
    if at < front.len() {
        lemma_record_within_totals(front, at);
        assert(front[at] == records[at]);
    }
}

/// The sums over a prefix do not exceed the sums over all records.
proof fn lemma_prefix_within_totals(records: Seq<MetricsView>, upto: int)
    requires
        counts_in_range(records),
        0 <= upto <= records.len(),
    ensures
        0 <= total_duration(records.take(upto)) <= total_duration(records),
        0 <= total_interactions(records.take(upto)) <= total_interactions(records),
    decreases records.len() - upto,
{
    lemma_front_in_range(records, upto);
    lemma_totals_not_negative(records.take(upto));
    if upto == records.len() {
        assert(records.take(upto) =~= records);
    } else {
        lemma_prefix_within_totals(records, upto + 1);
        let longer = records.take(upto + 1);
        assert(longer.drop_last() =~= records.take(upto));
        assert(longer.last() == records[upto]);
        assert(records[upto].interactions >= 1);
    }
}

/// Replacing one record changes the sums by the difference of the two.
proof fn lemma_totals_after_update(records: Seq<MetricsView>, at: int, record: MetricsView)
    requires
        0 <= at < records.len(),
    ensures
        total_duration(records.update(at, record)) == total_duration(records)
            - records[at].total_duration + record.total_duration,
        total_interactions(records.update(at, record)) == total_interactions(records)
            - records[at].interactions + record.interactions,
    decreases records.len(),
{
    let updated = records.update(at, record);
    if at == records.len() - 1 {
        assert(updated.drop_last() =~= records.drop_last());
    } else {
        assert(updated.drop_last() =~= records.drop_last().update(at, record));
        lemma_totals_after_update(records.drop_last(), at, record);
    }
}

/// A quotient of two whole numbers, kept exact: the value it stands for is
/// `numerator / denominator`.
#[derive(Clone, Copy, Debug, PartialEq, Eq, Structural)]
pub struct Ratio {
    pub numerator: i64,
    pub denominator: i64,
}

/// One content unit's part of all attention: `fraction` is the content's
/// duration over the total duration, so its percentage is
/// `100 * numerator / denominator`.
#[derive(Debug)]
pub struct Share {
    pub content_id: String,
    pub fraction: Ratio,
}

/// What a `Share` holds.
pub struct ShareView {
    pub content_id: Seq<char>,
    pub numerator: int,
    pub denominator: int,
}

impl View for Share {
    type V = ShareView;

    open spec fn view(&self) -> ShareView {
        ShareView {
            content_id: self.content_id@,
            numerator: self.fraction.numerator as int,
            denominator: self.fraction.denominator as int,
        }
    }
}

/// What a list of shares holds.
pub open spec fn share_views(shares: Seq<Share>) -> Seq<ShareView> {
    shares.map_values(|share: Share| share@)
}

/// The average duration of an interaction as an exact quotient, total
/// duration over total interactions; nothing where there is no record.
pub open spec fn average_duration(records: Seq<MetricsView>) -> Option<(int, int)> {
    if records.len() == 0 {
        None
    } else {
        Some((total_duration(records), total_interactions(records)))
    }
}

/// Each record's part of the total duration, in the records' order; empty
/// where the total duration is zero.
pub open spec fn distribution(records: Seq<MetricsView>) -> Seq<ShareView> {
    if total_duration(records) == 0 {
        Seq::empty()
    } else {
        shares_of(records, total_duration(records))
    }
}

/// Each record's duration as a part of `whole`, in the records' order.
pub open spec fn shares_of(records: Seq<MetricsView>, whole: int) -> Seq<ShareView> {
    Seq::new(
        records.len(),
        |i: int|
            ShareView {
                content_id: records[i].content_id,
                numerator: records[i].total_duration,
                denominator: whole,
            },
    )
}

/// The sum of the numerators of `shares`.
pub open spec fn sum_of_numerators(shares: Seq<ShareView>) -> int
    decreases shares.len(),
{
    if shares.len() == 0 {
        0
    } else {
        sum_of_numerators(shares.drop_last()) + shares.last().numerator
    }
}

/// The order in which records are ranked.
#[derive(Clone, Copy, Debug, PartialEq, Eq, Structural)]
pub enum Ranking {
    /// More interactions first.
    ByInteractions,
    /// Later last interaction first.
    ByRecency,
}

/// `a` has to stand before `b`: it has more interactions, or was looked at
/// later.
pub open spec fn outranks(a: MetricsView, b: MetricsView, by: Ranking) -> bool {
    match by {
        Ranking::ByInteractions => a.interactions > b.interactions,
        Ranking::ByRecency => a.last_interaction.later_than(b.last_interaction),
    }
}

/// Neither of `a` and `b` has to stand before the other.
pub open spec fn same_rank(a: MetricsView, b: MetricsView, by: Ranking) -> bool {
    !outranks(a, b, by) && !outranks(b, a, by)
}

/// The test for the records that are of one rank with `peer`.
pub open spec fn ranks_with(peer: MetricsView, by: Ranking) -> spec_fn(MetricsView) -> bool {
    |record: MetricsView| same_rank(record, peer, by)
}

/// Where `record` goes into the ranked list `ranked`: before the first
/// record that it outranks, so behind every record of equal rank.
pub open spec fn slot(ranked: Seq<MetricsView>, record: MetricsView, by: Ranking) -> int
    decreases ranked.len(),
{
    if ranked.len() == 0 {
        0
    } else if outranks(record, ranked[0], by) {
        0
    } else {
        1 + slot(ranked.drop_first(), record, by)
    }
}

/// `records` in descending rank. Records of equal rank keep the order they
/// have in `records`.
pub open spec fn ranked(records: Seq<MetricsView>, by: Ranking) -> Seq<MetricsView>
    decreases records.len(),
{
    if records.len() == 0 {
        Seq::empty()
    } else {
        let front = ranked(records.drop_last(), by);
        front.insert(slot(front, records.last(), by), records.last())
    }
}

/// The first `limit` records of `records` in descending rank, or all of them
/// where there are fewer.
pub open spec fn top(records: Seq<MetricsView>, by: Ranking, limit: int) -> Seq<MetricsView> {
    let all = ranked(records, by);
    if limit < all.len() {
        all.take(limit)
    } else {
        all
    }
}

/// A record that stands in a list of distinct records is the one that its
/// identifier finds.
pub proof fn lemma_position_is_unique(records: Seq<MetricsView>, at: int)
    requires
        distinct_content(records),
        0 <= at < records.len(),
    ensures
        position_of(records, records[at].content_id) == Some(at),
{
    let id = records[at].content_id;
    let chosen = choose|i: int| 0 <= i < records.len() && records[i].content_id == id;
    if chosen < at {
        assert(records[chosen].content_id != records[at].content_id);
    } else if chosen > at {
        assert(records[at].content_id != records[chosen].content_id);
    }
}

/// Tracking keeps one record per content identifier. The record of the
/// content that was tracked gains the duration and one interaction, or is
/// created with them; no other content's record changes.
pub proof fn law_tracking_is_local(
    records: Seq<MetricsView>,
    content_id: Seq<char>,
    duration: int,
    now: Timestamp,
    other: Seq<char>,
)
    requires
        distinct_content(records),
    ensures
        distinct_content(with_interaction(records, content_id, duration, now)),
        record_of(with_interaction(records, content_id, duration, now), content_id) == Some(
            match record_of(records, content_id) {
                Some(record) => touched(record, duration, now),
                None => first_record(content_id, duration, now),
            },
        ),
        other != content_id ==> record_of(
            with_interaction(records, content_id, duration, now),
            other,
        ) == record_of(records, other),
{
    let after = with_interaction(records, content_id, duration, now);
    match position_of(records, content_id) {
        Some(at) => {
            assert(after.len() == records.len());
            assert forall|i: int| 0 <= i < after.len() implies (#[trigger] after[i]).content_id
                == records[i].content_id by {}
            assert forall|i: int, j: int| 0 <= i < j < after.len() implies after[i].content_id
                != after[j].content_id by {
                assert(records[i].content_id != records[j].content_id);
            }
            lemma_position_is_unique(after, at);
            if other != content_id {
                if exists|i: int| 0 <= i < records.len() && records[i].content_id == other {
                    let k = choose|i: int| 0 <= i < records.len() && records[i].content_id == other;
                    lemma_position_is_unique(records, k);
                    assert(after[k] == records[k]);
                    lemma_position_is_unique(after, k);
                } else {
                    assert forall|i: int| 0 <= i < after.len() implies after[i].content_id
                        != other by {
                        assert(after[i].content_id == records[i].content_id);
                    }
                }
            }
        },
        None => {
            let last = records.len() as int;
            assert(after[last].content_id == content_id);
            assert forall|i: int, j: int| 0 <= i < j < after.len() implies after[i].content_id
                != after[j].content_id by {
                assert(after[i] == records[i]);
                if j < last {
                    assert(after[j] == records[j]);
                }
            }
            lemma_position_is_unique(after, last);
            if other != content_id {
                if exists|i: int| 0 <= i < records.len() && records[i].content_id == other {
                    let k = choose|i: int| 0 <= i < records.len() && records[i].content_id == other;
                    lemma_position_is_unique(records, k);
                    assert(after[k] == records[k]);
                    lemma_position_is_unique(after, k);
                } else {
                    assert forall|i: int| 0 <= i < after.len() implies after[i].content_id
                        != other by {
                        if i < last {
                            assert(after[i] == records[i]);
                        }
                    }
                }
            }
        },
    }
}

/// Tracking a content unit once and then again adds two interactions and
/// both durations to its record: a content unit that had no record then has
/// two interactions and the sum of the two durations.
pub proof fn law_tracking_twice_adds_up(
    records: Seq<MetricsView>,
    content_id: Seq<char>,
    first: int,
    second: int,
    now: Timestamp,
    later: Timestamp,
)
    requires
        distinct_content(records),
    ensures
        ({
            let once = with_interaction(records, content_id, first, now);
            let twice = with_interaction(once, content_id, second, later);
            &&& record_of(twice, content_id) matches Some(record)
            &&& record.last_interaction == later
            &&& match record_of(records, content_id) {
                Some(before) => {
                    &&& record.interactions == before.interactions + 2
                    &&& record.total_duration == before.total_duration + first + second
                    &&& record.created_at == before.created_at
                },
                None => {
                    &&& record.interactions == 2
                    &&& record.total_duration == first + second
                    &&& record.created_at == now
                },
            }
        }),
{
    let once = with_interaction(records, content_id, first, now);
    let twice = with_interaction(once, content_id, second, later);
    law_tracking_is_local(records, content_id, first, now, content_id);
    law_tracking_is_local(once, content_id, second, later, content_id);
    let at = position_of(once, content_id)->0;
    assert(twice == once.update(at, touched(once[at], second, later)));
    lemma_position_is_unique(twice, at);
    match position_of(records, content_id) {
        Some(origin) => {
            lemma_position_is_unique(once, origin);
        },
        None => {
            lemma_position_is_unique(once, records.len() as int);
        },
    }
}

/// The numerators of the parts of a whole add up to the total duration.
proof fn lemma_numerators_add_up(records: Seq<MetricsView>, whole: int)
    ensures
        sum_of_numerators(shares_of(records, whole)) == total_duration(records),
    decreases records.len(),
{
    if records.len() > 0 {
        lemma_numerators_add_up(records.drop_last(), whole);
        assert(shares_of(records, whole).drop_last() =~= shares_of(records.drop_last(), whole));
    }
}

/// The shares of a distribution make up the whole: each is a part of the
/// total duration and the parts add up to it, so the percentages
/// `100 * numerator / denominator` add up to 100. Where the total duration is
/// zero there are no shares.
pub proof fn law_shares_make_the_whole(records: Seq<MetricsView>)
    ensures
        total_duration(records) == 0 ==> distribution(records).len() == 0,
        total_duration(records) != 0 ==> {
            &&& distribution(records).len() == records.len()
            &&& forall|i: int|
                0 <= i < records.len() ==> (#[trigger] distribution(records)[i]).denominator
                    == total_duration(records)
            &&& sum_of_numerators(distribution(records)) == total_duration(records)
        },
{
    lemma_numerators_add_up(records, total_duration(records));
}

/// What `slot` finds: no record before it is outranked, the record at it is.
proof fn lemma_slot_divides(ranked: Seq<MetricsView>, record: MetricsView, by: Ranking)
    ensures
        0 <= slot(ranked, record, by) <= ranked.len(),
        forall|j: int| 0 <= j < slot(ranked, record, by) ==> !outranks(record, ranked[j], by),
        slot(ranked, record, by) < ranked.len() ==> outranks(
            record,
            ranked[slot(ranked, record, by)],
            by,
        ),
    decreases ranked.len(),
{
    if ranked.len() > 0 && !outranks(record, ranked[0], by) {
        let rest = ranked.drop_first();
        lemma_slot_divides(rest, record, by);
        let at = slot(rest, record, by);
        assert forall|j: int| 0 <= j < at + 1 implies !outranks(record, ranked[j], by) by {
            if j > 0 {
                assert(ranked[j] == rest[j - 1]);
            }
        }
        if at < rest.len() {
            assert(ranked[at + 1] == rest[at]);
        }
    }
}

/// The first place whose record is outranked is the slot.
proof fn lemma_slot_is_first(ranked: Seq<MetricsView>, record: MetricsView, by: Ranking, at: int)
    requires
        0 <= at <= ranked.len(),
        forall|j: int| 0 <= j < at ==> !outranks(record, ranked[j], by),
        at < ranked.len() ==> outranks(record, ranked[at], by),
    ensures
        slot(ranked, record, by) == at,
    decreases ranked.len(),
{
    if at > 0 {
        let rest = ranked.drop_first();
        assert(!outranks(record, ranked[0], by));
        assert forall|j: int| 0 <= j < at - 1 implies !outranks(record, rest[j], by) by {
            assert(rest[j] == ranked[j + 1]);
        }
        if at < ranked.len() {
            assert(rest[at - 1] == ranked[at]);
        }
        lemma_slot_is_first(rest, record, by, at - 1);
    }
}

/// Ranking neither drops a record nor adds one.
pub proof fn law_ranking_keeps_every_record(records: Seq<MetricsView>, by: Ranking)
    ensures
        ranked(records, by).len() == records.len(),
        ranked(records, by).to_multiset() == records.to_multiset(),
    decreases records.len(),
{
    broadcast use {vstd::seq_lib::to_multiset_build, vstd::seq_lib::to_multiset_insert};

    if records.len() == 0 {
        assert(ranked(records, by) =~= records);
    } else {
        let front = records.drop_last();
        let last = records.last();
        law_ranking_keeps_every_record(front, by);
        let sorted = ranked(front, by);
        lemma_slot_divides(sorted, last, by);
        assert(records =~= front.push(last));
        assert(records.to_multiset() == front.to_multiset().insert(last));
        assert(sorted.insert(slot(sorted, last, by), last).to_multiset() == sorted.to_multiset().insert(
            last,
        ));
    }
}

/// Ranking puts the records in descending order: no record stands behind one
/// that it outranks.
pub proof fn law_ranking_descends(records: Seq<MetricsView>, by: Ranking)
    ensures
        forall|i: int, j: int|
            0 <= i < j < ranked(records, by).len() ==> !outranks(
                #[trigger] ranked(records, by)[j],
                #[trigger] ranked(records, by)[i],
                by,
            ),
    decreases records.len(),
{
    if records.len() > 0 {
        let front = records.drop_last();
        let last = records.last();
        law_ranking_descends(front, by);
        let sorted = ranked(front, by);
        lemma_slot_divides(sorted, last, by);
        let at = slot(sorted, last, by);
        let all = ranked(records, by);
        assert(all == sorted.insert(at, last));
        assert forall|i: int, j: int| 0 <= i < j < all.len() implies !outranks(
            #[trigger] all[j],
            #[trigger] all[i],
            by,
        ) by {
            if j < at {
                assert(all[i] == sorted[i] && all[j] == sorted[j]);
            } else if j == at {
                assert(all[i] == sorted[i]);
            } else if i == at {
                assert(all[j] == sorted[j - 1]);
                if j - 1 > at {
                    assert(!outranks(sorted[j - 1], sorted[at], by));
                }
            } else if i < at {
                assert(all[i] == sorted[i] && all[j] == sorted[j - 1]);
            } else {
                assert(all[i] == sorted[i - 1] && all[j] == sorted[j - 1]);
            }
        }
    }
}

/// A list in which no record passes the test has nothing left after the test.
proof fn lemma_filter_leaves_nothing(records: Seq<MetricsView>, test: spec_fn(MetricsView) -> bool)
    requires
        forall|i: int| 0 <= i < records.len() ==> !test(#[trigger] records[i]),
    ensures
        records.filter(test) == Seq::<MetricsView>::empty(),
    decreases records.len(),
{
    reveal(Seq::filter);
    if records.len() > 0 {
        let front = records.drop_last();
        assert forall|i: int| 0 <= i < front.len() implies !test(#[trigger] front[i]) by {
            assert(front[i] == records[i]);
        }
        lemma_filter_leaves_nothing(front, test);
        assert(!test(records[records.len() - 1]));
    }
}

/// Ranking keeps the order of records of equal rank: the records that are of
/// one rank with `peer` stand in the ranked list as they stand in `records`.
pub proof fn law_ranking_is_stable(records: Seq<MetricsView>, by: Ranking, peer: MetricsView)
    ensures
        ranked(records, by).filter(ranks_with(peer, by)) == records.filter(ranks_with(peer, by)),
    decreases records.len(),
{
    let test = ranks_with(peer, by);
    if records.len() > 0 {
        let front = records.drop_last();
        let last = records.last();
        let sorted = ranked(front, by);
        let at = slot(sorted, last, by);
        law_ranking_is_stable(front, by, peer);
        law_ranking_descends(front, by);
        lemma_slot_divides(sorted, last, by);

        let head = sorted.take(at);
        let tail = sorted.skip(at);
        let single = seq![last];
        assert(ranked(records, by) =~= head + single + tail);
        assert(sorted =~= head + tail);
        assert(records =~= front + single);
        Seq::filter_distributes_over_add(head + single, tail, test);
        Seq::filter_distributes_over_add(head, single, test);
        Seq::filter_distributes_over_add(head, tail, test);
        Seq::filter_distributes_over_add(front, single, test);

        if test(last) {
            assert forall|i: int| 0 <= i < tail.len() implies !test(#[trigger] tail[i]) by {
                assert(tail[i] == sorted[at + i]);
                assert(outranks(last, sorted[at], by));
                if i > 0 {
                    assert(!outranks(sorted[at + i], sorted[at], by));
                }
            }
            lemma_filter_leaves_nothing(tail, test);
            assert(head.filter(test) + single.filter(test) + Seq::<MetricsView>::empty()
                =~= head.filter(test) + Seq::<MetricsView>::empty() + single.filter(test));
        } else {
            assert(!test(single[0]));
            lemma_filter_leaves_nothing(single, test);
            assert(head.filter(test) + Seq::<MetricsView>::empty() + tail.filter(test)
                =~= head.filter(test) + tail.filter(test));
            assert(front.filter(test) + Seq::<MetricsView>::empty() =~= front.filter(test));
        }
    } else {
        assert(ranked(records, by) =~= records);
    }
}

/// Tracks user attention metrics for content.
///
/// Records are kept in the order in which their content was first tracked.
pub struct AttentionTracker {
    /// One record per content identifier.
    metrics: Vec<Metrics>,
    /// When the tracker was initialized.
    start_time: Timestamp,
}

impl View for AttentionTracker {
    type V = Seq<MetricsView>;

    /// The records, in the order in which their content was first tracked.
    closed spec fn view(&self) -> Seq<MetricsView> {
        metrics_views(self.metrics@)
    }
}

impl AttentionTracker {
    /// When the tracker was initialized.
    pub closed spec fn started(&self) -> Timestamp {
        self.start_time
    }

    /// The tracker's invariant: one record per content identifier, no
    /// negative duration, no record without an interaction, and sums that
    /// their integer types hold.
    pub open spec fn wf(&self) -> bool {
        &&& distinct_content(self@)
        &&& counts_in_range(self@)
        &&& total_duration(self@) <= i64::MAX
        &&& total_interactions(self@) <= i32::MAX
        &&& self.started().is_clock_reading()
    }

    /// Create a tracker that starts at the time `start`.
    pub fn starting_at(start: Timestamp) -> (tracker: Self)
        requires
            start.is_clock_reading(),
        ensures
            tracker.wf(),
            tracker@ == Seq::<MetricsView>::empty(),
            tracker.started() == start,
    {
        let tracker = AttentionTracker { metrics: Vec::new(), start_time: start };
        assert(tracker@ =~= Seq::<MetricsView>::empty());
        tracker
    }

    /// Create a new AttentionTracker instance, started now.
    pub fn new() -> (tracker: Self)
        ensures
            tracker.wf(),
            tracker@ == Seq::<MetricsView>::empty(),
    {
        Self::starting_at(now())
    }

    /// Where the record of `content_id` stands.
    fn position(&self, content_id: &str) -> (found: Option<usize>)
        requires
            distinct_content(self@),
        ensures
            match found {
                Some(at) => position_of(self@, content_id@) == Some(at as int) && at
                    < self@.len() && self@[at as int].content_id == content_id@,
                None => position_of(self@, content_id@) is None,
            },
            self@.len() == self.metrics@.len(),
    {
        let mut i: usize = 0;
        while i < self.metrics.len()
            invariant
                i <= self.metrics@.len(),
                self@.len() == self.metrics@.len(),
                distinct_content(self@),
                forall|j: int| 0 <= j < i ==> (#[trigger] self@[j]).content_id != content_id@,
            decreases self.metrics@.len() - i,
        {
            if same_text(self.metrics[i].content_id.as_str(), content_id) {
                proof {
                    assert(self@[i as int].content_id == content_id@);
                    let chosen = choose|k: int|
                        0 <= k < self@.len() && self@[k].content_id == content_id@;
                    assert(chosen == i) by {
                        if chosen < i {
                            assert(self@[chosen].content_id != self@[i as int].content_id);
                        } else if chosen > i {
                            assert(self@[i as int].content_id != self@[chosen].content_id);
                        }
                    }
                }
                return Some(i);
            }
            i += 1;
        }
        None
    }

    /// Whether one more interaction of `duration` can be recorded.
    pub fn can_track(&self, duration: i64) -> (possible: bool)
        requires
            self.wf(),
        ensures
            possible == trackable(self@, duration as int),
    {
        if duration < 0 {
            return false;
        }
        let total = self.get_total_duration();
        let count = self.total_interactions();
        proof {
            lemma_totals_not_negative(self@);
        }
        duration <= i64::MAX - total && count < i32::MAX
    }

    /// Record an interaction of `duration` milliseconds with `content_id`
    /// that took place at `now`.
    pub fn track_focus_at(&mut self, content_id: &str, duration: i64, now: Timestamp)
        requires
            old(self).wf(),
            trackable(old(self)@, duration as int),
        ensures
            final(self).wf(),
            final(self)@ == with_interaction(old(self)@, content_id@, duration as int, now),
            final(self).started() == old(self).started(),
    {
        let ghost before = self@;
        match self.position(content_id) {
            Some(at) => {
                proof {
                    lemma_record_within_totals(before, at as int);
                    lemma_totals_after_update(
                        before,
                        at as int,
                        touched(before[at as int], duration as int, now),
                    );
                }
                let record = self.metrics.remove(at);
                assert(record@ == before[at as int]);
                let updated = Metrics {
                    content_id: record.content_id,
                    total_duration: record.total_duration + duration,
                    interactions: record.interactions + 1,
                    last_interaction: now,
                    created_at: record.created_at,
                };
                assert(updated@ == touched(before[at as int], duration as int, now));
                self.metrics.insert(at, updated);
                proof {
                    let after = self@;
                    assert(after =~= before.update(at as int, updated@));
                    assert forall|i: int, j: int| 0 <= i < j < after.len() implies after[i].content_id
                        != after[j].content_id by {
                        assert(after[i].content_id == before[i].content_id);
                        assert(after[j].content_id == before[j].content_id);
                    }
                    assert forall|i: int| 0 <= i < after.len() implies (
                    #[trigger] after[i]).total_duration >= 0 && after[i].interactions >= 1 by {
                        if i != at {
                            assert(after[i] == before[i]);
                        }
                    }
                }
            },
            None => {
                let record = Metrics {
                    content_id: content_id.to_owned(),
                    total_duration: duration,
                    interactions: 1,
                    last_interaction: now,
                    created_at: now,
                };
                assert(record@ == first_record(content_id@, duration as int, now));
                self.metrics.push(record);
                proof {
                    let after = self@;
                    assert(after =~= before.push(record@));
                    assert(after.drop_last() =~= before);
                    assert forall|i: int, j: int| 0 <= i < j < after.len() implies after[i].content_id
                        != after[j].content_id by {
                        if j < before.len() {
                            assert(after[i] == before[i]);
                            assert(after[j] == before[j]);
                        } else {
                            assert(after[i] == before[i]);
                        }
                    }
                    assert forall|i: int| 0 <= i < after.len() implies (
                    #[trigger] after[i]).total_duration >= 0 && after[i].interactions >= 1 by {
                        if i < before.len() {
                            assert(after[i] == before[i]);
                        }
                    }
                }
            },
        }
    }

    /// Track focus time for specific content, at the time the clock shows:
    /// the content's record gains `duration` and one interaction, or is
    /// created with them.
    pub fn track_focus(&mut self, content_id: &str, duration: i64)
        requires
            old(self).wf(),
            trackable(old(self)@, duration as int),
        ensures
            final(self).wf(),
            exists|now: Timestamp|
                now.is_clock_reading() && final(self)@ == #[trigger] with_interaction(
                    old(self)@,
                    content_id@,
                    duration as int,
                    now,
                ),
            final(self).started() == old(self).started(),
    {
        let at = now();
        self.track_focus_at(content_id, duration, at);
    }

    /// Get metrics for specific content.
    pub fn get_focus_metrics(&self, content_id: &str) -> (record: Option<Metrics>)
        requires
            self.wf(),
        ensures
            metrics_view(record) == record_of(self@, content_id@),
    {
        match self.position(content_id) {
            Some(at) => Some(self.metrics[at].clone()),
            None => None,
        }
    }

    /// Get all tracked metrics, in the order in which their content was first
    /// tracked.
    pub fn get_all_metrics(&self) -> (records: Vec<Metrics>)
        ensures
            metrics_views(records@) == self@,
    {
        let mut records: Vec<Metrics> = Vec::new();
        let mut i: usize = 0;
        while i < self.metrics.len()
            invariant
                i <= self.metrics@.len(),
                records@.len() == i,
                forall|j: int| 0 <= j < i ==> (#[trigger] records@[j])@ == self.metrics@[j]@,
            decreases self.metrics@.len() - i,
        {
            records.push(self.metrics[i].clone());
            i += 1;
        }
        assert(metrics_views(records@) =~= self@);
        records
    }

    /// Get total tracked duration across all content.
    pub fn get_total_duration(&self) -> (total: i64)
        requires
            self.wf(),
        ensures
            total == total_duration(self@),
    {
        let mut total: i64 = 0;
        let mut i: usize = 0;
        while i < self.metrics.len()
            invariant
                self.wf(),
                i <= self.metrics@.len(),
                self@.len() == self.metrics@.len(),
                total == total_duration(self@.take(i as int)),
            decreases self.metrics@.len() - i,
        {
            proof {
                lemma_prefix_within_totals(self@, i + 1);
                let longer = self@.take(i + 1);
                assert(longer.drop_last() =~= self@.take(i as int));
                assert(longer.last() == self.metrics@[i as int]@);
            }
            total = total + self.metrics[i].total_duration;
            i += 1;
        }
        assert(self@.take(i as int) =~= self@);
        total
    }

    /// The number of interactions across all content.
    pub fn total_interactions(&self) -> (count: i32)
        requires
            self.wf(),
        ensures
            count == total_interactions(self@),
    {
        let mut count: i32 = 0;
        let mut i: usize = 0;
        while i < self.metrics.len()
            invariant
                self.wf(),
                i <= self.metrics@.len(),
                self@.len() == self.metrics@.len(),
                count == total_interactions(self@.take(i as int)),
            decreases self.metrics@.len() - i,
        {
            proof {
                lemma_prefix_within_totals(self@, i + 1);
                let longer = self@.take(i + 1);
                assert(longer.drop_last() =~= self@.take(i as int));
                assert(longer.last() == self.metrics@[i as int]@);
            }
            count = count + self.metrics[i].interactions;
            i += 1;
        }
        assert(self@.take(i as int) =~= self@);
        count
    }
    /// Get average interaction duration as an exact quotient: the total
    /// duration over the number of interactions. Nothing where no content was
    /// tracked, so that nothing is divided by zero.
    pub fn get_average_duration(&self) -> (average: Option<Ratio>)
        requires
            self.wf(),
        ensures
            average is None <==> self@.len() == 0,
            average matches Some(quotient) ==> {
                &&& average_duration(self@) == Some(
                    (quotient.numerator as int, quotient.denominator as int),
                )
                &&& quotient.denominator >= 1
            },
    {
        if self.metrics.len() == 0 {
            assert(self@.len() == 0);
            None
        } else {
            proof {
                lemma_record_within_totals(self@, 0);
            }
            let total = self.get_total_duration();
            let count = self.total_interactions();
            Some(Ratio { numerator: total, denominator: count as i64 })
        }
    }

    /// Whether `a` has to stand before `b`.
    fn stands_before(a: &Metrics, b: &Metrics, by: Ranking) -> (before: bool)
        ensures
            before == outranks(a@, b@, by),
    {
        match by {
            Ranking::ByInteractions => a.interactions > b.interactions,
            Ranking::ByRecency => a.last_interaction.is_later_than(&b.last_interaction),
        }
    }

    /// Where `record` goes into the ranked list `ranked`.
    fn slot_for(ranked: &Vec<Metrics>, record: &Metrics, by: Ranking) -> (at: usize)
        ensures
            at == slot(metrics_views(ranked@), record@, by),
            at <= ranked@.len(),
    {
        let ghost views = metrics_views(ranked@);
        let mut at: usize = 0;
        while at < ranked.len()
            invariant
                at <= ranked@.len(),
                views == metrics_views(ranked@),
                forall|j: int| 0 <= j < at ==> !outranks(record@, #[trigger] views[j], by),
            decreases ranked@.len() - at,
        {
            if Self::stands_before(record, &ranked[at], by) {
                proof {
                    assert(views[at as int] == ranked@[at as int]@);
                    lemma_slot_is_first(views, record@, by, at as int);
                }
                return at;
            }
            assert(views[at as int] == ranked@[at as int]@);
            at += 1;
        }
        proof {
            lemma_slot_is_first(views, record@, by, at as int);
        }
        at
    }

    /// All records in descending rank; records of equal rank keep the order
    /// in which their content was first tracked.
    pub fn ranked_by(&self, by: Ranking) -> (records: Vec<Metrics>)
        ensures
            metrics_views(records@) == ranked(self@, by),
    {
        let mut records: Vec<Metrics> = Vec::new();
        let mut i: usize = 0;
        assert(self@.take(0) =~= Seq::<MetricsView>::empty());
        assert(metrics_views(records@) =~= Seq::<MetricsView>::empty());
        while i < self.metrics.len()
            invariant
                i <= self.metrics@.len(),
                self@.len() == self.metrics@.len(),
                metrics_views(records@) == ranked(self@.take(i as int), by),
            decreases self.metrics@.len() - i,
        {
            let record = self.metrics[i].clone();
            let at = Self::slot_for(&records, &record, by);
            let ghost before = metrics_views(records@);
            let ghost added = record@;
            proof {
                let longer = self@.take(i + 1);
                assert(longer.drop_last() =~= self@.take(i as int));
                assert(longer.last() == added);
            }
            records.insert(at, record);
            assert(metrics_views(records@) =~= before.insert(at as int, added));
            i += 1;
        }
        assert(self@.take(i as int) =~= self@);
        records
    }

    /// The first `limit` records in descending rank.
    fn top_ranked(&self, by: Ranking, limit: usize) -> (records: Vec<Metrics>)
        ensures
            metrics_views(records@) == top(self@, by, limit as int),
    {
        let mut records = self.ranked_by(by);
        let ghost all = metrics_views(records@);
        records.truncate(limit);
        proof {
            if limit < all.len() {
                assert(metrics_views(records@) =~= all.take(limit as int));
            }
        }
        records
    }

    /// Get most interacted content: the first `limit` records by descending
    /// number of interactions.
    pub fn get_most_interacted(&self, limit: usize) -> (records: Vec<Metrics>)
        ensures
            metrics_views(records@) == top(self@, Ranking::ByInteractions, limit as int),
    {
        self.top_ranked(Ranking::ByInteractions, limit)
    }

    /// Get recently interacted content: the first `limit` records, latest
    /// interaction first.
    pub fn get_recent_interactions(&self, limit: usize) -> (records: Vec<Metrics>)
        ensures
            metrics_views(records@) == top(self@, Ranking::ByRecency, limit as int),
    {
        self.top_ranked(Ranking::ByRecency, limit)
    }

    /// Calculate attention distribution: each content unit's duration as a
    /// part of the total duration. Empty where the total duration is zero.
    pub fn get_attention_distribution(&self) -> (shares: Vec<Share>)
        requires
            self.wf(),
        ensures
            share_views(shares@) == distribution(self@),
    {
        let total = self.get_total_duration();
        let mut shares: Vec<Share> = Vec::new();
        if total == 0 {
            assert(share_views(shares@) =~= distribution(self@));
            return shares;
        }
        let mut i: usize = 0;
        while i < self.metrics.len()
            invariant
                i <= self.metrics@.len(),
                self@.len() == self.metrics@.len(),
                shares@.len() == i,
                forall|j: int|
                    0 <= j < i ==> (#[trigger] shares@[j])@ == shares_of(self@, total as int)[j],
            decreases self.metrics@.len() - i,
        {
            let record = &self.metrics[i];
            assert(self@[i as int] == record@);
            shares.push(
                Share {
                    content_id: record.content_id.clone(),
                    fraction: Ratio { numerator: record.total_duration, denominator: total },
                },
            );
            i += 1;
        }
        assert(share_views(shares@) =~= shares_of(self@, total as int));
        shares
    }

    /// Whole seconds from the tracker's start to `now`.
    pub fn uptime_at(&self, now: Timestamp) -> (seconds: i64)
        requires
            self.wf(),
            now.is_clock_reading(),
        ensures
            seconds == whole_seconds_between(self.started(), now),
    {
        self.start_time.seconds_until(&now).unwrap()
    }

    /// Get tracker uptime in seconds, at the time the clock shows.
    pub fn get_uptime(&self) -> (seconds: i64)
        requires
            self.wf(),
        ensures
            exists|now: Timestamp|
                now.is_clock_reading() && seconds == #[trigger] whole_seconds_between(
                    self.started(),
                    now,
                ),
    {
        let at = now();
        self.uptime_at(at)
    }
}

} // verus!
