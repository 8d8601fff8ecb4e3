//! Content units and the rules that keep, rewrite or drop them.

use crate::pattern::{describe, pattern_compiles, pattern_matches, regex_source};
use crate::text::{contains_ignoring_case, fill_template, keyword_occurs, same_text, substitute};
use std::collections::HashMap;
use vstd::prelude::*;

verus! {

/// The character sequences that a list of strings holds.
pub open spec fn texts(strings: Seq<String>) -> Seq<Seq<char>> {
    strings.map_values(|s: String| s@)
}

/// Content to be processed.
#[derive(Debug)]
pub struct Content {
    /// Unique identifier for the content.
    pub id: String,
    /// Main text content.
    pub text: String,
    /// View duration in milliseconds.
    pub view_duration: i64,
    /// Free-form metadata.
    pub metadata: HashMap<String, String>,
    /// Flags that rules have attached.
    pub flags: Vec<String>,
}

/// What a `Content` holds.
pub struct ContentView {
    pub id: Seq<char>,
    pub text: Seq<char>,
    pub view_duration: int,
    pub metadata: Map<String, String>,
    pub flags: Seq<Seq<char>>,
}

impl View for Content {
    type V = ContentView;

    open spec fn view(&self) -> ContentView {
        ContentView {
            id: self.id@,
            text: self.text@,
            view_duration: self.view_duration as int,
            metadata: self.metadata@,
            flags: texts(self.flags@),
        }
    }
}

impl Clone for Content {
    fn clone(&self) -> (copy: Self)
        ensures
            copy@ == self@,
    {
        Content {
            id: self.id.clone(),
            text: self.text.clone(),
            view_duration: self.view_duration,
            metadata: self.metadata.clone(),
            flags: self.flags.clone(),
        }
    }
}

/// Condition types for filtering rules.
#[derive(Debug)]
pub enum ConditionType {
    /// Case-insensitive keyword containment.
    Keyword(String),
    /// Regular expression pattern.
    Regex(String),
    /// Machine learning model inference; never matches. The threshold is held
    /// as the bit pattern of a single-precision number.
    MachineLearning { model_id: String, threshold_bits: u32 },
}

/// What a `ConditionType` holds.
pub enum ConditionView {
    Keyword(Seq<char>),
    Regex(Seq<char>),
    MachineLearning { model_id: Seq<char>, threshold_bits: u32 },
}

impl View for ConditionType {
    type V = ConditionView;

    open spec fn view(&self) -> ConditionView {
        match self {
            ConditionType::Keyword(keyword) => ConditionView::Keyword(keyword@),
            ConditionType::Regex(pattern) => ConditionView::Regex(pattern@),
            ConditionType::MachineLearning { model_id, threshold_bits } => {
                ConditionView::MachineLearning {
                    model_id: model_id@,
                    threshold_bits: *threshold_bits,
                }
            },
        }
    }
}

impl Clone for ConditionType {
    fn clone(&self) -> (copy: Self)
        ensures
            copy@ == self@,
    {
        match self {
            ConditionType::Keyword(keyword) => ConditionType::Keyword(keyword.clone()),
            ConditionType::Regex(pattern) => ConditionType::Regex(pattern.clone()),
            ConditionType::MachineLearning { model_id, threshold_bits } => {
                ConditionType::MachineLearning {
                    model_id: model_id.clone(),
                    threshold_bits: *threshold_bits,
                }
            },
        }
    }
}

/// Action types for filtering rules.
#[derive(Debug)]
pub enum ActionType {
    /// Remove content completely.
    Filter,
    /// Replace the text by a template in which `{content}` stands for the
    /// original text.
    Modify { transform: String },
    /// Append flags to the content.
    Flag { flags: Vec<String> },
}

/// What an `ActionType` holds.
pub enum ActionView {
    Filter,
    Modify { transform: Seq<char> },
    Flag { flags: Seq<Seq<char>> },
}

impl View for ActionType {
    type V = ActionView;

    open spec fn view(&self) -> ActionView {
        match self {
            ActionType::Filter => ActionView::Filter,
            ActionType::Modify { transform } => ActionView::Modify { transform: transform@ },
            ActionType::Flag { flags } => ActionView::Flag { flags: texts(flags@) },
        }
    }
}

impl Clone for ActionType {
    fn clone(&self) -> (copy: Self)
        ensures
            copy@ == self@,
    {
        match self {
            ActionType::Filter => ActionType::Filter,
            ActionType::Modify { transform } => ActionType::Modify { transform: transform.clone() },
            ActionType::Flag { flags } => ActionType::Flag { flags: flags.clone() },
        }
    }
}

/// Rule for content filtering.
#[derive(Debug)]
pub struct Rule {
    /// Unique identifier for the rule.
    pub id: String,
    /// Condition to evaluate.
    pub condition: ConditionType,
    /// Action to take when the condition matches.
    pub action: ActionType,
}

/// What a `Rule` holds.
pub struct RuleView {
    pub id: Seq<char>,
    pub condition: ConditionView,
    pub action: ActionView,
}

impl View for Rule {
    type V = RuleView;

    open spec fn view(&self) -> RuleView {
        RuleView { id: self.id@, condition: self.condition@, action: self.action@ }
    }
}

impl Clone for Rule {
    fn clone(&self) -> (copy: Self)
        ensures
            copy@ == self@,
    {
        Rule {
            id: self.id.clone(),
            condition: self.condition.clone(),
            action: self.action.clone(),
        }
    }
}

/// Why a rule or a condition was refused.
#[derive(Debug)]
pub enum RuleError {
    /// The regular expression engine does not accept the pattern.
    InvalidPattern {
        /// The pattern that was refused.
        pattern: String,
        /// The engine's account of the refusal.
        message: String,
    },
    /// The condition type is none of `keyword`, `regex` and `ml`.
    UnknownCondition {
        /// The type that was given.
        tag: String,
    },
    /// The action type is none of `filter`, `modify` and `flag`.
    UnknownAction {
        /// The type that was given.
        tag: String,
    },
}

impl RuleError {
    /// The refusal in words: the engine's account for a pattern, a fixed
    /// sentence for an unknown type.
    pub fn message(&self) -> (text: String)
        ensures
            text@ == match *self {
                RuleError::InvalidPattern { message, .. } => message@,
                RuleError::UnknownCondition { .. } => "Invalid condition type"@,
                RuleError::UnknownAction { .. } => "Invalid action type"@,
            },
    {
        match self {
            RuleError::InvalidPattern { message, .. } => message.clone(),
            RuleError::UnknownCondition { .. } => "Invalid condition type".to_owned(),
            RuleError::UnknownAction { .. } => "Invalid action type".to_owned(),
        }
    }
}

/// The threshold of a machine learning condition that names none: one half,
/// as the bit pattern of a single-precision number.
pub const DEFAULT_THRESHOLD_BITS: u32 = 0x3f00_0000;

/// The kinds of action that a rule can take.
#[derive(Clone, Copy, Debug, PartialEq, Eq, Structural)]
pub enum ActionKind {
    Filter,
    Modify,
    Flag,
}

/// The condition that the type `tag` makes of `value`, if `tag` names a
/// condition type: `keyword`, `regex` or `ml`.
pub open spec fn condition_for(tag: Seq<char>, value: Seq<char>) -> Option<ConditionView> {
    if tag == "keyword"@ {
        Some(ConditionView::Keyword(value))
    } else if tag == "regex"@ {
        Some(ConditionView::Regex(value))
    } else if tag == "ml"@ {
        Some(
            ConditionView::MachineLearning {
                model_id: value,
                threshold_bits: DEFAULT_THRESHOLD_BITS,
            },
        )
    } else {
        None
    }
}

/// The kind of action that `tag` names, if any: `filter`, `modify` or `flag`.
pub open spec fn action_kind_for(tag: Seq<char>) -> Option<ActionKind> {
    if tag == "filter"@ {
        Some(ActionKind::Filter)
    } else if tag == "modify"@ {
        Some(ActionKind::Modify)
    } else if tag == "flag"@ {
        Some(ActionKind::Flag)
    } else {
        None
    }
}

/// A template that yields the original text unchanged.
pub open spec fn default_transform() -> Seq<char> {
    "{content}"@
}

/// The flags of a flag action that names none.
pub open spec fn default_flags() -> Seq<Seq<char>> {
    seq!["flagged"@]
}

impl ConditionType {
    /// The condition of type `tag` over `value`. A machine learning
    /// condition takes `value` as its model and gets the default threshold.
    pub fn from_tag(tag: &str, value: String) -> (outcome: Result<ConditionType, RuleError>)
        ensures
            match outcome {
                Ok(condition) => condition_for(tag@, value@) == Some(condition@),
                Err(error) => {
                    &&& condition_for(tag@, value@) is None
                    &&& error matches RuleError::UnknownCondition { tag: given }
                    &&& given@ == tag@
                },
            },
    {
        if same_text(tag, "keyword") {
            Ok(ConditionType::Keyword(value))
        } else if same_text(tag, "regex") {
            Ok(ConditionType::Regex(value))
        } else if same_text(tag, "ml") {
            Ok(
                ConditionType::MachineLearning {
                    model_id: value,
                    threshold_bits: DEFAULT_THRESHOLD_BITS,
                },
            )
        } else {
            Err(RuleError::UnknownCondition { tag: tag.to_owned() })
        }
    }
}

impl ActionKind {
    /// The kind of action that `tag` names.
    pub fn from_tag(tag: &str) -> (outcome: Result<ActionKind, RuleError>)
        ensures
            match outcome {
                Ok(kind) => action_kind_for(tag@) == Some(kind),
                Err(error) => {
                    &&& action_kind_for(tag@) is None
                    &&& error matches RuleError::UnknownAction { tag: given }
                    &&& given@ == tag@
                },
            },
    {
        if same_text(tag, "filter") {
            Ok(ActionKind::Filter)
        } else if same_text(tag, "modify") {
            Ok(ActionKind::Modify)
        } else if same_text(tag, "flag") {
            Ok(ActionKind::Flag)
        } else {
            Err(RuleError::UnknownAction { tag: tag.to_owned() })
        }
    }
}

impl ActionType {
    /// A modify action with the given template; without one, the template
    /// that yields the original text.
    pub fn modify(transform: Option<String>) -> (action: ActionType)
        ensures
            action@ == (ActionView::Modify {
                transform: match transform {
                    Some(template) => template@,
                    None => default_transform(),
                },
            }),
    {
        match transform {
            Some(template) => ActionType::Modify { transform: template },
            None => ActionType::Modify { transform: "{content}".to_owned() },
        }
    }

    /// A flag action with the given flags; without any, the single flag
    /// `flagged`.
    pub fn flag(flags: Option<Vec<String>>) -> (action: ActionType)
        ensures
            action@ == (ActionView::Flag {
                flags: match flags {
                    Some(given) => texts(given@),
                    None => default_flags(),
                },
            }),
    {
        match flags {
            Some(given) => ActionType::Flag { flags: given },
            None => {
                let mut flags: Vec<String> = Vec::new();
                flags.push("flagged".to_owned());
                assert(texts(flags@) =~= default_flags());
                ActionType::Flag { flags }
            },
        }
    }
}

/// Whether `condition` is true of a content unit whose text is `text`.
pub open spec fn condition_holds(condition: ConditionView, text: Seq<char>) -> bool {
    match condition {
        ConditionView::Keyword(keyword) => keyword_occurs(text, keyword),
        ConditionView::Regex(pattern) => pattern_matches(pattern, text),
        ConditionView::MachineLearning { .. } => false,
    }
}

/// Whether `condition` can be evaluated at all: every condition can, but for
/// a regular expression that the engine refuses.
pub open spec fn evaluable(condition: ConditionView) -> bool {
    condition matches ConditionView::Regex(pattern) ==> pattern_compiles(pattern)
}

/// What `action` makes of `content`: nothing when it filters, otherwise the
/// content with its text rewritten or its flags extended.
pub open spec fn apply_action(action: ActionView, content: ContentView) -> Option<ContentView> {
    match action {
        ActionView::Filter => None,
        ActionView::Modify { transform } => Some(
            ContentView { text: substitute(transform, content.text), ..content },
        ),
        ActionView::Flag { flags } => Some(ContentView { flags: content.flags + flags, ..content }),
    }
}

/// The outcome of running `content` through `rules` in order: the action of
/// the first rule whose condition holds decides, and content that no rule
/// matches passes through unchanged.
pub open spec fn process(rules: Seq<RuleView>, content: ContentView) -> Option<ContentView>
    decreases rules.len(),
{
    if rules.len() == 0 {
        Some(content)
    } else if condition_holds(rules[0].condition, content.text) {
        apply_action(rules[0].action, content)
    } else {
        process(rules.drop_first(), content)
    }
}

/// No two rules share an identifier.
pub open spec fn distinct_ids(rules: Seq<RuleView>) -> bool {
    forall|i: int, j: int| 0 <= i < j < rules.len() ==> rules[i].id != rules[j].id
}

/// Where the rule called `id` stands in `rules`, if there is one.
pub open spec fn position_of(rules: Seq<RuleView>, id: Seq<char>) -> Option<int> {
    if exists|i: int| 0 <= i < rules.len() && rules[i].id == id {
        Some(choose|i: int| 0 <= i < rules.len() && rules[i].id == id)
    } else {
        None
    }
}

/// `rules` after `rule` was added: a rule with the same identifier is
/// replaced where it stands, a new one goes to the end.
pub open spec fn upsert(rules: Seq<RuleView>, rule: RuleView) -> Seq<RuleView> {
    match position_of(rules, rule.id) {
        Some(at) => rules.update(at, rule),
        None => rules.push(rule),
    }
}

/// `rules` without the rule called `id`.
pub open spec fn without(rules: Seq<RuleView>, id: Seq<char>) -> Seq<RuleView> {
    match position_of(rules, id) {
        Some(at) => rules.remove(at),
        None => rules,
    }
}

/// The rule called `id` in `rules`, if there is one.
pub open spec fn rule_named(rules: Seq<RuleView>, id: Seq<char>) -> Option<RuleView> {
    match position_of(rules, id) {
        Some(at) => Some(rules[at]),
        None => None,
    }
}

/// What a list of rules holds.
pub open spec fn rule_views(rules: Seq<Rule>) -> Seq<RuleView> {
    rules.map_values(|rule: Rule| rule@)
}

/// What an optional content unit holds.
pub open spec fn content_view(content: Option<Content>) -> Option<ContentView> {
    match content {
        Some(content) => Some(content@),
        None => None,
    }
}

/// What an optional rule holds.
pub open spec fn rule_view(rule: Option<Rule>) -> Option<RuleView> {
    match rule {
        Some(rule) => Some(rule@),
        None => None,
    }
}

/// The first rule whose condition holds decides the outcome: no later rule
/// is applied, whatever its condition says.
pub proof fn law_first_match_wins(rules: Seq<RuleView>, content: ContentView, at: int)
    requires
        0 <= at < rules.len(),
        condition_holds(rules[at].condition, content.text),
        forall|j: int| 0 <= j < at ==> !condition_holds(rules[j].condition, content.text),
    ensures
        process(rules, content) == apply_action(rules[at].action, content),
    decreases rules.len(),
{
    if at > 0 {
        let rest = rules.drop_first();
        assert(rest[at - 1] == rules[at]);
        assert forall|j: int| 0 <= j < at - 1 implies !condition_holds(
            rest[j].condition,
            content.text,
        ) by {
            assert(rest[j] == rules[j + 1]);
        }
        law_first_match_wins(rest, content, at - 1);
    }
}

/// Content that no rule matches passes through unchanged.
pub proof fn law_unmatched_passes_through(rules: Seq<RuleView>, content: ContentView)
    requires
        forall|j: int| 0 <= j < rules.len() ==> !condition_holds(rules[j].condition, content.text),
    ensures
        process(rules, content) == Some(content),
    decreases rules.len(),
{
    if rules.len() > 0 {
        let rest = rules.drop_first();
        assert forall|j: int| 0 <= j < rest.len() implies !condition_holds(
            rest[j].condition,
            content.text,
        ) by {
            assert(rest[j] == rules[j + 1]);
        }
        law_unmatched_passes_through(rest, content);
    }
}

/// A compiled regular expression, kept with the pattern it was built from.
struct CompiledPattern {
    pattern: String,
    compiled: regex::Regex,
}

/// Content filter implementing rule-based filtering.
///
/// Rules are kept in the order in which their identifiers were first added,
/// and are evaluated in that order.
pub struct ContentFilter {
    /// Active filtering rules, in evaluation order.
    rules: Vec<Rule>,
    /// Compiled regular expressions, one per pattern.
    regex_cache: Vec<CompiledPattern>,
}

impl View for ContentFilter {
    type V = Seq<RuleView>;

    /// The active rules, in evaluation order.
    closed spec fn view(&self) -> Seq<RuleView> {
        rule_views(self.rules@)
    }
}

impl ContentFilter {
    /// The patterns whose compiled form is cached.
    pub closed spec fn cached(&self) -> Set<Seq<char>> {
        Set::new(
            |pattern: Seq<char>|
                exists|i: int|
                    0 <= i < self.regex_cache@.len() && (#[trigger] self.regex_cache@[i]).pattern@
                        == pattern,
        )
    }

    /// Every cache entry holds the compiled form of its own pattern.
    pub closed spec fn cache_faithful(&self) -> bool {
        forall|i: int|
            0 <= i < self.regex_cache@.len() ==> regex_source(
                (#[trigger] self.regex_cache@[i]).compiled,
            ) == self.regex_cache@[i].pattern@
    }

    /// The filter's invariant: identifiers are unique, every regular
    /// expression that a rule uses is cached, and only patterns that the
    /// engine accepts are cached.
    pub open spec fn wf(&self) -> bool {
        &&& distinct_ids(self@)
        &&& forall|i: int|
            0 <= i < self@.len() ==> ((#[trigger] self@[i]).condition matches ConditionView::Regex(
                pattern,
            ) ==> self.cached().contains(pattern))
        &&& forall|pattern: Seq<char>| #[trigger]
            self.cached().contains(pattern) ==> pattern_compiles(pattern)
        &&& self.cache_faithful()
    }

    /// Create a new ContentFilter instance.
    pub fn new() -> (filter: Self)
        ensures
            filter.wf(),
            filter@ == Seq::<RuleView>::empty(),
            filter.cached() == Set::<Seq<char>>::empty(),
    {
        let filter = ContentFilter { rules: Vec::new(), regex_cache: Vec::new() };
        assert(filter@ =~= Seq::<RuleView>::empty());
        assert(filter.cached() =~= Set::<Seq<char>>::empty());
        filter
    }

    /// Where the compiled form of `pattern` stands in the cache.
    fn cache_position(&self, pattern: &str) -> (found: Option<usize>)
        ensures
            found is Some <==> self.cached().contains(pattern@),
            found matches Some(at) ==> at < self.regex_cache@.len()
                && self.regex_cache@[at as int].pattern@ == pattern@,
    {
        let mut i: usize = 0;
        while i < self.regex_cache.len()
            invariant
                i <= self.regex_cache@.len(),
                forall|j: int| 0 <= j < i ==> (#[trigger] self.regex_cache@[j]).pattern@ != pattern@,
            decreases self.regex_cache@.len() - i,
        {
            if same_text(self.regex_cache[i].pattern.as_str(), pattern) {
                return Some(i);
            }
            i += 1;
        }
        None
    }

    /// Where the rule called `id` stands.
    fn rule_position(&self, id: &str) -> (found: Option<usize>)
        requires
            distinct_ids(self@),
        ensures
            match found {
                Some(at) => position_of(self@, id@) == Some(at as int) && at < self@.len()
                    && self@[at as int].id == id@,
                None => position_of(self@, id@) is None,
            },
            self@.len() == self.rules@.len(),
    {
        let mut i: usize = 0;
        while i < self.rules.len()
            invariant
                i <= self.rules@.len(),
                self@.len() == self.rules@.len(),
                distinct_ids(self@),
                forall|j: int| 0 <= j < i ==> (#[trigger] self@[j]).id != id@,
            decreases self.rules@.len() - i,
        {
            if same_text(self.rules[i].id.as_str(), id) {
                proof {
                    assert(self@[i as int].id == id@);
                    let chosen = choose|k: int| 0 <= k < self@.len() && self@[k].id == id@;
                    assert(chosen == i) by {
                        if chosen < i {
                            assert(self@[chosen].id != self@[i as int].id);
                        } else if chosen > i {
                            assert(self@[i as int].id != self@[chosen].id);
                        }
                    }
                }
                return Some(i);
            }
            i += 1;
        }
        None
    }

    /// Add a filtering rule, replacing the rule of the same identifier if
    /// there is one. A rule whose regular expression the engine refuses is
    /// rejected and leaves the filter as it was; an accepted expression is
    /// compiled once and kept.
    pub fn add_rule(&mut self, rule: Rule) -> (outcome: Result<(), RuleError>)
        requires
            old(self).wf(),
        ensures
            final(self).wf(),
            outcome is Ok <==> evaluable(rule@.condition),
            outcome is Ok ==> final(self)@ == upsert(old(self)@, rule@),
            outcome is Ok ==> final(self).cached() == match rule@.condition {
                ConditionView::Regex(pattern) => old(self).cached().insert(pattern),
                _ => old(self).cached(),
            },
            outcome matches Err(error) ==> {
                &&& final(self)@ == old(self)@
                &&& final(self).cached() == old(self).cached()
                &&& error matches RuleError::InvalidPattern { pattern, .. }
                &&& rule@.condition == ConditionView::Regex(pattern@)
            },
    {
        if let ConditionType::Regex(pattern) = &rule.condition {
            if self.cache_position(pattern.as_str()).is_none() {
                match regex::Regex::new(pattern.as_str()) {
                    Ok(compiled) => {
                        let entry = CompiledPattern { pattern: pattern.clone(), compiled };
                        let ghost before = self.regex_cache@;
                        self.regex_cache.push(entry);
                        proof {
                            let after = self.regex_cache@;
                            assert(after[before.len() as int].pattern@ == pattern@);
                            assert forall|p: Seq<char>|
                                self.cached().contains(p) <==> old(self).cached().insert(
                                    pattern@,
                                ).contains(p) by {
                                if self.cached().contains(p) {
                                    let i = choose|i: int|
                                        0 <= i < after.len() && (#[trigger] after[i]).pattern@ == p;
                                    if i < before.len() {
                                        assert(before[i].pattern@ == p);
                                    }
                                }
                                if old(self).cached().contains(p) {
                                    let i = choose|i: int|
                                        0 <= i < before.len() && (#[trigger] before[i]).pattern@
                                            == p;
                                    assert(after[i].pattern@ == p);
                                }
                            }
                            assert(self.cached() =~= old(self).cached().insert(pattern@));
                            assert forall|i: int| 0 <= i < after.len() implies regex_source(
                                (#[trigger] after[i]).compiled,
                            ) == after[i].pattern@ by {
                                if i < before.len() {
                                    assert(after[i] == before[i]);
                                }
                            }
                        }
                    },
                    Err(error) => {
                        return Err(
                            RuleError::InvalidPattern {
                                pattern: pattern.clone(),
                                message: describe(&error),
                            },
                        );
                    },
                }
            } else {
                assert(self.cached() =~= old(self).cached().insert(pattern@));
            }
        }
        let ghost cached = self.cached();
        let ghost before = self@;
        let ghost added = rule@;
        assert(before == old(self)@);
        match self.rule_position(rule.id.as_str()) {
            Some(at) => {
                let _ = self.rules.remove(at);
                self.rules.insert(at, rule);
                assert(self@ =~= before.update(at as int, added));
            },
            None => {
                self.rules.push(rule);
                assert(self@ =~= before.push(added));
            },
        }
        proof {
            assert(self.cached() == cached);
            let after = self@;
            assert forall|i: int, j: int| 0 <= i < j < after.len() implies after[i].id
                != after[j].id by {
                if i < before.len() && j < before.len() {
                    assert(before[i].id != before[j].id);
                }
            }
            assert forall|i: int| 0 <= i < after.len() implies ((#[trigger] after[i]).condition
                matches ConditionView::Regex(pattern) ==> self.cached().contains(pattern)) by {
                if i < before.len() && after[i] == before[i] {
                    assert(old(self)@[i] == before[i]);
                }
            }
        }
        Ok(())
    }

    /// Evaluate a condition against content. A regular expression that is not
    /// cached is compiled on the spot; the evaluation fails only where the
    /// engine refuses the pattern.
    pub fn evaluate_condition(&self, condition: &ConditionType, content: &Content) -> (outcome:
        Result<bool, RuleError>)
        requires
            self.wf(),
        ensures
            outcome is Ok <==> evaluable(condition@),
            outcome matches Ok(held) ==> held == condition_holds(condition@, content@.text),
            outcome matches Err(error) ==> {
                &&& error matches RuleError::InvalidPattern { pattern, .. }
                &&& condition@ == ConditionView::Regex(pattern@)
            },
    {
        match condition {
            ConditionType::Keyword(keyword) => Ok(
                contains_ignoring_case(content.text.as_str(), keyword.as_str()),
            ),
            ConditionType::Regex(pattern) => {
                match self.cache_position(pattern.as_str()) {
                    Some(at) => Ok(self.regex_cache[at].compiled.is_match(content.text.as_str())),
                    None => match regex::Regex::new(pattern.as_str()) {
                        Ok(compiled) => Ok(compiled.is_match(content.text.as_str())),
                        Err(error) => Err(
                            RuleError::InvalidPattern {
                                pattern: pattern.clone(),
                                message: describe(&error),
                            },
                        ),
                    },
                }
            },
            ConditionType::MachineLearning { .. } => Ok(false),
        }
    }

    /// Execute an action on content: the content is dropped, or a copy of it
    /// is returned with its text rewritten or its flags extended.
    pub fn execute_action(&self, action: &ActionType, content: &Content) -> (out: Option<Content>)
        ensures
            content_view(out) == apply_action(action@, content@),
    {
        match action {
            ActionType::Filter => None,
            ActionType::Modify { transform } => {
                let mut new_content = content.clone();
                new_content.text = fill_template(transform.as_str(), content.text.as_str());
                Some(new_content)
            },
            ActionType::Flag { flags } => {
                let mut new_content = content.clone();
                let mut added = flags.clone();
                let ghost kept = new_content.flags@;
                let ghost extra = added@;
                new_content.flags.append(&mut added);
                assert(texts(kept + extra) =~= texts(kept) + texts(extra));
                Some(new_content)
            },
        }
    }

    /// Process content through the filtering rules: the first rule whose
    /// condition holds decides, and no further rule is looked at.
    pub fn process_content(&self, content: &Content) -> (outcome: Result<
        Option<Content>,
        RuleError,
    >)
        requires
            self.wf(),
        ensures
            outcome matches Ok(out) && content_view(out) == process(self@, content@),
    {
        let mut i: usize = 0;
        while i < self.rules.len()
            invariant
                self.wf(),
                i <= self.rules@.len(),
                self@.len() == self.rules@.len(),
                forall|j: int|
                    0 <= j < i ==> !condition_holds((#[trigger] self@[j]).condition, content@.text),
            decreases self.rules@.len() - i,
        {
            let rule = &self.rules[i];
            assert(self@[i as int] == rule@);
            match self.evaluate_condition(&rule.condition, content) {
                Ok(true) => {
                    proof {
                        law_first_match_wins(self@, content@, i as int);
                    }
                    return Ok(self.execute_action(&rule.action, content));
                },
                Ok(false) => {},
                Err(error) => {
                    return Err(error);
                },
            }
            i += 1;
        }
        proof {
            law_unmatched_passes_through(self@, content@);
        }
        Ok(Some(content.clone()))
    }

    /// Get all active rules, in evaluation order.
    pub fn get_rules(&self) -> (rules: Vec<Rule>)
        ensures
            rule_views(rules@) == self@,
    {
        let mut rules: Vec<Rule> = Vec::new();
        let mut i: usize = 0;
        while i < self.rules.len()
            invariant
                i <= self.rules@.len(),
                rules@.len() == i,
                forall|j: int| 0 <= j < i ==> (#[trigger] rules@[j])@ == self.rules@[j]@,
            decreases self.rules@.len() - i,
        {
            rules.push(self.rules[i].clone());
            i += 1;
        }
        assert(rule_views(rules@) =~= self@);
        rules
    }

    /// Remove a rule by identifier and hand it back. Its compiled expression,
    /// if it had one, stays cached.
    pub fn remove_rule(&mut self, rule_id: &str) -> (removed: Option<Rule>)
        requires
            old(self).wf(),
        ensures
            final(self).wf(),
            final(self)@ == without(old(self)@, rule_id@),
            rule_view(removed) == rule_named(old(self)@, rule_id@),
            final(self).cached() == old(self).cached(),
    {
        match self.rule_position(rule_id) {
            Some(at) => {
                let ghost before = self@;
                let rule = self.rules.remove(at);
                proof {
                    let after = self@;
                    assert(after =~= before.remove(at as int));
                    assert(rule@ == before[at as int]);
                    assert(self.cached() == old(self).cached());
                    assert forall|i: int, j: int| 0 <= i < j < after.len() implies after[i].id
                        != after[j].id by {
                        let oi = if i < at { i } else { i + 1 };
                        let oj = if j < at { j } else { j + 1 };
                        assert(after[i] == before[oi]);
                        assert(after[j] == before[oj]);
                    }
                    assert forall|i: int| 0 <= i < after.len() implies ((
                    #[trigger] after[i]).condition matches ConditionView::Regex(pattern)
                        ==> self.cached().contains(pattern)) by {
                        let oi = if i < at { i } else { i + 1 };
                        assert(after[i] == before[oi]);
                    }
                }
                Some(rule)
            },
            None => None,
        }
    }
}

} // verus!
