//! Filters over the labels of a node, written as `key=value,key!=value,key,!key`.

use crate::cluster::StringMap;
use crate::error::{ErrorView, LBTrackerError};
use crate::text::{split, split_is_never_empty, split_text};
use vstd::prelude::*;
use vstd::string::StrSliceExecFns;

verus! {

/// One clause of a filter.
#[derive(Clone, Debug, PartialEq, Eq)]
pub enum Rule {
    /// The label is there and has this value.
    Equal(String, String),
    /// The label is not there, or has another value.
    NotEqual(String, String),
    /// The label is there.
    Exists(String),
    /// The label is not there.
    DoesNotExist(String),
}

/// [`Rule`] as contracts speak of it: a plain value with texts as character sequences.
pub enum RuleView {
    Equal(Seq<char>, Seq<char>),
    NotEqual(Seq<char>, Seq<char>),
    Exists(Seq<char>),
    DoesNotExist(Seq<char>),
}

impl DeepView for Rule {
    type V = RuleView;

    open spec fn deep_view(&self) -> RuleView {
        match self {
            Rule::Equal(key, value) => RuleView::Equal(key@, value@),
            Rule::NotEqual(key, value) => RuleView::NotEqual(key@, value@),
            Rule::Exists(key) => RuleView::Exists(key@),
            Rule::DoesNotExist(key) => RuleView::DoesNotExist(key@),
        }
    }
}

/// A filter over labels: a list of rules that all have to hold.
#[derive(Clone, Debug, PartialEq, Eq)]
pub struct LabelFilter {
    rules: Vec<Rule>,
}

impl DeepView for LabelFilter {
    type V = Seq<RuleView>;

    closed spec fn deep_view(&self) -> Seq<RuleView> {
        self.rules.deep_view()
    }
}

/// Whether `labels` meet one rule.
pub open spec fn rule_holds(rule: RuleView, labels: Map<Seq<char>, Seq<char>>) -> bool {
    match rule {
        RuleView::Equal(key, value) => labels.contains_key(key) && labels[key] == value,
        RuleView::NotEqual(key, value) => !(labels.contains_key(key) && labels[key] == value),
        RuleView::Exists(key) => labels.contains_key(key),
        RuleView::DoesNotExist(key) => !labels.contains_key(key),
    }
}

/// Whether `labels` meet every one of `rules`. No rules are met by any
/// labels.
pub open spec fn rules_hold(rules: Seq<RuleView>, labels: Map<Seq<char>, Seq<char>>) -> bool {
    forall|i: int| 0 <= i < rules.len() ==> rule_holds(#[trigger] rules[i], labels)
}

/// The rule that one clause writes, if it is of one of the four forms: `key`,
/// `!key`, `key=value`, `key!=value`. A clause with more than one `=` is of
/// none.
pub open spec fn clause_rule(clause: Seq<char>) -> Option<RuleView> {
    let parts = split(clause, '=');
    if parts.len() == 1 {
        let key = parts[0];
        if key.len() > 0 && key[0] == '!' {
            Some(RuleView::DoesNotExist(key.drop_first()))
        } else {
            Some(RuleView::Exists(key))
        }
    } else if parts.len() == 2 {
        let key = parts[0];
        if key.len() > 0 && key.last() == '!' {
            Some(RuleView::NotEqual(key.drop_last(), parts[1]))
        } else {
            Some(RuleView::Equal(key, parts[1]))
        }
    } else {
        None
    }
}

/// The rules that `clauses` write, or the first clause that writes none.
pub open spec fn clause_rules(clauses: Seq<Seq<char>>) -> Result<Seq<RuleView>, Seq<char>>
    decreases clauses.len(),
{
    if clauses.len() == 0 {
        Ok(Seq::empty())
    } else {
        match clause_rules(clauses.drop_last()) {
            Ok(rules) => match clause_rule(clauses.last()) {
                Some(rule) => Ok(rules.push(rule)),
                None => Err(clauses.last()),
            },
            Err(clause) => Err(clause),
        }
    }
}

/// The rules that a filter text writes, clause by clause between its commas,
/// or the first clause that is of none of the four forms.
pub open spec fn filter_rules(text: Seq<char>) -> Result<Seq<RuleView>, Seq<char>> {
    clause_rules(split(text, ','))
}

/// Whether `labels` meet one clause, read straight off its text.
pub open spec fn clause_holds(clause: Seq<char>, labels: Map<Seq<char>, Seq<char>>) -> bool {
    let parts = split(clause, '=');
    if parts.len() == 1 {
        if clause.len() > 0 && clause[0] == '!' {
            !labels.contains_key(clause.drop_first())
        } else {
            labels.contains_key(clause)
        }
    } else {
        let key = parts[0];
        if key.len() > 0 && key.last() == '!' {
            !(labels.contains_key(key.drop_last()) && labels[key.drop_last()] == parts[1])
        } else {
            labels.contains_key(key) && labels[key] == parts[1]
        }
    }
}

/// Whether `labels` meet every clause of a filter text.
pub open spec fn text_holds(text: Seq<char>, labels: Map<Seq<char>, Seq<char>>) -> bool {
    forall|i: int|
        0 <= i < split(text, ',').len() ==> clause_holds(#[trigger] split(text, ',')[i], labels)
}

/// A text that splits into one piece is that piece.
pub proof fn single_piece_is_the_text(s: Seq<char>, sep: char)
    requires
        split(s, sep).len() == 1,
    ensures
        split(s, sep)[0] == s,
    decreases s.len(),
{
    if s.len() == 0 {
        assert(s =~= Seq::<char>::empty());
    } else {
        split_is_never_empty(s.drop_last(), sep);
        single_piece_is_the_text(s.drop_last(), sep);
        assert(s =~= s.drop_last().push(s.last()));
    }
}

/// The rules of successfully read clauses are as many as the clauses, and
/// each is the rule of its clause.
pub proof fn rules_follow_clauses(clauses: Seq<Seq<char>>)
    requires
        clause_rules(clauses) is Ok,
    ensures
        clause_rules(clauses)->Ok_0.len() == clauses.len(),
        forall|i: int|
            0 <= i < clauses.len() ==> clause_rule(#[trigger] clauses[i]) == Some(
                clause_rules(clauses)->Ok_0[i],
            ),
    decreases clauses.len(),
{
    if clauses.len() > 0 {
        rules_follow_clauses(clauses.drop_last());
        assert forall|i: int| 0 <= i < clauses.len() implies clause_rule(#[trigger] clauses[i])
            == Some(clause_rules(clauses)->Ok_0[i]) by {
            if i < clauses.len() - 1 {
                assert(clauses.drop_last()[i] == clauses[i]);
            }
        }
    }
}

/// A filter read from a text holds of exactly the labels that meet each
/// clause of the text as it is written: the predicate and the direct reading
/// agree for every text that can be read and every set of labels.
pub proof fn filter_agrees_with_its_text(text: Seq<char>, labels: Map<Seq<char>, Seq<char>>)
    requires
        filter_rules(text) is Ok,
    ensures
        rules_hold(filter_rules(text)->Ok_0, labels) == text_holds(text, labels),
{
    let clauses = split(text, ',');
    let rules = filter_rules(text)->Ok_0;
    rules_follow_clauses(clauses);
    assert forall|i: int| 0 <= i < clauses.len() implies rule_holds(rules[i], labels)
        == clause_holds(clauses[i], labels) by {
        assert(clause_rule(clauses[i]) == Some(rules[i]));
        if split(clauses[i], '=').len() == 1 {
            single_piece_is_the_text(clauses[i], '=');
        }
    }
    if rules_hold(rules, labels) {
        assert forall|i: int| 0 <= i < clauses.len() implies clause_holds(
            #[trigger] clauses[i],
            labels,
        ) by {
            assert(rule_holds(rules[i], labels));
        }
    }
    if text_holds(text, labels) {
        assert forall|i: int| 0 <= i < rules.len() implies rule_holds(#[trigger] rules[i], labels) by {
            assert(clause_holds(clauses[i], labels));
        }
    }
}

impl Default for LabelFilter {
    /// The filter without rules, which every set of labels passes.
    fn default() -> (filter: LabelFilter)
        ensures
            filter.deep_view() == Seq::<RuleView>::empty(),
    {
        let filter = LabelFilter { rules: Vec::new() };
        assert(filter.rules.deep_view() =~= Seq::empty());
        filter
    }
}

/// Whether `labels` has `key` with exactly `value`.
fn has_value(labels: &StringMap, key: &str, value: &str) -> (has: bool)
    ensures
        has == (labels@.contains_key(key@) && labels@[key@] == value@),
{
    match labels.get(key) {
        Some(found) => found.as_str().eq(value),
        None => false,
    }
}

/// Reads one clause.
fn read_clause(clause: &str) -> (rule: Option<Rule>)
    ensures
        rule.deep_view() == clause_rule(clause@),
{
    let mut parts = split_text(clause, '=');
    let ghost pieces = parts.deep_view();
    if parts.len() == 1 {
        let key = &parts[0];
        let length = key.as_str().unicode_len();
        if length > 0 && key.as_str().get_char(0) == '!' {
            let name = key.as_str().substring_char(1, length).to_owned();
            assert(name@ =~= pieces[0].drop_first());
            Some(Rule::DoesNotExist(name))
        } else {
            Some(Rule::Exists(key.clone()))
        }
    } else if parts.len() == 2 {
        let value = parts[1].clone();
        let key = &parts[0];
        let length = key.as_str().unicode_len();
        if length > 0 && key.as_str().get_char(length - 1) == '!' {
            let name = key.as_str().substring_char(0, length - 1).to_owned();
            assert(name@ =~= pieces[0].drop_last());
            Some(Rule::NotEqual(name, value))
        } else {
            Some(Rule::Equal(key.clone(), value))
        }
    } else {
        None
    }
}

impl LabelFilter {
    /// Whether `labels` pass the filter: every rule has to hold.
    #[must_use]
    pub fn check(&self, labels: &StringMap) -> (passes: bool)
        ensures
            passes == rules_hold(self.deep_view(), labels@),
    {
        let mut i: usize = 0;
        while i < self.rules.len()
            invariant
                i <= self.rules.len(),
                forall|k: int| 0 <= k < i ==> rule_holds(#[trigger] self.rules.deep_view()[k], labels@),
            decreases self.rules.len() - i,
        {
            let holds = match &self.rules[i] {
                Rule::Equal(key, value) => has_value(labels, key.as_str(), value.as_str()),
                Rule::NotEqual(key, value) => !has_value(labels, key.as_str(), value.as_str()),
                Rule::Exists(key) => labels.get(key.as_str()).is_some(),
                Rule::DoesNotExist(key) => labels.get(key.as_str()).is_none(),
            };
            assert(holds == rule_holds(self.rules.deep_view()[i as int], labels@));
            if !holds {
                return false;
            }
            i = i + 1;
        }
        true
    }

    /// Reads a filter from its text: clauses between commas, each of one of
    /// the forms `key`, `!key`, `key=value`, `key!=value`. The first clause of
    /// another form is refused, with its text.
    pub fn from_str(s: &str) -> (read: Result<LabelFilter, LBTrackerError>)
        ensures
            match read {
                Ok(filter) => filter_rules(s@) == Ok::<Seq<RuleView>, Seq<char>>(filter.deep_view()),
                Err(error) => filter_rules(s@) is Err && error.deep_view()
                    == ErrorView::InvalidNodeFilter(filter_rules(s@)->Err_0),
            },
    {
        let clauses = split_text(s, ',');
        let mut rules: Vec<Rule> = Vec::new();
        let mut i: usize = 0;
        assert(clauses.deep_view().take(0) =~= Seq::empty());
        assert(rules.deep_view() =~= Seq::empty());
        while i < clauses.len()
            invariant
                i <= clauses.len(),
                clauses.deep_view() == split(s@, ','),
                clause_rules(clauses.deep_view().take(i as int)) == Ok::<Seq<RuleView>, Seq<char>>(
                    rules.deep_view(),
                ),
            decreases clauses.len() - i,
        {
            let ghost so_far = rules.deep_view();
            proof {
                assert(clauses.deep_view().take(i as int + 1).drop_last()
                    =~= clauses.deep_view().take(i as int));
                assert(clauses.deep_view().take(i as int + 1).last() == clauses@[i as int]@);
            }
            match read_clause(clauses[i].as_str()) {
                Some(rule) => {
                    rules.push(rule);
                    assert(rules.deep_view() =~= so_far.push(rule.deep_view()));
                },
                None => {
                    proof {
                        let read = clauses.deep_view().take(i as int + 1);
                        assert(clause_rule(read.last()) is None);
                        assert(clause_rules(read.drop_last()) is Ok);
                        assert(clause_rules(read) == Err::<Seq<RuleView>, Seq<char>>(
                            clauses@[i as int]@,
                        ));
                        bad_clause_stays(clauses.deep_view(), i as int + 1);
                        assert(clauses.deep_view().take(clauses.len() as int)
                            =~= clauses.deep_view());
                    }
                    return Err(LBTrackerError::InvalidNodeFilter(clauses[i].clone()));
                },
            }
            i = i + 1;
        }
        assert(clauses.deep_view().take(clauses.len() as int) =~= clauses.deep_view());
        Ok(LabelFilter { rules })
    }
}

/// Once a clause has been refused, reading further clauses changes nothing.
proof fn bad_clause_stays(clauses: Seq<Seq<char>>, read: int)
    requires
        0 <= read <= clauses.len(),
        clause_rules(clauses.take(read)) is Err,
    ensures
        clause_rules(clauses) == clause_rules(clauses.take(read)),
    decreases clauses.len() - read,
{
    if read < clauses.len() {
        assert(clauses.take(read + 1).drop_last() =~= clauses.take(read));
        bad_clause_stays(clauses, read + 1);
    } else {
        assert(clauses.take(read) =~= clauses);
    }
}

} // verus!
