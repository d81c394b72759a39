//! Recurring rule requests: the check of a rule, of the accounts and
//! category it references, and the rule list with each rule's next date.

use vstd::prelude::*;
use crate::domain::account::Account;
use crate::domain::calendar::{Date, date_le, date_lt, iso_text, lemma_order_by_number, max_day_number};
use crate::domain::category::Category;
use crate::domain::date::{iso_date, iso_date_message};
use crate::domain::ledger::{archived_account_message, assert_account_writable, assert_category_matches_tx, category_problem};
use crate::domain::recurring::{
    RawRuleInput, RecurringRule, Schedule, ValidatedRule, law_empty_lookahead_means_no_later_date,
    lists_occurrences, lookahead_end, next_occurrence, occurrences_between, occurs_in, rule_input_problem, upcoming, validate_rule_input, validated_from,
};
use crate::error::{AppError, AppResult, invalid_argument};
use crate::infra::repo::recurring_repo::InsertInput;

verus! {

broadcast use vstd::string::group_string_axioms;

/// A rule as the interface sends it.
#[derive(Debug, Clone)]
pub struct RecurringRuleInput {
    pub name: String,
    pub type_: String,
    pub amount: i64,
    pub account_id: i64,
    pub counter_account_id: Option<i64>,
    pub category_id: Option<i64>,
    pub description: String,
    pub frequency: String,
    pub day_of_month: Option<u32>,
    pub day_of_week: Option<u32>,
    pub starts_on: String,
    pub ends_on: Option<String>,
}

/// One line of the rule list: the rule and its next date.
#[derive(Debug, Clone)]
pub struct RecurringRuleView {
    pub rule: RecurringRule,
    pub next_occurrence: Option<String>,
}

/// `raw` carries the fields of `input`.
pub open spec fn raw_matches(raw: RawRuleInput, input: RecurringRuleInput) -> bool {
    &&& raw.name@ == input.name@
    &&& raw.type_@ == input.type_@
    &&& raw.amount == input.amount
    &&& raw.account_id == input.account_id
    &&& raw.counter_account_id == input.counter_account_id
    &&& raw.category_id == input.category_id
    &&& raw.description@ == input.description@
    &&& raw.frequency@ == input.frequency@
    &&& raw.day_of_month == input.day_of_month
    &&& raw.day_of_week == input.day_of_week
    &&& raw.starts_on@ == input.starts_on@
    &&& match input.ends_on {
        Some(e) => raw.ends_on matches Some(x) && x@ == e@,
        None => raw.ends_on is None,
    }
}

fn raw_of(input: &RecurringRuleInput) -> (raw: RawRuleInput<'_>)
    ensures
        raw_matches(raw, *input),
{
    let ends_on = match &input.ends_on {
        Some(e) => Some(e.as_str()),
        None => None,
    };
    RawRuleInput {
        name: input.name.as_str(),
        type_: input.type_.as_str(),
        amount: input.amount,
        account_id: input.account_id,
        counter_account_id: input.counter_account_id,
        category_id: input.category_id,
        description: input.description.as_str(),
        frequency: input.frequency.as_str(),
        day_of_month: input.day_of_month,
        day_of_week: input.day_of_week,
        starts_on: input.starts_on.as_str(),
        ends_on,
    }
}

/// Check the shape of a rule request (see `validate_rule_input`).
pub fn validate(input: &RecurringRuleInput) -> (r: AppResult<ValidatedRule>)
    ensures
        exists|raw: RawRuleInput| {
            &&& raw_matches(raw, *input)
            &&& match rule_input_problem(raw) {
                Some(msg) => r matches Err(e) && invalid_argument(e, msg),
                None => r matches Ok(v) && validated_from(v, raw),
            }
        },
{
    let raw = raw_of(input);
    validate_rule_input(&raw)
}

/// The account, the counter account and the category a rule references must
/// be usable: accounts not archived, the category not archived and of the
/// rule's type. They are checked in that order.
pub fn check_references(account: &Account, counter: Option<&Account>, category: Option<&Category>, rule: &ValidatedRule) -> (r: AppResult<()>)
    ensures
        account.archived_at is Some ==> (r matches Err(e) && invalid_argument(e, archived_account_message(account.id))),
        account.archived_at is None ==> match counter {
            Some(c) if c.archived_at is Some => r matches Err(e) && invalid_argument(e, archived_account_message(c.id)),
            _ => match category {
                Some(cat) => match category_problem(*cat, rule.type_, None) {
                    Some(m) => r matches Err(e) && invalid_argument(e, m),
                    None => r is Ok,
                },
                None => r is Ok,
            },
        },
{
    assert_account_writable(account, None)?;
    if let Some(c) = counter {
        assert_account_writable(c, None)?;
    }
    if let Some(cat) = category {
        assert_category_matches_tx(cat, rule.type_, None)?;
    }
    Ok(())
}

/// The stored row of a checked rule, its dates written `YYYY-MM-DD`.
pub fn to_insert_input<'a>(rule: &'a ValidatedRule, starts_on: &'a str, ends_on: Option<&'a str>) -> (r: InsertInput<'a>)
    ensures
        r.name@ == rule.name@,
        r.type_ == rule.type_,
        r.amount == rule.amount,
        r.account_id == rule.account_id,
        r.counter_account_id == rule.counter_account_id,
        r.category_id == rule.category_id,
        r.description@ == rule.description@,
        r.frequency == rule.frequency,
        r.day_of_month == rule.day_of_month,
        r.day_of_week == rule.day_of_week,
        r.starts_on@ == starts_on@,
        r.ends_on == ends_on,
{
    InsertInput {
        name: rule.name.as_str(),
        type_: rule.type_,
        amount: rule.amount,
        account_id: rule.account_id,
        counter_account_id: rule.counter_account_id,
        category_id: rule.category_id,
        description: rule.description.as_str(),
        frequency: rule.frequency,
        day_of_month: rule.day_of_month,
        day_of_week: rule.day_of_week,
        starts_on,
        ends_on,
    }
}

/// `d` is the first date of `s` after `after` within the look-ahead window.
pub open spec fn is_next_date(s: Schedule, after: Date, d: Date) -> bool {
    &&& lookahead_end(s, after) <= max_day_number()
    &&& upcoming(s, after, lookahead_end(s, after), d)
    &&& forall|d2: Date| #[trigger] upcoming(s, after, lookahead_end(s, after), d2) ==> date_le(d, d2)
}

/// `s` has no date after `after` within the look-ahead window.
pub open spec fn has_no_next(s: Schedule, after: Date) -> bool {
    lookahead_end(s, after) > max_day_number() || forall|d2: Date| !#[trigger] upcoming(s, after, lookahead_end(s, after), d2)
}

/// The date the rule list shows as next is the first date an expansion
/// through any later day writes: the next date and a listing agree.
pub proof fn law_next_is_first_listed(s: Schedule, after: Date, through: Date, out: Seq<Date>, d: Date)
    requires
        lists_occurrences(s, Some(after), through, out),
        is_next_date(s, after, d),
        date_le(d, through),
    ensures
        out.len() > 0,
        out[0] == d,
{
    assert(occurs_in(s, Some(after), through, d));
    let k = choose|k: int| 0 <= k < out.len() && out[k] == d;
    assert(out.contains(d));
    let first = out[0];
    assert(occurs_in(s, Some(after), through, first));
    if k > 0 {
        assert(date_lt(out[0], out[k]));
    }
    lemma_order_by_number(first, d);
    assert(first.num() <= d.num());
    assert(upcoming(s, after, lookahead_end(s, after), first));
    assert(date_le(d, first));
    lemma_order_by_number(d, first);
}

/// A rule the list shows without a next date (its look-ahead window in
/// range) writes nothing on any later expansion, however far it runs.
pub proof fn law_no_next_lists_nothing(s: Schedule, after: Date, through: Date, out: Seq<Date>)
    requires
        s.wf(),
        after.valid(),
        lookahead_end(s, after) <= max_day_number(),
        has_no_next(s, after),
        lists_occurrences(s, Some(after), through, out),
    ensures
        out.len() == 0,
{
    if out.len() > 0 {
        assert(occurs_in(s, Some(after), through, out[0]));
        law_empty_lookahead_means_no_later_date(s, after, out[0]);
    }
}

/// The schedule of a stored rule, when its dates read.
pub open spec fn stored_schedule(rule: RecurringRule) -> Option<Schedule> {
    match iso_date(rule.starts_on@) {
        None => None,
        Some(start) => match rule.ends_on {
            Some(raw) => match iso_date(raw@) {
                None => None,
                Some(end) => Some(Schedule {
                    frequency: rule.frequency,
                    day_of_month: rule.day_of_month,
                    day_of_week: rule.day_of_week,
                    starts_on: start,
                    ends_on: Some(end),
                }),
            },
            None => Some(Schedule {
                frequency: rule.frequency,
                day_of_month: rule.day_of_month,
                day_of_week: rule.day_of_week,
                starts_on: start,
                ends_on: None,
            }),
        },
    }
}

/// The error a stored rule with unreadable dates reports.
pub open spec fn stored_schedule_message(rule: RecurringRule) -> Seq<char> {
    match iso_date(rule.starts_on@) {
        None => iso_date_message("starts_on"@, rule.starts_on@),
        Some(_) => match rule.ends_on {
            Some(raw) => iso_date_message("ends_on"@, raw@),
            None => Seq::empty(),
        },
    }
}

/// A rule with its next date after `today` (written `YYYY-MM-DD`); nothing is generated.
pub fn rule_view(rule: RecurringRule, today: Date) -> (r: AppResult<RecurringRuleView>)
    requires
        today.valid(),
    ensures
        match stored_schedule(rule) {
            None => r matches Err(e) && invalid_argument(e, stored_schedule_message(rule)),
            Some(s) => r matches Ok(v) && v.rule == rule && match v.next_occurrence {
                Some(t) => exists|d: Date| is_next_date(s, today, d) && t@ == iso_text(d),
                None => has_no_next(s, today),
            },
        },
{
    let schedule = rule.schedule()?;
    let next = match next_occurrence(&schedule, today) {
        Some(d) => Some(d.iso_string()),
        None => None,
    };
    Ok(RecurringRuleView { rule, next_occurrence: next })
}

/// The rule list: every rule with its next date, in the order given. The
/// first rule whose dates do not read fails the whole list.
pub fn rule_views(rules: Vec<RecurringRule>, today: Date) -> (r: AppResult<Vec<RecurringRuleView>>)
    requires
        today.valid(),
    ensures
        r matches Ok(views) ==> views.len() == rules.len() && forall|k: int| 0 <= k < views.len() ==> {
            let v = #[trigger] views@[k];
            &&& v.rule == rules@[k]
            &&& stored_schedule(rules@[k]) matches Some(s) && match v.next_occurrence {
                Some(t) => exists|d: Date| is_next_date(s, today, d) && t@ == iso_text(d),
                None => has_no_next(s, today),
            }
        },
        r matches Err(e) ==> exists|k: int| {
            &&& 0 <= k < rules.len()
            &&& stored_schedule(#[trigger] rules@[k]) is None
            &&& invalid_argument(e, stored_schedule_message(rules@[k]))
            &&& forall|j: int| 0 <= j < k ==> stored_schedule(#[trigger] rules@[j]) is Some
        },
        (forall|k: int| 0 <= k < rules.len() ==> stored_schedule(#[trigger] rules@[k]) is Some) ==> r is Ok,
{
    let ghost all = rules@;
    let n = rules.len();
    let mut rest = rules;
    let mut reversed: Vec<RecurringRule> = Vec::new();
    while rest.len() > 0
        invariant
            reversed@.len() + rest@.len() == all.len(),
            all.len() == n,
            all == rules@,
            forall|k: int| 0 <= k < rest@.len() ==> rest@[k] == all[k],
            forall|k: int| 0 <= k < reversed@.len() ==> reversed@[k] == all[all.len() - 1 - k],
        decreases rest.len(),
    {
        let x = rest.pop().unwrap();
        reversed.push(x);
    }
    let mut views: Vec<RecurringRuleView> = Vec::new();
    while reversed.len() > 0
        invariant
            views@.len() + reversed@.len() == all.len(),
            all.len() == n,
            all == rules@,
            today.valid(),
            forall|k: int| 0 <= k < reversed@.len() ==> reversed@[k] == all[all.len() - 1 - k],
            forall|k: int| 0 <= k < views.len() ==> {
                let v = #[trigger] views@[k];
                &&& v.rule == all[k]
                &&& stored_schedule(all[k]) matches Some(s) && match v.next_occurrence {
                    Some(t) => exists|d: Date| is_next_date(s, today, d) && t@ == iso_text(d),
                    None => has_no_next(s, today),
                }
            },
        decreases reversed.len(),
    {
        let rule = reversed.pop().unwrap();
        let ghost k = views@.len();
        assert(rule == all[k as int]);
        match rule_view(rule, today) {
            Ok(v) => views.push(v),
            Err(e) => {
                proof {
                    let kk = k as int;
                    assert(all == rules@);
                    assert(stored_schedule(rules@[kk]) is None);
                    assert(invalid_argument(e, stored_schedule_message(rules@[kk])));
                    assert forall|j: int| 0 <= j < kk implies stored_schedule(#[trigger] rules@[j]) is Some by {
                        assert(views@[j].rule == all[j]);
                    }
                }
                return Err(e);
            },
        }
    }
    Ok(views)
}

// ---------------------------------------------------------------------------
// Previewing a rule before it is saved
// ---------------------------------------------------------------------------

/// How many coming dates a preview lists.
pub const UPCOMING_COUNT: usize = 3;

/// What saving a rule would lead to: the dates up to today that the next
/// expansion back-fills (the first `limit` of them listed, with their count
/// and the last of them) and the dates that come after today.
#[derive(Debug, Clone, PartialEq, Eq)]
pub struct OccurrencePreview {
    pub backfill: Vec<String>,
    pub backfill_total: usize,
    pub backfill_last: Option<String>,
    pub truncated: bool,
    pub upcoming: Vec<String>,
}

/// The date the `k`-th date of a chain follows: `after` for the first one.
pub open spec fn chain_prev(after: Date, ds: Seq<Date>, k: int) -> Date {
    if k == 0 {
        after
    } else {
        ds[k - 1]
    }
}

/// `ds` are the schedule's dates after `after`, each the next one after the
/// one before, as many as follow but at most `n`.
pub open spec fn next_chain(s: Schedule, after: Date, ds: Seq<Date>, n: int) -> bool {
    &&& ds.len() <= n
    &&& forall|k: int| 0 <= k < ds.len() ==> #[trigger] is_next_date(s, chain_prev(after, ds, k), ds[k])
    &&& ds.len() < n ==> has_no_next(s, chain_prev(after, ds, ds.len() as int))
}

/// `p` previews schedule `s` on `today`, with at most `limit` back-filled dates listed.
pub open spec fn previews(p: OccurrencePreview, s: Schedule, today: Date, limit: int) -> bool {
    exists|due: Seq<Date>, next: Seq<Date>|
        #![trigger lists_occurrences(s, None, today, due), next_chain(s, today, next, UPCOMING_COUNT as int)]
        {
            &&& lists_occurrences(s, None, today, due)
            &&& p.backfill_total == due.len()
            &&& p.backfill@.len() == (if due.len() < limit { due.len() as int } else { limit })
            &&& forall|k: int| 0 <= k < p.backfill@.len() ==> (#[trigger] p.backfill@[k])@ == iso_text(due[k])
            &&& p.truncated == (due.len() > limit)
            &&& (if due.len() == 0 {
                p.backfill_last is None
            } else {
                p.backfill_last matches Some(t) && t@ == iso_text(due.last())
            })
            &&& next_chain(s, today, next, UPCOMING_COUNT as int)
            &&& p.upcoming@.len() == next.len()
            &&& forall|k: int| 0 <= k < next.len() ==> (#[trigger] p.upcoming@[k])@ == iso_text(next[k])
        }
}

/// The preview of a checked rule on `today`.
pub fn preview_occurrences(rule: &ValidatedRule, today: Date, limit: usize) -> (p: OccurrencePreview)
    requires
        rule.schedule_of().wf(),
        today.valid(),
    ensures
        previews(p, rule.schedule_of(), today, limit as int),
{
    let schedule = rule.schedule();
    let due = occurrences_between(&schedule, None, today);
    let total = due.len();
    let shown = if total < limit {
        total
    } else {
        limit
    };
    let mut backfill: Vec<String> = Vec::new();
    let mut i: usize = 0;
    while i < shown
        invariant
            0 <= i <= shown,
            shown <= due@.len(),
            backfill@.len() == i,
            forall|k: int| 0 <= k < i ==> (#[trigger] backfill@[k])@ == iso_text(due@[k]),
        decreases shown - i,
    {
        backfill.push(due[i].iso_string());
        i += 1;
    }
    let backfill_last = if total == 0 {
        None
    } else {
        Some(due[total - 1].iso_string())
    };
    let mut upcoming: Vec<String> = Vec::new();
    let ghost mut next: Seq<Date> = Seq::empty();
    let mut after = today;
    let mut done = false;
    while !done && upcoming.len() < UPCOMING_COUNT
        invariant
            schedule.wf(),
            after.valid(),
            next.len() == upcoming@.len(),
            upcoming@.len() <= UPCOMING_COUNT,
            forall|k: int| 0 <= k < next.len() ==> #[trigger] is_next_date(schedule, chain_prev(today, next, k), next[k]),
            forall|k: int| 0 <= k < next.len() ==> (#[trigger] upcoming@[k])@ == iso_text(next[k]),
            after == chain_prev(today, next, next.len() as int),
            done ==> has_no_next(schedule, after),
        decreases UPCOMING_COUNT - upcoming@.len() + (if done { 0int } else { 1int }),
    {
        match next_occurrence(&schedule, after) {
            Some(d) => {
                proof {
                    assert(is_next_date(schedule, after, d));
                    let before = next;
                    next = next.push(d);
                    assert forall|k: int| 0 <= k < next.len() implies #[trigger] is_next_date(
                        schedule,
                        chain_prev(today, next, k),
                        next[k],
                    ) by {
                        if k < before.len() {
                            assert(next[k] == before[k]);
                            assert(chain_prev(today, next, k) == chain_prev(today, before, k));
                        } else {
                            assert(chain_prev(today, next, k) == after);
                        }
                    }
                }
                upcoming.push(d.iso_string());
                after = d;
            },
            None => {
                done = true;
            },
        }
    }
    let p = OccurrencePreview { backfill, backfill_total: total, backfill_last, truncated: total > limit, upcoming };
    proof {
        assert(next_chain(schedule, today, next, UPCOMING_COUNT as int));
        assert(lists_occurrences(schedule, None, today, due@));
    }
    p
}

/// Check a rule request and preview it on `today`; a malformed rule is
/// refused before anything is computed.
pub fn preview_for_input(input: &RecurringRuleInput, today: Date, limit: usize) -> (r: AppResult<OccurrencePreview>)
    requires
        today.valid(),
    ensures
        exists|raw: RawRuleInput| {
            &&& raw_matches(raw, *input)
            &&& match rule_input_problem(raw) {
                Some(msg) => r matches Err(e) && invalid_argument(e, msg),
                None => r matches Ok(p) && exists|v: ValidatedRule|
                    validated_from(v, raw) && #[trigger] previews(p, v.schedule_of(), today, limit as int),
            }
        },
{
    let raw = raw_of(input);
    match validate_rule_input(&raw) {
        Ok(rule) => Ok(preview_occurrences(&rule, today, limit)),
        Err(e) => Err(e),
    }
}

// ---------------------------------------------------------------------------
// Expanding the rules that are due
// ---------------------------------------------------------------------------

/// Why an active rule is left out of an expansion.
#[derive(Debug, Clone, Copy, PartialEq, Eq)]
pub enum SkipReason {
    ArchivedAccount,
    ArchivedCounterAccount,
    ArchivedCategory,
}

/// What an expansion wrote for one rule.
#[derive(Debug, Clone, PartialEq, Eq)]
pub struct RuleExpansion {
    pub rule_id: i64,
    pub rule_name: String,
    pub generated: usize,
    pub last_generated_on: String,
}

/// A rule an expansion left out, and why.
#[derive(Debug, Clone, PartialEq, Eq)]
pub struct SkippedRule {
    pub rule_id: i64,
    pub rule_name: String,
    pub reason: SkipReason,
}

/// What one expansion did: how many transactions it wrote, per rule, and
/// which rules it left out.
#[derive(Debug, Clone, PartialEq, Eq)]
pub struct ExpansionResult {
    pub generated: usize,
    pub rules: Vec<RuleExpansion>,
    pub skipped: Vec<SkippedRule>,
}

/// A rule whose account, counter account or category is archived generates
/// nothing; the first archived one, in that order, is the reason.
pub fn skip_reason(account: &Account, counter: Option<&Account>, category: Option<&Category>) -> (r: Option<SkipReason>)
    ensures
        r == (if account.archived_at is Some {
            Some(SkipReason::ArchivedAccount)
        } else if counter matches Some(c) && c.archived_at is Some {
            Some(SkipReason::ArchivedCounterAccount)
        } else if category matches Some(c) && c.archived_at is Some {
            Some(SkipReason::ArchivedCategory)
        } else {
            None
        }),
{
    if account.archived_at.is_some() {
        return Some(SkipReason::ArchivedAccount);
    }
    if let Some(c) = counter {
        if c.archived_at.is_some() {
            return Some(SkipReason::ArchivedCounterAccount);
        }
    }
    if let Some(c) = category {
        if c.archived_at.is_some() {
            return Some(SkipReason::ArchivedCategory);
        }
    }
    None
}

/// The dates an expansion on `today` writes for a stored rule: those of its
/// schedule in `(last_generated_on, today]`, oldest first. A rule expanded
/// again on the same day gets nothing (see `law_split_window`).
pub fn due_dates(rule: &RecurringRule, today: Date) -> (r: AppResult<Vec<Date>>)
    requires
        today.valid(),
    ensures
        match stored_schedule(*rule) {
            None => r matches Err(e) && invalid_argument(e, stored_schedule_message(*rule)),
            Some(s) => match rule.last_generated_on {
                None => r matches Ok(ds) && lists_occurrences(s, None, today, ds@),
                Some(raw) => match iso_date(raw@) {
                    None => r matches Err(e) && invalid_argument(e, iso_date_message("last_generated_on"@, raw@)),
                    Some(a) => r matches Ok(ds) && lists_occurrences(s, Some(a), today, ds@),
                },
            },
        },
{
    let schedule = rule.schedule()?;
    let after = rule.generated_through()?;
    Ok(occurrences_between(&schedule, after, today))
}

/// The record of writing `dates` for `rule`; nothing when no date was due.
pub fn rule_expansion(rule: &RecurringRule, dates: &[Date]) -> (r: Option<RuleExpansion>)
    ensures
        dates@.len() == 0 ==> r is None,
        dates@.len() > 0 ==> (r matches Some(x) && x.rule_id == rule.id && x.rule_name@ == rule.name@
            && x.generated == dates@.len() && x.last_generated_on@ == iso_text(dates@.last())),
{
    if dates.len() == 0 {
        return None;
    }
    Some(RuleExpansion {
        rule_id: rule.id,
        rule_name: crate::text::owned(rule.name.as_str()),
        generated: dates.len(),
        last_generated_on: dates[dates.len() - 1].iso_string(),
    })
}

} // verus!
