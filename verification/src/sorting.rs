//! Listing budgets: the default listing (most recently edited first) and the
//! multi-criterion sorted listing.
//!
//! Each sort criterion maps to a fixed total preorder on budget summaries;
//! nothing caller-controlled reaches a query string. An unrecognized
//! criterion falls back to `last_edited` descending, the one documented
//! fallback.

use vstd::prelude::*;
use vstd::relations::sorted_by;
use vstd::multiset::Multiset;
use crate::store::{Store, StoreV};
use crate::error::StoreError;
use crate::text::{
    lex_le, effective_name_key, effective_name_key_of, key_le, str_eq, lemma_lex_le_total,
    lemma_lex_le_trans, lemma_lex_le_refl,
};
use crate::types::{BudgetRecord, BudgetSummary, BudgetSummaryV, summary_of, clone_opt_string};

verus! {

broadcast use {
    vstd::seq_lib::group_to_multiset_ensures,
    vstd::multiset::group_multiset_axioms,
    vstd::multiset::group_multiset_properties,
};

/// The sorted-listing request: a criterion name and a direction.
pub struct SortBudgetsArgs {
    pub criteria: String,
    pub ascending: bool,
}

/// The six recognized sort criteria.
#[derive(Clone, Copy, Debug, PartialEq, Eq, Structural)]
pub enum SortCriteria {
    Income,
    CreatedDate,
    FinishedDate,
    BudgetDate,
    Name,
    LastEdited,
}

/// Which criterion a request names, if any.
pub open spec fn parse_criteria(s: Seq<char>) -> Option<SortCriteria> {
    if s == "income"@ {
        Some(SortCriteria::Income)
    } else if s == "created_date"@ {
        Some(SortCriteria::CreatedDate)
    } else if s == "finished_date"@ {
        Some(SortCriteria::FinishedDate)
    } else if s == "budget_date"@ {
        Some(SortCriteria::BudgetDate)
    } else if s == "name"@ {
        Some(SortCriteria::Name)
    } else if s == "last_edited"@ {
        Some(SortCriteria::LastEdited)
    } else {
        None
    }
}

/// The criterion and direction a request resolves to: an unknown criterion
/// falls back to `last_edited` descending, whatever direction was asked.
pub open spec fn sort_plan(s: Seq<char>, ascending: bool) -> (SortCriteria, bool) {
    match parse_criteria(s) {
        Some(c) => (c, ascending),
        None => (SortCriteria::LastEdited, false),
    }
}

/// Order on optional instants: an absent instant sorts before every
/// present one, so `None` comes first ascending and last descending.
pub open spec fn opt_le(a: Option<int>, b: Option<int>) -> bool {
    match (a, b) {
        (Option::None, _) => true,
        (Option::Some(_), Option::None) => false,
        (Option::Some(x), Option::Some(y)) => x <= y,
    }
}

/// The ascending order of one criterion.
pub open spec fn budget_key_le(c: SortCriteria, a: BudgetSummaryV, b: BudgetSummaryV) -> bool {
    match c {
        SortCriteria::Income => a.total_income <= b.total_income,
        SortCriteria::CreatedDate => a.created_at <= b.created_at,
        SortCriteria::FinishedDate => opt_le(a.finished_at, b.finished_at),
        SortCriteria::BudgetDate => a.year < b.year || (a.year == b.year && a.month <= b.month),
        SortCriteria::Name => lex_le(effective_name_key(a), effective_name_key(b)),
        SortCriteria::LastEdited => a.last_edited <= b.last_edited,
    }
}

/// The requested order: the criterion's order, reversed when descending.
pub open spec fn budget_le(c: SortCriteria, asc: bool, a: BudgetSummaryV, b: BudgetSummaryV) -> bool {
    if asc {
        budget_key_le(c, a, b)
    } else {
        budget_key_le(c, b, a)
    }
}

/// The requested order as a function, shared by contracts and proofs.
pub open spec fn budget_le_fn(c: SortCriteria, asc: bool) -> spec_fn(
    BudgetSummaryV,
    BudgetSummaryV,
) -> bool {
    |a: BudgetSummaryV, b: BudgetSummaryV| budget_le(c, asc, a, b)
}

/// Every budget order relates each summary to itself.
pub proof fn lemma_budget_le_refl(c: SortCriteria, asc: bool, a: BudgetSummaryV)
    ensures
        budget_le(c, asc, a, a),
{
    if c is Name {
        lemma_lex_le_refl(effective_name_key(a));
    }
}

/// Every budget order is total.
pub proof fn lemma_budget_le_total(c: SortCriteria, asc: bool, a: BudgetSummaryV, b: BudgetSummaryV)
    ensures
        budget_le(c, asc, a, b) || budget_le(c, asc, b, a),
{
    if c is Name {
        lemma_lex_le_total(effective_name_key(a), effective_name_key(b));
    }
}

/// Every budget order is transitive.
pub proof fn lemma_budget_le_trans(
    c: SortCriteria,
    asc: bool,
    a: BudgetSummaryV,
    b: BudgetSummaryV,
    d: BudgetSummaryV,
)
    requires
        budget_le(c, asc, a, b),
        budget_le(c, asc, b, d),
    ensures
        budget_le(c, asc, a, d),
{
    if c is Name {
        if asc {
            lemma_lex_le_trans(
                effective_name_key(a),
                effective_name_key(b),
                effective_name_key(d),
            );
        } else {
            lemma_lex_le_trans(
                effective_name_key(d),
                effective_name_key(b),
                effective_name_key(a),
            );
        }
    }
}

/// Law: in the name sort a budget whose stored name is null or empty is
/// keyed by its "{MonthName} {Year}" display name; named budgets are keyed
/// by their stored name; both keys are ASCII case-folded, so the comparison
/// is case-insensitive.
pub proof fn lemma_name_sort_uses_display_name(b: BudgetSummaryV)
    ensures
        (b.name is None || (b.name matches Some(n) && n.len() == 0)) ==> effective_name_key(b)
            == crate::text::folded_codes_of(crate::text::month_label(b.month)) + seq![32int]
            + crate::text::year_codes(b.year),
        (b.name matches Some(n) && n.len() > 0) ==> effective_name_key(b)
            == crate::text::folded_codes_of(b.name->0),
{
}

/// Compares two budget summaries under a criterion and direction.
fn budget_le_exec(c: SortCriteria, asc: bool, a: &BudgetSummary, b: &BudgetSummary) -> (r: bool)
    requires
        1 <= a.month <= 12,
        1 <= b.month <= 12,
    ensures
        r == budget_le(c, asc, a@, b@),
{
    let (x, y) = if asc {
        (a, b)
    } else {
        (b, a)
    };
    match c {
        SortCriteria::Income => x.total_income <= y.total_income,
        SortCriteria::CreatedDate => x.created_at <= y.created_at,
        SortCriteria::FinishedDate => match (x.finished_at, y.finished_at) {
            (None, _) => true,
            (Some(_), None) => false,
            (Some(p), Some(q)) => p <= q,
        },
        SortCriteria::BudgetDate => x.year < y.year || (x.year == y.year && x.month <= y.month),
        SortCriteria::Name => {
            let ka = effective_name_key_of(x);
            let kb = effective_name_key_of(y);
            key_le(&ka, &kb)
        },
        SortCriteria::LastEdited => x.last_edited <= y.last_edited,
    }
}

/// The views of a sequence of budget summaries.
pub open spec fn summary_views(v: Seq<BudgetSummary>) -> Seq<BudgetSummaryV> {
    v.map_values(|r: BudgetSummary| r@)
}

/// The summaries of every stored budget, in storage order.
pub open spec fn summaries_of(s: StoreV) -> Seq<BudgetSummaryV> {
    s.budgets.map_values(|b: crate::types::BudgetV| summary_of(b))
}

/// Months of every summary lie in the calendar range.
pub open spec fn months_in_range(v: Seq<BudgetSummaryV>) -> bool {
    forall|i: int| 0 <= i < v.len() ==> 1 <= #[trigger] v[i].month <= 12
}

/// Sorts budget summaries by the given criterion and direction: the result
/// is ordered by the criterion and holds exactly the given summaries.
#[verifier::loop_isolation(false)]
fn sort_budget_summaries(v: Vec<BudgetSummary>, c: SortCriteria, asc: bool) -> (r: Vec<
    BudgetSummary,
>)
    requires
        months_in_range(summary_views(v@)),
    ensures
        sorted_by(summary_views(r@), budget_le_fn(c, asc)),
        summary_views(r@).to_multiset() == summary_views(v@).to_multiset(),
        r@.len() == v@.len(),
{
    let ghost le = budget_le_fn(c, asc);
    let ghost orig = summary_views(v@);
    let mut rest = v;
    let mut out: Vec<BudgetSummary> = Vec::new();
    loop
        invariant
            le == budget_le_fn(c, asc),
            sorted_by(summary_views(out@), le),
            forall|i: int, j: int|
                0 <= i < out@.len() && 0 <= j < rest@.len() ==> le(
                    #[trigger] summary_views(out@)[i],
                    #[trigger] summary_views(rest@)[j],
                ),
            summary_views(out@).to_multiset().add(summary_views(rest@).to_multiset())
                == orig.to_multiset(),
            out@.len() + rest@.len() == orig.len(),
            months_in_range(summary_views(out@)),
            months_in_range(summary_views(rest@)),
        decreases rest@.len(),
    {
        if rest.len() == 0 {
            proof {
                assert(summary_views(rest@).len() == 0);
                assert(summary_views(rest@).to_multiset().len() == 0);
                assert(summary_views(rest@).to_multiset() =~= Multiset::<BudgetSummaryV>::empty());
                assert(summary_views(out@).to_multiset() =~= orig.to_multiset());
            }
            return out;
        }
        let ghost rv = summary_views(rest@);
        let mut m: usize = 0;
        let mut j: usize = 1;
        proof {
            assert(rv[0] == rest@[0]@);
            lemma_budget_le_refl(c, asc, rv[0]);
        }
        while j < rest.len()
            invariant
                le == budget_le_fn(c, asc),
                m < j <= rest@.len(),
                rv == summary_views(rest@),
                months_in_range(rv),
                forall|k: int| 0 <= k < j ==> le(rv[m as int], #[trigger] rv[k]),
            decreases rest@.len() - j,
        {
            proof {
                assert(rv[j as int] == rest@[j as int]@);
                assert(rv[m as int] == rest@[m as int]@);
                assert(1 <= rv[j as int].month <= 12);
                assert(1 <= rv[m as int].month <= 12);
                assert(rv[j as int].month == rest@[j as int].month as int);
                assert(rv[m as int].month == rest@[m as int].month as int);
            }
            if budget_le_exec(c, asc, &rest[j], &rest[m]) {
                proof {
                    assert(le(rv[j as int], rv[m as int]));
                    assert forall|k: int| 0 <= k < j + 1 implies le(
                        rv[j as int],
                        #[trigger] rv[k],
                    ) by {
                        if k < j {
                            lemma_budget_le_trans(c, asc, rv[j as int], rv[m as int], rv[k]);
                        } else {
                            lemma_budget_le_refl(c, asc, rv[j as int]);
                        }
                    }
                }
                m = j;
            } else {
                proof {
                    lemma_budget_le_total(c, asc, rv[m as int], rv[j as int]);
                }
            }
            j += 1;
        }
        let ghost x = rv[m as int];
        let picked = rest.remove(m);
        proof {
            assert(picked@ == x);
            assert(summary_views(rest@) =~= rv.remove(m as int));
        }
        let ghost out_before = summary_views(out@);
        out.push(picked);
        proof {
            assert(summary_views(out@) =~= out_before.push(x));
            // ordering of the grown prefix
            assert forall|i: int, jj: int|
                0 <= i < jj < summary_views(out@).len() implies le(
                #[trigger] summary_views(out@)[i],
                #[trigger] summary_views(out@)[jj],
            ) by {
                if jj < out_before.len() {
                } else {
                    assert(summary_views(out@)[jj] == x);
                }
            }
            // the picked element stays below everything left
            assert forall|i: int, jj: int|
                0 <= i < summary_views(out@).len() && 0 <= jj < summary_views(rest@).len()
                implies le(
                #[trigger] summary_views(out@)[i],
                #[trigger] summary_views(rest@)[jj],
            ) by {
                let oj: int = if jj < m { jj } else { jj + 1 };
                assert(summary_views(rest@)[jj] == rv[oj]);
                if i < out_before.len() {
                } else {
                    assert(summary_views(out@)[i] == x);
                }
            }
            // multiset bookkeeping: moving one element across
            assert(rv[m as int] == x);
            assert(rv.contains(x));
            assert(rv.to_multiset().count(x) > 0);
            assert(out_before.push(x).to_multiset() == out_before.to_multiset().insert(x));
            assert(rv.remove(m as int).to_multiset() == rv.to_multiset().remove(x));
            assert(out_before.push(x).to_multiset().add(rv.remove(m as int).to_multiset())
                =~= out_before.to_multiset().add(rv.to_multiset()));
            assert forall|i: int|
                0 <= i < summary_views(rest@).len() implies 1 <= #[trigger] summary_views(
                rest@,
            )[i].month <= 12 by {
                let oj: int = if i < m { i } else { i + 1 };
                assert(summary_views(rest@)[i] == rv[oj]);
            }
        }
    }
}

impl BudgetRecord {
    /// The summary snapshot of this stored budget.
    pub fn to_summary(&self) -> (r: BudgetSummary)
        ensures
            r@ == summary_of(self@),
    {
        BudgetSummary {
            budget_id: self.budget_id,
            month: self.month,
            year: self.year,
            total_income: self.total_income,
            created_at: self.created_at,
            finished_at: self.finished_at,
            first_finished_at: self.first_finished_at,
            name: clone_opt_string(&self.name),
            last_edited: self.last_edited,
        }
    }
}

impl Store {
    /// Snapshots of every budget, in storage order.
    fn collect_summaries(&self) -> (r: Vec<BudgetSummary>)
        ensures
            summary_views(r@) == summaries_of(self@),
    {
        let mut out: Vec<BudgetSummary> = Vec::new();
        let mut i: usize = 0;
        while i < self.budgets.len()
            invariant
                i <= self.budgets@.len(),
                out@.len() == i,
                forall|j: int|
                    0 <= j < i ==> #[trigger] summary_views(out@)[j] == summaries_of(self@)[j],
            decreases self.budgets@.len() - i,
        {
            let ghost before = out@;
            let s = self.budgets[i].to_summary();
            out.push(s);
            proof {
                assert(self@.budgets[i as int] == self.budgets@[i as int]@);
                assert(summaries_of(self@)[i as int] == summary_of(self@.budgets[i as int]));
                assert forall|j: int|
                    0 <= j < i + 1 implies #[trigger] summary_views(out@)[j] == summaries_of(
                    self@,
                )[j] by {
                    assert(summary_views(out@)[j] == out@[j]@);
                    if j < i {
                        assert(out@[j] == before[j]);
                        assert(summary_views(before)[j] == before[j]@);
                    } else {
                        assert(out@[j] == s);
                    }
                }
            }
            i += 1;
        }
        proof {
            assert(summary_views(out@) =~= summaries_of(self@));
        }
        out
    }

    /// Every budget, ordered by `last_edited`, most recently edited first.
    pub fn list_monthly_budgets(&self) -> (r: Result<Vec<BudgetSummary>, StoreError>)
        requires
            self@.wf(),
        ensures
            r is Ok,
            sorted_by(
                summary_views(r->Ok_0@),
                budget_le_fn(SortCriteria::LastEdited, false),
            ),
            summary_views(r->Ok_0@).to_multiset() == summaries_of(self@).to_multiset(),
            r->Ok_0@.len() == self@.budgets.len(),
    {
        let v = self.collect_summaries();
        proof {
            assert forall|i: int|
                0 <= i < summary_views(v@).len() implies 1 <= #[trigger] summary_views(
                v@,
            )[i].month <= 12 by {
                assert(summaries_of(self@)[i].month == self@.budgets[i].month);
            }
        }
        Ok(sort_budget_summaries(v, SortCriteria::LastEdited, false))
    }

    /// Every budget, ordered by the requested criterion and direction; an
    /// unrecognized criterion falls back to `last_edited` descending.
    pub fn list_monthly_budgets_sorted(&self, args: SortBudgetsArgs) -> (r: Result<
        Vec<BudgetSummary>,
        StoreError,
    >)
        requires
            self@.wf(),
        ensures
            r is Ok,
            sorted_by(
                summary_views(r->Ok_0@),
                budget_le_fn(
                    sort_plan(args.criteria@, args.ascending).0,
                    sort_plan(args.criteria@, args.ascending).1,
                ),
            ),
            summary_views(r->Ok_0@).to_multiset() == summaries_of(self@).to_multiset(),
            r->Ok_0@.len() == self@.budgets.len(),
    {
        let c = args.criteria.as_str();
        let plan: (SortCriteria, bool) = if str_eq(c, "income") {
            (SortCriteria::Income, args.ascending)
        } else if str_eq(c, "created_date") {
            (SortCriteria::CreatedDate, args.ascending)
        } else if str_eq(c, "finished_date") {
            (SortCriteria::FinishedDate, args.ascending)
        } else if str_eq(c, "budget_date") {
            (SortCriteria::BudgetDate, args.ascending)
        } else if str_eq(c, "name") {
            (SortCriteria::Name, args.ascending)
        } else if str_eq(c, "last_edited") {
            (SortCriteria::LastEdited, args.ascending)
        } else {
            (SortCriteria::LastEdited, false)
        };
        let v = self.collect_summaries();
        proof {
            assert(plan == sort_plan(args.criteria@, args.ascending));
            assert forall|i: int|
                0 <= i < summary_views(v@).len() implies 1 <= #[trigger] summary_views(
                v@,
            )[i].month <= 12 by {
                assert(summaries_of(self@)[i].month == self@.budgets[i].month);
            }
        }
        Ok(sort_budget_summaries(v, plan.0, plan.1))
    }
}

} // verus!
