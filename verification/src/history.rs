//! Reading the audit trail: one budget's change records, newest first.

use vstd::prelude::*;
use vstd::relations::sorted_by;
use crate::store::{Store, StoreV, lemma_filter_push};
use crate::error::StoreError;
use crate::types::{BudgetChangeHistoryEntry, HistoryV, clone_opt_string};
use crate::order::{StoreOrder, sort_records, rec_views, order_le_fn};

verus! {

broadcast use vstd::seq_lib::group_filter_ensures;

impl StoreOrder for BudgetChangeHistoryEntry {
    /// Audit records list newest first.
    open spec fn le(a: HistoryV, b: HistoryV) -> bool {
        b.changed_at <= a.changed_at
    }

    proof fn lemma_total(a: HistoryV, b: HistoryV) {
    }

    proof fn lemma_trans(a: HistoryV, b: HistoryV, c: HistoryV) {
    }

    fn le_exec(&self, other: &Self) -> (r: bool) {
        other.changed_at <= self.changed_at
    }
}

/// Keeps the audit records of one budget.
pub open spec fn history_of_budget_fn(budget_id: int) -> spec_fn(HistoryV) -> bool {
    |h: HistoryV| h.budget_id == budget_id
}

/// The audit records of one budget, in storage order.
pub open spec fn budget_history_of(s: StoreV, budget_id: int) -> Seq<HistoryV> {
    s.history.filter(history_of_budget_fn(budget_id))
}

impl Store {
    /// Every audit record of one budget, newest first. A budget id with no
    /// records (or no budget) yields the empty list.
    pub fn get_budget_change_history(&self, budget_id: i64) -> (r: Result<
        Vec<BudgetChangeHistoryEntry>,
        StoreError,
    >)
        requires
            self@.wf(),
        ensures
            r is Ok,
            sorted_by(
                rec_views(r->Ok_0@),
                order_le_fn::<BudgetChangeHistoryEntry>(),
            ),
            rec_views(r->Ok_0@).to_multiset() == budget_history_of(
                self@,
                budget_id as int,
            ).to_multiset(),
            r->Ok_0@.len() == budget_history_of(self@, budget_id as int).len(),
    {
        let ghost s = self@;
        let ghost pred = history_of_budget_fn(budget_id as int);
        let mut out: Vec<BudgetChangeHistoryEntry> = Vec::new();
        let mut i: usize = 0;
        proof {
            assert(s.history.take(0) =~= Seq::<HistoryV>::empty());
            assert(s.history.take(0).filter(pred) =~= Seq::<HistoryV>::empty());
            assert(rec_views(out@) =~= s.history.take(0).filter(pred));
        }
        while i < self.history.len()
            invariant
                self@ == s,
                i <= self.history@.len(),
                s.history.len() == self.history@.len(),
                pred == history_of_budget_fn(budget_id as int),
                rec_views(out@) == s.history.take(i as int).filter(pred),
            decreases self.history@.len() - i,
        {
            let ghost hv = s.history[i as int];
            proof {
                assert(hv == self.history@[i as int]@);
                assert(s.history.take(i as int + 1) =~= s.history.take(i as int).push(hv));
                lemma_filter_push(s.history.take(i as int), pred, hv);
            }
            let h = &self.history[i];
            if h.budget_id == budget_id {
                let row = BudgetChangeHistoryEntry {
                    change_id: h.change_id,
                    budget_id: h.budget_id,
                    change_type: h.change_type.clone(),
                    field_name: clone_opt_string(&h.field_name),
                    old_value: clone_opt_string(&h.old_value),
                    new_value: clone_opt_string(&h.new_value),
                    change_description: h.change_description.clone(),
                    changed_at: h.changed_at,
                };
                let ghost before = out@;
                out.push(row);
                proof {
                    assert(row@ == hv);
                    assert(rec_views(out@) =~= rec_views(before).push(hv));
                    assert(rec_views(out@) =~= s.history.take(i as int + 1).filter(pred));
                }
            } else {
                proof {
                    assert(!pred(hv));
                    assert(rec_views(out@) =~= s.history.take(i as int + 1).filter(pred));
                }
            }
            i += 1;
        }
        proof {
            assert(s.history.take(s.history.len() as int) =~= s.history);
        }
        Ok(sort_records(out))
    }
}

} // verus!
