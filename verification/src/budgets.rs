//! Lifecycle of monthly budgets: create, finish, unfinish, rename, delete,
//! and the audit-trail append that accompanies each mutation.
//!
//! Every mutating operation is specified by a transition function on the
//! store model, so that laws about sequences of operations can be stated and
//! proved over the model alone.

use vstd::prelude::*;
use crate::error::{ConflictKind, EntityKind, StoreError};
use crate::store::{Store, StoreV, lemma_filter_members, lemma_filter_distinct_by};
use crate::types::{
    BudgetRecord, BudgetV, CategoryV, EntryV, HistoryV, BudgetChangeHistoryEntry,
    view_opt_string, clone_opt_string,
};
use vstd::string::StringExecFns;

verus! {

/// The payload of a budget creation.
pub struct CreateBudgetArgs {
    pub month: u8,
    pub year: i32,
    pub total_income: i64,
    pub name: Option<String>,
}

#[verifier::ext_equal]
pub struct CreateBudgetArgsV {
    pub month: int,
    pub year: int,
    pub total_income: int,
    pub name: Option<Seq<char>>,
}

impl View for CreateBudgetArgs {
    type V = CreateBudgetArgsV;

    open spec fn view(&self) -> CreateBudgetArgsV {
        CreateBudgetArgsV {
            month: self.month as int,
            year: self.year as int,
            total_income: self.total_income as int,
            name: view_opt_string(self.name),
        }
    }
}

/// The store after a successful budget creation: one fresh open budget row,
/// stamped with `now`, and the budget id counter advanced.
pub open spec fn create_budget_tr(s: StoreV, a: CreateBudgetArgsV, now: int) -> StoreV {
    StoreV {
        budgets: s.budgets.push(
            BudgetV {
                budget_id: s.next_budget_id,
                month: a.month,
                year: a.year,
                total_income: a.total_income,
                created_at: now,
                finished_at: None,
                first_finished_at: None,
                name: a.name,
                last_edited: now,
                template_id: None,
            },
        ),
        next_budget_id: s.next_budget_id + 1,
        ..s
    }
}

/// The store after one audit record is appended.
pub open spec fn history_tr(
    s: StoreV,
    budget_id: int,
    change_type: Seq<char>,
    field_name: Option<Seq<char>>,
    old_value: Option<Seq<char>>,
    new_value: Option<Seq<char>>,
    description: Seq<char>,
    now: int,
) -> StoreV {
    StoreV {
        history: s.history.push(
            HistoryV {
                change_id: s.next_change_id,
                budget_id: budget_id,
                change_type: change_type,
                field_name: field_name,
                old_value: old_value,
                new_value: new_value,
                change_description: description,
                changed_at: now,
            },
        ),
        next_change_id: s.next_change_id + 1,
        ..s
    }
}

/// One budget's rows rewritten by `f`, every other budget untouched.
pub open spec fn patch_budgets(
    bs: Seq<BudgetV>,
    id: int,
    f: spec_fn(BudgetV) -> BudgetV,
) -> Seq<BudgetV> {
    bs.map_values(|b: BudgetV| if b.budget_id == id { f(b) } else { b })
}

/// The finish patch as a function, shared by the transition, the
/// operation's proof, and the laws.
pub open spec fn finish_patch_fn(now: int) -> spec_fn(BudgetV) -> BudgetV {
    |b: BudgetV| finish_patch(b, now)
}

/// The unfinish patch as a function.
pub open spec fn unfinish_patch_fn(now: int) -> spec_fn(BudgetV) -> BudgetV {
    |b: BudgetV| unfinish_patch(b, now)
}

/// The rename patch as a function.
pub open spec fn rename_patch_fn(title: Seq<char>, now: int) -> spec_fn(BudgetV) -> BudgetV {
    |b: BudgetV| rename_patch(b, title, now)
}

/// Keeps the categories that do not belong to the deleted budget.
pub open spec fn keep_category_fn(id: int) -> spec_fn(CategoryV) -> bool {
    |c: CategoryV| c.budget_id != id
}

/// Keeps the entries whose category does not belong to the deleted budget.
pub open spec fn keep_entry_fn(cats: Seq<CategoryV>, id: int) -> spec_fn(EntryV) -> bool {
    |e: EntryV| !entry_in_budget(cats, e, id)
}

/// Keeps the audit records not attributed to the deleted budget.
pub open spec fn keep_history_fn(id: int) -> spec_fn(HistoryV) -> bool {
    |h: HistoryV| h.budget_id != id
}

/// A finish stamps `finished_at`, sets `first_finished_at` only if it was
/// never set, and touches `last_edited`.
pub open spec fn finish_patch(b: BudgetV, now: int) -> BudgetV {
    BudgetV {
        finished_at: Some(now),
        first_finished_at: if b.first_finished_at is None {
            Some(now)
        } else {
            b.first_finished_at
        },
        last_edited: now,
        ..b
    }
}

/// The store after a budget is finished: the row patched and one
/// `status_change` audit record appended.
pub open spec fn finish_tr(s: StoreV, id: int, now: int) -> StoreV {
    let first = s.budget_of(id).first_finished_at is None;
    let sp = StoreV { budgets: patch_budgets(s.budgets, id, finish_patch_fn(now)), ..s };
    history_tr(
        sp,
        id,
        "status_change"@,
        Some("finished_at"@),
        Some("null"@),
        Some("current_timestamp"@),
        if first {
            "Budget marked as finished for the first time"@
        } else {
            "Budget marked as finished again after being reopened"@
        },
        now,
    )
}

/// An unfinish clears `finished_at`, leaves `first_finished_at` untouched,
/// and touches `last_edited`.
pub open spec fn unfinish_patch(b: BudgetV, now: int) -> BudgetV {
    BudgetV { finished_at: None, last_edited: now, ..b }
}

/// The store after a budget is reopened.
pub open spec fn unfinish_tr(s: StoreV, id: int, now: int) -> StoreV {
    let sp = StoreV { budgets: patch_budgets(s.budgets, id, unfinish_patch_fn(now)), ..s };
    history_tr(
        sp,
        id,
        "status_change"@,
        Some("finished_at"@),
        Some("current_timestamp"@),
        Some("null"@),
        "Budget reopened for editing"@,
        now,
    )
}

/// A rename stores the new title and touches `last_edited`.
pub open spec fn rename_patch(b: BudgetV, title: Seq<char>, now: int) -> BudgetV {
    BudgetV { name: Some(title), last_edited: now, ..b }
}

/// The title a rename reports as the old value: the stored name, or empty.
pub open spec fn old_title_of(b: BudgetV) -> Seq<char> {
    match b.name {
        Some(n) => n,
        None => Seq::empty(),
    }
}

/// The store after a budget is renamed.
pub open spec fn rename_tr(s: StoreV, id: int, title: Seq<char>, now: int) -> StoreV {
    let sp = StoreV { budgets: patch_budgets(s.budgets, id, rename_patch_fn(title, now)), ..s };
    history_tr(
        sp,
        id,
        "title_change"@,
        Some("name"@),
        Some(old_title_of(s.budget_of(id))),
        Some(title),
        "Budget title changed to '"@ + title + "'"@,
        now,
    )
}

/// Whether an entry's category belongs to the given budget.
pub open spec fn entry_in_budget(cats: Seq<CategoryV>, e: EntryV, budget_id: int) -> bool {
    exists|i: int|
        0 <= i < cats.len() && cats[i].category_id == e.category_id && cats[i].budget_id
            == budget_id
}

/// The store after a budget is hard-deleted: the row goes, and its
/// categories, their entries, and its audit records go with it.
pub open spec fn delete_budget_tr(s: StoreV, id: int) -> StoreV {
    StoreV {
        budgets: s.budgets.remove(s.budget_index(id)),
        categories: s.categories.filter(keep_category_fn(id)),
        entries: s.entries.filter(keep_entry_fn(s.categories, id)),
        history: s.history.filter(keep_history_fn(id)),
        ..s
    }
}

/// Rewriting one budget in place preserves well-formedness and every
/// lookup, provided the patch keeps the identity fields.
pub proof fn lemma_patch_budgets_wf(s: StoreV, id: int, f: spec_fn(BudgetV) -> BudgetV)
    requires
        s.wf(),
        forall|b: BudgetV| (#[trigger] f(b)).budget_id == b.budget_id,
        forall|b: BudgetV| (#[trigger] f(b)).month == b.month,
        forall|b: BudgetV| (#[trigger] f(b)).year == b.year,
    ensures
        (StoreV { budgets: patch_budgets(s.budgets, id, f), ..s }).wf(),
        forall|x: int| (StoreV { budgets: patch_budgets(s.budgets, id, f), ..s }).has_budget(x)
            == s.has_budget(x),
        s.has_budget(id) ==> (StoreV { budgets: patch_budgets(s.budgets, id, f), ..s }).budget_of(
            id,
        ) == f(s.budget_of(id)),
        forall|x: int|
            x != id && s.has_budget(x) ==> (StoreV {
                budgets: patch_budgets(s.budgets, id, f),
                ..s
            }).budget_of(x) == s.budget_of(x),
{
    let sp = StoreV { budgets: patch_budgets(s.budgets, id, f), ..s };
    assert(sp.budgets.len() == s.budgets.len());
    assert(forall|i: int|
        0 <= i < s.budgets.len() ==> (#[trigger] sp.budgets[i]).budget_id
            == s.budgets[i].budget_id && sp.budgets[i].month == s.budgets[i].month
            && sp.budgets[i].year == s.budgets[i].year);
    assert forall|x: int| sp.has_budget(x) == s.has_budget(x) by {
        if s.has_budget(x) {
            let w = choose|i: int| 0 <= i < s.budgets.len() && s.budgets[i].budget_id == x;
            assert(sp.budgets[w].budget_id == x);
        }
        if sp.has_budget(x) {
            let w = choose|i: int| 0 <= i < sp.budgets.len() && sp.budgets[i].budget_id == x;
            assert(s.budgets[w].budget_id == x);
        }
    }
    if s.has_budget(id) {
        let i0 = s.budget_index(id);
        assert(0 <= i0 < s.budgets.len() && s.budgets[i0].budget_id == id);
        let j0 = sp.budget_index(id);
        assert(sp.has_budget(id));
        assert(0 <= j0 < sp.budgets.len() && sp.budgets[j0].budget_id == id);
        assert(s.budgets[j0].budget_id == id);
        assert(j0 == i0);
        assert(sp.budget_of(id) == f(s.budgets[i0]));
    }
    assert forall|x: int| x != id && s.has_budget(x) implies sp.budget_of(x) == s.budget_of(x) by {
        let i0 = s.budget_index(x);
        assert(0 <= i0 < s.budgets.len() && s.budgets[i0].budget_id == x);
        assert(sp.budgets[i0].budget_id == x);
        let j0 = sp.budget_index(x);
        assert(0 <= j0 < sp.budgets.len() && sp.budgets[j0].budget_id == x);
        assert(s.budgets[j0].budget_id == x);
        assert(j0 == i0);
        assert(sp.budgets[i0] == s.budgets[i0]);
    }
}

/// Appending one audit record for an existing budget preserves
/// well-formedness.
pub proof fn lemma_history_tr_wf(
    s: StoreV,
    budget_id: int,
    change_type: Seq<char>,
    field_name: Option<Seq<char>>,
    old_value: Option<Seq<char>>,
    new_value: Option<Seq<char>>,
    description: Seq<char>,
    now: int,
)
    requires
        s.wf(),
        s.schema.change_history_table,
        s.has_budget(budget_id),
        s.next_change_id < 0x7fff_ffff_ffff_ffff,
    ensures
        history_tr(s, budget_id, change_type, field_name, old_value, new_value, description, now)
            .wf(),
{
    let s2 = history_tr(s, budget_id, change_type, field_name, old_value, new_value, description, now);
    assert(s2.budgets == s.budgets);
    assert(forall|i: int|
        0 <= i < s.history.len() ==> #[trigger] s2.history[i] == s.history[i]);
    let n = s.history.len() as int;
    assert(s2.history.len() == n + 1);
    assert(s2.history[n].change_id == s.next_change_id);
    assert(s2.history[n].budget_id == budget_id);
    assert forall|i: int|
        0 <= i < s2.history.len() implies 1 <= (#[trigger] s2.history[i]).change_id
        < s2.next_change_id by {
        if i < n {
            assert(s2.history[i] == s.history[i]);
        }
    }
    assert forall|i: int, j: int|
        0 <= i < j < s2.history.len() implies (#[trigger] s2.history[i]).change_id
        != (#[trigger] s2.history[j]).change_id by {
        if j < n {
            assert(s2.history[i] == s.history[i]);
            assert(s2.history[j] == s.history[j]);
        } else {
            assert(s2.history[i] == s.history[i]);
            assert(s.history[i].change_id < s.next_change_id);
        }
    }
    assert forall|i: int|
        0 <= i < s2.history.len() implies s2.has_budget(#[trigger] s2.history[i].budget_id) by {
        if i < n {
            assert(s2.history[i] == s.history[i]);
            assert(s.has_budget(s.history[i].budget_id));
            let w = choose|w: int|
                0 <= w < s.budgets.len() && s.budgets[w].budget_id == s.history[i].budget_id;
            assert(s2.budgets[w].budget_id == s2.history[i].budget_id);
        } else {
            let w = choose|w: int|
                0 <= w < s.budgets.len() && s.budgets[w].budget_id == budget_id;
            assert(s2.budgets[w].budget_id == s2.history[i].budget_id);
        }
    }
    assert(s2.wf());
}

impl Store {
    /// Appends one audit record attributed to `budget_id`.
    pub(crate) fn push_history(
        &mut self,
        budget_id: i64,
        change_type: &str,
        field_name: Option<String>,
        old_value: Option<String>,
        new_value: Option<String>,
        description: String,
        now: i64,
    )
        requires
            old(self)@.wf(),
            old(self)@.schema.change_history_table,
            old(self)@.has_budget(budget_id as int),
            old(self)@.next_change_id < 0x7fff_ffff_ffff_ffff,
        ensures
            final(self)@ == history_tr(
                old(self)@,
                budget_id as int,
                change_type@,
                view_opt_string(field_name),
                view_opt_string(old_value),
                view_opt_string(new_value),
                description@,
                now as int,
            ),
            final(self)@.wf(),
    {
        proof {
            lemma_history_tr_wf(
                self@,
                budget_id as int,
                change_type@,
                view_opt_string(field_name),
                view_opt_string(old_value),
                view_opt_string(new_value),
                description@,
                now as int,
            );
        }
        let rec = BudgetChangeHistoryEntry {
            change_id: self.next_change_id,
            budget_id: budget_id,
            change_type: String::from_str(change_type),
            field_name: field_name,
            old_value: old_value,
            new_value: new_value,
            change_description: description,
            changed_at: now,
        };
        self.history.push(rec);
        self.next_change_id = self.next_change_id + 1;
        proof {
            assert(self@.history =~= history_tr(
                old(self)@,
                budget_id as int,
                change_type@,
                view_opt_string(rec.field_name),
                view_opt_string(rec.old_value),
                view_opt_string(rec.new_value),
                rec.change_description@,
                now as int,
            ).history);
            assert(self@ =~= history_tr(
                old(self)@,
                budget_id as int,
                change_type@,
                view_opt_string(rec.field_name),
                view_opt_string(rec.old_value),
                view_opt_string(rec.new_value),
                rec.change_description@,
                now as int,
            ));
        }
    }

    /// Appends one audit record for a budget; the append-only log write that
    /// every mutation goes through.
    pub fn log_budget_change(
        &mut self,
        budget_id: i64,
        change_type: &str,
        field_name: Option<&str>,
        old_value: Option<&str>,
        new_value: Option<&str>,
        description: &str,
        now: i64,
    ) -> (r: Result<(), StoreError>)
        requires
            old(self)@.wf(),
            old(self)@.ready(),
            old(self)@.next_change_id < 0x7fff_ffff_ffff_ffff,
        ensures
            final(self)@.wf(),
            match r {
                Ok(_) => old(self)@.has_budget(budget_id as int) && final(self)@ == history_tr(
                    old(self)@,
                    budget_id as int,
                    change_type@,
                    match field_name {
                        Some(f) => Some(f@),
                        None => None,
                    },
                    match old_value {
                        Some(v) => Some(v@),
                        None => None,
                    },
                    match new_value {
                        Some(v) => Some(v@),
                        None => None,
                    },
                    description@,
                    now as int,
                ),
                Err(e) => e == StoreError::NotFound(EntityKind::Budget, budget_id)
                    && !old(self)@.has_budget(budget_id as int) && *final(self) == *old(self),
            },
    {
        if self.find_budget(budget_id).is_none() {
            return Err(StoreError::NotFound(EntityKind::Budget, budget_id));
        }
        let field_name_s = match field_name {
            Some(f) => Some(String::from_str(f)),
            None => None,
        };
        let old_value_s = match old_value {
            Some(v) => Some(String::from_str(v)),
            None => None,
        };
        let new_value_s = match new_value {
            Some(v) => Some(String::from_str(v)),
            None => None,
        };
        self.push_history(
            budget_id,
            change_type,
            field_name_s,
            old_value_s,
            new_value_s,
            String::from_str(description),
            now,
        );
        Ok(())
    }

    /// Creates a monthly budget for a (month, year) pair. Succeeds exactly
    /// when no budget for that pair exists yet; the duplicate case is the
    /// `Conflict` error. Returns the fresh budget id.
    pub fn create_monthly_budget(&mut self, args: CreateBudgetArgs, now: i64) -> (r: Result<
        i64,
        StoreError,
    >)
        requires
            old(self)@.wf(),
            old(self)@.ready(),
            1 <= args.month <= 12,
            old(self)@.next_budget_id < 0x7fff_ffff_ffff_ffff,
        ensures
            final(self)@.wf(),
            match r {
                Ok(id) => !old(self)@.has_budget_pair(args.month as int, args.year as int)
                    && id as int == old(self)@.next_budget_id && final(self)@ == create_budget_tr(
                    old(self)@,
                    args@,
                    now as int,
                ),
                Err(e) => e == StoreError::Conflict(
                    (ConflictKind::BudgetPair { month: args.month, year: args.year }),
                ) && old(self)@.has_budget_pair(args.month as int, args.year as int)
                    && *final(self) == *old(self),
            },
    {
        if self.find_budget_pair(args.month, args.year).is_some() {
            return Err(StoreError::Conflict(
                ConflictKind::BudgetPair { month: args.month, year: args.year },
            ));
        }
        let id = self.next_budget_id;
        let rec = BudgetRecord {
            budget_id: id,
            month: args.month,
            year: args.year,
            total_income: args.total_income,
            created_at: now,
            finished_at: None,
            first_finished_at: None,
            name: args.name,
            last_edited: now,
            template_id: None,
        };
        self.budgets.push(rec);
        self.next_budget_id = self.next_budget_id + 1;
        proof {
            let s = old(self)@;
            let s2 = create_budget_tr(s, args@, now as int);
            assert(self@.budgets =~= s2.budgets);
            assert(self@ =~= s2);
            assert forall|i: int|
                0 <= i < s2.categories.len() implies s2.has_budget(
                #[trigger] s2.categories[i].budget_id,
            ) by {
                assert(s.has_budget(s.categories[i].budget_id));
                let w = choose|j: int|
                    0 <= j < s.budgets.len() && s.budgets[j].budget_id
                        == s.categories[i].budget_id;
                assert(s2.budgets[w].budget_id == s2.categories[i].budget_id);
            }
            assert forall|i: int|
                0 <= i < s2.history.len() implies s2.has_budget(
                #[trigger] s2.history[i].budget_id,
            ) by {
                assert(s.has_budget(s.history[i].budget_id));
                let w = choose|j: int|
                    0 <= j < s.budgets.len() && s.budgets[j].budget_id == s.history[i].budget_id;
                assert(s2.budgets[w].budget_id == s2.history[i].budget_id);
            }
            assert(s2.wf());
        }
        Ok(id)
    }

    /// Marks a budget finished, stamping `finished_at` with `now` and
    /// setting `first_finished_at` only on the first ever finish. Finishing
    /// an already-finished budget re-stamps `finished_at` and appends a
    /// fresh audit record; it is not a no-op.
    pub fn finish_monthly_budget(&mut self, budget_id: i64, now: i64) -> (r: Result<
        (),
        StoreError,
    >)
        requires
            old(self)@.wf(),
            old(self)@.ready(),
            old(self)@.next_change_id < 0x7fff_ffff_ffff_ffff,
        ensures
            final(self)@.wf(),
            match r {
                Ok(_) => old(self)@.has_budget(budget_id as int) && final(self)@ == finish_tr(
                    old(self)@,
                    budget_id as int,
                    now as int,
                ),
                Err(e) => e == StoreError::NotFound(EntityKind::Budget, budget_id) && !old(
                    self,
                )@.has_budget(budget_id as int) && *final(self) == *old(self),
            },
    {
        let idx = match self.find_budget(budget_id) {
            None => {
                return Err(StoreError::NotFound(EntityKind::Budget, budget_id));
            },
            Some(i) => i,
        };
        let is_first = self.budgets[idx].first_finished_at.is_none();
        let b = &self.budgets[idx];
        let rec = BudgetRecord {
            budget_id: b.budget_id,
            month: b.month,
            year: b.year,
            total_income: b.total_income,
            created_at: b.created_at,
            finished_at: Some(now),
            first_finished_at: match b.first_finished_at {
                None => Some(now),
                Some(t) => Some(t),
            },
            name: clone_opt_string(&b.name),
            last_edited: now,
            template_id: b.template_id,
        };
        let ghost pf = finish_patch_fn(now as int);
        self.budgets[idx] = rec;
        let ghost sp = StoreV {
            budgets: patch_budgets(old(self)@.budgets, budget_id as int, pf),
            ..old(self)@
        };
        proof {
            lemma_patch_budgets_wf(old(self)@, budget_id as int, pf);
            assert forall|j: int| 0 <= j < self@.budgets.len() implies #[trigger] self@.budgets[j]
                == sp.budgets[j] by {
                if j != idx {
                    assert(old(self)@.budgets[j].budget_id != old(
                        self,
                    )@.budgets[idx as int].budget_id);
                }
            }
            assert(self@.budgets =~= sp.budgets);
            assert(self@ =~= sp);
            assert(old(self)@.budget_of(budget_id as int) == old(self)@.budgets[idx as int]);
        }
        let description: &str = if is_first {
            "Budget marked as finished for the first time"
        } else {
            "Budget marked as finished again after being reopened"
        };
        self.push_history(
            budget_id,
            "status_change",
            Some(String::from_str("finished_at")),
            Some(String::from_str("null")),
            Some(String::from_str("current_timestamp")),
            String::from_str(description),
            now,
        );
        proof {
            assert(self@ =~= finish_tr(old(self)@, budget_id as int, now as int));
        }
        Ok(())
    }

    /// Reopens a finished budget: clears `finished_at`, touches
    /// `last_edited`, and leaves `first_finished_at` exactly as it was.
    pub fn unfinish_monthly_budget(&mut self, budget_id: i64, now: i64) -> (r: Result<
        (),
        StoreError,
    >)
        requires
            old(self)@.wf(),
            old(self)@.ready(),
            old(self)@.next_change_id < 0x7fff_ffff_ffff_ffff,
        ensures
            final(self)@.wf(),
            match r {
                Ok(_) => old(self)@.has_budget(budget_id as int) && final(self)@ == unfinish_tr(
                    old(self)@,
                    budget_id as int,
                    now as int,
                ),
                Err(e) => e == StoreError::NotFound(EntityKind::Budget, budget_id) && !old(
                    self,
                )@.has_budget(budget_id as int) && *final(self) == *old(self),
            },
    {
        let idx = match self.find_budget(budget_id) {
            None => {
                return Err(StoreError::NotFound(EntityKind::Budget, budget_id));
            },
            Some(i) => i,
        };
        let b = &self.budgets[idx];
        let rec = BudgetRecord {
            budget_id: b.budget_id,
            month: b.month,
            year: b.year,
            total_income: b.total_income,
            created_at: b.created_at,
            finished_at: None,
            first_finished_at: b.first_finished_at,
            name: clone_opt_string(&b.name),
            last_edited: now,
            template_id: b.template_id,
        };
        let ghost pf = unfinish_patch_fn(now as int);
        self.budgets[idx] = rec;
        let ghost sp = StoreV {
            budgets: patch_budgets(old(self)@.budgets, budget_id as int, pf),
            ..old(self)@
        };
        proof {
            lemma_patch_budgets_wf(old(self)@, budget_id as int, pf);
            assert forall|j: int| 0 <= j < self@.budgets.len() implies #[trigger] self@.budgets[j]
                == sp.budgets[j] by {
                if j != idx {
                    assert(old(self)@.budgets[j].budget_id != old(
                        self,
                    )@.budgets[idx as int].budget_id);
                }
            }
            assert(self@.budgets =~= sp.budgets);
            assert(self@ =~= sp);
            assert(self@.budgets[idx as int].budget_id == budget_id);
            assert(self@.has_budget(budget_id as int));
        }
        self.push_history(
            budget_id,
            "status_change",
            Some(String::from_str("finished_at")),
            Some(String::from_str("current_timestamp")),
            Some(String::from_str("null")),
            String::from_str("Budget reopened for editing"),
            now,
        );
        proof {
            assert(self@ =~= unfinish_tr(old(self)@, budget_id as int, now as int));
        }
        Ok(())
    }
}

/// Whether some category of `cats` has the given id and belongs to the
/// given budget.
fn category_in_budget(cats: &Vec<crate::types::CategoryRecord>, category_id: i64, budget_id: i64) -> (r:
    bool)
    ensures
        r == exists|i: int|
            0 <= i < crate::store::category_views(cats@).len()
                && crate::store::category_views(cats@)[i].category_id == category_id
                && crate::store::category_views(cats@)[i].budget_id == budget_id,
{
    let ghost cv = crate::store::category_views(cats@);
    let mut i: usize = 0;
    while i < cats.len()
        invariant
            i <= cats@.len(),
            cv == crate::store::category_views(cats@),
            forall|j: int|
                0 <= j < i ==> !(#[trigger] cv[j].category_id == category_id && cv[j].budget_id
                    == budget_id),
        decreases cats@.len() - i,
    {
        if cats[i].category_id == category_id && cats[i].budget_id == budget_id {
            proof {
                assert(cv[i as int] == cats@[i as int]@);
            }
            return true;
        }
        i += 1;
    }
    false
}

/// Drops in place every category that belongs to the given budget.
pub(crate) fn retain_categories(v: &mut Vec<crate::types::CategoryRecord>, budget_id: i64)
    ensures
        crate::store::category_views(final(v)@) == crate::store::category_views(old(v)@).filter(
            keep_category_fn(budget_id as int),
        ),
{
    let ghost orig = crate::store::category_views(old(v)@);
    let ghost pred = keep_category_fn(budget_id as int);
    let mut i: usize = 0;
    let ghost mut k: int = 0;
    loop
        invariant
            0 <= k <= orig.len(),
            i as int == orig.take(k).filter(pred).len(),
            crate::store::category_views(v@) == orig.take(k).filter(pred) + orig.skip(k),
            v@.len() == i + (orig.len() - k),
            orig == crate::store::category_views(old(v)@),
            pred == keep_category_fn(budget_id as int),
        decreases v@.len() - i,
    {
        if i >= v.len() {
            proof {
                assert(orig.take(k) =~= orig);
                assert(crate::store::category_views(v@) =~= orig.filter(pred));
            }
            return;
        }
        let ghost cur = orig[k];
        proof {
            assert(crate::store::category_views(v@)[i as int] == orig.skip(k)[0]);
            assert(cur == crate::store::category_views(v@)[i as int]);
            assert(cur == v@[i as int]@);
        }
        if v[i].budget_id != budget_id {
            proof {
                assert(pred(cur));
                crate::store::lemma_filter_push(orig.take(k), pred, cur);
                assert(orig.take(k + 1) =~= orig.take(k).push(cur));
                assert(orig.skip(k).drop_first() =~= orig.skip(k + 1));
                assert(crate::store::category_views(v@) =~= orig.take(k + 1).filter(pred)
                    + orig.skip(k + 1));
                k = k + 1;
            }
            i += 1;
        } else {
            let ghost before = crate::store::category_views(v@);
            v.remove(i);
            proof {
                assert(!pred(cur));
                assert(crate::store::category_views(v@) =~= before.remove(i as int));
                crate::store::lemma_filter_push(orig.take(k), pred, cur);
                assert(orig.take(k + 1) =~= orig.take(k).push(cur));
                assert(orig.skip(k).drop_first() =~= orig.skip(k + 1));
                assert(before.remove(i as int) =~= orig.take(k + 1).filter(pred) + orig.skip(
                    k + 1,
                ));
                k = k + 1;
            }
        }
    }
}

/// Drops in place every audit record attributed to the given budget.
fn retain_history(v: &mut Vec<BudgetChangeHistoryEntry>, budget_id: i64)
    ensures
        crate::store::history_views(final(v)@) == crate::store::history_views(old(v)@).filter(
            keep_history_fn(budget_id as int),
        ),
{
    let ghost orig = crate::store::history_views(old(v)@);
    let ghost pred = keep_history_fn(budget_id as int);
    let mut i: usize = 0;
    let ghost mut k: int = 0;
    loop
        invariant
            0 <= k <= orig.len(),
            i as int == orig.take(k).filter(pred).len(),
            crate::store::history_views(v@) == orig.take(k).filter(pred) + orig.skip(k),
            v@.len() == i + (orig.len() - k),
            orig == crate::store::history_views(old(v)@),
            pred == keep_history_fn(budget_id as int),
        decreases v@.len() - i,
    {
        if i >= v.len() {
            proof {
                assert(orig.take(k) =~= orig);
                assert(crate::store::history_views(v@) =~= orig.filter(pred));
            }
            return;
        }
        let ghost cur = orig[k];
        proof {
            assert(crate::store::history_views(v@)[i as int] == orig.skip(k)[0]);
            assert(cur == v@[i as int]@);
        }
        if v[i].budget_id != budget_id {
            proof {
                assert(pred(cur));
                crate::store::lemma_filter_push(orig.take(k), pred, cur);
                assert(orig.take(k + 1) =~= orig.take(k).push(cur));
                assert(orig.skip(k).drop_first() =~= orig.skip(k + 1));
                assert(crate::store::history_views(v@) =~= orig.take(k + 1).filter(pred)
                    + orig.skip(k + 1));
                k = k + 1;
            }
            i += 1;
        } else {
            let ghost before = crate::store::history_views(v@);
            v.remove(i);
            proof {
                assert(!pred(cur));
                assert(crate::store::history_views(v@) =~= before.remove(i as int));
                crate::store::lemma_filter_push(orig.take(k), pred, cur);
                assert(orig.take(k + 1) =~= orig.take(k).push(cur));
                assert(orig.skip(k).drop_first() =~= orig.skip(k + 1));
                assert(before.remove(i as int) =~= orig.take(k + 1).filter(pred) + orig.skip(
                    k + 1,
                ));
                k = k + 1;
            }
        }
    }
}

/// Drops in place every entry whose category belongs to the given budget,
/// judged against the category table as it stood before the delete.
pub(crate) fn retain_entries(
    v: &mut Vec<crate::types::EntryRecord>,
    cats: &Vec<crate::types::CategoryRecord>,
    budget_id: i64,
)
    ensures
        crate::store::entry_views(final(v)@) == crate::store::entry_views(old(v)@).filter(
            keep_entry_fn(crate::store::category_views(cats@), budget_id as int),
        ),
{
    let ghost orig = crate::store::entry_views(old(v)@);
    let ghost pred = keep_entry_fn(crate::store::category_views(cats@), budget_id as int);
    let mut i: usize = 0;
    let ghost mut k: int = 0;
    loop
        invariant
            0 <= k <= orig.len(),
            i as int == orig.take(k).filter(pred).len(),
            crate::store::entry_views(v@) == orig.take(k).filter(pred) + orig.skip(k),
            v@.len() == i + (orig.len() - k),
            orig == crate::store::entry_views(old(v)@),
            pred == keep_entry_fn(crate::store::category_views(cats@), budget_id as int),
        decreases v@.len() - i,
    {
        if i >= v.len() {
            proof {
                assert(orig.take(k) =~= orig);
                assert(crate::store::entry_views(v@) =~= orig.filter(pred));
            }
            return;
        }
        let ghost cur = orig[k];
        proof {
            assert(crate::store::entry_views(v@)[i as int] == orig.skip(k)[0]);
            assert(cur == v@[i as int]@);
        }
        let in_budget = category_in_budget(cats, v[i].category_id, budget_id);
        proof {
            assert(in_budget == entry_in_budget(
                crate::store::category_views(cats@),
                cur,
                budget_id as int,
            ));
        }
        if !in_budget {
            proof {
                assert(pred(cur));
                crate::store::lemma_filter_push(orig.take(k), pred, cur);
                assert(orig.take(k + 1) =~= orig.take(k).push(cur));
                assert(orig.skip(k).drop_first() =~= orig.skip(k + 1));
                assert(crate::store::entry_views(v@) =~= orig.take(k + 1).filter(pred) + orig.skip(
                    k + 1,
                ));
                k = k + 1;
            }
            i += 1;
        } else {
            let ghost before = crate::store::entry_views(v@);
            v.remove(i);
            proof {
                assert(!pred(cur));
                assert(crate::store::entry_views(v@) =~= before.remove(i as int));
                crate::store::lemma_filter_push(orig.take(k), pred, cur);
                assert(orig.take(k + 1) =~= orig.take(k).push(cur));
                assert(orig.skip(k).drop_first() =~= orig.skip(k + 1));
                assert(before.remove(i as int) =~= orig.take(k + 1).filter(pred) + orig.skip(
                    k + 1,
                ));
                k = k + 1;
            }
        }
    }
}

impl Store {
    /// Renames a budget: stores the new title, touches `last_edited`, and
    /// logs the old and new titles.
    pub fn update_budget_title(&mut self, budget_id: i32, title: String, now: i64) -> (r: Result<
        (),
        StoreError,
    >)
        requires
            old(self)@.wf(),
            old(self)@.ready(),
            old(self)@.next_change_id < 0x7fff_ffff_ffff_ffff,
        ensures
            final(self)@.wf(),
            match r {
                Ok(_) => old(self)@.has_budget(budget_id as int) && final(self)@ == rename_tr(
                    old(self)@,
                    budget_id as int,
                    title@,
                    now as int,
                ),
                Err(e) => e == StoreError::NotFound(EntityKind::Budget, budget_id as i64) && !old(
                    self,
                )@.has_budget(budget_id as int) && *final(self) == *old(self),
            },
    {
        let id64: i64 = budget_id as i64;
        let idx = match self.find_budget(id64) {
            None => {
                return Err(StoreError::NotFound(EntityKind::Budget, id64));
            },
            Some(i) => i,
        };
        let old_title: String = match &self.budgets[idx].name {
            Some(n) => n.clone(),
            None => String::new(),
        };
        proof {
            let j = old(self)@.budget_index(id64 as int);
            assert(old(self)@.budgets[j].budget_id == id64 as int);
            assert(j == idx as int);
            assert(old_title@ == old_title_of(old(self)@.budget_of(id64 as int)));
        }
        let b = &self.budgets[idx];
        let rec = BudgetRecord {
            budget_id: b.budget_id,
            month: b.month,
            year: b.year,
            total_income: b.total_income,
            created_at: b.created_at,
            finished_at: b.finished_at,
            first_finished_at: b.first_finished_at,
            name: Some(title.clone()),
            last_edited: now,
            template_id: b.template_id,
        };
        let ghost pf = rename_patch_fn(title@, now as int);
        self.budgets[idx] = rec;
        let ghost sp = StoreV {
            budgets: patch_budgets(old(self)@.budgets, id64 as int, pf),
            ..old(self)@
        };
        proof {
            lemma_patch_budgets_wf(old(self)@, id64 as int, pf);
            assert forall|j: int| 0 <= j < self@.budgets.len() implies #[trigger] self@.budgets[j]
                == sp.budgets[j] by {
                if j != idx {
                    assert(old(self)@.budgets[j].budget_id != old(
                        self,
                    )@.budgets[idx as int].budget_id);
                }
            }
            assert(self@.budgets =~= sp.budgets);
            assert(self@ =~= sp);
            assert(self@.budgets[idx as int].budget_id == id64);
            assert(self@.has_budget(id64 as int));
        }
        let mut description = String::from_str("Budget title changed to '");
        description.append(title.as_str());
        description.append("'");
        proof {
            assert(description@ =~= "Budget title changed to '"@ + title@ + "'"@);
        }
        self.push_history(
            id64,
            "title_change",
            Some(String::from_str("name")),
            Some(old_title),
            Some(title),
            description,
            now,
        );
        proof {
            assert(self@ =~= rename_tr(old(self)@, id64 as int, title@, now as int));
        }
        Ok(())
    }

    /// Hard-deletes a budget and everything that hangs off it: its
    /// categories, their ledger entries, and its audit trail.
    pub fn delete_monthly_budget(&mut self, budget_id: i64) -> (r: Result<(), StoreError>)
        requires
            old(self)@.wf(),
            old(self)@.ready(),
        ensures
            final(self)@.wf(),
            match r {
                Ok(_) => old(self)@.has_budget(budget_id as int) && final(self)@
                    == delete_budget_tr(old(self)@, budget_id as int),
                Err(e) => e == StoreError::NotFound(EntityKind::Budget, budget_id) && !old(
                    self,
                )@.has_budget(budget_id as int) && *final(self) == *old(self),
            },
    {
        let idx = match self.find_budget(budget_id) {
            None => {
                return Err(StoreError::NotFound(EntityKind::Budget, budget_id));
            },
            Some(i) => i,
        };
        let ghost s = old(self)@;
        let ghost id = budget_id as int;
        retain_entries(&mut self.entries, &self.categories, budget_id);
        retain_categories(&mut self.categories, budget_id);
        retain_history(&mut self.history, budget_id);
        self.budgets.remove(idx);
        proof {
            broadcast use vstd::seq_lib::group_filter_ensures;

            let s2 = delete_budget_tr(s, id);
            assert(s.budgets[s.budget_index(id)].budget_id == id);
            assert(s.budget_index(id) == idx as int);
            assert(self@.budgets =~= s.budgets.remove(idx as int));
            assert(self@ =~= s2);
            // ids of the remaining budgets stay distinct, pairs too
            assert forall|i: int, j: int|
                0 <= i < j < s2.budgets.len() implies #[trigger] s2.budgets[i].budget_id
                != #[trigger] s2.budgets[j].budget_id && !(s2.budgets[i].month
                == s2.budgets[j].month && s2.budgets[i].year == s2.budgets[j].year) by {
                let oi: int = if i < idx { i } else { i + 1 };
                let oj: int = if j < idx { j } else { j + 1 };
                assert(s2.budgets[i] == s.budgets[oi]);
                assert(s2.budgets[j] == s.budgets[oj]);
            }
            lemma_filter_distinct_by(
                s.categories,
                keep_category_fn(id),
                |c: CategoryV| c.category_id,
            );
            lemma_filter_members(s.categories, keep_category_fn(id));
            assert forall|i: int|
                0 <= i < s2.categories.len() implies s2.has_budget(
                #[trigger] s2.categories[i].budget_id,
            ) by {
                let c = s2.categories[i];
                assert(keep_category_fn(id)(c));
                assert(c.budget_id != id);
                assert(s.categories.contains(c));
                let w = choose|w: int| 0 <= w < s.categories.len() && s.categories[w] == c;
                assert(s.has_budget(c.budget_id));
                let wb = choose|wb: int|
                    0 <= wb < s.budgets.len() && s.budgets[wb].budget_id == c.budget_id;
                assert(wb != idx);
                let nb: int = if wb < idx { wb } else { wb - 1 };
                assert(s2.budgets[nb] == s.budgets[wb]);
            }
            lemma_filter_distinct_by(s.entries, keep_entry_fn(s.categories, id), |e: EntryV| e.entry_id);
            lemma_filter_members(s.entries, keep_entry_fn(s.categories, id));
            assert forall|i: int|
                0 <= i < s2.entries.len() implies s2.has_category(
                #[trigger] s2.entries[i].category_id,
            ) by {
                let e = s2.entries[i];
                assert(keep_entry_fn(s.categories, id)(e));
                assert(!entry_in_budget(s.categories, e, id));
                assert(s.entries.contains(e));
                assert(s.has_category(e.category_id));
                let wc = choose|wc: int|
                    0 <= wc < s.categories.len() && s.categories[wc].category_id == e.category_id;
                assert(s.categories[wc].budget_id != id);
                assert(keep_category_fn(id)(s.categories[wc]));
                assert(s2.categories.contains(s.categories[wc]));
                let nc = choose|nc: int|
                    0 <= nc < s2.categories.len() && s2.categories[nc] == s.categories[wc];
                assert(s2.categories[nc].category_id == e.category_id);
            }
            lemma_filter_distinct_by(s.history, keep_history_fn(id), |h: HistoryV| h.change_id);
            lemma_filter_members(s.history, keep_history_fn(id));
            assert forall|i: int|
                0 <= i < s2.history.len() implies s2.has_budget(
                #[trigger] s2.history[i].budget_id,
            ) by {
                let h = s2.history[i];
                assert(keep_history_fn(id)(h));
                assert(h.budget_id != id);
                assert(s.history.contains(h));
                assert(s.has_budget(h.budget_id));
                let wb = choose|wb: int|
                    0 <= wb < s.budgets.len() && s.budgets[wb].budget_id == h.budget_id;
                assert(wb != idx);
                let nb: int = if wb < idx { wb } else { wb - 1 };
                assert(s2.budgets[nb] == s.budgets[wb]);
            }
            assert(s2.wf());
        }
        Ok(())
    }
}

/// Law: a successful creation occupies its (month, year) pair, so an
/// immediately repeated creation with the same pair meets the `Conflict`
/// case of `create_monthly_budget`'s contract; every other pair is exactly
/// as occupied as before, so creations with distinct pairs keep succeeding.
pub proof fn lemma_create_budget_occupies_pair(s: StoreV, a: CreateBudgetArgsV, now: int)
    ensures
        create_budget_tr(s, a, now).has_budget_pair(a.month, a.year),
        forall|m: int, y: int|
            !(m == a.month && y == a.year) ==> create_budget_tr(s, a, now).has_budget_pair(m, y)
                == s.has_budget_pair(m, y),
{
    let s2 = create_budget_tr(s, a, now);
    let n = s.budgets.len() as int;
    assert(s2.budgets[n].month == a.month && s2.budgets[n].year == a.year);
    assert forall|m: int, y: int|
        !(m == a.month && y == a.year) implies s2.has_budget_pair(m, y) == s.has_budget_pair(
        m,
        y,
    ) by {
        if s.has_budget_pair(m, y) {
            let w = choose|i: int|
                0 <= i < s.budgets.len() && s.budgets[i].month == m && s.budgets[i].year == y;
            assert(s2.budgets[w].month == m && s2.budgets[w].year == y);
        }
        if s2.has_budget_pair(m, y) {
            let w = choose|i: int|
                0 <= i < s2.budgets.len() && s2.budgets[i].month == m && s2.budgets[i].year == y;
            assert(w != n);
            assert(s.budgets[w].month == m && s.budgets[w].year == y);
        }
    }
}

/// The budgets of two stores with the same budget table resolve the same.
proof fn lemma_budget_of_eq(a: StoreV, b: StoreV, id: int)
    requires
        a.budgets == b.budgets,
        forall|i: int, j: int|
            0 <= i < j < a.budgets.len() ==> #[trigger] a.budgets[i].budget_id
                != #[trigger] a.budgets[j].budget_id,
        a.has_budget(id),
    ensures
        b.has_budget(id),
        b.budget_of(id) == a.budget_of(id),
{
    let i = a.budget_index(id);
    assert(0 <= i < a.budgets.len() && a.budgets[i].budget_id == id);
    assert(b.budgets[i].budget_id == id);
    let j = b.budget_index(id);
    assert(0 <= j < b.budgets.len() && b.budgets[j].budget_id == id);
    assert(a.budgets[j].budget_id == id);
    assert(i == j);
}

/// Law: `first_finished_at` is monotonic. Finishing a budget stamps
/// `finished_at` and sets `first_finished_at` only if it was never set; an
/// immediate unfinish clears `finished_at` but leaves `first_finished_at`
/// at the original finish time; any later finish re-stamps `finished_at`
/// and never changes `first_finished_at`.
pub proof fn lemma_first_finish_is_permanent(s: StoreV, id: int, t1: int, t2: int, t3: int)
    requires
        s.wf(),
        s.ready(),
        s.has_budget(id),
        s.next_change_id + 3 < 0x7fff_ffff_ffff_ffff,
    ensures
        ({
            let b0 = s.budget_of(id);
            let s1 = finish_tr(s, id, t1);
            let s2 = unfinish_tr(s1, id, t2);
            let s3 = finish_tr(s2, id, t3);
            let s4 = finish_tr(s1, id, t3);
            &&& s1.budget_of(id).finished_at == Some(t1)
            &&& s1.budget_of(id).first_finished_at == (if b0.first_finished_at is None {
                Some(t1)
            } else {
                b0.first_finished_at
            })
            &&& s2.budget_of(id).finished_at is None
            &&& s2.budget_of(id).first_finished_at == s1.budget_of(id).first_finished_at
            &&& s3.budget_of(id).finished_at == Some(t3)
            &&& s3.budget_of(id).first_finished_at == s1.budget_of(id).first_finished_at
            &&& s4.budget_of(id).finished_at == Some(t3)
            &&& s4.budget_of(id).first_finished_at == s1.budget_of(id).first_finished_at
        }),
        finish_tr(s, id, t1).wf(),
        unfinish_tr(finish_tr(s, id, t1), id, t2).wf(),
{
    let b0 = s.budget_of(id);
    let s1 = finish_tr(s, id, t1);
    let sp1 = StoreV { budgets: patch_budgets(s.budgets, id, finish_patch_fn(t1)), ..s };
    lemma_patch_budgets_wf(s, id, finish_patch_fn(t1));
    lemma_history_tr_wf(
        sp1,
        id,
        "status_change"@,
        Some("finished_at"@),
        Some("null"@),
        Some("current_timestamp"@),
        if b0.first_finished_at is None {
            "Budget marked as finished for the first time"@
        } else {
            "Budget marked as finished again after being reopened"@
        },
        t1,
    );
    assert(s1.wf());
    assert(s1.budgets == sp1.budgets);
    lemma_budget_of_eq(sp1, s1, id);
    let b1 = s1.budget_of(id);
    assert(b1 == finish_patch(b0, t1));

    let s2 = unfinish_tr(s1, id, t2);
    let sp2 = StoreV { budgets: patch_budgets(s1.budgets, id, unfinish_patch_fn(t2)), ..s1 };
    lemma_patch_budgets_wf(s1, id, unfinish_patch_fn(t2));
    lemma_history_tr_wf(
        sp2,
        id,
        "status_change"@,
        Some("finished_at"@),
        Some("current_timestamp"@),
        Some("null"@),
        "Budget reopened for editing"@,
        t2,
    );
    assert(s2.wf());
    lemma_budget_of_eq(sp2, s2, id);
    let b2 = s2.budget_of(id);
    assert(b2 == unfinish_patch(b1, t2));

    let s3 = finish_tr(s2, id, t3);
    let sp3 = StoreV { budgets: patch_budgets(s2.budgets, id, finish_patch_fn(t3)), ..s2 };
    lemma_patch_budgets_wf(s2, id, finish_patch_fn(t3));
    assert(sp3.budgets == s3.budgets);
    lemma_budget_of_eq(sp3, s3, id);
    assert(s3.budget_of(id) == finish_patch(b2, t3));

    let s4 = finish_tr(s1, id, t3);
    let sp4 = StoreV { budgets: patch_budgets(s1.budgets, id, finish_patch_fn(t3)), ..s1 };
    lemma_patch_budgets_wf(s1, id, finish_patch_fn(t3));
    assert(sp4.budgets == s4.budgets);
    lemma_budget_of_eq(sp4, s4, id);
    assert(s4.budget_of(id) == finish_patch(b1, t3));
}

} // verus!
