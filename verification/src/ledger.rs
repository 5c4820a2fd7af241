//! The category ledger engine: per-category aggregates over live entries,
//! the paginated ledger read, and the entry mutations with their audit
//! records.
//!
//! Sign convention for aggregates, as the store has always computed them:
//! an income entry adds its amount, an expense entry subtracts it, and an
//! adjustment contributes zero. Soft-deleted entries are excluded from every
//! read and every aggregate, but stay in the table.

use vstd::prelude::*;
use crate::error::{EntityKind, StoreError};
use crate::store::{Store, StoreV, lemma_filter_push};
use crate::types::{
    CategoryRecord, CategoryV, EntryRecord, EntryV, EntryType, CategoryType,
};

verus! {

broadcast use vstd::seq_lib::group_filter_ensures;

/// What one entry contributes to its category's net amount.
pub open spec fn signed_amount(e: EntryV) -> int {
    match e.entry_type {
        EntryType::Income => e.amount,
        EntryType::Expense => -e.amount,
        EntryType::Adjustment => 0,
    }
}

/// Whether an entry is not soft-deleted and belongs to the category.
pub open spec fn live_in_category(e: EntryV, category_id: int) -> bool {
    e.deleted_at is None && e.category_id == category_id
}

/// The net contribution of one entry towards one category.
pub open spec fn net_contribution(e: EntryV, category_id: int) -> int {
    if live_in_category(e, category_id) {
        signed_amount(e)
    } else {
        0
    }
}

/// Income minus expense over the live entries of a category.
pub open spec fn net_of(es: Seq<EntryV>, category_id: int) -> int
    decreases es.len(),
{
    if es.len() == 0 {
        0
    } else {
        net_of(es.drop_last(), category_id) + net_contribution(es.last(), category_id)
    }
}

/// How many live entries a category holds.
pub open spec fn count_of(es: Seq<EntryV>, category_id: int) -> int
    decreases es.len(),
{
    if es.len() == 0 {
        0
    } else {
        count_of(es.drop_last(), category_id) + if live_in_category(es.last(), category_id) {
            1int
        } else {
            0int
        }
    }
}

/// The latest entry date among the live entries of a category, if any.
pub open spec fn last_activity_of(es: Seq<EntryV>, category_id: int) -> Option<int>
    decreases es.len(),
{
    if es.len() == 0 {
        None
    } else {
        let rest = last_activity_of(es.drop_last(), category_id);
        if live_in_category(es.last(), category_id) {
            match rest {
                None => Some(es.last().date),
                Some(d) => Some(if es.last().date > d {
                    es.last().date
                } else {
                    d
                }),
            }
        } else {
            rest
        }
    }
}

/// One row of the category grid: a category and its derived aggregates.
pub struct CategoryRow {
    pub category_id: i64,
    pub budget_id: i64,
    pub category_name: String,
    pub allocated_amount: i64,
    pub net_amount: i128,
    pub remaining_amount: i128,
    pub last_activity_at: Option<i64>,
    pub entries_count: i64,
}

#[verifier::ext_equal]
pub struct CategoryRowV {
    pub category_id: int,
    pub budget_id: int,
    pub category_name: Seq<char>,
    pub allocated_amount: int,
    pub net_amount: int,
    pub remaining_amount: int,
    pub last_activity_at: Option<int>,
    pub entries_count: int,
}

impl View for CategoryRow {
    type V = CategoryRowV;

    open spec fn view(&self) -> CategoryRowV {
        CategoryRowV {
            category_id: self.category_id as int,
            budget_id: self.budget_id as int,
            category_name: self.category_name@,
            allocated_amount: self.allocated_amount as int,
            net_amount: self.net_amount as int,
            remaining_amount: self.remaining_amount as int,
            last_activity_at: crate::types::view_opt_i64(self.last_activity_at),
            entries_count: self.entries_count as int,
        }
    }
}

/// The views of a sequence of category rows.
pub open spec fn row_views(v: Seq<CategoryRow>) -> Seq<CategoryRowV> {
    v.map_values(|r: CategoryRow| r@)
}

/// The grid row a category resolves to in a given store state.
pub open spec fn stats_row(s: StoreV, c: CategoryV) -> CategoryRowV {
    CategoryRowV {
        category_id: c.category_id,
        budget_id: c.budget_id,
        category_name: c.category_name,
        allocated_amount: c.allocated_amount,
        net_amount: net_of(s.entries, c.category_id),
        remaining_amount: c.allocated_amount + net_of(s.entries, c.category_id),
        last_activity_at: last_activity_of(s.entries, c.category_id),
        entries_count: count_of(s.entries, c.category_id),
    }
}

/// The grid-row map as a function of the store state.
pub open spec fn stats_row_fn(s: StoreV) -> spec_fn(CategoryV) -> CategoryRowV {
    |c: CategoryV| stats_row(s, c)
}

/// Keeps the categories of one budget.
pub open spec fn cat_of_budget_fn(budget_id: int) -> spec_fn(CategoryV) -> bool {
    |c: CategoryV| c.budget_id == budget_id
}

/// The grid of one budget: its categories in creation order, each with its
/// aggregates.
pub open spec fn stats_rows_of(s: StoreV, budget_id: int) -> Seq<CategoryRowV> {
    s.categories.filter(cat_of_budget_fn(budget_id)).map_values(stats_row_fn(s))
}

/// Law: in every grid row, `remaining_amount` is exactly
/// `allocated_amount + net_amount`, and `net_amount` is income minus expense
/// over the live entries of the category alone, adjustments counting zero.
pub proof fn lemma_stats_row_aggregate_invariant(s: StoreV, c: CategoryV)
    ensures
        stats_row(s, c).remaining_amount == stats_row(s, c).allocated_amount + stats_row(
            s,
            c,
        ).net_amount,
        stats_row(s, c).net_amount == net_of(s.entries, c.category_id),
        stats_row(s, c).entries_count == count_of(s.entries, c.category_id),
{
}

impl Store {
    /// Computes the aggregates of one category over the entry table.
    fn category_stats(&self, category_id: i64) -> (r: (i128, i64, Option<i64>))
        requires
            self@.wf(),
        ensures
            r.0 as int == net_of(self@.entries, category_id as int),
            r.1 as int == count_of(self@.entries, category_id as int),
            crate::types::view_opt_i64(r.2) == last_activity_of(self@.entries, category_id as int),
            -(self@.entries.len() as int * 0x8000_0000_0000_0000) <= r.0 as int
                <= self@.entries.len() as int * 0x8000_0000_0000_0000,
    {
        let ghost es = self@.entries;
        let mut net: i128 = 0;
        let mut count: i64 = 0;
        let mut last: Option<i64> = None;
        let mut j: usize = 0;
        proof {
            assert(es.take(0) =~= Seq::<EntryV>::empty());
        }
        while j < self.entries.len()
            invariant
                self@.wf(),
                es == self@.entries,
                j <= self.entries@.len(),
                es.len() == self.entries@.len(),
                net as int == net_of(es.take(j as int), category_id as int),
                count as int == count_of(es.take(j as int), category_id as int),
                crate::types::view_opt_i64(last) == last_activity_of(
                    es.take(j as int),
                    category_id as int,
                ),
                -((j as int) * 0x8000_0000_0000_0000) <= net as int,
                net as int <= (j as int) * 0x8000_0000_0000_0000,
                0 <= count <= j,
            decreases self.entries@.len() - j,
        {
            let ghost pre = es.take(j as int);
            proof {
                assert(es.take(j as int + 1).drop_last() =~= pre);
                assert(es.take(j as int + 1).last() == es[j as int]);
                assert(es[j as int] == self.entries@[j as int]@);
                assert(self.entries@.len() < self@.next_entry_id);
            }
            let e = &self.entries[j];
            if e.deleted_at.is_none() && e.category_id == category_id {
                let signed: i128 = match e.entry_type {
                    EntryType::Income => e.amount as i128,
                    EntryType::Expense => -(e.amount as i128),
                    EntryType::Adjustment => 0,
                };
                proof {
                    assert(signed as int == signed_amount(es[j as int]));
                    assert(-0x8000_0000_0000_0000 <= signed as int <= 0x8000_0000_0000_0000);
                }
                net = net + signed;
                count = count + 1;
                last = match last {
                    None => Some(e.date),
                    Some(d) => Some(
                        if e.date > d {
                            e.date
                        } else {
                            d
                        },
                    ),
                };
            }
            j += 1;
        }
        proof {
            assert(es.take(es.len() as int) =~= es);
        }
        (net, count, last)
    }

    /// One grid row per category of the budget, in creation order, each
    /// carrying the aggregates of its live entries.
    pub fn get_budget_categories_with_stats(&self, budget_id: i64) -> (r: Result<
        Vec<CategoryRow>,
        StoreError,
    >)
        requires
            self@.wf(),
        ensures
            r is Ok,
            row_views(r->Ok_0@) == stats_rows_of(self@, budget_id as int),
    {
        let ghost s = self@;
        let ghost pred = cat_of_budget_fn(budget_id as int);
        let ghost rowf = stats_row_fn(s);
        let mut out: Vec<CategoryRow> = Vec::new();
        let mut i: usize = 0;
        proof {
            assert(s.categories.take(0) =~= Seq::<CategoryV>::empty());
            assert(s.categories.take(0).filter(pred) =~= Seq::<CategoryV>::empty());
            assert(row_views(out@) =~= s.categories.take(0).filter(pred).map_values(rowf));
        }
        while i < self.categories.len()
            invariant
                self@ == s,
                self@.wf(),
                i <= self.categories@.len(),
                s.categories.len() == self.categories@.len(),
                pred == cat_of_budget_fn(budget_id as int),
                rowf == stats_row_fn(s),
                row_views(out@) == s.categories.take(i as int).filter(pred).map_values(rowf),
            decreases self.categories@.len() - i,
        {
            let ghost cv = s.categories[i as int];
            proof {
                assert(cv == self.categories@[i as int]@);
                assert(s.categories.take(i as int + 1) =~= s.categories.take(i as int).push(cv));
                lemma_filter_push(s.categories.take(i as int), pred, cv);
            }
            let c = &self.categories[i];
            if c.budget_id == budget_id {
                let stats = self.category_stats(c.category_id);
                proof {
                    assert(self@.entries.len() < self@.next_entry_id);
                    assert(self@.next_entry_id <= 0x7fff_ffff_ffff_ffff);
                }
                let row = CategoryRow {
                    category_id: c.category_id,
                    budget_id: c.budget_id,
                    category_name: c.category_name.clone(),
                    allocated_amount: c.allocated_amount,
                    net_amount: stats.0,
                    remaining_amount: c.allocated_amount as i128 + stats.0,
                    last_activity_at: stats.2,
                    entries_count: stats.1,
                };
                let ghost before = out@;
                out.push(row);
                proof {
                    assert(row@ == stats_row(s, cv));
                    assert(row_views(out@) =~= row_views(before).push(row@));
                    assert(row_views(out@) =~= s.categories.take(i as int + 1).filter(
                        pred,
                    ).map_values(rowf));
                }
            } else {
                proof {
                    assert(!pred(cv));
                    assert(row_views(out@) =~= s.categories.take(i as int + 1).filter(
                        pred,
                    ).map_values(rowf));
                }
            }
            i += 1;
        }
        proof {
            assert(s.categories.take(s.categories.len() as int) =~= s.categories);
        }
        Ok(out)
    }
}

/// The six recognized ledger sort modes; anything else reads as the
/// default, date descending.
#[derive(Clone, Copy, Debug, PartialEq, Eq, Structural)]
pub enum LedgerSort {
    DateAsc,
    DateDesc,
    AmountAsc,
    AmountDesc,
    CreatedAsc,
    CreatedDesc,
}

/// Which sort mode a request string names; unknown strings fall back to
/// date descending.
pub open spec fn parse_ledger_sort(s: Seq<char>) -> LedgerSort {
    if s == "date_asc"@ {
        LedgerSort::DateAsc
    } else if s == "date_desc"@ {
        LedgerSort::DateDesc
    } else if s == "amount_asc"@ {
        LedgerSort::AmountAsc
    } else if s == "amount_desc"@ {
        LedgerSort::AmountDesc
    } else if s == "created_asc"@ {
        LedgerSort::CreatedAsc
    } else if s == "created_desc"@ {
        LedgerSort::CreatedDesc
    } else {
        LedgerSort::DateDesc
    }
}

/// Date order with creation time as the tiebreak.
pub open spec fn date_created_le(a: crate::types::LedgerEntryV, b: crate::types::LedgerEntryV) -> bool {
    a.date < b.date || (a.date == b.date && a.created_at <= b.created_at)
}

/// The order a ledger sort mode asks for.
pub open spec fn entry_le(m: LedgerSort, a: crate::types::LedgerEntryV, b: crate::types::LedgerEntryV) -> bool {
    match m {
        LedgerSort::DateAsc => date_created_le(a, b),
        LedgerSort::DateDesc => date_created_le(b, a),
        LedgerSort::AmountAsc => a.amount <= b.amount,
        LedgerSort::AmountDesc => b.amount <= a.amount,
        LedgerSort::CreatedAsc => a.created_at <= b.created_at,
        LedgerSort::CreatedDesc => b.created_at <= a.created_at,
    }
}

/// The ledger order as a function, shared by contracts and proofs.
pub open spec fn entry_le_fn(m: LedgerSort) -> spec_fn(
    crate::types::LedgerEntryV,
    crate::types::LedgerEntryV,
) -> bool {
    |a: crate::types::LedgerEntryV, b: crate::types::LedgerEntryV| entry_le(m, a, b)
}

/// The views of a sequence of ledger entries.
pub open spec fn ledger_entry_views(v: Seq<crate::types::LedgerEntry>) -> Seq<
    crate::types::LedgerEntryV,
> {
    v.map_values(|r: crate::types::LedgerEntry| r@)
}

/// Keeps the live entries of one category.
pub open spec fn live_in_cat_fn(category_id: int) -> spec_fn(EntryV) -> bool {
    |e: EntryV| live_in_category(e, category_id)
}

/// Converts stored entries to the form handed out.
pub open spec fn ledger_view_fn() -> spec_fn(EntryV) -> crate::types::LedgerEntryV {
    |e: EntryV| crate::types::ledger_view_of(e)
}

/// The live ledger of one category, in storage order.
pub open spec fn live_ledger_of(s: StoreV, category_id: int) -> Seq<crate::types::LedgerEntryV> {
    s.entries.filter(live_in_cat_fn(category_id)).map_values(ledger_view_fn())
}

/// Compares two ledger entries under a sort mode.
fn entry_le_exec(m: LedgerSort, a: &crate::types::LedgerEntry, b: &crate::types::LedgerEntry) -> (r:
    bool)
    ensures
        r == entry_le(m, a@, b@),
{
    match m {
        LedgerSort::DateAsc => a.date < b.date || (a.date == b.date && a.created_at
            <= b.created_at),
        LedgerSort::DateDesc => b.date < a.date || (b.date == a.date && b.created_at
            <= a.created_at),
        LedgerSort::AmountAsc => a.amount <= b.amount,
        LedgerSort::AmountDesc => b.amount <= a.amount,
        LedgerSort::CreatedAsc => a.created_at <= b.created_at,
        LedgerSort::CreatedDesc => b.created_at <= a.created_at,
    }
}

/// Sorts ledger entries by a sort mode: the result is ordered by it and
/// holds exactly the given entries.
#[verifier::loop_isolation(false)]
fn sort_ledger_entries(v: Vec<crate::types::LedgerEntry>, m: LedgerSort) -> (r: Vec<
    crate::types::LedgerEntry,
>)
    ensures
        vstd::relations::sorted_by(ledger_entry_views(r@), entry_le_fn(m)),
        ledger_entry_views(r@).to_multiset() == ledger_entry_views(v@).to_multiset(),
        r@.len() == v@.len(),
{
    broadcast use {
        vstd::seq_lib::group_to_multiset_ensures,
        vstd::multiset::group_multiset_axioms,
        vstd::multiset::group_multiset_properties,
    };

    let ghost le = entry_le_fn(m);
    let ghost orig = ledger_entry_views(v@);
    let mut rest = v;
    let mut out: Vec<crate::types::LedgerEntry> = Vec::new();
    loop
        invariant
            le == entry_le_fn(m),
            vstd::relations::sorted_by(ledger_entry_views(out@), le),
            forall|i: int, j: int|
                0 <= i < out@.len() && 0 <= j < rest@.len() ==> le(
                    #[trigger] ledger_entry_views(out@)[i],
                    #[trigger] ledger_entry_views(rest@)[j],
                ),
            ledger_entry_views(out@).to_multiset().add(ledger_entry_views(rest@).to_multiset())
                == orig.to_multiset(),
            out@.len() + rest@.len() == orig.len(),
        decreases rest@.len(),
    {
        if rest.len() == 0 {
            proof {
                assert(ledger_entry_views(rest@).len() == 0);
                assert(ledger_entry_views(rest@).to_multiset().len() == 0);
                assert(ledger_entry_views(rest@).to_multiset() =~= vstd::multiset::Multiset::<
                    crate::types::LedgerEntryV,
                >::empty());
                assert(ledger_entry_views(out@).to_multiset() =~= orig.to_multiset());
            }
            return out;
        }
        let ghost rv = ledger_entry_views(rest@);
        let mut mi: usize = 0;
        let mut j: usize = 1;
        proof {
            assert(rv[0] == rest@[0]@);
        }
        while j < rest.len()
            invariant
                le == entry_le_fn(m),
                mi < j <= rest@.len(),
                rv == ledger_entry_views(rest@),
                forall|k: int| 0 <= k < j ==> le(rv[mi as int], #[trigger] rv[k]),
            decreases rest@.len() - j,
        {
            proof {
                assert(rv[j as int] == rest@[j as int]@);
                assert(rv[mi as int] == rest@[mi as int]@);
            }
            if entry_le_exec(m, &rest[j], &rest[mi]) {
                proof {
                    assert(le(rv[j as int], rv[mi as int]));
                    assert forall|k: int| 0 <= k < j + 1 implies le(
                        rv[j as int],
                        #[trigger] rv[k],
                    ) by {}
                }
                mi = j;
            } else {
                proof {
                    assert(le(rv[mi as int], rv[j as int]));
                }
            }
            j += 1;
        }
        let ghost x = rv[mi as int];
        let picked = rest.remove(mi);
        proof {
            assert(picked@ == x);
            assert(ledger_entry_views(rest@) =~= rv.remove(mi as int));
        }
        let ghost out_before = ledger_entry_views(out@);
        out.push(picked);
        proof {
            assert(ledger_entry_views(out@) =~= out_before.push(x));
            assert forall|i: int, jj: int|
                0 <= i < jj < ledger_entry_views(out@).len() implies le(
                #[trigger] ledger_entry_views(out@)[i],
                #[trigger] ledger_entry_views(out@)[jj],
            ) by {
                if jj < out_before.len() {
                } else {
                    assert(ledger_entry_views(out@)[jj] == x);
                }
            }
            assert forall|i: int, jj: int|
                0 <= i < ledger_entry_views(out@).len() && 0 <= jj < ledger_entry_views(
                rest@,
            ).len() implies le(
                #[trigger] ledger_entry_views(out@)[i],
                #[trigger] ledger_entry_views(rest@)[jj],
            ) by {
                let oj: int = if jj < mi { jj } else { jj + 1 };
                assert(ledger_entry_views(rest@)[jj] == rv[oj]);
                if i < out_before.len() {
                } else {
                    assert(ledger_entry_views(out@)[i] == x);
                }
            }
            assert(rv[mi as int] == x);
            assert(rv.contains(x));
            assert(rv.to_multiset().count(x) > 0);
            assert(out_before.push(x).to_multiset() == out_before.to_multiset().insert(x));
            assert(rest@.len() + 1 > mi);
            assert(rv.remove(mi as int).to_multiset() == rv.to_multiset().remove(x));
            assert(out_before.push(x).to_multiset().add(rv.remove(mi as int).to_multiset())
                =~= out_before.to_multiset().add(rv.to_multiset()));
        }
    }
}

impl Store {
    /// The live entries of one category, in storage order, handed out
    /// without the deletion marker.
    fn collect_live_entries(&self, category_id: i64) -> (r: Vec<crate::types::LedgerEntry>)
        ensures
            ledger_entry_views(r@) == live_ledger_of(self@, category_id as int),
    {
        let ghost s = self@;
        let ghost pred = live_in_cat_fn(category_id as int);
        let ghost lvf = ledger_view_fn();
        let mut out: Vec<crate::types::LedgerEntry> = Vec::new();
        let mut i: usize = 0;
        proof {
            assert(s.entries.take(0) =~= Seq::<EntryV>::empty());
            assert(s.entries.take(0).filter(pred) =~= Seq::<EntryV>::empty());
            assert(ledger_entry_views(out@) =~= s.entries.take(0).filter(pred).map_values(lvf));
        }
        while i < self.entries.len()
            invariant
                self@ == s,
                i <= self.entries@.len(),
                s.entries.len() == self.entries@.len(),
                pred == live_in_cat_fn(category_id as int),
                lvf == ledger_view_fn(),
                ledger_entry_views(out@) == s.entries.take(i as int).filter(pred).map_values(lvf),
            decreases self.entries@.len() - i,
        {
            let ghost ev = s.entries[i as int];
            proof {
                assert(ev == self.entries@[i as int]@);
                assert(s.entries.take(i as int + 1) =~= s.entries.take(i as int).push(ev));
                lemma_filter_push(s.entries.take(i as int), pred, ev);
            }
            let e = &self.entries[i];
            if e.deleted_at.is_none() && e.category_id == category_id {
                let row = crate::types::LedgerEntry {
                    entry_id: e.entry_id,
                    category_id: e.category_id,
                    entry_type: e.entry_type,
                    what: e.what.clone(),
                    place: crate::types::clone_opt_string(&e.place),
                    amount: e.amount,
                    date: e.date,
                    created_at: e.created_at,
                };
                let ghost before = out@;
                out.push(row);
                proof {
                    assert(row@ == crate::types::ledger_view_of(ev));
                    assert(ledger_entry_views(out@) =~= ledger_entry_views(before).push(row@));
                    assert(ledger_entry_views(out@) =~= s.entries.take(i as int + 1).filter(
                        pred,
                    ).map_values(lvf));
                }
            } else {
                proof {
                    assert(!pred(ev));
                    assert(ledger_entry_views(out@) =~= s.entries.take(i as int + 1).filter(
                        pred,
                    ).map_values(lvf));
                }
            }
            i += 1;
        }
        proof {
            assert(s.entries.take(s.entries.len() as int) =~= s.entries);
        }
        out
    }

    /// One page of a category's live ledger, ordered by the requested sort
    /// mode (default and fallback: date descending, newest creation first),
    /// skipping `offset` rows and returning at most `limit`.
    pub fn get_category_ledger(
        &self,
        category_id: i64,
        limit: u32,
        offset: u32,
        sort: String,
    ) -> (r: Result<Vec<crate::types::LedgerEntry>, StoreError>)
        requires
            self@.wf(),
        ensures
            r is Ok,
            ({
                let live = live_ledger_of(self@, category_id as int);
                let mode = parse_ledger_sort(sort@);
                let off = vstd::math::min(offset as int, live.len() as int);
                let cnt = vstd::math::min(limit as int, live.len() - off);
                exists|all: Seq<crate::types::LedgerEntryV>|
                    {
                        &&& #[trigger] vstd::relations::sorted_by(all, entry_le_fn(mode))
                        &&& all.to_multiset() == live.to_multiset()
                        &&& ledger_entry_views(r->Ok_0@) == all.subrange(off, off + cnt)
                    }
            }),
    {
        let c = sort.as_str();
        let mode: LedgerSort = if crate::text::str_eq(c, "date_asc") {
            LedgerSort::DateAsc
        } else if crate::text::str_eq(c, "date_desc") {
            LedgerSort::DateDesc
        } else if crate::text::str_eq(c, "amount_asc") {
            LedgerSort::AmountAsc
        } else if crate::text::str_eq(c, "amount_desc") {
            LedgerSort::AmountDesc
        } else if crate::text::str_eq(c, "created_asc") {
            LedgerSort::CreatedAsc
        } else if crate::text::str_eq(c, "created_desc") {
            LedgerSort::CreatedDesc
        } else {
            LedgerSort::DateDesc
        };
        proof {
            assert(mode == parse_ledger_sort(sort@));
        }
        let live = self.collect_live_entries(category_id);
        let mut sorted = sort_ledger_entries(live, mode);
        let ghost all = ledger_entry_views(sorted@);
        let n = sorted.len();
        let off: usize = if offset as usize >= n {
            n
        } else {
            offset as usize
        };
        let take: usize = if limit as usize >= n - off {
            n - off
        } else {
            limit as usize
        };
        let mut page: Vec<crate::types::LedgerEntry> = Vec::new();
        let mut k: usize = 0;
        proof {
            assert(ledger_entry_views(page@) =~= all.subrange(off as int, off as int + 0));
        }
        while k < take
            invariant
                k <= take,
                off + take <= n,
                n == all.len(),
                sorted@.len() == n - k,
                ledger_entry_views(page@) == all.subrange(off as int, off as int + k as int),
                forall|p: int|
                    0 <= p < sorted@.len() ==> #[trigger] ledger_entry_views(sorted@)[p] == (if p
                        < off {
                        all[p]
                    } else {
                        all[p + k]
                    }),
            decreases take - k,
        {
            let ghost sv = ledger_entry_views(sorted@);
            let picked = sorted.remove(off);
            let ghost before = ledger_entry_views(page@);
            page.push(picked);
            proof {
                assert(picked@ == sv[off as int]);
                assert(sv[off as int] == all[off + k]);
                assert(ledger_entry_views(sorted@) =~= sv.remove(off as int));
                assert(ledger_entry_views(page@) =~= before.push(picked@));
                assert(ledger_entry_views(page@) =~= all.subrange(
                    off as int,
                    off as int + k as int + 1,
                ));
                assert forall|p: int|
                    0 <= p < ledger_entry_views(sorted@).len() implies #[trigger] ledger_entry_views(
                    sorted@,
                )[p] == (if p < off {
                    all[p]
                } else {
                    all[p + k + 1]
                }) by {
                    if p < off {
                        assert(sv.remove(off as int)[p] == sv[p]);
                    } else {
                        assert(sv.remove(off as int)[p] == sv[p + 1]);
                    }
                }
            }
            k += 1;
        }
        proof {
            let livev = live_ledger_of(self@, category_id as int);
            assert(all.len() == livev.len());
            assert(off as int == vstd::math::min(offset as int, livev.len() as int));
            assert(take as int == vstd::math::min(limit as int, livev.len() - off as int));
            assert(vstd::relations::sorted_by(all, entry_le_fn(parse_ledger_sort(sort@))));
            assert(all.to_multiset() == livev.to_multiset());
            assert(ledger_entry_views(page@) == all.subrange(off as int, off as int + take as int));
        }
        Ok(page)
    }
}

/// The tag an entry kind carries in the audit trail.
pub open spec fn entry_type_label(t: EntryType) -> Seq<char> {
    match t {
        EntryType::Expense => "expense"@,
        EntryType::Income => "income"@,
        EntryType::Adjustment => "adjustment"@,
    }
}

/// The entry kind as a string slice.
pub fn entry_type_str(t: EntryType) -> (r: &'static str)
    ensures
        r@ == entry_type_label(t),
{
    match t {
        EntryType::Expense => "expense",
        EntryType::Income => "income",
        EntryType::Adjustment => "adjustment",
    }
}

/// Which entry kind a request string names, if any; unrecognized kinds are
/// rejected at the boundary.
pub open spec fn parse_entry_type(s: Seq<char>) -> Option<EntryType> {
    if s == "expense"@ {
        Some(EntryType::Expense)
    } else if s == "income"@ {
        Some(EntryType::Income)
    } else if s == "adjustment"@ {
        Some(EntryType::Adjustment)
    } else {
        None
    }
}

impl EntryType {
    /// Reads an entry kind off its wire name, rejecting anything else.
    pub fn parse(s: &str) -> (r: Option<EntryType>)
        ensures
            r == parse_entry_type(s@),
    {
        if crate::text::str_eq(s, "expense") {
            Some(EntryType::Expense)
        } else if crate::text::str_eq(s, "income") {
            Some(EntryType::Income)
        } else if crate::text::str_eq(s, "adjustment") {
            Some(EntryType::Adjustment)
        } else {
            None
        }
    }
}

/// Which category kind a request string names, if any.
pub open spec fn parse_category_type(s: Seq<char>) -> Option<CategoryType> {
    if s == "expense"@ {
        Some(CategoryType::Expense)
    } else if s == "savings"@ {
        Some(CategoryType::Savings)
    } else {
        None
    }
}

impl CategoryType {
    /// Reads a category kind off its wire name, rejecting anything else.
    pub fn parse(s: &str) -> (r: Option<CategoryType>)
        ensures
            r == parse_category_type(s@),
    {
        if crate::text::str_eq(s, "expense") {
            Some(CategoryType::Expense)
        } else if crate::text::str_eq(s, "savings") {
            Some(CategoryType::Savings)
        } else {
            None
        }
    }
}

/// The payload of an entry addition.
pub struct NewEntry {
    pub category_id: i64,
    pub entry_type: EntryType,
    pub what: String,
    pub place: Option<String>,
    pub amount: i64,
    pub date: i64,
}

#[verifier::ext_equal]
pub struct NewEntryV {
    pub category_id: int,
    pub entry_type: EntryType,
    pub what: Seq<char>,
    pub place: Option<Seq<char>>,
    pub amount: int,
    pub date: int,
}

impl View for NewEntry {
    type V = NewEntryV;

    open spec fn view(&self) -> NewEntryV {
        NewEntryV {
            category_id: self.category_id as int,
            entry_type: self.entry_type,
            what: self.what@,
            place: crate::types::view_opt_string(self.place),
            amount: self.amount as int,
            date: self.date as int,
        }
    }
}

/// The payload of an entry update.
pub struct UpdateEntry {
    pub entry_id: i64,
    pub entry_type: EntryType,
    pub what: String,
    pub place: Option<String>,
    pub amount: i64,
    pub date: i64,
}

#[verifier::ext_equal]
pub struct UpdateEntryV {
    pub entry_id: int,
    pub entry_type: EntryType,
    pub what: Seq<char>,
    pub place: Option<Seq<char>>,
    pub amount: int,
    pub date: int,
}

impl View for UpdateEntry {
    type V = UpdateEntryV;

    open spec fn view(&self) -> UpdateEntryV {
        UpdateEntryV {
            entry_id: self.entry_id as int,
            entry_type: self.entry_type,
            what: self.what@,
            place: crate::types::view_opt_string(self.place),
            amount: self.amount as int,
            date: self.date as int,
        }
    }
}

/// The payload of a category addition.
pub struct NewCategory {
    pub budget_id: i64,
    pub category_name: String,
    pub allocated_amount: i64,
}

#[verifier::ext_equal]
pub struct NewCategoryV {
    pub budget_id: int,
    pub category_name: Seq<char>,
    pub allocated_amount: int,
}

impl View for NewCategory {
    type V = NewCategoryV;

    open spec fn view(&self) -> NewCategoryV {
        NewCategoryV {
            budget_id: self.budget_id as int,
            category_name: self.category_name@,
            allocated_amount: self.allocated_amount as int,
        }
    }
}

/// One entry's row rewritten by `f`, every other entry untouched.
pub open spec fn patch_entries(es: Seq<EntryV>, id: int, f: spec_fn(EntryV) -> EntryV) -> Seq<
    EntryV,
> {
    es.map_values(|e: EntryV| if e.entry_id == id { f(e) } else { e })
}

/// One category's row rewritten by `f`, every other category untouched.
pub open spec fn patch_categories(
    cs: Seq<CategoryV>,
    id: int,
    f: spec_fn(CategoryV) -> CategoryV,
) -> Seq<CategoryV> {
    cs.map_values(|c: CategoryV| if c.category_id == id { f(c) } else { c })
}

/// The soft-deletion patch as a function.
pub open spec fn soft_delete_patch_fn(now: int) -> spec_fn(EntryV) -> EntryV {
    |e: EntryV| EntryV { deleted_at: Some(now), ..e }
}

/// The entry-update patch as a function.
pub open spec fn update_entry_patch_fn(p: UpdateEntryV) -> spec_fn(EntryV) -> EntryV {
    |e: EntryV| EntryV {
        entry_type: p.entry_type,
        what: p.what,
        place: p.place,
        amount: p.amount,
        date: p.date,
        ..e
    }
}

/// The allocation patch as a function.
pub open spec fn set_alloc_patch_fn(amount: int) -> spec_fn(CategoryV) -> CategoryV {
    |c: CategoryV| CategoryV { allocated_amount: amount, ..c }
}

/// The budget that owns an entry, through its category.
pub open spec fn entry_owner_budget(s: StoreV, id: int) -> int {
    s.category_of(s.entry_of(id).category_id).budget_id
}

/// The name of the category that owns an entry.
pub open spec fn entry_owner_cat_name(s: StoreV, id: int) -> Seq<char> {
    s.category_of(s.entry_of(id).category_id).category_name
}

/// What an absent or empty place contributes to an audit description.
pub open spec fn place_disp(p: Option<Seq<char>>) -> Seq<char> {
    match p {
        Some(t) => if t.len() > 0 {
            " @ "@ + t
        } else {
            Seq::empty()
        },
        None => Seq::empty(),
    }
}

/// The audit description of an entry addition.
pub open spec fn add_entry_desc(p: NewEntryV, cat_name: Seq<char>) -> Seq<char> {
    "Added "@ + entry_type_label(p.entry_type) + " $"@ + crate::text::money_str_of(p.amount)
        + " to "@ + cat_name + " ("@ + p.what + place_disp(p.place) + ")"@
}

/// The stored row an entry addition creates.
pub open spec fn new_entry_v(s: StoreV, p: NewEntryV, now: int) -> EntryV {
    EntryV {
        entry_id: s.next_entry_id,
        category_id: p.category_id,
        entry_type: p.entry_type,
        what: p.what,
        place: p.place,
        amount: p.amount,
        date: p.date,
        created_at: now,
        deleted_at: None,
    }
}

/// The store after an entry is added: the row appended, the counter
/// advanced, and one `entry_add` audit record on the owning budget.
pub open spec fn add_entry_tr(s: StoreV, p: NewEntryV, now: int) -> StoreV {
    let sp = StoreV {
        entries: s.entries.push(new_entry_v(s, p, now)),
        next_entry_id: s.next_entry_id + 1,
        ..s
    };
    crate::budgets::history_tr(
        sp,
        s.category_of(p.category_id).budget_id,
        "entry_add"@,
        Some("expenses"@),
        None,
        Some(crate::text::money_str_of(p.amount)),
        add_entry_desc(p, s.category_of(p.category_id).category_name),
        now,
    )
}

/// The store after an entry is updated in place.
pub open spec fn update_entry_tr(s: StoreV, p: UpdateEntryV, now: int) -> StoreV {
    let sp = StoreV { entries: patch_entries(s.entries, p.entry_id, update_entry_patch_fn(p)), ..s };
    crate::budgets::history_tr(
        sp,
        entry_owner_budget(s, p.entry_id),
        "entry_update"@,
        Some("expenses"@),
        None,
        None,
        "Updated entry "@ + crate::text::int_str_of(p.entry_id) + " in "@ + entry_owner_cat_name(
            s,
            p.entry_id,
        ),
        now,
    )
}

/// The store after an entry is soft-deleted: the row stays, marked hidden.
pub open spec fn soft_delete_tr(s: StoreV, id: int, now: int) -> StoreV {
    let sp = StoreV { entries: patch_entries(s.entries, id, soft_delete_patch_fn(now)), ..s };
    crate::budgets::history_tr(
        sp,
        entry_owner_budget(s, id),
        "entry_delete"@,
        Some("expenses"@),
        None,
        None,
        "Deleted entry "@ + crate::text::int_str_of(id) + " from "@ + entry_owner_cat_name(s, id),
        now,
    )
}

/// The store after a category's allocation target changes.
pub open spec fn set_alloc_tr(s: StoreV, category_id: int, amount: int, now: int) -> StoreV {
    let old_amount = s.category_of(category_id).allocated_amount;
    let name = s.category_of(category_id).category_name;
    let sp = StoreV {
        categories: patch_categories(s.categories, category_id, set_alloc_patch_fn(amount)),
        ..s
    };
    crate::budgets::history_tr(
        sp,
        s.category_of(category_id).budget_id,
        "allocation_change"@,
        Some("allocated_amount"@),
        Some(crate::text::money_str_of(old_amount)),
        Some(crate::text::money_str_of(amount)),
        "Updated allocated for "@ + name + " $"@ + crate::text::money_str_of(old_amount)
            + " \u{2192} $"@ + crate::text::money_str_of(amount),
        now,
    )
}

/// The stored row a category addition creates.
pub open spec fn new_category_v(s: StoreV, p: NewCategoryV, now: int) -> CategoryV {
    CategoryV {
        category_id: s.next_category_id,
        budget_id: p.budget_id,
        category_name: p.category_name,
        allocated_amount: p.allocated_amount,
        created_at: now,
        global_category_id: None,
        category_type: CategoryType::Expense,
    }
}

/// The store after a category is added to a budget.
pub open spec fn add_category_tr(s: StoreV, p: NewCategoryV, now: int) -> StoreV {
    let sp = StoreV {
        categories: s.categories.push(new_category_v(s, p, now)),
        next_category_id: s.next_category_id + 1,
        ..s
    };
    crate::budgets::history_tr(
        sp,
        p.budget_id,
        "category_add"@,
        Some("budget_categories"@),
        None,
        Some(p.category_name),
        "Added category '"@ + p.category_name + "' with allocated $"@ + crate::text::money_str_of(
            p.allocated_amount,
        ),
        now,
    )
}

/// Rewriting one entry in place preserves well-formedness and every lookup,
/// provided the patch keeps the identity fields.
pub proof fn lemma_patch_entries_wf(s: StoreV, id: int, f: spec_fn(EntryV) -> EntryV)
    requires
        s.wf(),
        forall|e: EntryV| (#[trigger] f(e)).entry_id == e.entry_id,
        forall|e: EntryV| (#[trigger] f(e)).category_id == e.category_id,
    ensures
        (StoreV { entries: patch_entries(s.entries, id, f), ..s }).wf(),
        forall|x: int| (StoreV { entries: patch_entries(s.entries, id, f), ..s }).has_entry(x)
            == s.has_entry(x),
        s.has_entry(id) ==> (StoreV { entries: patch_entries(s.entries, id, f), ..s }).entry_of(id)
            == f(s.entry_of(id)),
        forall|x: int|
            x != id && s.has_entry(x) ==> (StoreV {
                entries: patch_entries(s.entries, id, f),
                ..s
            }).entry_of(x) == s.entry_of(x),
{
    let sp = StoreV { entries: patch_entries(s.entries, id, f), ..s };
    assert(sp.entries.len() == s.entries.len());
    assert(forall|i: int|
        0 <= i < s.entries.len() ==> (#[trigger] sp.entries[i]).entry_id == s.entries[i].entry_id
            && sp.entries[i].category_id == s.entries[i].category_id);
    assert forall|x: int| sp.has_entry(x) == s.has_entry(x) by {
        if s.has_entry(x) {
            let w = choose|i: int| 0 <= i < s.entries.len() && s.entries[i].entry_id == x;
            assert(sp.entries[w].entry_id == x);
        }
        if sp.has_entry(x) {
            let w = choose|i: int| 0 <= i < sp.entries.len() && sp.entries[i].entry_id == x;
            assert(s.entries[w].entry_id == x);
        }
    }
    assert forall|i: int|
        0 <= i < sp.entries.len() implies sp.has_category(
        #[trigger] sp.entries[i].category_id,
    ) by {
        assert(s.has_category(s.entries[i].category_id));
    }
    if s.has_entry(id) {
        let i0 = s.entry_index(id);
        assert(0 <= i0 < s.entries.len() && s.entries[i0].entry_id == id);
        let j0 = sp.entry_index(id);
        assert(sp.has_entry(id));
        assert(0 <= j0 < sp.entries.len() && sp.entries[j0].entry_id == id);
        assert(s.entries[j0].entry_id == id);
        assert(j0 == i0);
        assert(sp.entry_of(id) == f(s.entries[i0]));
    }
    assert forall|x: int| x != id && s.has_entry(x) implies sp.entry_of(x) == s.entry_of(x) by {
        let i0 = s.entry_index(x);
        assert(0 <= i0 < s.entries.len() && s.entries[i0].entry_id == x);
        assert(sp.entries[i0].entry_id == x);
        let j0 = sp.entry_index(x);
        assert(0 <= j0 < sp.entries.len() && sp.entries[j0].entry_id == x);
        assert(s.entries[j0].entry_id == x);
        assert(j0 == i0);
        assert(sp.entries[i0] == s.entries[i0]);
    }
}

/// Rewriting one category in place preserves well-formedness and every
/// lookup, provided the patch keeps the identity fields.
pub proof fn lemma_patch_categories_wf(s: StoreV, id: int, f: spec_fn(CategoryV) -> CategoryV)
    requires
        s.wf(),
        forall|c: CategoryV| (#[trigger] f(c)).category_id == c.category_id,
        forall|c: CategoryV| (#[trigger] f(c)).budget_id == c.budget_id,
    ensures
        (StoreV { categories: patch_categories(s.categories, id, f), ..s }).wf(),
        forall|x: int| (StoreV { categories: patch_categories(s.categories, id, f), ..s }).has_category(
            x,
        ) == s.has_category(x),
        s.has_category(id) ==> (StoreV {
            categories: patch_categories(s.categories, id, f),
            ..s
        }).category_of(id) == f(s.category_of(id)),
        forall|x: int|
            x != id && s.has_category(x) ==> (StoreV {
                categories: patch_categories(s.categories, id, f),
                ..s
            }).category_of(x) == s.category_of(x),
{
    let sp = StoreV { categories: patch_categories(s.categories, id, f), ..s };
    assert(sp.categories.len() == s.categories.len());
    assert(forall|i: int|
        0 <= i < s.categories.len() ==> (#[trigger] sp.categories[i]).category_id
            == s.categories[i].category_id && sp.categories[i].budget_id
            == s.categories[i].budget_id);
    assert forall|x: int| sp.has_category(x) == s.has_category(x) by {
        if s.has_category(x) {
            let w = choose|i: int| 0 <= i < s.categories.len() && s.categories[i].category_id == x;
            assert(sp.categories[w].category_id == x);
        }
        if sp.has_category(x) {
            let w = choose|i: int|
                0 <= i < sp.categories.len() && sp.categories[i].category_id == x;
            assert(s.categories[w].category_id == x);
        }
    }
    assert forall|i: int|
        0 <= i < sp.entries.len() implies sp.has_category(
        #[trigger] sp.entries[i].category_id,
    ) by {
        assert(s.has_category(s.entries[i].category_id));
        let w = choose|w: int|
            0 <= w < s.categories.len() && s.categories[w].category_id
                == s.entries[i].category_id;
        assert(sp.categories[w].category_id == sp.entries[i].category_id);
    }
    assert forall|i: int|
        0 <= i < sp.categories.len() implies sp.has_budget(
        #[trigger] sp.categories[i].budget_id,
    ) by {
        assert(s.has_budget(s.categories[i].budget_id));
    }
    if s.has_category(id) {
        let i0 = s.category_index(id);
        assert(0 <= i0 < s.categories.len() && s.categories[i0].category_id == id);
        let j0 = sp.category_index(id);
        assert(sp.has_category(id));
        assert(0 <= j0 < sp.categories.len() && sp.categories[j0].category_id == id);
        assert(s.categories[j0].category_id == id);
        assert(j0 == i0);
        assert(sp.category_of(id) == f(s.categories[i0]));
    }
    assert forall|x: int|
        x != id && s.has_category(x) implies sp.category_of(x) == s.category_of(x) by {
        let i0 = s.category_index(x);
        assert(0 <= i0 < s.categories.len() && s.categories[i0].category_id == x);
        assert(sp.categories[i0].category_id == x);
        let j0 = sp.category_index(x);
        assert(0 <= j0 < sp.categories.len() && sp.categories[j0].category_id == x);
        assert(s.categories[j0].category_id == x);
        assert(j0 == i0);
        assert(sp.categories[i0] == s.categories[i0]);
    }
}

impl Store {
    /// Adds a ledger entry to a category and logs the addition on the
    /// owning budget. Fails exactly when the category does not exist.
    /// Returns the persisted row, id and timestamp included.
    pub fn add_category_entry(&mut self, payload: NewEntry, now: i64) -> (r: Result<
        crate::types::LedgerEntry,
        StoreError,
    >)
        requires
            old(self)@.wf(),
            old(self)@.ready(),
            old(self)@.next_entry_id < 0x7fff_ffff_ffff_ffff,
            old(self)@.next_change_id < 0x7fff_ffff_ffff_ffff,
        ensures
            final(self)@.wf(),
            match r {
                Ok(e) => old(self)@.has_category(payload.category_id as int) && e@
                    == crate::types::ledger_view_of(new_entry_v(old(self)@, payload@, now as int))
                    && final(self)@ == add_entry_tr(old(self)@, payload@, now as int),
                Err(err) => err == StoreError::NotFound(EntityKind::Category, payload.category_id)
                    && !old(self)@.has_category(payload.category_id as int) && *final(self)
                    == *old(self),
            },
    {
        let ghost s = old(self)@;
        let cidx = match self.find_category(payload.category_id) {
            None => {
                return Err(StoreError::NotFound(EntityKind::Category, payload.category_id));
            },
            Some(i) => i,
        };
        let cat_name = self.categories[cidx].category_name.clone();
        let budget_id = self.categories[cidx].budget_id;
        proof {
            let j = s.category_index(payload.category_id as int);
            assert(s.categories[j].category_id == payload.category_id as int);
            assert(j == cidx as int);
            assert(s.category_of(payload.category_id as int) == s.categories[cidx as int]);
            assert(s.has_budget(s.categories[cidx as int].budget_id));
        }
        let entry_id = self.next_entry_id;
        let rec = EntryRecord {
            entry_id: entry_id,
            category_id: payload.category_id,
            entry_type: payload.entry_type,
            what: payload.what.clone(),
            place: crate::types::clone_opt_string(&payload.place),
            amount: payload.amount,
            date: payload.date,
            created_at: now,
            deleted_at: None,
        };
        let returned = crate::types::LedgerEntry {
            entry_id: entry_id,
            category_id: payload.category_id,
            entry_type: payload.entry_type,
            what: payload.what.clone(),
            place: crate::types::clone_opt_string(&payload.place),
            amount: payload.amount,
            date: payload.date,
            created_at: now,
        };
        self.entries.push(rec);
        self.next_entry_id = self.next_entry_id + 1;
        let ghost sp = StoreV {
            entries: s.entries.push(new_entry_v(s, payload@, now as int)),
            next_entry_id: s.next_entry_id + 1,
            ..s
        };
        proof {
            assert(self@.entries =~= sp.entries);
            assert(self@ =~= sp);
            assert forall|i: int|
                0 <= i < sp.entries.len() implies 1 <= (#[trigger] sp.entries[i]).entry_id
                < sp.next_entry_id by {
                if i < s.entries.len() {
                    assert(sp.entries[i] == s.entries[i]);
                }
            }
            assert forall|i: int, j: int|
                0 <= i < j < sp.entries.len() implies (#[trigger] sp.entries[i]).entry_id
                != (#[trigger] sp.entries[j]).entry_id by {
                assert(sp.entries[i] == s.entries[i]);
                if j < s.entries.len() {
                    assert(sp.entries[j] == s.entries[j]);
                } else {
                    assert(s.entries[i].entry_id < s.next_entry_id);
                }
            }
            assert forall|i: int|
                0 <= i < sp.entries.len() implies sp.has_category(
                #[trigger] sp.entries[i].category_id,
            ) by {
                if i < s.entries.len() {
                    assert(sp.entries[i] == s.entries[i]);
                    assert(s.has_category(s.entries[i].category_id));
                } else {
                    assert(s.has_category(payload.category_id as int));
                }
            }
            assert(sp.wf());
            assert(self@.has_budget(budget_id as int));
        }
        let mut description = crate::types::clone_string_from("Added ");
        description.append(entry_type_str(payload.entry_type));
        description.append(" $");
        let money = crate::text::money_string(payload.amount);
        description.append(money.as_str());
        description.append(" to ");
        description.append(cat_name.as_str());
        description.append(" (");
        description.append(payload.what.as_str());
        match &payload.place {
            Some(p) => {
                if p.unicode_len() > 0 {
                    description.append(" @ ");
                    description.append(p.as_str());
                }
            },
            None => {},
        }
        description.append(")");
        proof {
            assert(description@ =~= add_entry_desc(payload@, cat_name@));
        }
        self.push_history(
            budget_id,
            "entry_add",
            Some(crate::types::clone_string_from("expenses")),
            None,
            Some(money),
            description,
            now,
        );
        proof {
            assert(self@ =~= add_entry_tr(s, payload@, now as int));
        }
        Ok(returned)
    }

    /// Updates a live entry in place and logs the update on the owning
    /// budget. Fails exactly when the entry does not exist or is already
    /// soft-deleted.
    pub fn update_category_entry(&mut self, payload: UpdateEntry, now: i64) -> (r: Result<
        (),
        StoreError,
    >)
        requires
            old(self)@.wf(),
            old(self)@.ready(),
            old(self)@.next_change_id < 0x7fff_ffff_ffff_ffff,
        ensures
            final(self)@.wf(),
            match r {
                Ok(_) => old(self)@.has_live_entry(payload.entry_id as int) && final(self)@
                    == update_entry_tr(old(self)@, payload@, now as int),
                Err(e) => e == StoreError::NotFound(EntityKind::Entry, payload.entry_id) && !old(
                    self,
                )@.has_live_entry(payload.entry_id as int) && *final(self) == *old(self),
            },
    {
        let ghost s = old(self)@;
        let eidx = match self.find_entry(payload.entry_id) {
            None => {
                return Err(StoreError::NotFound(EntityKind::Entry, payload.entry_id));
            },
            Some(i) => i,
        };
        proof {
            let j = s.entry_index(payload.entry_id as int);
            assert(s.entries[j].entry_id == payload.entry_id as int);
            assert(j == eidx as int);
            assert(s.entry_of(payload.entry_id as int) == s.entries[eidx as int]);
        }
        if self.entries[eidx].deleted_at.is_some() {
            return Err(StoreError::NotFound(EntityKind::Entry, payload.entry_id));
        }
        let cidx = match self.find_category(self.entries[eidx].category_id) {
            None => {
                proof {
                    assert(s.has_category(s.entries[eidx as int].category_id));
                }
                vstd::pervasive::unreached()
            },
            Some(i) => i,
        };
        let cat_name = self.categories[cidx].category_name.clone();
        let budget_id = self.categories[cidx].budget_id;
        proof {
            let j = s.category_index(s.entries[eidx as int].category_id);
            assert(s.categories[j].category_id == s.entries[eidx as int].category_id);
            assert(j == cidx as int);
            assert(s.category_of(s.entries[eidx as int].category_id) == s.categories[cidx as int]);
            assert(s.has_budget(s.categories[cidx as int].budget_id));
        }
        let e = &self.entries[eidx];
        let rec = EntryRecord {
            entry_id: e.entry_id,
            category_id: e.category_id,
            entry_type: payload.entry_type,
            what: payload.what.clone(),
            place: crate::types::clone_opt_string(&payload.place),
            amount: payload.amount,
            date: payload.date,
            created_at: e.created_at,
            deleted_at: e.deleted_at,
        };
        let ghost pf = update_entry_patch_fn(payload@);
        self.entries[eidx] = rec;
        let ghost sp = StoreV {
            entries: patch_entries(s.entries, payload.entry_id as int, pf),
            ..s
        };
        proof {
            lemma_patch_entries_wf(s, payload.entry_id as int, pf);
            assert forall|j: int| 0 <= j < self@.entries.len() implies #[trigger] self@.entries[j]
                == sp.entries[j] by {
                if j != eidx {
                    assert(s.entries[j].entry_id != s.entries[eidx as int].entry_id);
                }
            }
            assert(self@.entries =~= sp.entries);
            assert(self@ =~= sp);
            assert(self@.has_budget(budget_id as int));
        }
        let mut description = crate::types::clone_string_from("Updated entry ");
        let idstr = crate::text::int_string(payload.entry_id);
        description.append(idstr.as_str());
        description.append(" in ");
        description.append(cat_name.as_str());
        proof {
            assert(description@ =~= "Updated entry "@ + crate::text::int_str_of(
                payload.entry_id as int,
            ) + " in "@ + entry_owner_cat_name(s, payload.entry_id as int));
        }
        self.push_history(
            budget_id,
            "entry_update",
            Some(crate::types::clone_string_from("expenses")),
            None,
            None,
            description,
            now,
        );
        proof {
            assert(self@ =~= update_entry_tr(s, payload@, now as int));
        }
        Ok(())
    }

    /// Soft-deletes a live entry: stamps `deleted_at`, hiding the row from
    /// reads and aggregates while keeping it for audit, and logs the
    /// deletion. Deleting is exactly-once: a second call on the same entry
    /// fails with `NotFound`.
    pub fn soft_delete_category_entry(&mut self, entry_id: i64, now: i64) -> (r: Result<
        (),
        StoreError,
    >)
        requires
            old(self)@.wf(),
            old(self)@.ready(),
            old(self)@.next_change_id < 0x7fff_ffff_ffff_ffff,
        ensures
            final(self)@.wf(),
            match r {
                Ok(_) => old(self)@.has_live_entry(entry_id as int) && final(self)@
                    == soft_delete_tr(old(self)@, entry_id as int, now as int),
                Err(e) => e == StoreError::NotFound(EntityKind::Entry, entry_id) && !old(
                    self,
                )@.has_live_entry(entry_id as int) && *final(self) == *old(self),
            },
    {
        let ghost s = old(self)@;
        let eidx = match self.find_entry(entry_id) {
            None => {
                return Err(StoreError::NotFound(EntityKind::Entry, entry_id));
            },
            Some(i) => i,
        };
        proof {
            let j = s.entry_index(entry_id as int);
            assert(s.entries[j].entry_id == entry_id as int);
            assert(j == eidx as int);
            assert(s.entry_of(entry_id as int) == s.entries[eidx as int]);
        }
        if self.entries[eidx].deleted_at.is_some() {
            return Err(StoreError::NotFound(EntityKind::Entry, entry_id));
        }
        let cidx = match self.find_category(self.entries[eidx].category_id) {
            None => {
                proof {
                    assert(s.has_category(s.entries[eidx as int].category_id));
                }
                vstd::pervasive::unreached()
            },
            Some(i) => i,
        };
        let cat_name = self.categories[cidx].category_name.clone();
        let budget_id = self.categories[cidx].budget_id;
        proof {
            let j = s.category_index(s.entries[eidx as int].category_id);
            assert(s.categories[j].category_id == s.entries[eidx as int].category_id);
            assert(j == cidx as int);
            assert(s.category_of(s.entries[eidx as int].category_id) == s.categories[cidx as int]);
            assert(s.has_budget(s.categories[cidx as int].budget_id));
        }
        let e = &self.entries[eidx];
        let rec = EntryRecord {
            entry_id: e.entry_id,
            category_id: e.category_id,
            entry_type: e.entry_type,
            what: e.what.clone(),
            place: crate::types::clone_opt_string(&e.place),
            amount: e.amount,
            date: e.date,
            created_at: e.created_at,
            deleted_at: Some(now),
        };
        let ghost pf = soft_delete_patch_fn(now as int);
        self.entries[eidx] = rec;
        let ghost sp = StoreV { entries: patch_entries(s.entries, entry_id as int, pf), ..s };
        proof {
            lemma_patch_entries_wf(s, entry_id as int, pf);
            assert forall|j: int| 0 <= j < self@.entries.len() implies #[trigger] self@.entries[j]
                == sp.entries[j] by {
                if j != eidx {
                    assert(s.entries[j].entry_id != s.entries[eidx as int].entry_id);
                }
            }
            assert(self@.entries =~= sp.entries);
            assert(self@ =~= sp);
            assert(self@.has_budget(budget_id as int));
        }
        let mut description = crate::types::clone_string_from("Deleted entry ");
        let idstr = crate::text::int_string(entry_id);
        description.append(idstr.as_str());
        description.append(" from ");
        description.append(cat_name.as_str());
        proof {
            assert(description@ =~= "Deleted entry "@ + crate::text::int_str_of(entry_id as int)
                + " from "@ + entry_owner_cat_name(s, entry_id as int));
        }
        self.push_history(
            budget_id,
            "entry_delete",
            Some(crate::types::clone_string_from("expenses")),
            None,
            None,
            description,
            now,
        );
        proof {
            assert(self@ =~= soft_delete_tr(s, entry_id as int, now as int));
        }
        Ok(())
    }

    /// Sets a category's allocation target and logs the old and new values.
    /// Fails exactly when the category does not exist.
    pub fn set_category_allocated_amount(&mut self, category_id: i64, amount: i64, now: i64) -> (r:
        Result<(), StoreError>)
        requires
            old(self)@.wf(),
            old(self)@.ready(),
            old(self)@.next_change_id < 0x7fff_ffff_ffff_ffff,
        ensures
            final(self)@.wf(),
            match r {
                Ok(_) => old(self)@.has_category(category_id as int) && final(self)@
                    == set_alloc_tr(old(self)@, category_id as int, amount as int, now as int),
                Err(e) => e == StoreError::NotFound(EntityKind::Category, category_id) && !old(
                    self,
                )@.has_category(category_id as int) && *final(self) == *old(self),
            },
    {
        let ghost s = old(self)@;
        let cidx = match self.find_category(category_id) {
            None => {
                return Err(StoreError::NotFound(EntityKind::Category, category_id));
            },
            Some(i) => i,
        };
        proof {
            let j = s.category_index(category_id as int);
            assert(s.categories[j].category_id == category_id as int);
            assert(j == cidx as int);
            assert(s.category_of(category_id as int) == s.categories[cidx as int]);
            assert(s.has_budget(s.categories[cidx as int].budget_id));
        }
        let old_amount = self.categories[cidx].allocated_amount;
        let cat_name = self.categories[cidx].category_name.clone();
        let budget_id = self.categories[cidx].budget_id;
        let c = &self.categories[cidx];
        let rec = CategoryRecord {
            category_id: c.category_id,
            budget_id: c.budget_id,
            category_name: c.category_name.clone(),
            allocated_amount: amount,
            created_at: c.created_at,
            global_category_id: c.global_category_id,
            category_type: c.category_type,
        };
        let ghost pf = set_alloc_patch_fn(amount as int);
        self.categories[cidx] = rec;
        let ghost sp = StoreV {
            categories: patch_categories(s.categories, category_id as int, pf),
            ..s
        };
        proof {
            lemma_patch_categories_wf(s, category_id as int, pf);
            assert forall|j: int|
                0 <= j < self@.categories.len() implies #[trigger] self@.categories[j]
                == sp.categories[j] by {
                if j != cidx {
                    assert(s.categories[j].category_id != s.categories[cidx as int].category_id);
                }
            }
            assert(self@.categories =~= sp.categories);
            assert(self@ =~= sp);
            assert(self@.has_budget(budget_id as int));
        }
        let old_money = crate::text::money_string(old_amount);
        let new_money = crate::text::money_string(amount);
        let mut description = crate::types::clone_string_from("Updated allocated for ");
        description.append(cat_name.as_str());
        description.append(" $");
        description.append(old_money.as_str());
        description.append(" \u{2192} $");
        description.append(new_money.as_str());
        proof {
            assert(description@ =~= "Updated allocated for "@ + s.category_of(
                category_id as int,
            ).category_name + " $"@ + crate::text::money_str_of(old_amount as int) + " \u{2192} $"@
                + crate::text::money_str_of(amount as int));
        }
        self.push_history(
            budget_id,
            "allocation_change",
            Some(crate::types::clone_string_from("allocated_amount")),
            Some(old_money),
            Some(new_money),
            description,
            now,
        );
        proof {
            assert(self@ =~= set_alloc_tr(s, category_id as int, amount as int, now as int));
        }
        Ok(())
    }

    /// Adds a category to a budget and logs the addition. Fails exactly
    /// when the budget does not exist. Returns the fresh category id.
    pub fn add_budget_category(&mut self, payload: NewCategory, now: i64) -> (r: Result<
        i64,
        StoreError,
    >)
        requires
            old(self)@.wf(),
            old(self)@.ready(),
            old(self)@.next_category_id < 0x7fff_ffff_ffff_ffff,
            old(self)@.next_change_id < 0x7fff_ffff_ffff_ffff,
        ensures
            final(self)@.wf(),
            match r {
                Ok(id) => old(self)@.has_budget(payload.budget_id as int) && id as int == old(
                    self,
                )@.next_category_id && final(self)@ == add_category_tr(
                    old(self)@,
                    payload@,
                    now as int,
                ),
                Err(e) => e == StoreError::NotFound(EntityKind::Budget, payload.budget_id) && !old(
                    self,
                )@.has_budget(payload.budget_id as int) && *final(self) == *old(self),
            },
    {
        let ghost s = old(self)@;
        if self.find_budget(payload.budget_id).is_none() {
            return Err(StoreError::NotFound(EntityKind::Budget, payload.budget_id));
        }
        let category_id = self.next_category_id;
        let rec = CategoryRecord {
            category_id: category_id,
            budget_id: payload.budget_id,
            category_name: payload.category_name.clone(),
            allocated_amount: payload.allocated_amount,
            created_at: now,
            global_category_id: None,
            category_type: CategoryType::Expense,
        };
        self.categories.push(rec);
        self.next_category_id = self.next_category_id + 1;
        let ghost sp = StoreV {
            categories: s.categories.push(new_category_v(s, payload@, now as int)),
            next_category_id: s.next_category_id + 1,
            ..s
        };
        proof {
            assert(self@.categories =~= sp.categories);
            assert(self@ =~= sp);
            assert forall|i: int|
                0 <= i < sp.categories.len() implies 1 <= (#[trigger] sp.categories[i]).category_id
                < sp.next_category_id by {
                if i < s.categories.len() {
                    assert(sp.categories[i] == s.categories[i]);
                }
            }
            assert forall|i: int, j: int|
                0 <= i < j < sp.categories.len() implies (#[trigger] sp.categories[i]).category_id
                != (#[trigger] sp.categories[j]).category_id by {
                assert(sp.categories[i] == s.categories[i]);
                if j < s.categories.len() {
                    assert(sp.categories[j] == s.categories[j]);
                } else {
                    assert(s.categories[i].category_id < s.next_category_id);
                }
            }
            assert forall|i: int|
                0 <= i < sp.categories.len() implies sp.has_budget(
                #[trigger] sp.categories[i].budget_id,
            ) by {
                if i < s.categories.len() {
                    assert(sp.categories[i] == s.categories[i]);
                    assert(s.has_budget(s.categories[i].budget_id));
                } else {
                    assert(s.has_budget(payload.budget_id as int));
                }
            }
            assert forall|i: int|
                0 <= i < sp.entries.len() implies sp.has_category(
                #[trigger] sp.entries[i].category_id,
            ) by {
                assert(s.has_category(s.entries[i].category_id));
                let w = choose|w: int|
                    0 <= w < s.categories.len() && s.categories[w].category_id
                        == s.entries[i].category_id;
                assert(sp.categories[w].category_id == sp.entries[i].category_id);
            }
            assert(sp.wf());
            assert(self@.has_budget(payload.budget_id as int));
        }
        let money = crate::text::money_string(payload.allocated_amount);
        let mut description = crate::types::clone_string_from("Added category '");
        description.append(payload.category_name.as_str());
        description.append("' with allocated $");
        description.append(money.as_str());
        proof {
            assert(description@ =~= "Added category '"@ + payload.category_name@
                + "' with allocated $"@ + crate::text::money_str_of(payload.allocated_amount as int));
        }
        self.push_history(
            payload.budget_id,
            "category_add",
            Some(crate::types::clone_string_from("budget_categories")),
            None,
            Some(payload.category_name),
            description,
            now,
        );
        proof {
            assert(self@ =~= add_category_tr(s, payload@, now as int));
        }
        Ok(category_id)
    }
}

/// Replacing one entry changes each category's net and live count by
/// exactly the difference of that entry's contributions.
proof fn lemma_net_count_update(es: Seq<EntryV>, i: int, e2: EntryV, cid: int)
    requires
        0 <= i < es.len(),
    ensures
        net_of(es.update(i, e2), cid) == net_of(es, cid) - net_contribution(es[i], cid)
            + net_contribution(e2, cid),
        count_of(es.update(i, e2), cid) == count_of(es, cid) - (if live_in_category(es[i], cid) {
            1int
        } else {
            0int
        }) + (if live_in_category(e2, cid) {
            1int
        } else {
            0int
        }),
    decreases es.len(),
{
    let u = es.update(i, e2);
    if i == es.len() - 1 {
        assert(u.drop_last() =~= es.drop_last());
        assert(u.last() == e2);
    } else {
        assert(u.drop_last() =~= es.drop_last().update(i, e2));
        assert(u.last() == es.last());
        lemma_net_count_update(es.drop_last(), i, e2, cid);
    }
}

/// Law: soft-deleting a live entry keeps the row retrievable by id with its
/// deletion stamp, makes a second update or delete meet the `NotFound` case,
/// removes the entry from every ledger page, and removes exactly its
/// contribution from its category's aggregates, leaving every other
/// category's aggregates unchanged.
pub proof fn lemma_soft_delete_hides_entry(s: StoreV, id: int, now: int)
    requires
        s.wf(),
        s.ready(),
        s.has_live_entry(id),
        s.next_change_id < 0x7fff_ffff_ffff_ffff,
    ensures
        ({
            let s2 = soft_delete_tr(s, id, now);
            let cat = s.entry_of(id).category_id;
            &&& s2.wf()
            &&& s2.has_entry(id)
            &&& s2.entry_of(id).deleted_at == Some(now)
            &&& !s2.has_live_entry(id)
            &&& forall|cid: int, j: int|
                0 <= j < live_ledger_of(s2, cid).len() ==> #[trigger] live_ledger_of(s2, cid)[j].entry_id
                    != id
            &&& net_of(s2.entries, cat) == net_of(s.entries, cat) - signed_amount(s.entry_of(id))
            &&& count_of(s2.entries, cat) == count_of(s.entries, cat) - 1
            &&& forall|c2: int|
                c2 != cat ==> #[trigger] net_of(s2.entries, c2) == net_of(s.entries, c2)
                    && count_of(s2.entries, c2) == count_of(s.entries, c2)
        }),
{
    broadcast use vstd::seq_lib::group_filter_ensures;

    let pf = soft_delete_patch_fn(now);
    let e0 = s.entry_of(id);
    let cat = e0.category_id;
    let ei = s.entry_index(id);
    assert(0 <= ei < s.entries.len() && s.entries[ei].entry_id == id);
    assert(s.entries[ei] == e0);
    lemma_patch_entries_wf(s, id, pf);
    let sp = StoreV { entries: patch_entries(s.entries, id, pf), ..s };
    assert(s.has_category(e0.category_id));
    let ci = s.category_index(e0.category_id);
    assert(0 <= ci < s.categories.len() && s.categories[ci].category_id == e0.category_id);
    assert(s.has_budget(s.categories[ci].budget_id));
    assert(s.category_of(e0.category_id) == s.categories[ci]);
    assert(sp.has_budget(entry_owner_budget(s, id)));
    crate::budgets::lemma_history_tr_wf(
        sp,
        entry_owner_budget(s, id),
        "entry_delete"@,
        Some("expenses"@),
        None,
        None,
        "Deleted entry "@ + crate::text::int_str_of(id) + " from "@ + entry_owner_cat_name(s, id),
        now,
    );
    let s2 = soft_delete_tr(s, id, now);
    assert(s2.wf());
    assert(s2.entries == sp.entries);
    assert(sp.has_entry(id));
    assert(sp.entry_of(id) == pf(e0));
    // lookups in s2 agree with sp: same entry table, distinct ids
    let j2 = s2.entry_index(id);
    let jp = sp.entry_index(id);
    assert(0 <= jp < sp.entries.len() && sp.entries[jp].entry_id == id);
    assert(s2.has_entry(id));
    assert(0 <= j2 < s2.entries.len() && s2.entries[j2].entry_id == id);
    assert(j2 == jp);
    assert(s2.entry_of(id) == pf(e0));
    assert(s2.entry_of(id).deleted_at == Some(now));
    // the patched table is the original with one row replaced
    assert forall|j: int| 0 <= j < s.entries.len() implies #[trigger] sp.entries[j]
        == s.entries.update(ei, pf(e0))[j] by {
        if j != ei {
            assert(s.entries[j].entry_id != s.entries[ei].entry_id);
        }
    }
    assert(sp.entries =~= s.entries.update(ei, pf(e0)));
    lemma_net_count_update(s.entries, ei, pf(e0), cat);
    assert(net_contribution(e0, cat) == signed_amount(e0));
    assert(net_contribution(pf(e0), cat) == 0);
    assert forall|c2: int|
        c2 != cat implies #[trigger] net_of(s2.entries, c2) == net_of(s.entries, c2) && count_of(
        s2.entries,
        c2,
    ) == count_of(s.entries, c2) by {
        lemma_net_count_update(s.entries, ei, pf(e0), c2);
        assert(net_contribution(e0, c2) == 0);
        assert(net_contribution(pf(e0), c2) == 0);
    }
    assert forall|cid: int, j: int|
        0 <= j < live_ledger_of(s2, cid).len() implies #[trigger] live_ledger_of(s2, cid)[j].entry_id
        != id by {
        let f = s2.entries.filter(live_in_cat_fn(cid));
        assert(live_ledger_of(s2, cid)[j] == crate::types::ledger_view_of(f[j]));
        assert(live_in_cat_fn(cid)(f[j]));
        crate::store::lemma_filter_members(s2.entries, live_in_cat_fn(cid));
        assert(s2.entries.contains(f[j]));
        let w = choose|w: int| 0 <= w < s2.entries.len() && s2.entries[w] == f[j];
        if f[j].entry_id == id {
            assert(s2.entries[w].entry_id == id);
            assert(w == j2);
            assert(f[j].deleted_at == Some(now));
        }
    }
}

} // verus!
