//! The store handle: every table of the budget ledger held as plain rows,
//! together with the id counters and the schema state.
//!
//! The host process owns one `Store`, passes it to each operation, and
//! persists it however it likes; the operations and their contracts live in
//! the sibling modules.

use vstd::prelude::*;
use crate::types::{
    BudgetRecord, BudgetV, CategoryRecord, CategoryV, EntryRecord, EntryV,
    BudgetChangeHistoryEntry, HistoryV, GlobalCategory, GlobalCategoryV,
    TemplateRecord, TemplateV, TemplateItemRecord, TemplateItemV,
};

verus! {

/// Which tables and which late-added columns the persistent schema has.
///
/// A `false` table flag means the table was never created, so it holds no
/// rows; a `false` column flag means the column does not exist yet and the
/// matching field of every stored row is meaningless until the schema-ensure
/// operation adds the column and back-fills it.
#[derive(Clone, Copy, Debug, PartialEq, Eq, Structural)]
pub struct SchemaState {
    pub monthly_budgets_table: bool,
    pub budget_categories_table: bool,
    pub expenses_table: bool,
    pub change_history_table: bool,
    pub global_categories_table: bool,
    pub budget_templates_table: bool,
    pub template_categories_table: bool,
    pub col_created_at: bool,
    pub col_finished_at: bool,
    pub col_name: bool,
    pub col_last_edited: bool,
    pub col_first_finished_at: bool,
    pub col_template_id: bool,
    pub col_global_category_id: bool,
    pub col_category_type: bool,
}

impl SchemaState {
    /// A schema with no tables and no late columns: a fresh data file.
    pub fn empty() -> (r: SchemaState)
        ensures
            r == SchemaState::empty_spec(),
    {
        SchemaState {
            monthly_budgets_table: false,
            budget_categories_table: false,
            expenses_table: false,
            change_history_table: false,
            global_categories_table: false,
            budget_templates_table: false,
            template_categories_table: false,
            col_created_at: false,
            col_finished_at: false,
            col_name: false,
            col_last_edited: false,
            col_first_finished_at: false,
            col_template_id: false,
            col_global_category_id: false,
            col_category_type: false,
        }
    }

    pub open spec fn empty_spec() -> SchemaState {
        SchemaState {
            monthly_budgets_table: false,
            budget_categories_table: false,
            expenses_table: false,
            change_history_table: false,
            global_categories_table: false,
            budget_templates_table: false,
            template_categories_table: false,
            col_created_at: false,
            col_finished_at: false,
            col_name: false,
            col_last_edited: false,
            col_first_finished_at: false,
            col_template_id: false,
            col_global_category_id: false,
            col_category_type: false,
        }
    }

    /// Whether every table and every late column is in place.
    pub fn is_complete(&self) -> (r: bool)
        ensures
            r == self.complete(),
    {
        self.monthly_budgets_table && self.budget_categories_table && self.expenses_table
            && self.change_history_table && self.global_categories_table
            && self.budget_templates_table && self.template_categories_table
            && self.col_created_at && self.col_finished_at && self.col_name
            && self.col_last_edited && self.col_first_finished_at && self.col_template_id
            && self.col_global_category_id && self.col_category_type
    }

    /// Every table and every late column is in place.
    pub open spec fn complete(self) -> bool {
        &&& self.monthly_budgets_table
        &&& self.budget_categories_table
        &&& self.expenses_table
        &&& self.change_history_table
        &&& self.global_categories_table
        &&& self.budget_templates_table
        &&& self.template_categories_table
        &&& self.col_created_at
        &&& self.col_finished_at
        &&& self.col_name
        &&& self.col_last_edited
        &&& self.col_first_finished_at
        &&& self.col_template_id
        &&& self.col_global_category_id
        &&& self.col_category_type
    }
}

/// The whole persistent state.
pub struct Store {
    pub schema: SchemaState,
    pub budgets: Vec<BudgetRecord>,
    pub categories: Vec<CategoryRecord>,
    pub entries: Vec<EntryRecord>,
    pub history: Vec<BudgetChangeHistoryEntry>,
    pub global_categories: Vec<GlobalCategory>,
    pub templates: Vec<TemplateRecord>,
    pub template_items: Vec<TemplateItemRecord>,
    pub next_budget_id: i64,
    pub next_category_id: i64,
    pub next_entry_id: i64,
    pub next_change_id: i64,
    pub next_global_id: i64,
    pub next_template_id: i64,
    pub next_item_id: i64,
}

/// The mathematical model of a `Store`.
#[verifier::ext_equal]
pub struct StoreV {
    pub schema: SchemaState,
    pub budgets: Seq<BudgetV>,
    pub categories: Seq<CategoryV>,
    pub entries: Seq<EntryV>,
    pub history: Seq<HistoryV>,
    pub global_categories: Seq<GlobalCategoryV>,
    pub templates: Seq<TemplateV>,
    pub template_items: Seq<TemplateItemV>,
    pub next_budget_id: int,
    pub next_category_id: int,
    pub next_entry_id: int,
    pub next_change_id: int,
    pub next_global_id: int,
    pub next_template_id: int,
    pub next_item_id: int,
}

/// The views of a sequence of stored budget rows.
pub open spec fn budget_views(v: Seq<BudgetRecord>) -> Seq<BudgetV> {
    v.map_values(|r: BudgetRecord| r@)
}

/// The views of a sequence of stored category rows.
pub open spec fn category_views(v: Seq<CategoryRecord>) -> Seq<CategoryV> {
    v.map_values(|r: CategoryRecord| r@)
}

/// The views of a sequence of stored ledger entry rows.
pub open spec fn entry_views(v: Seq<EntryRecord>) -> Seq<EntryV> {
    v.map_values(|r: EntryRecord| r@)
}

/// The views of a sequence of stored audit records.
pub open spec fn history_views(v: Seq<BudgetChangeHistoryEntry>) -> Seq<HistoryV> {
    v.map_values(|r: BudgetChangeHistoryEntry| r@)
}

/// The views of a sequence of stored global categories.
pub open spec fn global_views(v: Seq<GlobalCategory>) -> Seq<GlobalCategoryV> {
    v.map_values(|r: GlobalCategory| r@)
}

/// The views of a sequence of stored templates.
pub open spec fn template_views(v: Seq<TemplateRecord>) -> Seq<TemplateV> {
    v.map_values(|r: TemplateRecord| r@)
}

/// The views of a sequence of stored template items.
pub open spec fn item_views(v: Seq<TemplateItemRecord>) -> Seq<TemplateItemV> {
    v.map_values(|r: TemplateItemRecord| r@)
}

impl View for Store {
    type V = StoreV;

    open spec fn view(&self) -> StoreV {
        StoreV {
            schema: self.schema,
            budgets: budget_views(self.budgets@),
            categories: category_views(self.categories@),
            entries: entry_views(self.entries@),
            history: history_views(self.history@),
            global_categories: global_views(self.global_categories@),
            templates: template_views(self.templates@),
            template_items: item_views(self.template_items@),
            next_budget_id: self.next_budget_id as int,
            next_category_id: self.next_category_id as int,
            next_entry_id: self.next_entry_id as int,
            next_change_id: self.next_change_id as int,
            next_global_id: self.next_global_id as int,
            next_template_id: self.next_template_id as int,
            next_item_id: self.next_item_id as int,
        }
    }
}

impl StoreV {
    pub open spec fn has_budget(self, id: int) -> bool {
        exists|i: int| 0 <= i < self.budgets.len() && self.budgets[i].budget_id == id
    }

    pub open spec fn budget_index(self, id: int) -> int {
        choose|i: int| 0 <= i < self.budgets.len() && self.budgets[i].budget_id == id
    }

    /// The budget with the given id; meaningful only under `has_budget`.
    pub open spec fn budget_of(self, id: int) -> BudgetV {
        self.budgets[self.budget_index(id)]
    }

    pub open spec fn has_budget_pair(self, month: int, year: int) -> bool {
        exists|i: int|
            0 <= i < self.budgets.len() && self.budgets[i].month == month
                && self.budgets[i].year == year
    }

    pub open spec fn has_category(self, id: int) -> bool {
        exists|i: int| 0 <= i < self.categories.len() && self.categories[i].category_id == id
    }

    pub open spec fn category_index(self, id: int) -> int {
        choose|i: int| 0 <= i < self.categories.len() && self.categories[i].category_id == id
    }

    pub open spec fn category_of(self, id: int) -> CategoryV {
        self.categories[self.category_index(id)]
    }

    pub open spec fn has_entry(self, id: int) -> bool {
        exists|i: int| 0 <= i < self.entries.len() && self.entries[i].entry_id == id
    }

    pub open spec fn entry_index(self, id: int) -> int {
        choose|i: int| 0 <= i < self.entries.len() && self.entries[i].entry_id == id
    }

    pub open spec fn entry_of(self, id: int) -> EntryV {
        self.entries[self.entry_index(id)]
    }

    /// An entry that exists and is not soft-deleted.
    pub open spec fn has_live_entry(self, id: int) -> bool {
        self.has_entry(id) && self.entry_of(id).deleted_at is None
    }

    pub open spec fn has_template(self, id: int) -> bool {
        exists|i: int| 0 <= i < self.templates.len() && self.templates[i].template_id == id
    }

    pub open spec fn template_index(self, id: int) -> int {
        choose|i: int| 0 <= i < self.templates.len() && self.templates[i].template_id == id
    }

    pub open spec fn template_of(self, id: int) -> TemplateV {
        self.templates[self.template_index(id)]
    }

    pub open spec fn has_global(self, id: int) -> bool {
        exists|i: int|
            0 <= i < self.global_categories.len()
                && self.global_categories[i].global_category_id == id
    }

    pub open spec fn global_index(self, id: int) -> int {
        choose|i: int|
            0 <= i < self.global_categories.len()
                && self.global_categories[i].global_category_id == id
    }

    pub open spec fn global_of(self, id: int) -> GlobalCategoryV {
        self.global_categories[self.global_index(id)]
    }

    pub open spec fn has_global_name(self, name: Seq<char>) -> bool {
        exists|i: int|
            0 <= i < self.global_categories.len() && self.global_categories[i].name == name
    }

    pub open spec fn budgets_wf(self) -> bool {
        &&& forall|i: int|
            0 <= i < self.budgets.len() ==> {
                &&& 1 <= #[trigger] self.budgets[i].budget_id < self.next_budget_id
                &&& 1 <= self.budgets[i].month <= 12
            }
        &&& forall|i: int, j: int|
            0 <= i < j < self.budgets.len() ==> #[trigger] self.budgets[i].budget_id
                != #[trigger] self.budgets[j].budget_id
        &&& forall|i: int, j: int|
            0 <= i < j < self.budgets.len() ==> !(#[trigger] self.budgets[i].month
                == #[trigger] self.budgets[j].month && self.budgets[i].year
                == self.budgets[j].year)
    }

    pub open spec fn categories_wf(self) -> bool {
        &&& forall|i: int|
            0 <= i < self.categories.len() ==> 1 <= #[trigger] self.categories[i].category_id
                < self.next_category_id
        &&& forall|i: int, j: int|
            0 <= i < j < self.categories.len() ==> #[trigger] self.categories[i].category_id
                != #[trigger] self.categories[j].category_id
        &&& forall|i: int|
            0 <= i < self.categories.len() ==> self.has_budget(
                #[trigger] self.categories[i].budget_id,
            )
    }

    pub open spec fn entries_wf(self) -> bool {
        &&& forall|i: int|
            0 <= i < self.entries.len() ==> 1 <= #[trigger] self.entries[i].entry_id
                < self.next_entry_id
        &&& forall|i: int, j: int|
            0 <= i < j < self.entries.len() ==> #[trigger] self.entries[i].entry_id
                != #[trigger] self.entries[j].entry_id
        &&& forall|i: int|
            0 <= i < self.entries.len() ==> self.has_category(
                #[trigger] self.entries[i].category_id,
            )
    }

    pub open spec fn history_wf(self) -> bool {
        &&& forall|i: int|
            0 <= i < self.history.len() ==> 1 <= #[trigger] self.history[i].change_id
                < self.next_change_id
        &&& forall|i: int, j: int|
            0 <= i < j < self.history.len() ==> #[trigger] self.history[i].change_id
                != #[trigger] self.history[j].change_id
        &&& forall|i: int|
            0 <= i < self.history.len() ==> self.has_budget(#[trigger] self.history[i].budget_id)
    }

    pub open spec fn globals_wf(self) -> bool {
        &&& forall|i: int|
            0 <= i < self.global_categories.len() ==> 1 <= #[trigger] self.global_categories[i].global_category_id
                < self.next_global_id
        &&& forall|i: int, j: int|
            0 <= i < j < self.global_categories.len()
                ==> #[trigger] self.global_categories[i].global_category_id
                != #[trigger] self.global_categories[j].global_category_id
        &&& forall|i: int, j: int|
            0 <= i < j < self.global_categories.len()
                ==> #[trigger] self.global_categories[i].name
                != #[trigger] self.global_categories[j].name
    }

    pub open spec fn templates_wf(self) -> bool {
        &&& forall|i: int|
            0 <= i < self.templates.len() ==> 1 <= #[trigger] self.templates[i].template_id
                < self.next_template_id
        &&& forall|i: int, j: int|
            0 <= i < j < self.templates.len() ==> #[trigger] self.templates[i].template_id
                != #[trigger] self.templates[j].template_id
    }

    pub open spec fn template_items_wf(self) -> bool {
        &&& forall|i: int|
            0 <= i < self.template_items.len()
                ==> 1 <= #[trigger] self.template_items[i].template_category_id
                < self.next_item_id
        &&& forall|i: int, j: int|
            0 <= i < j < self.template_items.len()
                ==> #[trigger] self.template_items[i].template_category_id
                != #[trigger] self.template_items[j].template_category_id
        &&& forall|i: int|
            0 <= i < self.template_items.len() ==> self.has_template(
                #[trigger] self.template_items[i].template_id,
            )
        &&& forall|i: int|
            0 <= i < self.template_items.len() ==> self.has_global(
                #[trigger] self.template_items[i].global_category_id,
            )
    }

    /// Every row count stays under its id counter, so counts fit in `i64`.
    pub open spec fn lens_wf(self) -> bool {
        &&& self.budgets.len() < self.next_budget_id
        &&& self.categories.len() < self.next_category_id
        &&& self.entries.len() < self.next_entry_id
        &&& self.history.len() < self.next_change_id
        &&& self.global_categories.len() < self.next_global_id
        &&& self.templates.len() < self.next_template_id
        &&& self.template_items.len() < self.next_item_id
    }

    /// A table that was never created holds no rows.
    pub open spec fn tables_wf(self) -> bool {
        &&& !self.schema.monthly_budgets_table ==> self.budgets.len() == 0
        &&& !self.schema.budget_categories_table ==> self.categories.len() == 0
        &&& !self.schema.expenses_table ==> self.entries.len() == 0
        &&& !self.schema.change_history_table ==> self.history.len() == 0
        &&& !self.schema.global_categories_table ==> self.global_categories.len() == 0
        &&& !self.schema.budget_templates_table ==> self.templates.len() == 0
        &&& !self.schema.template_categories_table ==> self.template_items.len() == 0
    }

    /// Well-formedness of the whole store: constructors establish it and
    /// every operation preserves it.
    pub open spec fn wf(self) -> bool {
        &&& self.budgets_wf()
        &&& self.categories_wf()
        &&& self.entries_wf()
        &&& self.history_wf()
        &&& self.globals_wf()
        &&& self.templates_wf()
        &&& self.template_items_wf()
        &&& self.lens_wf()
        &&& self.tables_wf()
    }

    /// The schema is complete: required before any row operation runs.
    pub open spec fn ready(self) -> bool {
        self.schema.complete()
    }
}

/// Filtering keeps only members of the original sequence.
pub proof fn lemma_filter_members<A>(s: Seq<A>, pred: spec_fn(A) -> bool)
    ensures
        forall|i: int|
            0 <= i < s.filter(pred).len() ==> s.contains(#[trigger] s.filter(pred)[i]),
    decreases s.len(),
{
    reveal(Seq::filter);
    if s.len() != 0 {
        let dl = s.drop_last();
        lemma_filter_members(dl, pred);
        assert forall|i: int|
            0 <= i < s.filter(pred).len() implies s.contains(#[trigger] s.filter(pred)[i]) by {
            if i < dl.filter(pred).len() {
                assert(s.filter(pred)[i] == dl.filter(pred)[i]);
                let j = choose|j: int| 0 <= j < dl.len() && dl[j] == dl.filter(pred)[i];
                assert(s[j] == s.filter(pred)[i]);
            } else {
                assert(s.filter(pred)[i] == s.last());
            }
        }
    }
}

/// Filtering keeps a key distinct if it was distinct before.
pub proof fn lemma_filter_distinct_by<A>(s: Seq<A>, pred: spec_fn(A) -> bool, key: spec_fn(A) -> int)
    requires
        forall|i: int, j: int| 0 <= i < j < s.len() ==> key(s[i]) != key(s[j]),
    ensures
        forall|i: int, j: int|
            0 <= i < j < s.filter(pred).len() ==> key(#[trigger] s.filter(pred)[i]) != key(
                #[trigger] s.filter(pred)[j],
            ),
    decreases s.len(),
{
    reveal(Seq::filter);
    if s.len() != 0 {
        let dl = s.drop_last();
        assert(forall|i: int, j: int| 0 <= i < j < dl.len() ==> key(dl[i]) != key(dl[j]));
        lemma_filter_distinct_by(dl, pred, key);
        lemma_filter_members(dl, pred);
        let f = s.filter(pred);
        assert forall|i: int, j: int|
            0 <= i < j < f.len() implies key(#[trigger] f[i]) != key(#[trigger] f[j]) by {
            if j < dl.filter(pred).len() {
                assert(f[i] == dl.filter(pred)[i]);
                assert(f[j] == dl.filter(pred)[j]);
            } else {
                assert(f[j] == s.last());
                assert(f[i] == dl.filter(pred)[i]);
                let w = choose|w: int| 0 <= w < dl.len() && dl[w] == dl.filter(pred)[i];
                assert(key(s[w]) != key(s[s.len() - 1]));
            }
        }
    }
}

/// A filter that rejects every element yields the empty sequence.
pub proof fn lemma_filter_none<A>(s: Seq<A>, pred: spec_fn(A) -> bool)
    requires
        forall|i: int| 0 <= i < s.len() ==> !pred(#[trigger] s[i]),
    ensures
        s.filter(pred) == Seq::<A>::empty(),
    decreases s.len(),
{
    reveal(Seq::filter);
    if s.len() != 0 {
        lemma_filter_none(s.drop_last(), pred);
        assert(s.filter(pred) =~= Seq::<A>::empty());
    } else {
        assert(s.filter(pred) =~= Seq::<A>::empty());
    }
}

/// A filter that accepts every element yields the sequence itself.
pub proof fn lemma_filter_all<A>(s: Seq<A>, pred: spec_fn(A) -> bool)
    requires
        forall|i: int| 0 <= i < s.len() ==> pred(#[trigger] s[i]),
    ensures
        s.filter(pred) == s,
    decreases s.len(),
{
    reveal(Seq::filter);
    if s.len() != 0 {
        lemma_filter_all(s.drop_last(), pred);
        assert(s.filter(pred) =~= s);
    } else {
        assert(s.filter(pred) =~= s);
    }
}

/// Filtering a sequence extended by one element.
pub proof fn lemma_filter_push<A>(s: Seq<A>, pred: spec_fn(A) -> bool, e: A)
    ensures
        s.push(e).filter(pred) == if pred(e) {
            s.filter(pred).push(e)
        } else {
            s.filter(pred)
        },
    decreases s.len(),
{
    reveal(Seq::filter);
    assert(s.push(e).drop_last() =~= s);
    assert(s.push(e).last() == e);
    if pred(e) {
        assert(s.push(e).filter(pred) =~= s.filter(pred).push(e));
    } else {
        assert(s.push(e).filter(pred) =~= s.filter(pred));
    }
}

impl Store {
    /// A store over a fresh data file: no tables, no rows, counters at one.
    pub fn new() -> (r: Store)
        ensures
            r@.wf(),
            r@.schema == SchemaState::empty_spec(),
            r@.budgets.len() == 0,
            r@.categories.len() == 0,
            r@.entries.len() == 0,
            r@.history.len() == 0,
            r@.global_categories.len() == 0,
            r@.templates.len() == 0,
            r@.template_items.len() == 0,
            r@.next_budget_id == 1,
            r@.next_category_id == 1,
            r@.next_entry_id == 1,
            r@.next_change_id == 1,
            r@.next_global_id == 1,
            r@.next_template_id == 1,
            r@.next_item_id == 1,
    {
        Store {
            schema: SchemaState::empty(),
            budgets: Vec::new(),
            categories: Vec::new(),
            entries: Vec::new(),
            history: Vec::new(),
            global_categories: Vec::new(),
            templates: Vec::new(),
            template_items: Vec::new(),
            next_budget_id: 1,
            next_category_id: 1,
            next_entry_id: 1,
            next_change_id: 1,
            next_global_id: 1,
            next_template_id: 1,
            next_item_id: 1,
        }
    }

    /// Position of the budget with the given id, if any.
    pub fn find_budget(&self, id: i64) -> (r: Option<usize>)
        ensures
            match r {
                Some(i) => i < self@.budgets.len() && self@.budgets[i as int].budget_id == id,
                None => !self@.has_budget(id as int),
            },
    {
        let mut i: usize = 0;
        while i < self.budgets.len()
            invariant
                i <= self@.budgets.len(),
                forall|j: int| 0 <= j < i ==> #[trigger] self@.budgets[j].budget_id != id,
            decreases self@.budgets.len() - i,
        {
            if self.budgets[i].budget_id == id {
                return Some(i);
            }
            i += 1;
        }
        None
    }

    /// Position of the budget for the given month and year, if any.
    pub fn find_budget_pair(&self, month: u8, year: i32) -> (r: Option<usize>)
        ensures
            match r {
                Some(i) => i < self@.budgets.len() && self@.budgets[i as int].month == month
                    && self@.budgets[i as int].year == year,
                None => !self@.has_budget_pair(month as int, year as int),
            },
    {
        let mut i: usize = 0;
        while i < self.budgets.len()
            invariant
                i <= self@.budgets.len(),
                forall|j: int|
                    0 <= j < i ==> !(#[trigger] self@.budgets[j].month == month
                        && self@.budgets[j].year == year),
            decreases self@.budgets.len() - i,
        {
            if self.budgets[i].month == month && self.budgets[i].year == year {
                return Some(i);
            }
            i += 1;
        }
        None
    }

    /// Position of the category with the given id, if any.
    pub fn find_category(&self, id: i64) -> (r: Option<usize>)
        ensures
            match r {
                Some(i) => i < self@.categories.len() && self@.categories[i as int].category_id
                    == id,
                None => !self@.has_category(id as int),
            },
    {
        let mut i: usize = 0;
        while i < self.categories.len()
            invariant
                i <= self@.categories.len(),
                forall|j: int| 0 <= j < i ==> #[trigger] self@.categories[j].category_id != id,
            decreases self@.categories.len() - i,
        {
            if self.categories[i].category_id == id {
                return Some(i);
            }
            i += 1;
        }
        None
    }

    /// Position of the entry with the given id, if any.
    pub fn find_entry(&self, id: i64) -> (r: Option<usize>)
        ensures
            match r {
                Some(i) => i < self@.entries.len() && self@.entries[i as int].entry_id == id,
                None => !self@.has_entry(id as int),
            },
    {
        let mut i: usize = 0;
        while i < self.entries.len()
            invariant
                i <= self@.entries.len(),
                forall|j: int| 0 <= j < i ==> #[trigger] self@.entries[j].entry_id != id,
            decreases self@.entries.len() - i,
        {
            if self.entries[i].entry_id == id {
                return Some(i);
            }
            i += 1;
        }
        None
    }

    /// Position of the template with the given id, if any.
    pub fn find_template(&self, id: i64) -> (r: Option<usize>)
        ensures
            match r {
                Some(i) => i < self@.templates.len() && self@.templates[i as int].template_id
                    == id,
                None => !self@.has_template(id as int),
            },
    {
        let mut i: usize = 0;
        while i < self.templates.len()
            invariant
                i <= self@.templates.len(),
                forall|j: int| 0 <= j < i ==> #[trigger] self@.templates[j].template_id != id,
            decreases self@.templates.len() - i,
        {
            if self.templates[i].template_id == id {
                return Some(i);
            }
            i += 1;
        }
        None
    }

    /// Position of the global category with the given id, if any.
    pub fn find_global(&self, id: i64) -> (r: Option<usize>)
        ensures
            match r {
                Some(i) => i < self@.global_categories.len()
                    && self@.global_categories[i as int].global_category_id == id,
                None => !self@.has_global(id as int),
            },
    {
        let mut i: usize = 0;
        while i < self.global_categories.len()
            invariant
                i <= self@.global_categories.len(),
                forall|j: int|
                    0 <= j < i ==> #[trigger] self@.global_categories[j].global_category_id != id,
            decreases self@.global_categories.len() - i,
        {
            if self.global_categories[i].global_category_id == id {
                return Some(i);
            }
            i += 1;
        }
        None
    }
}

} // verus!
