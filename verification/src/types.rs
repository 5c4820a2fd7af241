//! Row types of the budget ledger and their mathematical views.
//!
//! Conventions, used everywhere in this crate:
//! - money is held in minor units (cents) as `i64`;
//! - instants (`created_at`, `last_edited`, ...) are `i64` seconds, supplied
//!   by the caller of each mutating operation;
//! - calendar dates of ledger entries are `i64` day numbers, so that the
//!   numeric order is the calendar order.
//!
//! Each stored row type has a view struct over `int`, `Seq<char>` and
//! `Option`, which the contracts speak of.

use vstd::prelude::*;
use vstd::string::StringExecFns;

verus! {

/// What a ledger entry records. An `Adjustment` contributes nothing to a
/// category's net amount; only `Income` adds and `Expense` subtracts.
#[derive(Clone, Copy, Debug, PartialEq, Eq, Structural)]
pub enum EntryType {
    Expense,
    Income,
    Adjustment,
}

/// How a category created from a template is classified.
#[derive(Clone, Copy, Debug, PartialEq, Eq, Structural)]
pub enum CategoryType {
    Expense,
    Savings,
}

pub open spec fn view_opt_i64(o: Option<i64>) -> Option<int> {
    match o {
        Some(x) => Some(x as int),
        None => None,
    }
}

pub open spec fn view_opt_string(o: Option<String>) -> Option<Seq<char>> {
    match o {
        Some(s) => Some(s@),
        None => None,
    }
}

/// A fresh owned copy of a string slice.
pub fn clone_string_from(s: &str) -> (r: String)
    ensures
        r@ == s@,
{
    String::from_str(s)
}

/// A copy of an optional string, field for field.
pub fn clone_opt_string(o: &Option<String>) -> (r: Option<String>)
    ensures
        r == *o,
{
    match o {
        Some(s) => Some(s.clone()),
        None => None,
    }
}

/// A stored monthly budget row.
pub struct BudgetRecord {
    pub budget_id: i64,
    pub month: u8,
    pub year: i32,
    pub total_income: i64,
    pub created_at: i64,
    pub finished_at: Option<i64>,
    pub first_finished_at: Option<i64>,
    pub name: Option<String>,
    pub last_edited: i64,
    pub template_id: Option<i64>,
}

#[verifier::ext_equal]
pub struct BudgetV {
    pub budget_id: int,
    pub month: int,
    pub year: int,
    pub total_income: int,
    pub created_at: int,
    pub finished_at: Option<int>,
    pub first_finished_at: Option<int>,
    pub name: Option<Seq<char>>,
    pub last_edited: int,
    pub template_id: Option<int>,
}

impl View for BudgetRecord {
    type V = BudgetV;

    open spec fn view(&self) -> BudgetV {
        BudgetV {
            budget_id: self.budget_id as int,
            month: self.month as int,
            year: self.year as int,
            total_income: self.total_income as int,
            created_at: self.created_at as int,
            finished_at: view_opt_i64(self.finished_at),
            first_finished_at: view_opt_i64(self.first_finished_at),
            name: view_opt_string(self.name),
            last_edited: self.last_edited as int,
            template_id: view_opt_i64(self.template_id),
        }
    }
}

/// The snapshot of a budget handed back by the listing operations.
pub struct BudgetSummary {
    pub budget_id: i64,
    pub month: u8,
    pub year: i32,
    pub total_income: i64,
    pub created_at: i64,
    pub finished_at: Option<i64>,
    pub first_finished_at: Option<i64>,
    pub name: Option<String>,
    pub last_edited: i64,
}

#[verifier::ext_equal]
pub struct BudgetSummaryV {
    pub budget_id: int,
    pub month: int,
    pub year: int,
    pub total_income: int,
    pub created_at: int,
    pub finished_at: Option<int>,
    pub first_finished_at: Option<int>,
    pub name: Option<Seq<char>>,
    pub last_edited: int,
}

impl View for BudgetSummary {
    type V = BudgetSummaryV;

    open spec fn view(&self) -> BudgetSummaryV {
        BudgetSummaryV {
            budget_id: self.budget_id as int,
            month: self.month as int,
            year: self.year as int,
            total_income: self.total_income as int,
            created_at: self.created_at as int,
            finished_at: view_opt_i64(self.finished_at),
            first_finished_at: view_opt_i64(self.first_finished_at),
            name: view_opt_string(self.name),
            last_edited: self.last_edited as int,
        }
    }
}

/// What a stored budget looks like as a summary.
pub open spec fn summary_of(b: BudgetV) -> BudgetSummaryV {
    BudgetSummaryV {
        budget_id: b.budget_id,
        month: b.month,
        year: b.year,
        total_income: b.total_income,
        created_at: b.created_at,
        finished_at: b.finished_at,
        first_finished_at: b.first_finished_at,
        name: b.name,
        last_edited: b.last_edited,
    }
}

/// A stored category row, owned by one budget.
pub struct CategoryRecord {
    pub category_id: i64,
    pub budget_id: i64,
    pub category_name: String,
    pub allocated_amount: i64,
    pub created_at: i64,
    pub global_category_id: Option<i64>,
    pub category_type: CategoryType,
}

#[verifier::ext_equal]
pub struct CategoryV {
    pub category_id: int,
    pub budget_id: int,
    pub category_name: Seq<char>,
    pub allocated_amount: int,
    pub created_at: int,
    pub global_category_id: Option<int>,
    pub category_type: CategoryType,
}

impl View for CategoryRecord {
    type V = CategoryV;

    open spec fn view(&self) -> CategoryV {
        CategoryV {
            category_id: self.category_id as int,
            budget_id: self.budget_id as int,
            category_name: self.category_name@,
            allocated_amount: self.allocated_amount as int,
            created_at: self.created_at as int,
            global_category_id: view_opt_i64(self.global_category_id),
            category_type: self.category_type,
        }
    }
}

/// A stored ledger entry row, owned by one category. `deleted_at` is the
/// soft-deletion marker: a row with `Some` is hidden from every read and
/// aggregate but kept for audit.
pub struct EntryRecord {
    pub entry_id: i64,
    pub category_id: i64,
    pub entry_type: EntryType,
    pub what: String,
    pub place: Option<String>,
    pub amount: i64,
    pub date: i64,
    pub created_at: i64,
    pub deleted_at: Option<i64>,
}

#[verifier::ext_equal]
pub struct EntryV {
    pub entry_id: int,
    pub category_id: int,
    pub entry_type: EntryType,
    pub what: Seq<char>,
    pub place: Option<Seq<char>>,
    pub amount: int,
    pub date: int,
    pub created_at: int,
    pub deleted_at: Option<int>,
}

impl View for EntryRecord {
    type V = EntryV;

    open spec fn view(&self) -> EntryV {
        EntryV {
            entry_id: self.entry_id as int,
            category_id: self.category_id as int,
            entry_type: self.entry_type,
            what: self.what@,
            place: view_opt_string(self.place),
            amount: self.amount as int,
            date: self.date as int,
            created_at: self.created_at as int,
            deleted_at: view_opt_i64(self.deleted_at),
        }
    }
}

/// A ledger entry as handed back to callers: the stored row without the
/// soft-deletion marker.
pub struct LedgerEntry {
    pub entry_id: i64,
    pub category_id: i64,
    pub entry_type: EntryType,
    pub what: String,
    pub place: Option<String>,
    pub amount: i64,
    pub date: i64,
    pub created_at: i64,
}

#[verifier::ext_equal]
pub struct LedgerEntryV {
    pub entry_id: int,
    pub category_id: int,
    pub entry_type: EntryType,
    pub what: Seq<char>,
    pub place: Option<Seq<char>>,
    pub amount: int,
    pub date: int,
    pub created_at: int,
}

impl View for LedgerEntry {
    type V = LedgerEntryV;

    open spec fn view(&self) -> LedgerEntryV {
        LedgerEntryV {
            entry_id: self.entry_id as int,
            category_id: self.category_id as int,
            entry_type: self.entry_type,
            what: self.what@,
            place: view_opt_string(self.place),
            amount: self.amount as int,
            date: self.date as int,
            created_at: self.created_at as int,
        }
    }
}

/// What a stored entry looks like when handed out.
pub open spec fn ledger_view_of(e: EntryV) -> LedgerEntryV {
    LedgerEntryV {
        entry_id: e.entry_id,
        category_id: e.category_id,
        entry_type: e.entry_type,
        what: e.what,
        place: e.place,
        amount: e.amount,
        date: e.date,
        created_at: e.created_at,
    }
}

/// One append-only audit record, always attributed to a budget.
pub struct BudgetChangeHistoryEntry {
    pub change_id: i64,
    pub budget_id: i64,
    pub change_type: String,
    pub field_name: Option<String>,
    pub old_value: Option<String>,
    pub new_value: Option<String>,
    pub change_description: String,
    pub changed_at: i64,
}

#[verifier::ext_equal]
pub struct HistoryV {
    pub change_id: int,
    pub budget_id: int,
    pub change_type: Seq<char>,
    pub field_name: Option<Seq<char>>,
    pub old_value: Option<Seq<char>>,
    pub new_value: Option<Seq<char>>,
    pub change_description: Seq<char>,
    pub changed_at: int,
}

impl View for BudgetChangeHistoryEntry {
    type V = HistoryV;

    open spec fn view(&self) -> HistoryV {
        HistoryV {
            change_id: self.change_id as int,
            budget_id: self.budget_id as int,
            change_type: self.change_type@,
            field_name: view_opt_string(self.field_name),
            old_value: view_opt_string(self.old_value),
            new_value: view_opt_string(self.new_value),
            change_description: self.change_description@,
            changed_at: self.changed_at as int,
        }
    }
}

/// A catalog-level category definition, shared across templates and budgets.
pub struct GlobalCategory {
    pub global_category_id: i64,
    pub name: String,
    pub description: Option<String>,
    pub created_at: i64,
}

#[verifier::ext_equal]
pub struct GlobalCategoryV {
    pub global_category_id: int,
    pub name: Seq<char>,
    pub description: Option<Seq<char>>,
    pub created_at: int,
}

impl View for GlobalCategory {
    type V = GlobalCategoryV;

    open spec fn view(&self) -> GlobalCategoryV {
        GlobalCategoryV {
            global_category_id: self.global_category_id as int,
            name: self.name@,
            description: view_opt_string(self.description),
            created_at: self.created_at as int,
        }
    }
}

/// A stored template row.
pub struct TemplateRecord {
    pub template_id: i64,
    pub name: String,
    pub description: Option<String>,
    pub created_at: i64,
}

#[verifier::ext_equal]
pub struct TemplateV {
    pub template_id: int,
    pub name: Seq<char>,
    pub description: Option<Seq<char>>,
    pub created_at: int,
}

impl View for TemplateRecord {
    type V = TemplateV;

    open spec fn view(&self) -> TemplateV {
        TemplateV {
            template_id: self.template_id as int,
            name: self.name@,
            description: view_opt_string(self.description),
            created_at: self.created_at as int,
        }
    }
}

/// A stored template category item, owned by one template and referring to
/// one global category.
#[derive(Clone, Copy)]
pub struct TemplateItemRecord {
    pub template_category_id: i64,
    pub template_id: i64,
    pub global_category_id: i64,
    pub allocated_amount: i64,
    pub category_type: CategoryType,
    pub sort_order: i32,
}

#[verifier::ext_equal]
pub struct TemplateItemV {
    pub template_category_id: int,
    pub template_id: int,
    pub global_category_id: int,
    pub allocated_amount: int,
    pub category_type: CategoryType,
    pub sort_order: int,
}

impl View for TemplateItemRecord {
    type V = TemplateItemV;

    open spec fn view(&self) -> TemplateItemV {
        TemplateItemV {
            template_category_id: self.template_category_id as int,
            template_id: self.template_id as int,
            global_category_id: self.global_category_id as int,
            allocated_amount: self.allocated_amount as int,
            category_type: self.category_type,
            sort_order: self.sort_order as int,
        }
    }
}

} // verus!
