//! The category ledger: aggregation, soft deletion, the paginated read, and
//! the audit records the entry mutations leave behind.

use budget_ledger::store::Store;
use budget_ledger::budgets::CreateBudgetArgs;
use budget_ledger::ledger::{NewCategory, NewEntry, UpdateEntry};
use budget_ledger::types::EntryType;
use budget_ledger::error::{EntityKind, StoreError};

fn store_with_category() -> (Store, i64, i64) {
    let mut s = Store::new();
    s.run_migrations(0).unwrap();
    s.run_migration(0).unwrap();
    let budget = s
        .create_monthly_budget(
            CreateBudgetArgs { month: 1, year: 2024, total_income: 0, name: None },
            1,
        )
        .unwrap();
    let cat = s
        .add_budget_category(
            NewCategory {
                budget_id: budget,
                category_name: "Groceries".to_string(),
                allocated_amount: 100000,
            },
            2,
        )
        .unwrap();
    (s, budget, cat)
}

fn entry(cat: i64, t: EntryType, what: &str, amount: i64, date: i64) -> NewEntry {
    NewEntry {
        category_id: cat,
        entry_type: t,
        what: what.to_string(),
        place: None,
        amount,
        date,
    }
}

#[test]
fn aggregates_follow_sign_convention() {
    let (mut s, _b, cat) = store_with_category();
    s.add_category_entry(entry(cat, EntryType::Income, "refund", 50000, 3), 10).unwrap();
    s.add_category_entry(entry(cat, EntryType::Expense, "food", 20000, 5), 11).unwrap();
    s.add_category_entry(entry(cat, EntryType::Adjustment, "shift", 30000, 4), 12).unwrap();
    let rows = s.get_budget_categories_with_stats(_b).unwrap();
    assert_eq!(rows.len(), 1);
    let row = &rows[0];
    // net = income - expense; the adjustment contributes zero
    assert_eq!(row.net_amount, 30000);
    assert_eq!(row.remaining_amount, row.allocated_amount as i128 + row.net_amount);
    assert_eq!(row.remaining_amount, 130000);
    assert_eq!(row.entries_count, 3);
    assert_eq!(row.last_activity_at, Some(5));
    assert_eq!(row.category_name, "Groceries");
}

#[test]
fn soft_delete_hides_but_keeps_the_row() {
    let (mut s, b, cat) = store_with_category();
    let kept = s.add_category_entry(entry(cat, EntryType::Expense, "keep", 100, 1), 10).unwrap();
    let gone = s.add_category_entry(entry(cat, EntryType::Expense, "drop", 900, 2), 11).unwrap();
    s.soft_delete_category_entry(gone.entry_id, 20).unwrap();
    // hidden from the ledger read
    let page = s.get_category_ledger(cat, 10, 0, "date_desc".to_string()).unwrap();
    assert_eq!(page.len(), 1);
    assert_eq!(page[0].entry_id, kept.entry_id);
    // hidden from the aggregates
    let rows = s.get_budget_categories_with_stats(b).unwrap();
    assert_eq!(rows[0].net_amount, -100);
    assert_eq!(rows[0].entries_count, 1);
    // but the row is still there, stamped, for audit
    let stored = s.entries.iter().find(|e| e.entry_id == gone.entry_id).unwrap();
    assert_eq!(stored.deleted_at, Some(20));
    // deletion is exactly-once
    assert_eq!(
        s.soft_delete_category_entry(gone.entry_id, 21),
        Err(StoreError::NotFound(EntityKind::Entry, gone.entry_id))
    );
    // and a deleted entry can no longer be updated
    let upd = UpdateEntry {
        entry_id: gone.entry_id,
        entry_type: EntryType::Income,
        what: "late".to_string(),
        place: None,
        amount: 1,
        date: 3,
    };
    assert_eq!(
        s.update_category_entry(upd, 22),
        Err(StoreError::NotFound(EntityKind::Entry, gone.entry_id))
    );
}

#[test]
fn add_entry_returns_persisted_row_and_logs() {
    let (mut s, b, cat) = store_with_category();
    let mut payload = entry(cat, EntryType::Expense, "lunch", 1250, 7);
    payload.place = Some("cafe".to_string());
    let row = s.add_category_entry(payload, 30).unwrap();
    assert_eq!(row.entry_id, 1);
    assert_eq!(row.category_id, cat);
    assert_eq!(row.created_at, 30);
    assert_eq!(row.amount, 1250);
    let history = s.get_budget_change_history(b).unwrap();
    assert_eq!(history[0].change_type, "entry_add");
    assert_eq!(history[0].budget_id, b);
    assert_eq!(history[0].new_value.as_deref(), Some("12.50"));
    assert_eq!(
        history[0].change_description,
        "Added expense $12.50 to Groceries (lunch @ cafe)"
    );
}

#[test]
fn add_entry_to_missing_category_fails() {
    let (mut s, _b, _cat) = store_with_category();
    let r = s.add_category_entry(entry(999, EntryType::Income, "x", 1, 1), 0);
    assert_eq!(r.err().unwrap(), StoreError::NotFound(EntityKind::Category, 999));
}

#[test]
fn update_entry_rewrites_in_place() {
    let (mut s, b, cat) = store_with_category();
    let row = s.add_category_entry(entry(cat, EntryType::Expense, "old", 100, 1), 10).unwrap();
    s.update_category_entry(
        UpdateEntry {
            entry_id: row.entry_id,
            entry_type: EntryType::Income,
            what: "new".to_string(),
            place: Some("market".to_string()),
            amount: 300,
            date: 9,
        },
        20,
    )
    .unwrap();
    assert_eq!(s.entries.len(), 1);
    let e = &s.entries[0];
    assert_eq!(e.entry_type, EntryType::Income);
    assert_eq!(e.what, "new");
    assert_eq!(e.amount, 300);
    assert_eq!(e.date, 9);
    assert_eq!(e.created_at, 10);
    let history = s.get_budget_change_history(b).unwrap();
    assert_eq!(history[0].change_type, "entry_update");
    assert_eq!(history[0].change_description, format!("Updated entry {} in Groceries", row.entry_id));
}

#[test]
fn set_allocated_amount_logs_old_and_new() {
    let (mut s, b, cat) = store_with_category();
    s.set_category_allocated_amount(cat, 255000, 40).unwrap();
    assert_eq!(s.categories[0].allocated_amount, 255000);
    let history = s.get_budget_change_history(b).unwrap();
    assert_eq!(history[0].change_type, "allocation_change");
    assert_eq!(history[0].old_value.as_deref(), Some("1000.00"));
    assert_eq!(history[0].new_value.as_deref(), Some("2550.00"));
    assert_eq!(
        s.set_category_allocated_amount(888, 1, 41),
        Err(StoreError::NotFound(EntityKind::Category, 888))
    );
}

#[test]
fn allocation_log_renders_negative_amounts() {
    let (mut s, b, cat) = store_with_category();
    s.set_category_allocated_amount(cat, -50, 40).unwrap();
    let history = s.get_budget_change_history(b).unwrap();
    assert_eq!(history[0].old_value.as_deref(), Some("1000.00"));
    assert_eq!(history[0].new_value.as_deref(), Some("-0.50"));
}

#[test]
fn add_category_to_missing_budget_fails() {
    let (mut s, _b, _c) = store_with_category();
    let r = s.add_budget_category(
        NewCategory { budget_id: 42, category_name: "x".to_string(), allocated_amount: 0 },
        0,
    );
    assert_eq!(r.err().unwrap(), StoreError::NotFound(EntityKind::Budget, 42));
}

#[test]
fn ledger_default_sort_is_date_desc_with_created_tiebreak() {
    let (mut s, _b, cat) = store_with_category();
    s.add_category_entry(entry(cat, EntryType::Expense, "a", 1, 5), 10).unwrap();
    s.add_category_entry(entry(cat, EntryType::Expense, "b", 2, 9), 11).unwrap();
    s.add_category_entry(entry(cat, EntryType::Expense, "c", 3, 5), 12).unwrap();
    let page = s.get_category_ledger(cat, 10, 0, "anything".to_string()).unwrap();
    let whats: Vec<String> = page.iter().map(|e| e.what.clone()).collect();
    assert_eq!(whats, vec!["b", "c", "a"]);
}

#[test]
fn ledger_amount_sort_and_pagination() {
    let (mut s, _b, cat) = store_with_category();
    s.add_category_entry(entry(cat, EntryType::Expense, "mid", 20, 1), 10).unwrap();
    s.add_category_entry(entry(cat, EntryType::Expense, "low", 10, 2), 11).unwrap();
    s.add_category_entry(entry(cat, EntryType::Expense, "high", 30, 3), 12).unwrap();
    let all = s.get_category_ledger(cat, 10, 0, "amount_asc".to_string()).unwrap();
    let amounts: Vec<i64> = all.iter().map(|e| e.amount).collect();
    assert_eq!(amounts, vec![10, 20, 30]);
    // a one-row page in the middle
    let page = s.get_category_ledger(cat, 1, 1, "amount_asc".to_string()).unwrap();
    assert_eq!(page.len(), 1);
    assert_eq!(page[0].amount, 20);
    // an offset past the end yields nothing
    let empty = s.get_category_ledger(cat, 5, 10, "amount_asc".to_string()).unwrap();
    assert_eq!(empty.len(), 0);
}

#[test]
fn ledger_of_unknown_category_is_empty() {
    let (s, _b, _c) = store_with_category();
    let page = s.get_category_ledger(12345, 10, 0, "date_desc".to_string()).unwrap();
    assert_eq!(page.len(), 0);
}

#[test]
fn history_is_budget_scoped_and_newest_first() {
    let (mut s, b, cat) = store_with_category();
    let other = s
        .create_monthly_budget(
            CreateBudgetArgs { month: 2, year: 2024, total_income: 0, name: None },
            50,
        )
        .unwrap();
    s.add_category_entry(entry(cat, EntryType::Expense, "x", 1, 1), 60).unwrap();
    s.log_budget_change(other, "status_change", None, None, None, "note", 70).unwrap();
    let mine = s.get_budget_change_history(b).unwrap();
    // category creation + entry addition, newest first
    assert_eq!(mine.len(), 2);
    assert_eq!(mine[0].change_type, "entry_add");
    assert_eq!(mine[1].change_type, "category_add");
    assert!(mine.iter().all(|h| h.budget_id == b));
    let theirs = s.get_budget_change_history(other).unwrap();
    assert_eq!(theirs.len(), 1);
    assert_eq!(theirs[0].change_description, "note");
    // logging against a missing budget is refused
    assert_eq!(
        s.log_budget_change(404, "t", None, None, None, "d", 0),
        Err(StoreError::NotFound(EntityKind::Budget, 404))
    );
}
