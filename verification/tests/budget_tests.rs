//! Budget lifecycle: creation uniqueness, finish/unfinish semantics, rename,
//! delete, and the sorted listings.

use budget_ledger::store::Store;
use budget_ledger::budgets::CreateBudgetArgs;
use budget_ledger::sorting::SortBudgetsArgs;
use budget_ledger::error::{ConflictKind, EntityKind, StoreError};

fn ready_store() -> Store {
    let mut s = Store::new();
    s.run_migrations(10).unwrap();
    s.run_migration(10).unwrap();
    s
}

fn args(month: u8, year: i32, income: i64, name: Option<&str>) -> CreateBudgetArgs {
    CreateBudgetArgs {
        month,
        year,
        total_income: income,
        name: name.map(|n| n.to_string()),
    }
}

#[test]
fn duplicate_month_year_conflicts() {
    let mut s = ready_store();
    let first = s.create_monthly_budget(args(3, 2024, 500000, None), 100);
    assert_eq!(first.unwrap(), 1);
    let second = s.create_monthly_budget(args(3, 2024, 999999, Some("again")), 101);
    assert_eq!(
        second,
        Err(StoreError::Conflict(ConflictKind::BudgetPair { month: 3, year: 2024 }))
    );
    // distinct pairs always succeed
    assert_eq!(s.create_monthly_budget(args(4, 2024, 1, None), 102).unwrap(), 2);
    assert_eq!(s.create_monthly_budget(args(3, 2025, 1, None), 103).unwrap(), 3);
    assert_eq!(s.budgets.len(), 3);
}

#[test]
fn first_finished_at_is_permanent() {
    let mut s = ready_store();
    let id = s.create_monthly_budget(args(5, 2024, 0, None), 100).unwrap();
    s.finish_monthly_budget(id, 200).unwrap();
    assert_eq!(s.budgets[0].finished_at, Some(200));
    assert_eq!(s.budgets[0].first_finished_at, Some(200));
    s.unfinish_monthly_budget(id, 300).unwrap();
    assert_eq!(s.budgets[0].finished_at, None);
    assert_eq!(s.budgets[0].first_finished_at, Some(200));
    s.finish_monthly_budget(id, 400).unwrap();
    assert_eq!(s.budgets[0].finished_at, Some(400));
    assert_eq!(s.budgets[0].first_finished_at, Some(200));
    assert_eq!(s.budgets[0].last_edited, 400);
}

#[test]
fn finish_missing_budget_fails() {
    let mut s = ready_store();
    assert_eq!(
        s.finish_monthly_budget(77, 0),
        Err(StoreError::NotFound(EntityKind::Budget, 77))
    );
    assert_eq!(
        s.unfinish_monthly_budget(77, 0),
        Err(StoreError::NotFound(EntityKind::Budget, 77))
    );
    assert_eq!(
        s.delete_monthly_budget(77),
        Err(StoreError::NotFound(EntityKind::Budget, 77))
    );
    assert!(matches!(
        s.update_budget_title(77, "x".to_string(), 0),
        Err(StoreError::NotFound(EntityKind::Budget, 77))
    ));
}

#[test]
fn rename_touches_last_edited_and_logs() {
    let mut s = ready_store();
    let id = s.create_monthly_budget(args(1, 2030, 0, None), 100).unwrap();
    s.update_budget_title(id as i32, "Holiday plan".to_string(), 250).unwrap();
    assert_eq!(s.budgets[0].name.as_deref(), Some("Holiday plan"));
    assert_eq!(s.budgets[0].last_edited, 250);
    let history = s.get_budget_change_history(id).unwrap();
    assert_eq!(history.len(), 1);
    assert_eq!(history[0].change_type, "title_change");
    assert_eq!(history[0].old_value.as_deref(), Some(""));
    assert_eq!(history[0].new_value.as_deref(), Some("Holiday plan"));
    assert_eq!(history[0].change_description, "Budget title changed to 'Holiday plan'");
}

#[test]
fn delete_cascades_categories_entries_history() {
    let mut s = ready_store();
    let id = s.create_monthly_budget(args(2, 2031, 0, None), 100).unwrap();
    let keep = s.create_monthly_budget(args(3, 2031, 0, None), 101).unwrap();
    let cat = s
        .add_budget_category(
            budget_ledger::ledger::NewCategory {
                budget_id: id,
                category_name: "Food".to_string(),
                allocated_amount: 100,
            },
            102,
        )
        .unwrap();
    let keep_cat = s
        .add_budget_category(
            budget_ledger::ledger::NewCategory {
                budget_id: keep,
                category_name: "Other".to_string(),
                allocated_amount: 50,
            },
            103,
        )
        .unwrap();
    s.add_category_entry(
        budget_ledger::ledger::NewEntry {
            category_id: cat,
            entry_type: budget_ledger::types::EntryType::Expense,
            what: "bread".to_string(),
            place: None,
            amount: 5,
            date: 1,
        },
        104,
    )
    .unwrap();
    s.delete_monthly_budget(id).unwrap();
    assert_eq!(s.budgets.len(), 1);
    assert_eq!(s.budgets[0].budget_id, keep);
    assert_eq!(s.categories.len(), 1);
    assert_eq!(s.categories[0].category_id, keep_cat);
    assert_eq!(s.entries.len(), 0);
    // audit records of the deleted budget are gone with it
    assert!(s.history.iter().all(|h| h.budget_id != id));
}

#[test]
fn list_defaults_to_last_edited_descending() {
    let mut s = ready_store();
    s.create_monthly_budget(args(1, 2024, 0, None), 300).unwrap();
    s.create_monthly_budget(args(2, 2024, 0, None), 100).unwrap();
    s.create_monthly_budget(args(3, 2024, 0, None), 200).unwrap();
    let listed = s.list_monthly_budgets().unwrap();
    let edited: Vec<i64> = listed.iter().map(|b| b.last_edited).collect();
    assert_eq!(edited, vec![300, 200, 100]);
}

#[test]
fn sort_by_income() {
    let mut s = ready_store();
    s.create_monthly_budget(args(1, 2024, 300, None), 1).unwrap();
    s.create_monthly_budget(args(2, 2024, 100, None), 2).unwrap();
    s.create_monthly_budget(args(3, 2024, 200, None), 3).unwrap();
    let asc = s
        .list_monthly_budgets_sorted(SortBudgetsArgs { criteria: "income".to_string(), ascending: true })
        .unwrap();
    let incomes: Vec<i64> = asc.iter().map(|b| b.total_income).collect();
    assert_eq!(incomes, vec![100, 200, 300]);
    let desc = s
        .list_monthly_budgets_sorted(SortBudgetsArgs { criteria: "income".to_string(), ascending: false })
        .unwrap();
    let incomes: Vec<i64> = desc.iter().map(|b| b.total_income).collect();
    assert_eq!(incomes, vec![300, 200, 100]);
}

#[test]
fn sort_by_finished_date_places_nulls() {
    let mut s = ready_store();
    let a = s.create_monthly_budget(args(1, 2024, 0, None), 1).unwrap();
    let b = s.create_monthly_budget(args(2, 2024, 0, None), 2).unwrap();
    let c = s.create_monthly_budget(args(3, 2024, 0, None), 3).unwrap();
    s.finish_monthly_budget(a, 500).unwrap();
    s.finish_monthly_budget(c, 400).unwrap();
    // ascending: the unfinished budget first
    let asc = s
        .list_monthly_budgets_sorted(SortBudgetsArgs {
            criteria: "finished_date".to_string(),
            ascending: true,
        })
        .unwrap();
    let ids: Vec<i64> = asc.iter().map(|x| x.budget_id).collect();
    assert_eq!(ids, vec![b, c, a]);
    // descending: the unfinished budget last
    let desc = s
        .list_monthly_budgets_sorted(SortBudgetsArgs {
            criteria: "finished_date".to_string(),
            ascending: false,
        })
        .unwrap();
    let ids: Vec<i64> = desc.iter().map(|x| x.budget_id).collect();
    assert_eq!(ids, vec![a, c, b]);
}

#[test]
fn sort_by_budget_date_uses_year_then_month() {
    let mut s = ready_store();
    s.create_monthly_budget(args(12, 2024, 0, None), 1).unwrap();
    s.create_monthly_budget(args(1, 2025, 0, None), 2).unwrap();
    s.create_monthly_budget(args(2, 2024, 0, None), 3).unwrap();
    let asc = s
        .list_monthly_budgets_sorted(SortBudgetsArgs {
            criteria: "budget_date".to_string(),
            ascending: true,
        })
        .unwrap();
    let pairs: Vec<(i32, u8)> = asc.iter().map(|b| (b.year, b.month)).collect();
    assert_eq!(pairs, vec![(2024, 2), (2024, 12), (2025, 1)]);
}

#[test]
fn sort_by_name_uses_display_name_case_insensitively() {
    let mut s = ready_store();
    // an unnamed budget for March 2024 sorts as "March 2024"
    s.create_monthly_budget(args(3, 2024, 0, Some("")), 1).unwrap();
    s.create_monthly_budget(args(1, 2024, 0, Some("aaaaaaa")), 2).unwrap();
    s.create_monthly_budget(args(2, 2024, 0, Some("Zebra")), 3).unwrap();
    let asc = s
        .list_monthly_budgets_sorted(SortBudgetsArgs { criteria: "name".to_string(), ascending: true })
        .unwrap();
    let names: Vec<Option<String>> = asc.iter().map(|b| b.name.clone()).collect();
    assert_eq!(
        names,
        vec![
            Some("aaaaaaa".to_string()),
            Some("".to_string()),
            Some("Zebra".to_string()),
        ]
    );
}

#[test]
fn unknown_sort_criteria_falls_back_to_last_edited_descending() {
    let mut s = ready_store();
    s.create_monthly_budget(args(1, 2024, 0, None), 100).unwrap();
    s.create_monthly_budget(args(2, 2024, 0, None), 300).unwrap();
    s.create_monthly_budget(args(3, 2024, 0, None), 200).unwrap();
    // even with ascending requested, an unknown criterion sorts descending
    let listed = s
        .list_monthly_budgets_sorted(SortBudgetsArgs { criteria: "bogus".to_string(), ascending: true })
        .unwrap();
    let edited: Vec<i64> = listed.iter().map(|b| b.last_edited).collect();
    assert_eq!(edited, vec![300, 200, 100]);
}

#[test]
fn error_messages_carry_the_entity_id() {
    let mut s = ready_store();
    let e = s.finish_monthly_budget(42, 0).unwrap_err();
    assert_eq!(e.message(), "Budget with ID 42 not found");
    s.create_monthly_budget(args(1, 2024, 0, None), 1).unwrap();
    let dup = s.create_monthly_budget(args(1, 2024, 0, None), 2).unwrap_err();
    assert_eq!(
        dup.message(),
        "A budget for 1/2024 already exists. Please choose a different month/year or edit the existing budget."
    );
}

#[test]
fn finish_logs_first_and_repeat_descriptions() {
    let mut s = ready_store();
    let id = s.create_monthly_budget(args(6, 2024, 0, None), 1).unwrap();
    s.finish_monthly_budget(id, 10).unwrap();
    s.finish_monthly_budget(id, 20).unwrap();
    let history = s.get_budget_change_history(id).unwrap();
    assert_eq!(history.len(), 2);
    // newest first
    assert_eq!(
        history[0].change_description,
        "Budget marked as finished again after being reopened"
    );
    assert_eq!(
        history[1].change_description,
        "Budget marked as finished for the first time"
    );
}
