//! The schema manager: idempotent migrations, back-filling of late columns,
//! the default catalog, the first-launch seeding, and password checks.

use budget_ledger::store::Store;
use budget_ledger::types::BudgetRecord;
use budget_ledger::auth::verify_password;

#[test]
fn migrations_twice_change_nothing() {
    let mut s = Store::new();
    s.run_migrations(100).unwrap();
    s.run_migration(100).unwrap();
    let globals = s.global_categories.len();
    let next_global = s.next_global_id;
    s.run_migrations(200).unwrap();
    s.run_migration(200).unwrap();
    assert_eq!(s.global_categories.len(), globals);
    assert_eq!(s.next_global_id, next_global);
    assert_eq!(s.global_categories.len(), 10);
}

#[test]
fn migration_backfills_rows_that_predate_columns() {
    // a store whose budget rows predate the late columns
    let mut s = Store::new();
    s.schema.monthly_budgets_table = true;
    s.budgets.push(BudgetRecord {
        budget_id: 1,
        month: 4,
        year: 2020,
        total_income: 7,
        created_at: -1,
        finished_at: Some(12345),
        first_finished_at: Some(-1),
        name: Some("stale".to_string()),
        last_edited: -1,
        template_id: None,
    });
    s.next_budget_id = 2;
    // only finished_at exists from the old schema
    s.schema.col_finished_at = true;
    s.run_migrations(500).unwrap();
    let b = &s.budgets[0];
    assert_eq!(b.created_at, 500);
    assert_eq!(b.last_edited, 500);
    assert_eq!(b.finished_at, Some(12345));
    assert_eq!(b.first_finished_at, Some(12345));
    assert_eq!(b.name, None);
    // a second run at a later instant back-fills nothing again
    s.run_migrations(900).unwrap();
    let b = &s.budgets[0];
    assert_eq!(b.created_at, 500);
    assert_eq!(b.last_edited, 500);
    assert_eq!(b.first_finished_at, Some(12345));
}

#[test]
fn first_launch_seeds_five_examples_once() {
    let mut s = Store::new();
    s.init_database(50).unwrap();
    assert_eq!(s.budgets.len(), 5);
    assert_eq!(s.budgets[0].name.as_deref(), Some("January 2024 Budget"));
    assert_eq!(s.budgets[0].month, 1);
    assert_eq!(s.budgets[0].total_income, 500000);
    assert_eq!(s.budgets[4].name.as_deref(), Some("May 2024 Budget"));
    assert_eq!(s.budgets[4].total_income, 490000);
    // a second start finds budgets and seeds nothing
    s.init_database(60).unwrap();
    assert_eq!(s.budgets.len(), 5);
    assert_eq!(s.global_categories.len(), 10);
}

#[test]
fn seeding_skips_stores_that_hold_budgets() {
    let mut s = Store::new();
    s.run_migrations(0).unwrap();
    s.run_migration(0).unwrap();
    s.create_monthly_budget(
        budget_ledger::budgets::CreateBudgetArgs {
            month: 9,
            year: 2024,
            total_income: 1,
            name: None,
        },
        1,
    )
    .unwrap();
    s.seed_initial_examples(2).unwrap();
    assert_eq!(s.budgets.len(), 1);
}

#[test]
fn password_verifies_against_sha256_hex() {
    // SHA-256("abc") in lower-case hex
    let stored = Some(
        "ba7816bf8f01cfea414140de5dae2223b00361a396177a9cb410ff61f20015ad".to_string(),
    );
    assert_eq!(verify_password(&stored, "abc").unwrap(), true);
    assert_eq!(verify_password(&stored, "abd").unwrap(), false);
    // the digest of the empty string is not the empty string
    let empty_digest = Some(
        "e3b0c44298fc1c149afbf4c8996fb92427ae41e4649b934ca495991b7852b855".to_string(),
    );
    assert_eq!(verify_password(&empty_digest, "").unwrap(), true);
    assert_eq!(verify_password(&Some(String::new()), "").unwrap(), false);
    // an unknown user never verifies
    assert_eq!(verify_password(&None, "anything").unwrap(), false);
}

#[test]
fn log_and_delete_order_survive_migration_runs() {
    let mut s = Store::new();
    s.init_database(0).unwrap();
    // the examples are listed by last_edited; with equal stamps the listing
    // is still a permutation of the five seeded budgets
    let listed = s.list_monthly_budgets().unwrap();
    assert_eq!(listed.len(), 5);
    let mut months: Vec<u8> = listed.iter().map(|b| b.month).collect();
    months.sort();
    assert_eq!(months, vec![1, 2, 3, 4, 5]);
}
