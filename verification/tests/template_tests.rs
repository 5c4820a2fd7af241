//! Templates and the catalog of global categories, and the destructive
//! template application.

use budget_ledger::store::Store;
use budget_ledger::budgets::CreateBudgetArgs;
use budget_ledger::ledger::{NewCategory, NewEntry};
use budget_ledger::types::{EntryType, CategoryType};
use budget_ledger::catalog::CreateGlobalCategoryArgs;
use budget_ledger::templates::{CreateBudgetTemplateArgs, CreateTemplateCategoryArgs};
use budget_ledger::error::{ConflictKind, EntityKind, StoreError};

fn ready_store() -> Store {
    let mut s = Store::new();
    s.run_migrations(0).unwrap();
    s.run_migration(0).unwrap();
    s
}

fn global_id_by_name(s: &Store, name: &str) -> i64 {
    s.global_categories
        .iter()
        .find(|g| g.name == name)
        .map(|g| g.global_category_id)
        .unwrap()
}

fn item(gid: i64, amount: i64, order: i32) -> CreateTemplateCategoryArgs {
    CreateTemplateCategoryArgs {
        global_category_id: gid,
        allocated_amount: amount,
        category_type: CategoryType::Expense,
        sort_order: order,
    }
}

#[test]
fn migration_seeds_ten_default_globals() {
    let s = ready_store();
    assert_eq!(s.global_categories.len(), 10);
    let listed = s.get_global_categories().unwrap();
    let names: Vec<String> = listed.iter().map(|g| g.name.clone()).collect();
    // ordered by name
    let mut sorted_names = names.clone();
    sorted_names.sort();
    assert_eq!(names, sorted_names);
    assert!(names.contains(&"Food & Dining".to_string()));
    assert!(names.contains(&"Debt Payment".to_string()));
}

#[test]
fn global_category_names_are_unique() {
    let mut s = ready_store();
    let made = s
        .create_global_category(
            CreateGlobalCategoryArgs { name: "Pets".to_string(), description: None },
            5,
        )
        .unwrap();
    assert_eq!(made.name, "Pets");
    let dup = s.create_global_category(
        CreateGlobalCategoryArgs { name: "Pets".to_string(), description: None },
        6,
    );
    assert!(matches!(dup, Err(StoreError::Conflict(ConflictKind::GlobalCategoryName))));
    // updating another category to a taken name conflicts too
    let food = global_id_by_name(&s, "Food & Dining");
    let clash = s.update_global_category(
        food,
        CreateGlobalCategoryArgs { name: "Pets".to_string(), description: None },
    );
    assert!(matches!(clash, Err(StoreError::Conflict(ConflictKind::GlobalCategoryName))));
    // renaming to a fresh name works
    let renamed = s
        .update_global_category(
            made.global_category_id,
            CreateGlobalCategoryArgs {
                name: "Companions".to_string(),
                description: Some("four-legged".to_string()),
            },
        )
        .unwrap();
    assert_eq!(renamed.name, "Companions");
    assert_eq!(renamed.description.as_deref(), Some("four-legged"));
    // keeping one's own name is no clash: the update is owed success
    let kept = s
        .update_global_category(
            made.global_category_id,
            CreateGlobalCategoryArgs {
                name: "Companions".to_string(),
                description: Some("still four-legged".to_string()),
            },
        )
        .unwrap();
    assert_eq!(kept.name, "Companions");
    assert_eq!(kept.description.as_deref(), Some("still four-legged"));
}

#[test]
fn delete_global_category_cascades_template_items() {
    let mut s = ready_store();
    let food = global_id_by_name(&s, "Food & Dining");
    let housing = global_id_by_name(&s, "Housing");
    s.create_budget_template(
        CreateBudgetTemplateArgs {
            name: "Basic".to_string(),
            description: None,
            categories: vec![item(food, 100, 0), item(housing, 200, 1)],
        },
        10,
    )
    .unwrap();
    assert_eq!(s.template_items.len(), 2);
    s.delete_global_category(food).unwrap();
    assert_eq!(s.template_items.len(), 1);
    assert_eq!(s.template_items[0].global_category_id, housing);
    assert_eq!(
        s.delete_global_category(food),
        Err(StoreError::NotFound(EntityKind::GlobalCategory, food))
    );
}

#[test]
fn template_listings_and_aggregates() {
    let mut s = ready_store();
    let food = global_id_by_name(&s, "Food & Dining");
    let t1 = s.create_template("Old".to_string(), 100).unwrap();
    let made = s
        .create_budget_template(
            CreateBudgetTemplateArgs {
                name: "Rich".to_string(),
                description: Some("two buckets".to_string()),
                categories: vec![item(food, 1500, 1), item(food, 2500, 0)],
            },
            200,
        )
        .unwrap();
    // legacy listing: newest first
    let listed = s.list_templates().unwrap();
    assert_eq!(listed.len(), 2);
    assert_eq!(listed[0].name, "Rich");
    assert_eq!(listed[1].template_id, t1);
    // summaries carry the aggregates
    let simples = s.get_budget_templates().unwrap();
    assert_eq!(simples[0].category_count, 2);
    assert_eq!(simples[0].total_amount, 4000);
    assert_eq!(simples[1].category_count, 0);
    assert_eq!(simples[1].total_amount, 0);
    // the joined read orders items by sort_order
    let with = s.get_budget_template_with_categories(made.template_id).unwrap();
    assert_eq!(with.name, "Rich");
    assert_eq!(with.categories.len(), 2);
    assert_eq!(with.categories[0].allocated_amount, 2500);
    assert_eq!(with.categories[1].allocated_amount, 1500);
    assert_eq!(with.categories[0].category_name, "Food & Dining");
}

#[test]
fn update_template_replaces_items_wholesale() {
    let mut s = ready_store();
    let food = global_id_by_name(&s, "Food & Dining");
    let savings = global_id_by_name(&s, "Savings");
    let made = s
        .create_budget_template(
            CreateBudgetTemplateArgs {
                name: "Start".to_string(),
                description: None,
                categories: vec![item(food, 100, 0), item(food, 200, 1), item(food, 300, 2)],
            },
            10,
        )
        .unwrap();
    let updated = s
        .update_budget_template(
            made.template_id,
            CreateBudgetTemplateArgs {
                name: "Changed".to_string(),
                description: Some("fresh".to_string()),
                categories: vec![item(savings, 999, 0)],
            },
        )
        .unwrap();
    assert_eq!(updated.name, "Changed");
    assert_eq!(updated.categories.len(), 1);
    assert_eq!(updated.categories[0].global_category_id, savings);
    assert_eq!(s.template_items.len(), 1);
    assert_eq!(
        s.update_budget_template(
            4242,
            CreateBudgetTemplateArgs {
                name: "x".to_string(),
                description: None,
                categories: vec![],
            },
        )
        .err()
        .unwrap(),
        StoreError::NotFound(EntityKind::Template, 4242)
    );
}

#[test]
fn create_template_with_missing_global_fails_clean() {
    let mut s = ready_store();
    let before_items = s.template_items.len();
    let before_templates = s.templates.len();
    let r = s.create_budget_template(
        CreateBudgetTemplateArgs {
            name: "Broken".to_string(),
            description: None,
            categories: vec![item(987654, 1, 0)],
        },
        10,
    );
    assert_eq!(r.err().unwrap(), StoreError::NotFound(EntityKind::GlobalCategory, 987654));
    assert_eq!(s.template_items.len(), before_items);
    assert_eq!(s.templates.len(), before_templates);
}

#[test]
fn apply_template_replaces_categories_and_logs_once() {
    let mut s = ready_store();
    let food = global_id_by_name(&s, "Food & Dining");
    let housing = global_id_by_name(&s, "Housing");
    let savings = global_id_by_name(&s, "Savings");
    let budget = s
        .create_monthly_budget(
            CreateBudgetArgs { month: 7, year: 2024, total_income: 0, name: None },
            1,
        )
        .unwrap();
    // two pre-existing categories, one with an entry
    let old_cat = s
        .add_budget_category(
            NewCategory { budget_id: budget, category_name: "Old A".to_string(), allocated_amount: 1 },
            2,
        )
        .unwrap();
    s.add_budget_category(
        NewCategory { budget_id: budget, category_name: "Old B".to_string(), allocated_amount: 2 },
        3,
    )
    .unwrap();
    s.add_category_entry(
        NewEntry {
            category_id: old_cat,
            entry_type: EntryType::Expense,
            what: "doomed".to_string(),
            place: None,
            amount: 5,
            date: 1,
        },
        4,
    )
    .unwrap();
    let made = s
        .create_budget_template(
            CreateBudgetTemplateArgs {
                name: "Trio".to_string(),
                description: None,
                categories: vec![
                    item(housing, 300, 2),
                    item(food, 100, 0),
                    item(savings, 200, 1),
                ],
            },
            5,
        )
        .unwrap();
    let history_before = s.get_budget_change_history(budget).unwrap().len();
    s.apply_template_to_budget(budget, made.template_id, 50).unwrap();
    // exactly M categories: the N old ones are gone
    let rows = s.get_budget_categories_with_stats(budget).unwrap();
    assert_eq!(rows.len(), 3);
    let names: Vec<String> = rows.iter().map(|r| r.category_name.clone()).collect();
    assert_eq!(names, vec!["Food & Dining", "Savings", "Housing"]);
    let amounts: Vec<i64> = rows.iter().map(|r| r.allocated_amount).collect();
    assert_eq!(amounts, vec![100, 200, 300]);
    // the old categories' entries are gone with them
    assert_eq!(s.entries.len(), 0);
    // the budget records the template
    assert_eq!(s.budgets[0].template_id, Some(made.template_id));
    assert_eq!(s.budgets[0].last_edited, 50);
    // exactly one new history record, tagged template_apply
    let history = s.get_budget_change_history(budget).unwrap();
    assert_eq!(history.len(), history_before + 1);
    assert_eq!(history[0].change_type, "template_apply");
    assert_eq!(history[0].new_value.as_deref(), Some("Trio"));
    assert_eq!(
        history[0].change_description,
        "Applied template 'Trio' to budget (3 categories)"
    );
}

#[test]
fn apply_template_missing_targets_fail() {
    let mut s = ready_store();
    let budget = s
        .create_monthly_budget(
            CreateBudgetArgs { month: 8, year: 2024, total_income: 0, name: None },
            1,
        )
        .unwrap();
    assert_eq!(
        s.apply_template_to_budget(999, 1, 0),
        Err(StoreError::NotFound(EntityKind::Budget, 999))
    );
    assert_eq!(
        s.apply_template_to_budget(budget, 999, 0),
        Err(StoreError::NotFound(EntityKind::Template, 999))
    );
}

#[test]
fn delete_template_removes_its_items() {
    let mut s = ready_store();
    let food = global_id_by_name(&s, "Food & Dining");
    let made = s
        .create_budget_template(
            CreateBudgetTemplateArgs {
                name: "Gone".to_string(),
                description: None,
                categories: vec![item(food, 10, 0)],
            },
            1,
        )
        .unwrap();
    s.delete_budget_template(made.template_id).unwrap();
    assert_eq!(s.templates.len(), 0);
    assert_eq!(s.template_items.len(), 0);
    assert_eq!(
        s.delete_budget_template(made.template_id),
        Err(StoreError::NotFound(EntityKind::Template, made.template_id))
    );
}
