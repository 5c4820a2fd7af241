//! The schema manager: brings the store to the latest schema, tolerating
//! repeated runs and stores that predate the newer columns.
//!
//! Creating a table that exists is a no-op; adding a column that exists is
//! a no-op; a column that is added is back-filled — `created_at` with the
//! current instant, `last_edited` from `created_at`, `first_finished_at`
//! from `finished_at` — and the default catalog rows are inserted only where
//! no row of that name exists.

use vstd::prelude::*;
use crate::store::{Store, StoreV, SchemaState};
use crate::error::StoreError;
use crate::types::{BudgetRecord, BudgetV, GlobalCategory, GlobalCategoryV, clone_opt_string};
use vstd::string::StringExecFns;

verus! {

/// One budget row as the base migration leaves it: each column that was
/// missing is back-filled.
pub open spec fn migrate_budget_row(b: BudgetV, sch: SchemaState, now: int) -> BudgetV {
    let b1 = if !sch.col_created_at {
        BudgetV { created_at: now, ..b }
    } else {
        b
    };
    let b2 = if !sch.col_finished_at {
        BudgetV { finished_at: None, ..b1 }
    } else {
        b1
    };
    let b3 = if !sch.col_name {
        BudgetV { name: None, ..b2 }
    } else {
        b2
    };
    let b4 = if !sch.col_last_edited {
        BudgetV { last_edited: b3.created_at, ..b3 }
    } else {
        b3
    };
    if !sch.col_first_finished_at {
        BudgetV { first_finished_at: b4.finished_at, ..b4 }
    } else {
        b4
    }
}

/// The base-migration row patch as a function.
pub open spec fn migrate_row_fn(sch: SchemaState, now: int) -> spec_fn(BudgetV) -> BudgetV {
    |b: BudgetV| migrate_budget_row(b, sch, now)
}

/// The schema after the base migration: core tables and the late budget
/// columns all present.
pub open spec fn base_schema(sch: SchemaState) -> SchemaState {
    SchemaState {
        monthly_budgets_table: true,
        budget_categories_table: true,
        expenses_table: true,
        change_history_table: true,
        col_created_at: true,
        col_finished_at: true,
        col_name: true,
        col_last_edited: true,
        col_first_finished_at: true,
        ..sch
    }
}

/// The store after the base migration.
pub open spec fn migrations_tr(s: StoreV, now: int) -> StoreV {
    StoreV {
        schema: base_schema(s.schema),
        budgets: s.budgets.map_values(migrate_row_fn(s.schema, now)),
        ..s
    }
}

/// The schema after the template migration: template tables and the late
/// reference columns all present.
pub open spec fn template_schema(sch: SchemaState) -> SchemaState {
    SchemaState {
        global_categories_table: true,
        budget_templates_table: true,
        template_categories_table: true,
        col_template_id: true,
        col_global_category_id: true,
        col_category_type: true,
        ..sch
    }
}

/// One insert-if-absent of a catalog row by its unique name.
pub open spec fn seed_one_tr(s: StoreV, name: Seq<char>, description: Seq<char>, now: int) -> StoreV {
    if s.has_global_name(name) {
        s
    } else {
        StoreV {
            global_categories: s.global_categories.push(
                GlobalCategoryV {
                    global_category_id: s.next_global_id,
                    name: name,
                    description: Some(description),
                    created_at: now,
                },
            ),
            next_global_id: s.next_global_id + 1,
            ..s
        }
    }
}

/// The ten default catalog rows, seeded in order by insert-if-absent.
pub open spec fn seed_defaults_tr(s: StoreV, now: int) -> StoreV {
    let q1 = seed_one_tr(s, "Food & Dining"@, "Groceries, restaurants, and food expenses"@, now);
    let q2 = seed_one_tr(q1, "Transportation"@, "Gas, public transport, car maintenance"@, now);
    let q3 = seed_one_tr(q2, "Housing"@, "Rent, mortgage, utilities, home maintenance"@, now);
    let q4 = seed_one_tr(q3, "Healthcare"@, "Medical expenses, insurance, medications"@, now);
    let q5 = seed_one_tr(q4, "Entertainment"@, "Movies, games, hobbies, subscriptions"@, now);
    let q6 = seed_one_tr(q5, "Shopping"@, "Clothing, personal items, general shopping"@, now);
    let q7 = seed_one_tr(q6, "Education"@, "Books, courses, training, school supplies"@, now);
    let q8 = seed_one_tr(q7, "Savings"@, "Emergency fund, retirement, investments"@, now);
    let q9 = seed_one_tr(q8, "Insurance"@, "Life, health, car, home insurance"@, now);
    seed_one_tr(q9, "Debt Payment"@, "Credit cards, loans, other debt payments"@, now)
}

/// The store after the template migration: the tables and columns ensured,
/// and the default catalog seeded.
pub open spec fn template_migration_tr(s: StoreV, now: int) -> StoreV {
    seed_defaults_tr(StoreV { schema: template_schema(s.schema), ..s }, now)
}

/// One seeding step keeps every name already present, adds its own, and
/// touches nothing but the catalog and its counter.
proof fn lemma_seed_one_facts(s: StoreV, name: Seq<char>, description: Seq<char>, now: int)
    ensures
        seed_one_tr(s, name, description, now).has_global_name(name),
        forall|n: Seq<char>|
            s.has_global_name(n) ==> #[trigger] seed_one_tr(
                s,
                name,
                description,
                now,
            ).has_global_name(n),
        seed_one_tr(s, name, description, now).schema == s.schema,
        seed_one_tr(s, name, description, now).budgets == s.budgets,
        seed_one_tr(s, name, description, now).next_budget_id == s.next_budget_id,
{
    let s2 = seed_one_tr(s, name, description, now);
    if !s.has_global_name(name) {
        assert(s2.global_categories[s.global_categories.len() as int].name == name);
    } else {
        let w = choose|w: int|
            0 <= w < s.global_categories.len() && s.global_categories[w].name == name;
        assert(s2.global_categories[w].name == name);
    }
    assert forall|n: Seq<char>| s.has_global_name(n) implies #[trigger] s2.has_global_name(n) by {
        let w = choose|w: int|
            0 <= w < s.global_categories.len() && s.global_categories[w].name == n;
        assert(s2.global_categories[w].name == n);
    }
}

/// The five example budgets a first launch seeds.
pub open spec fn example_budgets_v(s: StoreV, now: int) -> Seq<BudgetV> {
    Seq::new(
        5,
        |i: int|
            BudgetV {
                budget_id: s.next_budget_id + i,
                month: i + 1,
                year: 2024,
                total_income: if i == 0 {
                    500000int
                } else if i == 1 {
                    480000int
                } else if i == 2 {
                    520000int
                } else if i == 3 {
                    510000int
                } else {
                    490000int
                },
                created_at: now,
                finished_at: None,
                first_finished_at: None,
                name: Some(
                    if i == 0 {
                        "January 2024 Budget"@
                    } else if i == 1 {
                        "February 2024 Budget"@
                    } else if i == 2 {
                        "March 2024 Budget"@
                    } else if i == 3 {
                        "April 2024 Budget"@
                    } else {
                        "May 2024 Budget"@
                    },
                ),
                last_edited: now,
                template_id: None,
            },
    )
}

/// The store after the first-launch check: five example budgets when the
/// budget table is empty, untouched otherwise.
pub open spec fn seed_examples_tr(s: StoreV, now: int) -> StoreV {
    if s.budgets.len() == 0 {
        StoreV {
            budgets: s.budgets + example_budgets_v(s, now),
            next_budget_id: s.next_budget_id + 5,
            ..s
        }
    } else {
        s
    }
}

/// After the default seeding, every default name is in the catalog, and
/// only the catalog and its counter changed.
#[verifier::rlimit(50)]
proof fn lemma_seed_defaults_facts(s: StoreV, now: int)
    ensures
        ({
            let s2 = seed_defaults_tr(s, now);
            &&& s2.has_global_name("Food & Dining"@)
            &&& s2.has_global_name("Transportation"@)
            &&& s2.has_global_name("Housing"@)
            &&& s2.has_global_name("Healthcare"@)
            &&& s2.has_global_name("Entertainment"@)
            &&& s2.has_global_name("Shopping"@)
            &&& s2.has_global_name("Education"@)
            &&& s2.has_global_name("Savings"@)
            &&& s2.has_global_name("Insurance"@)
            &&& s2.has_global_name("Debt Payment"@)
            &&& s2.schema == s.schema
            &&& s2.budgets == s.budgets
            &&& s2.next_budget_id == s.next_budget_id
        }),
{
    let q1 = seed_one_tr(s, "Food & Dining"@, "Groceries, restaurants, and food expenses"@, now);
    let q2 = seed_one_tr(q1, "Transportation"@, "Gas, public transport, car maintenance"@, now);
    let q3 = seed_one_tr(q2, "Housing"@, "Rent, mortgage, utilities, home maintenance"@, now);
    let q4 = seed_one_tr(q3, "Healthcare"@, "Medical expenses, insurance, medications"@, now);
    let q5 = seed_one_tr(q4, "Entertainment"@, "Movies, games, hobbies, subscriptions"@, now);
    let q6 = seed_one_tr(q5, "Shopping"@, "Clothing, personal items, general shopping"@, now);
    let q7 = seed_one_tr(q6, "Education"@, "Books, courses, training, school supplies"@, now);
    let q8 = seed_one_tr(q7, "Savings"@, "Emergency fund, retirement, investments"@, now);
    let q9 = seed_one_tr(q8, "Insurance"@, "Life, health, car, home insurance"@, now);
    lemma_seed_one_facts(s, "Food & Dining"@, "Groceries, restaurants, and food expenses"@, now);
    lemma_seed_one_facts(q1, "Transportation"@, "Gas, public transport, car maintenance"@, now);
    lemma_seed_one_facts(q2, "Housing"@, "Rent, mortgage, utilities, home maintenance"@, now);
    lemma_seed_one_facts(q3, "Healthcare"@, "Medical expenses, insurance, medications"@, now);
    lemma_seed_one_facts(q4, "Entertainment"@, "Movies, games, hobbies, subscriptions"@, now);
    lemma_seed_one_facts(q5, "Shopping"@, "Clothing, personal items, general shopping"@, now);
    lemma_seed_one_facts(q6, "Education"@, "Books, courses, training, school supplies"@, now);
    lemma_seed_one_facts(q7, "Savings"@, "Emergency fund, retirement, investments"@, now);
    lemma_seed_one_facts(q8, "Insurance"@, "Life, health, car, home insurance"@, now);
    lemma_seed_one_facts(q9, "Debt Payment"@, "Credit cards, loans, other debt payments"@, now);
}

/// Law: the base migration is idempotent. A second run, at any later
/// instant, neither alters the schema again nor back-fills any row a second
/// time.
pub proof fn lemma_migrations_idempotent(s: StoreV, t1: int, t2: int)
    ensures
        migrations_tr(migrations_tr(s, t1), t2) == migrations_tr(s, t1),
{
    let s1 = migrations_tr(s, t1);
    let s2 = migrations_tr(s1, t2);
    assert(s2.schema == s1.schema);
    assert forall|i: int|
        0 <= i < s1.budgets.len() implies #[trigger] s2.budgets[i] == s1.budgets[i] by {
        assert(s2.budgets[i] == migrate_budget_row(s1.budgets[i], s1.schema, t2));
    }
    assert(s2.budgets =~= s1.budgets);
    assert(s2 =~= s1);
}

/// Law: the template migration is idempotent. A second run leaves the
/// schema as it is and seeds no duplicate catalog rows.
#[verifier::rlimit(50)]
pub proof fn lemma_template_migration_idempotent(s: StoreV, t1: int, t2: int)
    ensures
        template_migration_tr(template_migration_tr(s, t1), t2) == template_migration_tr(s, t1),
{
    let s0 = StoreV { schema: template_schema(s.schema), ..s };
    let s1 = template_migration_tr(s, t1);
    lemma_seed_defaults_facts(s0, t1);
    assert(s1.schema == template_schema(s.schema));
    let s1b = StoreV { schema: template_schema(s1.schema), ..s1 };
    assert(s1b =~= s1);
    assert(seed_defaults_tr(s1, t2) == s1);
    assert(template_migration_tr(s1, t2) == s1);
}

/// Law: the first-launch seeding is idempotent: it fills an empty budget
/// table once and never touches a store that already holds budgets.
pub proof fn lemma_seed_examples_idempotent(s: StoreV, t1: int, t2: int)
    ensures
        seed_examples_tr(seed_examples_tr(s, t1), t2) == seed_examples_tr(s, t1),
{
    let s1 = seed_examples_tr(s, t1);
    if s.budgets.len() == 0 {
        assert(s1.budgets.len() == 5);
    }
}

impl Store {
    /// Ensures the core tables and the late budget columns, back-filling
    /// the rows that predate them. Safe to run on every start: a second run
    /// changes nothing.
    pub fn run_migrations(&mut self, now: i64) -> (r: Result<(), StoreError>)
        requires
            old(self)@.wf(),
        ensures
            r is Ok,
            final(self)@.wf(),
            final(self)@ == migrations_tr(old(self)@, now as int),
            final(self)@.schema == base_schema(old(self)@.schema),
    {
        let ghost s = old(self)@;
        let ghost pf = migrate_row_fn(s.schema, now as int);
        let sch = self.schema;
        let mut i: usize = 0;
        while i < self.budgets.len()
            invariant
                sch == s.schema,
                pf == migrate_row_fn(s.schema, now as int),
                i <= self.budgets@.len(),
                self@.budgets.len() == s.budgets.len(),
                self@ == (StoreV {
                    budgets: self@.budgets,
                    ..s
                }),
                forall|j: int| 0 <= j < i ==> #[trigger] self@.budgets[j] == pf(s.budgets[j]),
                forall|j: int|
                    i <= j < s.budgets.len() ==> #[trigger] self@.budgets[j] == s.budgets[j],
            decreases self.budgets@.len() - i,
        {
            let ghost bv = s.budgets[i as int];
            let b = &self.budgets[i];
            let created_at: i64 = if !sch.col_created_at {
                now
            } else {
                b.created_at
            };
            let finished_at: Option<i64> = if !sch.col_finished_at {
                None
            } else {
                b.finished_at
            };
            let name: Option<String> = if !sch.col_name {
                None
            } else {
                clone_opt_string(&b.name)
            };
            let last_edited: i64 = if !sch.col_last_edited {
                created_at
            } else {
                b.last_edited
            };
            let first_finished_at: Option<i64> = if !sch.col_first_finished_at {
                finished_at
            } else {
                b.first_finished_at
            };
            let rec = BudgetRecord {
                budget_id: b.budget_id,
                month: b.month,
                year: b.year,
                total_income: b.total_income,
                created_at: created_at,
                finished_at: finished_at,
                first_finished_at: first_finished_at,
                name: name,
                last_edited: last_edited,
                template_id: b.template_id,
            };
            proof {
                assert(self@.budgets[i as int] == s.budgets[i as int]);
                assert(self@.budgets[i as int] == self.budgets@[i as int]@);
                assert(bv == self.budgets@[i as int]@);
            }
            let ghost before = self@.budgets;
            self.budgets[i] = rec;
            proof {
                assert forall|j: int|
                    0 <= j < self@.budgets.len() implies #[trigger] self@.budgets[j] == (if j
                    == i as int {
                    rec@
                } else {
                    before[j]
                }) by {
                    assert(self@.budgets[j] == self.budgets@[j]@);
                }
                assert(rec@ == migrate_budget_row(bv, sch, now as int));
                assert(rec@ == pf(s.budgets[i as int]));
            }
            i += 1;
        }
        self.schema = SchemaState {
            monthly_budgets_table: true,
            budget_categories_table: true,
            expenses_table: true,
            change_history_table: true,
            col_created_at: true,
            col_finished_at: true,
            col_name: true,
            col_last_edited: true,
            col_first_finished_at: true,
            ..self.schema
        };
        proof {
            let s2 = migrations_tr(s, now as int);
            assert(self@.budgets =~= s2.budgets);
            assert(self@ =~= s2);
            assert(forall|j: int|
                0 <= j < s2.budgets.len() ==> (#[trigger] s2.budgets[j]).budget_id
                    == s.budgets[j].budget_id && s2.budgets[j].month == s.budgets[j].month
                    && s2.budgets[j].year == s.budgets[j].year);
            assert forall|i2: int|
                0 <= i2 < s2.categories.len() implies s2.has_budget(
                #[trigger] s2.categories[i2].budget_id,
            ) by {
                assert(s.has_budget(s.categories[i2].budget_id));
                let w = choose|w: int|
                    0 <= w < s.budgets.len() && s.budgets[w].budget_id
                        == s.categories[i2].budget_id;
                assert(s2.budgets[w].budget_id == s2.categories[i2].budget_id);
            }
            assert forall|i2: int|
                0 <= i2 < s2.history.len() implies s2.has_budget(
                #[trigger] s2.history[i2].budget_id,
            ) by {
                assert(s.has_budget(s.history[i2].budget_id));
                let w = choose|w: int|
                    0 <= w < s.budgets.len() && s.budgets[w].budget_id == s.history[i2].budget_id;
                assert(s2.budgets[w].budget_id == s2.history[i2].budget_id);
            }
            assert(s2.wf());
        }
        Ok(())
    }

    /// Inserts one default catalog row unless its name is already present.
    fn seed_global(&mut self, name: &str, description: &str, now: i64)
        requires
            old(self)@.wf(),
            old(self)@.schema.global_categories_table,
            old(self)@.next_global_id < 0x7fff_ffff_ffff_ffff,
        ensures
            final(self)@.wf(),
            final(self)@ == seed_one_tr(old(self)@, name@, description@, now as int),
    {
        let ghost s = old(self)@;
        if self.find_global_by_name(name).is_some() {
            return;
        }
        let rec = GlobalCategory {
            global_category_id: self.next_global_id,
            name: crate::types::clone_string_from(name),
            description: Some(crate::types::clone_string_from(description)),
            created_at: now,
        };
        self.global_categories.push(rec);
        self.next_global_id = self.next_global_id + 1;
        proof {
            let s2 = seed_one_tr(s, name@, description@, now as int);
            assert(self@.global_categories =~= s2.global_categories);
            assert(self@ =~= s2);
            assert forall|i: int|
                0 <= i < s2.global_categories.len() implies 1 <= (
            #[trigger] s2.global_categories[i]).global_category_id < s2.next_global_id by {
                if i < s.global_categories.len() {
                    assert(s2.global_categories[i] == s.global_categories[i]);
                }
            }
            assert forall|i: int, j: int|
                0 <= i < j < s2.global_categories.len() implies (
            #[trigger] s2.global_categories[i]).global_category_id != (
            #[trigger] s2.global_categories[j]).global_category_id by {
                assert(s2.global_categories[i] == s.global_categories[i]);
                if j < s.global_categories.len() {
                    assert(s2.global_categories[j] == s.global_categories[j]);
                } else {
                    assert(s.global_categories[i].global_category_id < s.next_global_id);
                }
            }
            assert forall|i: int, j: int|
                0 <= i < j < s2.global_categories.len() implies (
            #[trigger] s2.global_categories[i]).name != (#[trigger] s2.global_categories[j]).name by {
                assert(s2.global_categories[i] == s.global_categories[i]);
                if j < s.global_categories.len() {
                    assert(s2.global_categories[j] == s.global_categories[j]);
                }
            }
            assert forall|i: int|
                0 <= i < s2.template_items.len() implies s2.has_global(
                #[trigger] s2.template_items[i].global_category_id,
            ) by {
                assert(s.has_global(s.template_items[i].global_category_id));
                let w = choose|w: int|
                    0 <= w < s.global_categories.len()
                        && s.global_categories[w].global_category_id
                        == s.template_items[i].global_category_id;
                assert(s2.global_categories[w].global_category_id
                    == s2.template_items[i].global_category_id);
            }
            assert(s2.wf());
        }
    }

    /// Ensures the template tables and the late reference columns, and
    /// seeds the ten default global categories by insert-if-absent. Safe to
    /// run repeatedly: a second run changes nothing.
    #[verifier::rlimit(100)]
    pub fn run_migration(&mut self, now: i64) -> (r: Result<(), StoreError>)
        requires
            old(self)@.wf(),
            old(self)@.next_global_id + 10 <= 0x7fff_ffff_ffff_ffff,
        ensures
            r is Ok,
            final(self)@.wf(),
            final(self)@ == template_migration_tr(old(self)@, now as int),
    {
        let ghost s = old(self)@;
        self.schema = SchemaState {
            global_categories_table: true,
            budget_templates_table: true,
            template_categories_table: true,
            col_template_id: true,
            col_global_category_id: true,
            col_category_type: true,
            ..self.schema
        };
        let ghost s0 = StoreV { schema: template_schema(s.schema), ..s };
        proof {
            assert(self@ =~= s0);
            assert(s0.wf());
        }
        let ghost q1 = seed_one_tr(
            s0,
            "Food & Dining"@,
            "Groceries, restaurants, and food expenses"@,
            now as int,
        );
        let ghost q2 = seed_one_tr(
            q1,
            "Transportation"@,
            "Gas, public transport, car maintenance"@,
            now as int,
        );
        let ghost q3 = seed_one_tr(
            q2,
            "Housing"@,
            "Rent, mortgage, utilities, home maintenance"@,
            now as int,
        );
        let ghost q4 = seed_one_tr(
            q3,
            "Healthcare"@,
            "Medical expenses, insurance, medications"@,
            now as int,
        );
        let ghost q5 = seed_one_tr(
            q4,
            "Entertainment"@,
            "Movies, games, hobbies, subscriptions"@,
            now as int,
        );
        let ghost q6 = seed_one_tr(
            q5,
            "Shopping"@,
            "Clothing, personal items, general shopping"@,
            now as int,
        );
        let ghost q7 = seed_one_tr(
            q6,
            "Education"@,
            "Books, courses, training, school supplies"@,
            now as int,
        );
        let ghost q8 = seed_one_tr(
            q7,
            "Savings"@,
            "Emergency fund, retirement, investments"@,
            now as int,
        );
        let ghost q9 = seed_one_tr(
            q8,
            "Insurance"@,
            "Life, health, car, home insurance"@,
            now as int,
        );
        self.seed_global("Food & Dining", "Groceries, restaurants, and food expenses", now);
        proof {
            assert(self@ == q1);
        }
        self.seed_global("Transportation", "Gas, public transport, car maintenance", now);
        proof {
            assert(self@ == q2);
        }
        self.seed_global("Housing", "Rent, mortgage, utilities, home maintenance", now);
        proof {
            assert(self@ == q3);
        }
        self.seed_global("Healthcare", "Medical expenses, insurance, medications", now);
        proof {
            assert(self@ == q4);
        }
        self.seed_global("Entertainment", "Movies, games, hobbies, subscriptions", now);
        proof {
            assert(self@ == q5);
        }
        self.seed_global("Shopping", "Clothing, personal items, general shopping", now);
        proof {
            assert(self@ == q6);
        }
        self.seed_global("Education", "Books, courses, training, school supplies", now);
        proof {
            assert(self@ == q7);
        }
        self.seed_global("Savings", "Emergency fund, retirement, investments", now);
        proof {
            assert(self@ == q8);
        }
        self.seed_global("Insurance", "Life, health, car, home insurance", now);
        proof {
            assert(self@ == q9);
        }
        self.seed_global("Debt Payment", "Credit cards, loans, other debt payments", now);
        proof {
            assert(self@ == seed_one_tr(
                q9,
                "Debt Payment"@,
                "Credit cards, loans, other debt payments"@,
                now as int,
            ));
            assert(self@ == seed_defaults_tr(s0, now as int));
            assert(self@ == template_migration_tr(s, now as int));
        }
        Ok(())
    }

    /// On a first launch — an empty budget table — creates five example
    /// budgets; on any later launch, changes nothing.
    pub fn seed_initial_examples(&mut self, now: i64) -> (r: Result<(), StoreError>)
        requires
            old(self)@.wf(),
            old(self)@.ready(),
            old(self)@.next_budget_id + 5 <= 0x7fff_ffff_ffff_ffff,
        ensures
            r is Ok,
            final(self)@.wf(),
            final(self)@ == seed_examples_tr(old(self)@, now as int),
    {
        let ghost s = old(self)@;
        if self.budgets.len() > 0 {
            return Ok(());
        }
        let names: [&'static str; 5] = [
            "January 2024 Budget",
            "February 2024 Budget",
            "March 2024 Budget",
            "April 2024 Budget",
            "May 2024 Budget",
        ];
        let incomes: [i64; 5] = [500000, 480000, 520000, 510000, 490000];
        let mut i: usize = 0;
        let ghost fresh = example_budgets_v(s, now as int);
        proof {
            assert(self@.budgets =~= s.budgets + fresh.take(0));
        }
        while i < 5
            invariant
                i <= 5,
                s.budgets.len() == 0,
                fresh == example_budgets_v(s, now as int),
                names@.len() == 5,
                incomes@.len() == 5,
                names@[0]@ == "January 2024 Budget"@,
                names@[1]@ == "February 2024 Budget"@,
                names@[2]@ == "March 2024 Budget"@,
                names@[3]@ == "April 2024 Budget"@,
                names@[4]@ == "May 2024 Budget"@,
                incomes@ =~= seq![500000i64, 480000i64, 520000i64, 510000i64, 490000i64],
                self@ == (StoreV {
                    budgets: s.budgets + fresh.take(i as int),
                    next_budget_id: s.next_budget_id + i,
                    ..s
                }),
                s.next_budget_id + 5 <= 0x7fff_ffff_ffff_ffff,
            decreases 5 - i,
        {
            let rec = BudgetRecord {
                budget_id: self.next_budget_id,
                month: (i + 1) as u8,
                year: 2024,
                total_income: incomes[i],
                created_at: now,
                finished_at: None,
                first_finished_at: None,
                name: Some(crate::types::clone_string_from(names[i])),
                last_edited: now,
                template_id: None,
            };
            let ghost before = self@.budgets;
            self.budgets.push(rec);
            self.next_budget_id = self.next_budget_id + 1;
            proof {
                assert(rec@ == fresh[i as int]);
                assert(fresh.take(i as int + 1) =~= fresh.take(i as int).push(fresh[i as int]));
                assert(self@.budgets =~= before.push(rec@));
                assert(self@ =~= (StoreV {
                    budgets: s.budgets + fresh.take(i as int + 1),
                    next_budget_id: s.next_budget_id + i + 1,
                    ..s
                }));
            }
            i += 1;
        }
        proof {
            assert(fresh.take(5) =~= fresh);
            let s2 = seed_examples_tr(s, now as int);
            assert(self@ =~= s2);
            assert(s2.budgets =~= fresh);
            assert forall|a: int, b: int|
                0 <= a < b < s2.budgets.len() implies (#[trigger] s2.budgets[a]).budget_id != (
            #[trigger] s2.budgets[b]).budget_id && !(s2.budgets[a].month == s2.budgets[b].month
                && s2.budgets[a].year == s2.budgets[b].year) by {
                assert(s2.budgets[a] == fresh[a]);
                assert(s2.budgets[b] == fresh[b]);
            }
            assert(s2.wf());
        }
        Ok(())
    }

    /// Brings a store up on start: runs both schema migrations and the
    /// first-launch seeding, in that order.
    #[verifier::rlimit(100)]
    pub fn init_database(&mut self, now: i64) -> (r: Result<(), StoreError>)
        requires
            old(self)@.wf(),
            old(self)@.next_global_id + 10 <= 0x7fff_ffff_ffff_ffff,
            old(self)@.next_budget_id + 5 <= 0x7fff_ffff_ffff_ffff,
        ensures
            r is Ok,
            final(self)@.wf(),
            final(self)@ == seed_examples_tr(
                template_migration_tr(migrations_tr(old(self)@, now as int), now as int),
                now as int,
            ),
    {
        let ghost s = old(self)@;
        let r1 = self.run_migrations(now);
        proof {
            lemma_migrations_frame(s, now as int);
            assert(self@ == migrations_tr(s, now as int));
        }
        let ghost s1 = self@;
        let r2 = self.run_migration(now);
        proof {
            assert(self@ == template_migration_tr(s1, now as int));
            assert(self@ == template_migration_tr(migrations_tr(s, now as int), now as int));
        }
        proof {
            lemma_seed_defaults_facts(
                StoreV { schema: template_schema(s1.schema), ..s1 },
                now as int,
            );
            assert(self@.next_budget_id == s.next_budget_id);
            assert(self@.budgets.len() == s.budgets.len());
            assert(self@.schema == template_schema(base_schema(s.schema)));
            assert(self@.ready());
        }
        let r3 = self.seed_initial_examples(now);
        Ok(())
    }
}

/// The base migration leaves every id counter alone.
proof fn lemma_migrations_frame(s: StoreV, now: int)
    ensures
        migrations_tr(s, now).next_global_id == s.next_global_id,
        migrations_tr(s, now).next_budget_id == s.next_budget_id,
        migrations_tr(s, now).budgets.len() == s.budgets.len(),
{
}

} // verus!
