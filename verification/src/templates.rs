//! Budget templates: reusable sets of (global category, amount, kind)
//! tuples, and the operation that stamps a template onto a budget,
//! replacing the budget's categories wholesale.

use vstd::prelude::*;
use vstd::relations::sorted_by;
use crate::store::{
    Store, StoreV, lemma_filter_members, lemma_filter_distinct_by, lemma_filter_push,
};
use crate::error::{EntityKind, StoreError};
use crate::types::{
    TemplateRecord, TemplateV, TemplateItemRecord, TemplateItemV, CategoryRecord, CategoryV,
    CategoryType, BudgetV, view_opt_string, clone_opt_string,
};
use crate::order::{StoreOrder, sort_records, rec_views, order_le_fn};
use crate::budgets::{
    history_tr, patch_budgets, keep_category_fn, keep_entry_fn, lemma_patch_budgets_wf,
    retain_categories, retain_entries,
};
use vstd::string::StringExecFns;

verus! {

broadcast use {
    vstd::seq_lib::group_filter_ensures,
    vstd::seq_lib::group_to_multiset_ensures,
    vstd::multiset::group_multiset_axioms,
    vstd::multiset::group_multiset_properties,
};

/// A template as listed by the legacy listing.
pub struct BudgetTemplate {
    pub template_id: i64,
    pub name: String,
    pub created_at: i64,
}

#[verifier::ext_equal]
pub struct BudgetTemplateListV {
    pub template_id: int,
    pub name: Seq<char>,
    pub created_at: int,
}

impl View for BudgetTemplate {
    type V = BudgetTemplateListV;

    open spec fn view(&self) -> BudgetTemplateListV {
        BudgetTemplateListV {
            template_id: self.template_id as int,
            name: self.name@,
            created_at: self.created_at as int,
        }
    }
}

impl StoreOrder for BudgetTemplate {
    /// Templates list newest first.
    open spec fn le(a: BudgetTemplateListV, b: BudgetTemplateListV) -> bool {
        b.created_at <= a.created_at
    }

    proof fn lemma_total(a: BudgetTemplateListV, b: BudgetTemplateListV) {
    }

    proof fn lemma_trans(a: BudgetTemplateListV, b: BudgetTemplateListV, c: BudgetTemplateListV) {
    }

    fn le_exec(&self, other: &Self) -> (r: bool) {
        other.created_at <= self.created_at
    }
}

/// A template with its item count and total allocation.
pub struct BudgetTemplateSimple {
    pub template_id: i64,
    pub name: String,
    pub description: Option<String>,
    pub created_at: i64,
    pub category_count: i64,
    pub total_amount: i128,
}

#[verifier::ext_equal]
pub struct BudgetTemplateSimpleV {
    pub template_id: int,
    pub name: Seq<char>,
    pub description: Option<Seq<char>>,
    pub created_at: int,
    pub category_count: int,
    pub total_amount: int,
}

impl View for BudgetTemplateSimple {
    type V = BudgetTemplateSimpleV;

    open spec fn view(&self) -> BudgetTemplateSimpleV {
        BudgetTemplateSimpleV {
            template_id: self.template_id as int,
            name: self.name@,
            description: view_opt_string(self.description),
            created_at: self.created_at as int,
            category_count: self.category_count as int,
            total_amount: self.total_amount as int,
        }
    }
}

impl StoreOrder for BudgetTemplateSimple {
    /// Template summaries list newest first.
    open spec fn le(a: BudgetTemplateSimpleV, b: BudgetTemplateSimpleV) -> bool {
        b.created_at <= a.created_at
    }

    proof fn lemma_total(a: BudgetTemplateSimpleV, b: BudgetTemplateSimpleV) {
    }

    proof fn lemma_trans(
        a: BudgetTemplateSimpleV,
        b: BudgetTemplateSimpleV,
        c: BudgetTemplateSimpleV,
    ) {
    }

    fn le_exec(&self, other: &Self) -> (r: bool) {
        other.created_at <= self.created_at
    }
}

impl StoreOrder for TemplateItemRecord {
    /// Template items apply in `sort_order`, id as the tiebreak.
    open spec fn le(a: TemplateItemV, b: TemplateItemV) -> bool {
        a.sort_order < b.sort_order || (a.sort_order == b.sort_order && a.template_category_id
            <= b.template_category_id)
    }

    proof fn lemma_total(a: TemplateItemV, b: TemplateItemV) {
    }

    proof fn lemma_trans(a: TemplateItemV, b: TemplateItemV, c: TemplateItemV) {
    }

    fn le_exec(&self, other: &Self) -> (r: bool) {
        self.sort_order < other.sort_order || (self.sort_order == other.sort_order
            && self.template_category_id <= other.template_category_id)
    }
}

/// A template item as handed out: joined with its global category's name.
pub struct TemplateCategoryItem {
    pub template_category_id: i64,
    pub global_category_id: i64,
    pub category_name: String,
    pub allocated_amount: i64,
    pub category_type: CategoryType,
    pub sort_order: i32,
}

#[verifier::ext_equal]
pub struct TemplateCategoryItemV {
    pub template_category_id: int,
    pub global_category_id: int,
    pub category_name: Seq<char>,
    pub allocated_amount: int,
    pub category_type: CategoryType,
    pub sort_order: int,
}

impl View for TemplateCategoryItem {
    type V = TemplateCategoryItemV;

    open spec fn view(&self) -> TemplateCategoryItemV {
        TemplateCategoryItemV {
            template_category_id: self.template_category_id as int,
            global_category_id: self.global_category_id as int,
            category_name: self.category_name@,
            allocated_amount: self.allocated_amount as int,
            category_type: self.category_type,
            sort_order: self.sort_order as int,
        }
    }
}

/// A template together with its items, in application order.
pub struct BudgetTemplateWithCategories {
    pub template_id: i64,
    pub name: String,
    pub description: Option<String>,
    pub created_at: i64,
    pub categories: Vec<TemplateCategoryItem>,
}

/// The payload of one template item.
pub struct CreateTemplateCategoryArgs {
    pub global_category_id: i64,
    pub allocated_amount: i64,
    pub category_type: CategoryType,
    pub sort_order: i32,
}

#[verifier::ext_equal]
pub struct CreateTemplateCategoryArgsV {
    pub global_category_id: int,
    pub allocated_amount: int,
    pub category_type: CategoryType,
    pub sort_order: int,
}

impl View for CreateTemplateCategoryArgs {
    type V = CreateTemplateCategoryArgsV;

    open spec fn view(&self) -> CreateTemplateCategoryArgsV {
        CreateTemplateCategoryArgsV {
            global_category_id: self.global_category_id as int,
            allocated_amount: self.allocated_amount as int,
            category_type: self.category_type,
            sort_order: self.sort_order as int,
        }
    }
}

/// The payload of a template creation or full replacement.
pub struct CreateBudgetTemplateArgs {
    pub name: String,
    pub description: Option<String>,
    pub categories: Vec<CreateTemplateCategoryArgs>,
}

#[verifier::ext_equal]
pub struct CreateBudgetTemplateArgsV {
    pub name: Seq<char>,
    pub description: Option<Seq<char>>,
    pub categories: Seq<CreateTemplateCategoryArgsV>,
}

/// The views of a sequence of item payloads.
pub open spec fn item_arg_views(v: Seq<CreateTemplateCategoryArgs>) -> Seq<
    CreateTemplateCategoryArgsV,
> {
    v.map_values(|a: CreateTemplateCategoryArgs| a@)
}

impl View for CreateBudgetTemplateArgs {
    type V = CreateBudgetTemplateArgsV;

    open spec fn view(&self) -> CreateBudgetTemplateArgsV {
        CreateBudgetTemplateArgsV {
            name: self.name@,
            description: view_opt_string(self.description),
            categories: item_arg_views(self.categories@),
        }
    }
}

/// Keeps the items of one template.
pub open spec fn item_of_template_fn(template_id: int) -> spec_fn(TemplateItemV) -> bool {
    |it: TemplateItemV| it.template_id == template_id
}

/// Keeps the items of every other template.
pub open spec fn keep_item_template_fn(template_id: int) -> spec_fn(TemplateItemV) -> bool {
    |it: TemplateItemV| it.template_id != template_id
}

/// The number of items a template holds.
pub open spec fn item_count_of(items: Seq<TemplateItemV>, template_id: int) -> int
    decreases items.len(),
{
    if items.len() == 0 {
        0
    } else {
        item_count_of(items.drop_last(), template_id) + if items.last().template_id
            == template_id {
            1int
        } else {
            0int
        }
    }
}

/// The sum of a template's allocated amounts.
pub open spec fn item_total_of(items: Seq<TemplateItemV>, template_id: int) -> int
    decreases items.len(),
{
    if items.len() == 0 {
        0
    } else {
        item_total_of(items.drop_last(), template_id) + if items.last().template_id
            == template_id {
            items.last().allocated_amount
        } else {
            0int
        }
    }
}

/// The summary row a template resolves to.
pub open spec fn simple_of(s: StoreV, t: TemplateV) -> BudgetTemplateSimpleV {
    BudgetTemplateSimpleV {
        template_id: t.template_id,
        name: t.name,
        description: t.description,
        created_at: t.created_at,
        category_count: item_count_of(s.template_items, t.template_id),
        total_amount: item_total_of(s.template_items, t.template_id),
    }
}

/// The summary map as a function of the store state.
pub open spec fn simple_fn(s: StoreV) -> spec_fn(TemplateV) -> BudgetTemplateSimpleV {
    |t: TemplateV| simple_of(s, t)
}

/// The legacy listing row of a template.
pub open spec fn list_row_of(t: TemplateV) -> BudgetTemplateListV {
    BudgetTemplateListV { template_id: t.template_id, name: t.name, created_at: t.created_at }
}

/// The legacy listing map as a function.
pub open spec fn list_row_fn() -> spec_fn(TemplateV) -> BudgetTemplateListV {
    |t: TemplateV| list_row_of(t)
}

/// The stored row a bare template creation stores.
pub open spec fn new_template_v(s: StoreV, name: Seq<char>, description: Option<Seq<char>>, now: int) -> TemplateV {
    TemplateV {
        template_id: s.next_template_id,
        name: name,
        description: description,
        created_at: now,
    }
}

/// The store after a bare template is created.
pub open spec fn create_template_tr(s: StoreV, name: Seq<char>, description: Option<Seq<char>>, now: int) -> StoreV {
    StoreV {
        templates: s.templates.push(new_template_v(s, name, description, now)),
        next_template_id: s.next_template_id + 1,
        ..s
    }
}

/// The item rows a batch of item payloads stores, owned by one template and
/// numbered from the item counter.
pub open spec fn new_items_v(
    cs: Seq<CreateTemplateCategoryArgsV>,
    template_id: int,
    first_item_id: int,
) -> Seq<TemplateItemV> {
    Seq::new(
        cs.len(),
        |i: int|
            TemplateItemV {
                template_category_id: first_item_id + i,
                template_id: template_id,
                global_category_id: cs[i].global_category_id,
                allocated_amount: cs[i].allocated_amount,
                category_type: cs[i].category_type,
                sort_order: cs[i].sort_order,
            },
    )
}

/// The store after a template and its items are created.
pub open spec fn create_budget_template_tr(s: StoreV, a: CreateBudgetTemplateArgsV, now: int) -> StoreV {
    StoreV {
        templates: s.templates.push(new_template_v(s, a.name, a.description, now)),
        template_items: s.template_items + new_items_v(
            a.categories,
            s.next_template_id,
            s.next_item_id,
        ),
        next_template_id: s.next_template_id + 1,
        next_item_id: s.next_item_id + a.categories.len(),
        ..s
    }
}

/// The template patch of a full replacement.
pub open spec fn update_template_patch_fn(a: CreateBudgetTemplateArgsV) -> spec_fn(
    TemplateV,
) -> TemplateV {
    |t: TemplateV| TemplateV { name: a.name, description: a.description, ..t }
}

/// One template row rewritten by `f`, every other row untouched.
pub open spec fn patch_templates(
    ts: Seq<TemplateV>,
    id: int,
    f: spec_fn(TemplateV) -> TemplateV,
) -> Seq<TemplateV> {
    ts.map_values(|t: TemplateV| if t.template_id == id { f(t) } else { t })
}

/// The store after a template is fully replaced: name and description
/// rewritten, old items dropped, new items appended.
pub open spec fn update_budget_template_tr(
    s: StoreV,
    template_id: int,
    a: CreateBudgetTemplateArgsV,
) -> StoreV {
    StoreV {
        templates: patch_templates(s.templates, template_id, update_template_patch_fn(a)),
        template_items: s.template_items.filter(keep_item_template_fn(template_id)) + new_items_v(
            a.categories,
            template_id,
            s.next_item_id,
        ),
        next_item_id: s.next_item_id + a.categories.len(),
        ..s
    }
}

/// The store after a template is deleted: its items go with it; budgets
/// that referred to it keep their stale reference, as the store always has.
pub open spec fn delete_template_tr(s: StoreV, template_id: int) -> StoreV {
    StoreV {
        templates: s.templates.remove(s.template_index(template_id)),
        template_items: s.template_items.filter(keep_item_template_fn(template_id)),
        ..s
    }
}

/// Drops in place every item of the given template.
fn retain_items_not_of_template(v: &mut Vec<TemplateItemRecord>, template_id: i64)
    ensures
        crate::store::item_views(final(v)@) == crate::store::item_views(old(v)@).filter(
            keep_item_template_fn(template_id as int),
        ),
{
    let ghost orig = crate::store::item_views(old(v)@);
    let ghost pred = keep_item_template_fn(template_id as int);
    let mut i: usize = 0;
    let ghost mut k: int = 0;
    loop
        invariant
            0 <= k <= orig.len(),
            i as int == orig.take(k).filter(pred).len(),
            crate::store::item_views(v@) == orig.take(k).filter(pred) + orig.skip(k),
            v@.len() == i + (orig.len() - k),
            orig == crate::store::item_views(old(v)@),
            pred == keep_item_template_fn(template_id as int),
        decreases v@.len() - i,
    {
        if i >= v.len() {
            proof {
                assert(orig.take(k) =~= orig);
                assert(crate::store::item_views(v@) =~= orig.filter(pred));
            }
            return;
        }
        let ghost cur = orig[k];
        proof {
            assert(crate::store::item_views(v@)[i as int] == orig.skip(k)[0]);
            assert(cur == v@[i as int]@);
        }
        if v[i].template_id != template_id {
            proof {
                assert(pred(cur));
                lemma_filter_push(orig.take(k), pred, cur);
                assert(orig.take(k + 1) =~= orig.take(k).push(cur));
                assert(orig.skip(k).drop_first() =~= orig.skip(k + 1));
                assert(crate::store::item_views(v@) =~= orig.take(k + 1).filter(pred) + orig.skip(
                    k + 1,
                ));
                k = k + 1;
            }
            i += 1;
        } else {
            let ghost before = crate::store::item_views(v@);
            v.remove(i);
            proof {
                assert(!pred(cur));
                assert(crate::store::item_views(v@) =~= before.remove(i as int));
                lemma_filter_push(orig.take(k), pred, cur);
                assert(orig.take(k + 1) =~= orig.take(k).push(cur));
                assert(orig.skip(k).drop_first() =~= orig.skip(k + 1));
                assert(before.remove(i as int) =~= orig.take(k + 1).filter(pred) + orig.skip(
                    k + 1,
                ));
                k = k + 1;
            }
        }
    }
}

impl Store {
    /// Creates a bare template with just a name. Returns the fresh id.
    pub fn create_template(&mut self, name: String, now: i64) -> (r: Result<i64, StoreError>)
        requires
            old(self)@.wf(),
            old(self)@.ready(),
            old(self)@.next_template_id < 0x7fff_ffff_ffff_ffff,
        ensures
            final(self)@.wf(),
            r is Ok,
            r->Ok_0 as int == old(self)@.next_template_id,
            final(self)@ == create_template_tr(old(self)@, name@, None, now as int),
    {
        let ghost s = old(self)@;
        let id = self.next_template_id;
        let rec = TemplateRecord {
            template_id: id,
            name: name,
            description: None,
            created_at: now,
        };
        self.templates.push(rec);
        self.next_template_id = self.next_template_id + 1;
        proof {
            let s2 = create_template_tr(s, rec.name@, None, now as int);
            assert(self@.templates =~= s2.templates);
            assert(self@ =~= s2);
            assert forall|i: int, j: int|
                0 <= i < j < s2.templates.len() implies (#[trigger] s2.templates[i]).template_id
                != (#[trigger] s2.templates[j]).template_id by {
                assert(s2.templates[i] == s.templates[i]);
                if j < s.templates.len() {
                    assert(s2.templates[j] == s.templates[j]);
                } else {
                    assert(s.templates[i].template_id < s.next_template_id);
                }
            }
            assert forall|i: int|
                0 <= i < s2.templates.len() implies 1 <= (#[trigger] s2.templates[i]).template_id
                < s2.next_template_id by {
                if i < s.templates.len() {
                    assert(s2.templates[i] == s.templates[i]);
                }
            }
            assert forall|i: int|
                0 <= i < s2.template_items.len() implies s2.has_template(
                #[trigger] s2.template_items[i].template_id,
            ) by {
                assert(s.has_template(s.template_items[i].template_id));
                let w = choose|w: int|
                    0 <= w < s.templates.len() && s.templates[w].template_id
                        == s.template_items[i].template_id;
                assert(s2.templates[w].template_id == s2.template_items[i].template_id);
            }
            assert(s2.wf());
        }
        Ok(id)
    }

    /// Every template, newest first.
    pub fn list_templates(&self) -> (r: Result<Vec<BudgetTemplate>, StoreError>)
        requires
            self@.wf(),
        ensures
            r is Ok,
            sorted_by(rec_views(r->Ok_0@), order_le_fn::<BudgetTemplate>()),
            rec_views(r->Ok_0@).to_multiset() == self@.templates.map_values(
                list_row_fn(),
            ).to_multiset(),
            r->Ok_0@.len() == self@.templates.len(),
    {
        let ghost rows = self@.templates.map_values(list_row_fn());
        let mut out: Vec<BudgetTemplate> = Vec::new();
        let mut i: usize = 0;
        while i < self.templates.len()
            invariant
                i <= self.templates@.len(),
                out@.len() == i,
                rows == self@.templates.map_values(list_row_fn()),
                forall|j: int| 0 <= j < i ==> #[trigger] rec_views(out@)[j] == rows[j],
            decreases self.templates@.len() - i,
        {
            let t = &self.templates[i];
            let row = BudgetTemplate {
                template_id: t.template_id,
                name: t.name.clone(),
                created_at: t.created_at,
            };
            let ghost before = out@;
            out.push(row);
            proof {
                assert(self@.templates[i as int] == self.templates@[i as int]@);
                assert(rows[i as int] == list_row_of(self@.templates[i as int]));
                assert forall|j: int| 0 <= j < i + 1 implies #[trigger] rec_views(out@)[j]
                    == rows[j] by {
                    assert(rec_views(out@)[j] == out@[j]@);
                    if j < i {
                        assert(out@[j] == before[j]);
                        assert(rec_views(before)[j] == before[j]@);
                    }
                }
            }
            i += 1;
        }
        proof {
            assert(rec_views(out@) =~= rows);
        }
        Ok(sort_records(out))
    }

    /// The item count and allocation total of one template.
    fn template_aggregates(&self, template_id: i64) -> (r: (i64, i128))
        requires
            self@.wf(),
        ensures
            r.0 as int == item_count_of(self@.template_items, template_id as int),
            r.1 as int == item_total_of(self@.template_items, template_id as int),
    {
        let ghost items = self@.template_items;
        let mut count: i64 = 0;
        let mut total: i128 = 0;
        let mut j: usize = 0;
        proof {
            assert(items.take(0) =~= Seq::<TemplateItemV>::empty());
        }
        while j < self.template_items.len()
            invariant
                self@.wf(),
                items == self@.template_items,
                j <= self.template_items@.len(),
                items.len() == self.template_items@.len(),
                count as int == item_count_of(items.take(j as int), template_id as int),
                total as int == item_total_of(items.take(j as int), template_id as int),
                0 <= count <= j,
                -((j as int) * 0x8000_0000_0000_0000) <= total as int,
                total as int <= (j as int) * 0x8000_0000_0000_0000,
            decreases self.template_items@.len() - j,
        {
            proof {
                assert(items.take(j as int + 1).drop_last() =~= items.take(j as int));
                assert(items.take(j as int + 1).last() == items[j as int]);
                assert(items[j as int] == self.template_items@[j as int]@);
                assert(self.template_items@.len() < self@.next_item_id);
            }
            let it = &self.template_items[j];
            if it.template_id == template_id {
                count = count + 1;
                total = total + it.allocated_amount as i128;
            }
            j += 1;
        }
        proof {
            assert(items.take(items.len() as int) =~= items);
        }
        (count, total)
    }

    /// Every template with its item count and allocation total, newest
    /// first.
    pub fn get_budget_templates(&self) -> (r: Result<Vec<BudgetTemplateSimple>, StoreError>)
        requires
            self@.wf(),
        ensures
            r is Ok,
            sorted_by(rec_views(r->Ok_0@), order_le_fn::<BudgetTemplateSimple>()),
            rec_views(r->Ok_0@).to_multiset() == self@.templates.map_values(
                simple_fn(self@),
            ).to_multiset(),
            r->Ok_0@.len() == self@.templates.len(),
    {
        let ghost rows = self@.templates.map_values(simple_fn(self@));
        let mut out: Vec<BudgetTemplateSimple> = Vec::new();
        let mut i: usize = 0;
        while i < self.templates.len()
            invariant
                self@.wf(),
                i <= self.templates@.len(),
                out@.len() == i,
                rows == self@.templates.map_values(simple_fn(self@)),
                forall|j: int| 0 <= j < i ==> #[trigger] rec_views(out@)[j] == rows[j],
            decreases self.templates@.len() - i,
        {
            let aggregates = self.template_aggregates(self.templates[i].template_id);
            let t = &self.templates[i];
            let row = BudgetTemplateSimple {
                template_id: t.template_id,
                name: t.name.clone(),
                description: clone_opt_string(&t.description),
                created_at: t.created_at,
                category_count: aggregates.0,
                total_amount: aggregates.1,
            };
            let ghost before = out@;
            out.push(row);
            proof {
                assert(self@.templates[i as int] == self.templates@[i as int]@);
                assert(rows[i as int] == simple_of(self@, self@.templates[i as int]));
                assert(row@ == rows[i as int]);
                assert forall|j: int| 0 <= j < i + 1 implies #[trigger] rec_views(out@)[j]
                    == rows[j] by {
                    assert(rec_views(out@)[j] == out@[j]@);
                    if j < i {
                        assert(out@[j] == before[j]);
                        assert(rec_views(before)[j] == before[j]@);
                    }
                }
            }
            i += 1;
        }
        proof {
            assert(rec_views(out@) =~= rows);
        }
        Ok(sort_records(out))
    }

    /// Deletes a template and its items. Fails exactly when the id does not
    /// exist. A budget that was stamped from the template keeps its stale
    /// reference, as the store always has.
    pub fn delete_budget_template(&mut self, template_id: i64) -> (r: Result<(), StoreError>)
        requires
            old(self)@.wf(),
            old(self)@.ready(),
        ensures
            final(self)@.wf(),
            match r {
                Ok(_) => old(self)@.has_template(template_id as int) && final(self)@
                    == delete_template_tr(old(self)@, template_id as int),
                Err(e) => e == StoreError::NotFound(EntityKind::Template, template_id) && !old(
                    self,
                )@.has_template(template_id as int) && *final(self) == *old(self),
            },
    {
        let ghost s = old(self)@;
        let ghost id = template_id as int;
        let tidx = match self.find_template(template_id) {
            None => {
                return Err(StoreError::NotFound(EntityKind::Template, template_id));
            },
            Some(i) => i,
        };
        retain_items_not_of_template(&mut self.template_items, template_id);
        self.templates.remove(tidx);
        proof {
            let s2 = delete_template_tr(s, id);
            assert(s.templates[s.template_index(id)].template_id == id);
            assert(s.template_index(id) == tidx as int);
            assert(self@.templates =~= s.templates.remove(tidx as int));
            assert(self@ =~= s2);
            assert forall|i: int, j: int|
                0 <= i < j < s2.templates.len() implies (#[trigger] s2.templates[i]).template_id
                != (#[trigger] s2.templates[j]).template_id by {
                let oi: int = if i < tidx { i } else { i + 1 };
                let oj: int = if j < tidx { j } else { j + 1 };
                assert(s2.templates[i] == s.templates[oi]);
                assert(s2.templates[j] == s.templates[oj]);
            }
            assert forall|i: int|
                0 <= i < s2.templates.len() implies 1 <= (#[trigger] s2.templates[i]).template_id
                < s2.next_template_id by {
                let oi: int = if i < tidx { i } else { i + 1 };
                assert(s2.templates[i] == s.templates[oi]);
            }
            lemma_filter_distinct_by(
                s.template_items,
                keep_item_template_fn(id),
                |it: TemplateItemV| it.template_category_id,
            );
            lemma_filter_members(s.template_items, keep_item_template_fn(id));
            assert forall|i: int|
                0 <= i < s2.template_items.len() implies 1 <= (
            #[trigger] s2.template_items[i]).template_category_id < s2.next_item_id by {
                let it = s2.template_items[i];
                assert(s.template_items.contains(it));
                let w = choose|w: int| 0 <= w < s.template_items.len() && s.template_items[w] == it;
                assert(1 <= s.template_items[w].template_category_id < s.next_item_id);
            }
            assert forall|i: int|
                0 <= i < s2.template_items.len() implies s2.has_template(
                #[trigger] s2.template_items[i].template_id,
            ) by {
                let it = s2.template_items[i];
                assert(keep_item_template_fn(id)(it));
                assert(it.template_id != id);
                assert(s.template_items.contains(it));
                let w = choose|w: int| 0 <= w < s.template_items.len() && s.template_items[w] == it;
                assert(s.has_template(it.template_id));
                let wt = choose|wt: int|
                    0 <= wt < s.templates.len() && s.templates[wt].template_id == it.template_id;
                assert(wt != tidx);
                let nt: int = if wt < tidx { wt } else { wt - 1 };
                assert(s2.templates[nt] == s.templates[wt]);
            }
            assert forall|i: int|
                0 <= i < s2.template_items.len() implies s2.has_global(
                #[trigger] s2.template_items[i].global_category_id,
            ) by {
                let it = s2.template_items[i];
                assert(s.template_items.contains(it));
                let w = choose|w: int| 0 <= w < s.template_items.len() && s.template_items[w] == it;
                assert(s.has_global(it.global_category_id));
                let wg = choose|wg: int|
                    0 <= wg < s.global_categories.len()
                        && s.global_categories[wg].global_category_id == it.global_category_id;
                assert(s2.global_categories[wg].global_category_id == it.global_category_id);
            }
            assert(s2.wf());
        }
        Ok(())
    }
}

/// A template item joined with its global category's name.
pub open spec fn item_out_of(s: StoreV, it: TemplateItemV) -> TemplateCategoryItemV {
    TemplateCategoryItemV {
        template_category_id: it.template_category_id,
        global_category_id: it.global_category_id,
        category_name: s.global_of(it.global_category_id).name,
        allocated_amount: it.allocated_amount,
        category_type: it.category_type,
        sort_order: it.sort_order,
    }
}

/// The join as a function of the store state.
pub open spec fn item_out_fn(s: StoreV) -> spec_fn(TemplateItemV) -> TemplateCategoryItemV {
    |it: TemplateItemV| item_out_of(s, it)
}

/// The budget patch an application performs: record the template and touch
/// `last_edited`.
pub open spec fn apply_patch_fn(template_id: int, now: int) -> spec_fn(BudgetV) -> BudgetV {
    |b: BudgetV| BudgetV { template_id: Some(template_id), last_edited: now, ..b }
}

/// The categories one application creates, one per item in the given order.
pub open spec fn applied_categories_v(
    s: StoreV,
    budget_id: int,
    ordered: Seq<TemplateItemV>,
    now: int,
) -> Seq<CategoryV> {
    Seq::new(
        ordered.len(),
        |i: int|
            CategoryV {
                category_id: s.next_category_id + i,
                budget_id: budget_id,
                category_name: s.global_of(ordered[i].global_category_id).name,
                allocated_amount: ordered[i].allocated_amount,
                created_at: now,
                global_category_id: Some(ordered[i].global_category_id),
                category_type: ordered[i].category_type,
            },
    )
}

/// The store after a template is stamped onto a budget, the template's
/// items taken in the given order: the budget's categories (and their
/// entries) are destroyed and replaced, the budget records the template,
/// and one `template_apply` audit record is appended.
pub open spec fn apply_template_tr(
    s: StoreV,
    budget_id: int,
    template_id: int,
    ordered: Seq<TemplateItemV>,
    now: int,
) -> StoreV {
    let sp = StoreV {
        budgets: patch_budgets(s.budgets, budget_id, apply_patch_fn(template_id, now)),
        categories: s.categories.filter(keep_category_fn(budget_id)) + applied_categories_v(
            s,
            budget_id,
            ordered,
            now,
        ),
        entries: s.entries.filter(keep_entry_fn(s.categories, budget_id)),
        next_category_id: s.next_category_id + ordered.len(),
        ..s
    };
    history_tr(
        sp,
        budget_id,
        "template_apply"@,
        Some("budget_templates"@),
        None,
        Some(s.template_of(template_id).name),
        "Applied template '"@ + s.template_of(template_id).name + "' to budget ("@
            + crate::text::int_str_of(ordered.len() as int) + " categories)"@,
        now,
    )
}

/// Law: stamping a template with M items onto a budget leaves the budget
/// with exactly M categories — however many it had before are gone — and
/// appends exactly one audit record, tagged `template_apply`, to that
/// budget's trail.
pub proof fn lemma_apply_template_replaces_categories(
    s: StoreV,
    budget_id: int,
    template_id: int,
    ordered: Seq<TemplateItemV>,
    now: int,
)
    requires
        ordered.to_multiset() == s.template_items.filter(
            item_of_template_fn(template_id),
        ).to_multiset(),
    ensures
        ({
            let s2 = apply_template_tr(s, budget_id, template_id, ordered, now);
            &&& s2.categories.filter(crate::ledger::cat_of_budget_fn(budget_id)).len()
                == s.template_items.filter(item_of_template_fn(template_id)).len()
            &&& s2.history.len() == s.history.len() + 1
            &&& s2.history.last().change_type == "template_apply"@
            &&& s2.history.last().budget_id == budget_id
        }),
{
    broadcast use {
        vstd::seq_lib::group_filter_ensures,
        vstd::seq_lib::group_to_multiset_ensures,
    };

    let s2 = apply_template_tr(s, budget_id, template_id, ordered, now);
    let kept = s.categories.filter(keep_category_fn(budget_id));
    let fresh = applied_categories_v(s, budget_id, ordered, now);
    let pred = crate::ledger::cat_of_budget_fn(budget_id);
    Seq::filter_distributes_over_add(kept, fresh, pred);
    assert(forall|i: int| 0 <= i < kept.len() ==> !pred(#[trigger] kept[i]));
    crate::store::lemma_filter_none(kept, pred);
    assert(forall|i: int| 0 <= i < fresh.len() ==> pred(#[trigger] fresh[i]));
    crate::store::lemma_filter_all(fresh, pred);
    assert(s2.categories.filter(pred) =~= fresh);
    assert(ordered.len() == ordered.to_multiset().len());
    assert(s.template_items.filter(item_of_template_fn(template_id)).len()
        == s.template_items.filter(item_of_template_fn(template_id)).to_multiset().len());
}

impl Store {
    /// The id of the first item payload whose global category is missing,
    /// if any.
    fn validate_item_globals(&self, categories: &Vec<CreateTemplateCategoryArgs>) -> (r: Option<
        i64,
    >)
        ensures
            match r {
                Some(g) => !self@.has_global(g as int) && exists|i: int|
                    0 <= i < categories@.len() && (#[trigger] categories@[i]).global_category_id
                        == g,
                None => forall|i: int|
                    0 <= i < categories@.len() ==> self@.has_global(
                        (#[trigger] categories@[i]).global_category_id as int,
                    ),
            },
    {
        let mut i: usize = 0;
        while i < categories.len()
            invariant
                i <= categories@.len(),
                forall|j: int|
                    0 <= j < i ==> self@.has_global(
                        (#[trigger] categories@[j]).global_category_id as int,
                    ),
            decreases categories@.len() - i,
        {
            if self.find_global(categories[i].global_category_id).is_none() {
                return Some(categories[i].global_category_id);
            }
            i += 1;
        }
        None
    }

    /// Pushes one bare template row.
    fn push_template(&mut self, name: String, description: Option<String>, now: i64) -> (r: i64)
        requires
            old(self)@.wf(),
            old(self)@.ready(),
            old(self)@.next_template_id < 0x7fff_ffff_ffff_ffff,
        ensures
            final(self)@.wf(),
            r as int == old(self)@.next_template_id,
            final(self)@ == create_template_tr(
                old(self)@,
                name@,
                view_opt_string(description),
                now as int,
            ),
    {
        let ghost s = old(self)@;
        let id = self.next_template_id;
        let rec = TemplateRecord {
            template_id: id,
            name: name,
            description: description,
            created_at: now,
        };
        self.templates.push(rec);
        self.next_template_id = self.next_template_id + 1;
        proof {
            let s2 = create_template_tr(s, rec.name@, view_opt_string(rec.description), now as int);
            assert(self@.templates =~= s2.templates);
            assert(self@ =~= s2);
            assert forall|i: int, j: int|
                0 <= i < j < s2.templates.len() implies (#[trigger] s2.templates[i]).template_id
                != (#[trigger] s2.templates[j]).template_id by {
                assert(s2.templates[i] == s.templates[i]);
                if j < s.templates.len() {
                    assert(s2.templates[j] == s.templates[j]);
                } else {
                    assert(s.templates[i].template_id < s.next_template_id);
                }
            }
            assert forall|i: int|
                0 <= i < s2.templates.len() implies 1 <= (#[trigger] s2.templates[i]).template_id
                < s2.next_template_id by {
                if i < s.templates.len() {
                    assert(s2.templates[i] == s.templates[i]);
                }
            }
            assert forall|i: int|
                0 <= i < s2.template_items.len() implies s2.has_template(
                #[trigger] s2.template_items[i].template_id,
            ) by {
                assert(s.has_template(s.template_items[i].template_id));
                let w = choose|w: int|
                    0 <= w < s.templates.len() && s.templates[w].template_id
                        == s.template_items[i].template_id;
                assert(s2.templates[w].template_id == s2.template_items[i].template_id);
            }
            assert(s2.wf());
        }
        id
    }

    /// Pushes one item row per payload, owned by the given template.
    fn push_template_items(
        &mut self,
        categories: &Vec<CreateTemplateCategoryArgs>,
        template_id: i64,
    )
        requires
            old(self)@.wf(),
            old(self)@.ready(),
            old(self)@.has_template(template_id as int),
            forall|i: int|
                0 <= i < categories@.len() ==> old(self)@.has_global(
                    (#[trigger] categories@[i]).global_category_id as int,
                ),
            old(self)@.next_item_id + categories@.len() <= 0x7fff_ffff_ffff_ffff,
        ensures
            final(self)@.wf(),
            final(self)@ == (StoreV {
                template_items: old(self)@.template_items + new_items_v(
                    item_arg_views(categories@),
                    template_id as int,
                    old(self)@.next_item_id,
                ),
                next_item_id: old(self)@.next_item_id + categories@.len(),
                ..old(self)@
            }),
    {
        let ghost s = old(self)@;
        let ghost cavs = item_arg_views(categories@);
        let ghost fresh = new_items_v(cavs, template_id as int, s.next_item_id);
        let mut i: usize = 0;
        proof {
            assert(self@.template_items =~= s.template_items + fresh.take(0));
        }
        while i < categories.len()
            invariant
                i <= categories@.len(),
                cavs == item_arg_views(categories@),
                cavs.len() == categories@.len(),
                fresh == new_items_v(cavs, template_id as int, s.next_item_id),
                self@ == (StoreV {
                    template_items: s.template_items + fresh.take(i as int),
                    next_item_id: s.next_item_id + i,
                    ..s
                }),
                s.next_item_id + categories@.len() <= 0x7fff_ffff_ffff_ffff,
            decreases categories@.len() - i,
        {
            let a = &categories[i];
            let rec = TemplateItemRecord {
                template_category_id: self.next_item_id,
                template_id: template_id,
                global_category_id: a.global_category_id,
                allocated_amount: a.allocated_amount,
                category_type: a.category_type,
                sort_order: a.sort_order,
            };
            let ghost before = self@.template_items;
            self.template_items.push(rec);
            self.next_item_id = self.next_item_id + 1;
            proof {
                assert(cavs[i as int] == categories@[i as int]@);
                assert(rec@ == fresh[i as int]);
                assert(fresh.take(i as int + 1) =~= fresh.take(i as int).push(fresh[i as int]));
                assert(self@.template_items =~= before.push(rec@));
                assert(self@.template_items =~= s.template_items + fresh.take(i as int + 1));
                assert(self@ =~= (StoreV {
                    template_items: s.template_items + fresh.take(i as int + 1),
                    next_item_id: s.next_item_id + i + 1,
                    ..s
                }));
            }
            i += 1;
        }
        proof {
            assert(fresh.take(categories@.len() as int) =~= fresh);
            let s2 = StoreV {
                template_items: s.template_items + fresh,
                next_item_id: s.next_item_id + categories@.len(),
                ..s
            };
            assert(self@ =~= s2);
            let n = s.template_items.len() as int;
            assert forall|a: int|
                0 <= a < s2.template_items.len() implies 1 <= (
            #[trigger] s2.template_items[a]).template_category_id < s2.next_item_id by {
                if a < n {
                    assert(s2.template_items[a] == s.template_items[a]);
                } else {
                    assert(s2.template_items[a] == fresh[a - n]);
                }
            }
            assert forall|a: int, b: int|
                0 <= a < b < s2.template_items.len() implies (
            #[trigger] s2.template_items[a]).template_category_id != (
            #[trigger] s2.template_items[b]).template_category_id by {
                if a < n {
                    assert(s2.template_items[a] == s.template_items[a]);
                    assert(s.template_items[a].template_category_id < s.next_item_id);
                } else {
                    assert(s2.template_items[a] == fresh[a - n]);
                }
                if b < n {
                    assert(s2.template_items[b] == s.template_items[b]);
                } else {
                    assert(s2.template_items[b] == fresh[b - n]);
                }
            }
            assert forall|a: int|
                0 <= a < s2.template_items.len() implies s2.has_template(
                #[trigger] s2.template_items[a].template_id,
            ) by {
                if a < n {
                    assert(s2.template_items[a] == s.template_items[a]);
                    assert(s.has_template(s.template_items[a].template_id));
                } else {
                    assert(s2.template_items[a] == fresh[a - n]);
                    assert(s.has_template(template_id as int));
                }
            }
            assert forall|a: int|
                0 <= a < s2.template_items.len() implies s2.has_global(
                #[trigger] s2.template_items[a].global_category_id,
            ) by {
                if a < n {
                    assert(s2.template_items[a] == s.template_items[a]);
                    assert(s.has_global(s.template_items[a].global_category_id));
                } else {
                    assert(s2.template_items[a] == fresh[a - n]);
                    assert(cavs[a - n] == categories@[a - n]@);
                    assert(s.has_global(categories@[a - n].global_category_id as int));
                }
            }
            assert(s2.wf());
        }
    }

    /// One template with its items in application order, each joined with
    /// its global category's name. Fails exactly when the template does not
    /// exist.
    pub fn get_budget_template_with_categories(&self, template_id: i64) -> (r: Result<
        BudgetTemplateWithCategories,
        StoreError,
    >)
        requires
            self@.wf(),
        ensures
            match r {
                Ok(t) => self@.has_template(template_id as int) && t.template_id == template_id
                    && t.name@ == self@.template_of(template_id as int).name && view_opt_string(
                    t.description,
                ) == self@.template_of(template_id as int).description && t.created_at as int
                    == self@.template_of(template_id as int).created_at && exists|
                    ordered: Seq<TemplateItemV>,
                |
                    {
                        &&& #[trigger] sorted_by(ordered, order_le_fn::<TemplateItemRecord>())
                        &&& ordered.to_multiset() == self@.template_items.filter(
                            item_of_template_fn(template_id as int),
                        ).to_multiset()
                        &&& rec_views(t.categories@) == ordered.map_values(item_out_fn(self@))
                    },
                Err(e) => e == StoreError::NotFound(EntityKind::Template, template_id)
                    && !self@.has_template(template_id as int),
            },
    {
        let ghost s = self@;
        let tidx = match self.find_template(template_id) {
            None => {
                return Err(StoreError::NotFound(EntityKind::Template, template_id));
            },
            Some(i) => i,
        };
        proof {
            let j = s.template_index(template_id as int);
            assert(s.templates[j].template_id == template_id as int);
            assert(j == tidx as int);
            assert(s.template_of(template_id as int) == s.templates[tidx as int]);
        }
        // collect this template's items
        let ghost pred = item_of_template_fn(template_id as int);
        let mut picked: Vec<TemplateItemRecord> = Vec::new();
        let mut i: usize = 0;
        proof {
            assert(s.template_items.take(0) =~= Seq::<TemplateItemV>::empty());
            assert(s.template_items.take(0).filter(pred) =~= Seq::<TemplateItemV>::empty());
            assert(rec_views(picked@) =~= s.template_items.take(0).filter(pred));
        }
        while i < self.template_items.len()
            invariant
                self@ == s,
                i <= self.template_items@.len(),
                s.template_items.len() == self.template_items@.len(),
                pred == item_of_template_fn(template_id as int),
                rec_views(picked@) == s.template_items.take(i as int).filter(pred),
            decreases self.template_items@.len() - i,
        {
            let ghost iv = s.template_items[i as int];
            proof {
                assert(iv == self.template_items@[i as int]@);
                assert(s.template_items.take(i as int + 1) =~= s.template_items.take(
                    i as int,
                ).push(iv));
                lemma_filter_push(s.template_items.take(i as int), pred, iv);
            }
            let it = self.template_items[i];
            if it.template_id == template_id {
                let ghost before = picked@;
                picked.push(it);
                proof {
                    assert(rec_views(picked@) =~= rec_views(before).push(iv));
                    assert(rec_views(picked@) =~= s.template_items.take(i as int + 1).filter(pred));
                }
            } else {
                proof {
                    assert(!pred(iv));
                    assert(rec_views(picked@) =~= s.template_items.take(i as int + 1).filter(pred));
                }
            }
            i += 1;
        }
        proof {
            assert(s.template_items.take(s.template_items.len() as int) =~= s.template_items);
        }
        let sorted = sort_records(picked);
        let ghost ordered = rec_views(sorted@);
        // join each item with its global category's name
        let mut items: Vec<TemplateCategoryItem> = Vec::new();
        let mut k: usize = 0;
        proof {
            assert(rec_views(items@) =~= ordered.take(0).map_values(item_out_fn(s)));
        }
        while k < sorted.len()
            invariant
                self@ == s,
                s.wf(),
                k <= sorted@.len(),
                ordered == rec_views(sorted@),
                ordered.len() == sorted@.len(),
                ordered.to_multiset() == s.template_items.filter(
                    item_of_template_fn(template_id as int),
                ).to_multiset(),
                rec_views(items@) == ordered.take(k as int).map_values(item_out_fn(s)),
            decreases sorted@.len() - k,
        {
            let ghost iv = ordered[k as int];
            proof {
                assert(iv == sorted@[k as int]@);
                assert(ordered.contains(iv));
                assert(ordered.to_multiset().count(iv) > 0);
                let f = s.template_items.filter(item_of_template_fn(template_id as int));
                assert(f.to_multiset().count(iv) > 0);
                assert(f.contains(iv));
                lemma_filter_members(s.template_items, item_of_template_fn(template_id as int));
                let w = choose|w: int| 0 <= w < f.len() && f[w] == iv;
                assert(s.template_items.contains(iv));
                let w2 = choose|w2: int|
                    0 <= w2 < s.template_items.len() && s.template_items[w2] == iv;
                assert(s.has_global(iv.global_category_id));
            }
            let it = &sorted[k];
            let gidx = match self.find_global(it.global_category_id) {
                None => {
                    vstd::pervasive::unreached()
                },
                Some(g) => g,
            };
            proof {
                let j = s.global_index(iv.global_category_id);
                assert(s.global_categories[j].global_category_id == iv.global_category_id);
                assert(j == gidx as int);
                assert(s.global_of(iv.global_category_id) == s.global_categories[gidx as int]);
            }
            let row = TemplateCategoryItem {
                template_category_id: it.template_category_id,
                global_category_id: it.global_category_id,
                category_name: self.global_categories[gidx].name.clone(),
                allocated_amount: it.allocated_amount,
                category_type: it.category_type,
                sort_order: it.sort_order,
            };
            let ghost before = items@;
            items.push(row);
            proof {
                assert(row@ == item_out_of(s, iv));
                assert(ordered.take(k as int + 1) =~= ordered.take(k as int).push(iv));
                assert(rec_views(items@) =~= rec_views(before).push(row@));
                assert(rec_views(items@) =~= ordered.take(k as int + 1).map_values(item_out_fn(s)));
            }
            k += 1;
        }
        proof {
            assert(ordered.take(ordered.len() as int) =~= ordered);
        }
        let t = &self.templates[tidx];
        Ok(
            BudgetTemplateWithCategories {
                template_id: template_id,
                name: t.name.clone(),
                description: clone_opt_string(&t.description),
                created_at: t.created_at,
                categories: items,
            },
        )
    }

    /// Creates a template with its items in one step. Fails, changing
    /// nothing, exactly when some item names a global category that does
    /// not exist; the error carries such an id. Returns the stored template
    /// with its items in application order.
    pub fn create_budget_template(&mut self, args: CreateBudgetTemplateArgs, now: i64) -> (r:
        Result<BudgetTemplateWithCategories, StoreError>)
        requires
            old(self)@.wf(),
            old(self)@.ready(),
            old(self)@.next_template_id < 0x7fff_ffff_ffff_ffff,
            old(self)@.next_item_id + args.categories@.len() <= 0x7fff_ffff_ffff_ffff,
        ensures
            final(self)@.wf(),
            match r {
                Ok(t) => final(self)@ == create_budget_template_tr(old(self)@, args@, now as int)
                    && t.template_id as int == old(self)@.next_template_id && t.name@ == args@.name
                    && view_opt_string(t.description) == args@.description && (forall|i: int|
                    0 <= i < args.categories@.len() ==> old(self)@.has_global(
                        (#[trigger] args.categories@[i]).global_category_id as int,
                    )) && exists|ordered: Seq<TemplateItemV>|
                    {
                        &&& #[trigger] sorted_by(ordered, order_le_fn::<TemplateItemRecord>())
                        &&& ordered.to_multiset() == final(self)@.template_items.filter(
                            item_of_template_fn(old(self)@.next_template_id),
                        ).to_multiset()
                        &&& rec_views(t.categories@) == ordered.map_values(item_out_fn(final(self)@))
                    },
                Err(e) => *final(self) == *old(self) && exists|i: int|
                    0 <= i < args.categories@.len() && !old(self)@.has_global(
                        (#[trigger] args.categories@[i]).global_category_id as int,
                    ) && e == StoreError::NotFound(
                        EntityKind::GlobalCategory,
                        args.categories@[i].global_category_id,
                    ),
            },
    {
        let ghost s = old(self)@;
        match self.validate_item_globals(&args.categories) {
            Some(g) => {
                return Err(StoreError::NotFound(EntityKind::GlobalCategory, g));
            },
            None => {},
        }
        let name = args.name;
        let description = args.description;
        let categories = args.categories;
        let id = self.push_template(name, description, now);
        proof {
            let s1 = self@;
            assert(s1.has_template(id as int)) by {
                assert(s1.templates[s.templates.len() as int].template_id == id as int);
            }
        }
        self.push_template_items(&categories, id);
        proof {
            assert(self@ =~= create_budget_template_tr(s, args@, now as int));
            assert(self@.has_template(id as int)) by {
                assert(self@.templates[s.templates.len() as int].template_id == id as int);
            }
        }
        let result = match self.get_budget_template_with_categories(id) {
            Err(_) => {
                vstd::pervasive::unreached()
            },
            Ok(t) => t,
        };
        proof {
            let j = self@.template_index(id as int);
            assert(self@.templates[j].template_id == id as int);
            assert(j == s.templates.len() as int);
            assert(self@.template_of(id as int) == self@.templates[s.templates.len() as int]);
        }
        Ok(result)
    }

    /// Fully replaces a template: rewrites its name and description, drops
    /// all its items, and stores the given items in their place — never a
    /// merge. Fails with `NotFound` on a missing template, or, changing
    /// nothing, when an item names a missing global category. Returns the
    /// stored template with its items in application order.
    pub fn update_budget_template(&mut self, template_id: i64, args: CreateBudgetTemplateArgs) -> (r:
        Result<BudgetTemplateWithCategories, StoreError>)
        requires
            old(self)@.wf(),
            old(self)@.ready(),
            old(self)@.next_item_id + args.categories@.len() <= 0x7fff_ffff_ffff_ffff,
        ensures
            final(self)@.wf(),
            match r {
                Ok(t) => old(self)@.has_template(template_id as int) && final(self)@
                    == update_budget_template_tr(old(self)@, template_id as int, args@)
                    && t.template_id == template_id && t.name@ == args@.name && view_opt_string(
                    t.description,
                ) == args@.description && exists|ordered: Seq<TemplateItemV>|
                    {
                        &&& #[trigger] sorted_by(ordered, order_le_fn::<TemplateItemRecord>())
                        &&& ordered.to_multiset() == final(self)@.template_items.filter(
                            item_of_template_fn(template_id as int),
                        ).to_multiset()
                        &&& rec_views(t.categories@) == ordered.map_values(item_out_fn(final(self)@))
                    },
                Err(e) => *final(self) == *old(self) && (e == StoreError::NotFound(
                    EntityKind::Template,
                    template_id,
                ) && !old(self)@.has_template(template_id as int) || exists|i: int|
                    0 <= i < args.categories@.len() && !old(self)@.has_global(
                        (#[trigger] args.categories@[i]).global_category_id as int,
                    ) && e == StoreError::NotFound(
                        EntityKind::GlobalCategory,
                        args.categories@[i].global_category_id,
                    )),
            },
    {
        let ghost s = old(self)@;
        let ghost id = template_id as int;
        let tidx = match self.find_template(template_id) {
            None => {
                return Err(StoreError::NotFound(EntityKind::Template, template_id));
            },
            Some(i) => i,
        };
        match self.validate_item_globals(&args.categories) {
            Some(g) => {
                return Err(StoreError::NotFound(EntityKind::GlobalCategory, g));
            },
            None => {},
        }
        let t = &self.templates[tidx];
        let rec = TemplateRecord {
            template_id: t.template_id,
            name: args.name.clone(),
            description: clone_opt_string(&args.description),
            created_at: t.created_at,
        };
        let ghost pf = update_template_patch_fn(args@);
        self.templates[tidx] = rec;
        let ghost sp = StoreV { templates: patch_templates(s.templates, id, pf), ..s };
        proof {
            let j = s.template_index(id);
            assert(s.templates[j].template_id == id);
            assert(j == tidx as int);
            assert forall|j2: int|
                0 <= j2 < self@.templates.len() implies #[trigger] self@.templates[j2]
                == sp.templates[j2] by {
                if j2 != tidx {
                    assert(s.templates[j2].template_id != s.templates[tidx as int].template_id);
                }
            }
            assert(self@.templates =~= sp.templates);
            assert(self@ =~= sp);
            assert(forall|i: int|
                0 <= i < sp.templates.len() ==> (#[trigger] sp.templates[i]).template_id
                    == s.templates[i].template_id);
            assert forall|i: int|
                0 <= i < sp.template_items.len() implies sp.has_template(
                #[trigger] sp.template_items[i].template_id,
            ) by {
                assert(s.has_template(s.template_items[i].template_id));
                let w = choose|w: int|
                    0 <= w < s.templates.len() && s.templates[w].template_id
                        == s.template_items[i].template_id;
                assert(sp.templates[w].template_id == sp.template_items[i].template_id);
            }
            assert(sp.wf());
            assert(sp.has_template(id)) by {
                assert(sp.templates[tidx as int].template_id == id);
            }
        }
        retain_items_not_of_template(&mut self.template_items, template_id);
        let ghost sq = StoreV {
            template_items: s.template_items.filter(keep_item_template_fn(id)),
            ..sp
        };
        proof {
            assert(self@ =~= sq);
            lemma_filter_distinct_by(
                s.template_items,
                keep_item_template_fn(id),
                |it: TemplateItemV| it.template_category_id,
            );
            lemma_filter_members(s.template_items, keep_item_template_fn(id));
            assert forall|i: int|
                0 <= i < sq.template_items.len() implies 1 <= (
            #[trigger] sq.template_items[i]).template_category_id < sq.next_item_id by {
                let it = sq.template_items[i];
                assert(s.template_items.contains(it));
                let w = choose|w: int| 0 <= w < s.template_items.len() && s.template_items[w] == it;
                assert(1 <= s.template_items[w].template_category_id < s.next_item_id);
            }
            assert forall|i: int|
                0 <= i < sq.template_items.len() implies sq.has_template(
                #[trigger] sq.template_items[i].template_id,
            ) by {
                let it = sq.template_items[i];
                assert(s.template_items.contains(it));
                assert(s.has_template(it.template_id));
                let w = choose|w: int|
                    0 <= w < s.templates.len() && s.templates[w].template_id == it.template_id;
                assert(sq.templates[w].template_id == it.template_id);
            }
            assert forall|i: int|
                0 <= i < sq.template_items.len() implies sq.has_global(
                #[trigger] sq.template_items[i].global_category_id,
            ) by {
                let it = sq.template_items[i];
                assert(s.template_items.contains(it));
                assert(s.has_global(it.global_category_id));
            }
            assert(sq.wf());
            assert(sq.has_template(id)) by {
                assert(sq.templates[tidx as int].template_id == id);
            }
        }
        self.push_template_items(&args.categories, template_id);
        proof {
            assert(self@ =~= update_budget_template_tr(s, id, args@));
            assert(self@.has_template(id)) by {
                assert(self@.templates[tidx as int].template_id == id);
            }
        }
        let result = match self.get_budget_template_with_categories(template_id) {
            Err(_) => {
                vstd::pervasive::unreached()
            },
            Ok(t2) => t2,
        };
        proof {
            let j = self@.template_index(id);
            assert(self@.templates[j].template_id == id);
            assert(j == tidx as int);
            assert(self@.template_of(id) == self@.templates[tidx as int]);
        }
        Ok(result)
    }

    /// Stamps a template onto a budget: destroys the budget's categories
    /// (their ledger entries go with them), creates one category per
    /// template item in application order, records the template on the
    /// budget, and appends one `template_apply` audit record. Fails exactly
    /// when the budget or the template does not exist.
    pub fn apply_template_to_budget(&mut self, budget_id: i64, template_id: i64, now: i64) -> (r:
        Result<(), StoreError>)
        requires
            old(self)@.wf(),
            old(self)@.ready(),
            old(self)@.next_change_id < 0x7fff_ffff_ffff_ffff,
            old(self)@.next_category_id + old(self)@.template_items.len()
                <= 0x7fff_ffff_ffff_ffff,
        ensures
            final(self)@.wf(),
            match r {
                Ok(_) => old(self)@.has_budget(budget_id as int) && old(self)@.has_template(
                    template_id as int,
                ) && exists|ordered: Seq<TemplateItemV>|
                    {
                        &&& #[trigger] sorted_by(ordered, order_le_fn::<TemplateItemRecord>())
                        &&& ordered.to_multiset() == old(self)@.template_items.filter(
                            item_of_template_fn(template_id as int),
                        ).to_multiset()
                        &&& final(self)@ == apply_template_tr(
                            old(self)@,
                            budget_id as int,
                            template_id as int,
                            ordered,
                            now as int,
                        )
                    },
                Err(e) => *final(self) == *old(self) && (e == StoreError::NotFound(
                    EntityKind::Budget,
                    budget_id,
                ) && !old(self)@.has_budget(budget_id as int) || e == StoreError::NotFound(
                    EntityKind::Template,
                    template_id,
                ) && old(self)@.has_budget(budget_id as int) && !old(self)@.has_template(
                    template_id as int,
                )),
            },
    {
        let ghost s = old(self)@;
        let ghost bid = budget_id as int;
        let ghost tid = template_id as int;
        let bidx = match self.find_budget(budget_id) {
            None => {
                return Err(StoreError::NotFound(EntityKind::Budget, budget_id));
            },
            Some(i) => i,
        };
        let tidx = match self.find_template(template_id) {
            None => {
                return Err(StoreError::NotFound(EntityKind::Template, template_id));
            },
            Some(i) => i,
        };
        let template_name = self.templates[tidx].name.clone();
        proof {
            let j = s.template_index(tid);
            assert(s.templates[j].template_id == tid);
            assert(j == tidx as int);
            assert(s.template_of(tid) == s.templates[tidx as int]);
        }
        // the template's items, in application order
        let ghost ipred = item_of_template_fn(tid);
        let mut picked: Vec<TemplateItemRecord> = Vec::new();
        let mut i: usize = 0;
        proof {
            assert(s.template_items.take(0) =~= Seq::<TemplateItemV>::empty());
            assert(s.template_items.take(0).filter(ipred) =~= Seq::<TemplateItemV>::empty());
            assert(rec_views(picked@) =~= s.template_items.take(0).filter(ipred));
        }
        while i < self.template_items.len()
            invariant
                self@ == s,
                tid == template_id as int,
                i <= self.template_items@.len(),
                s.template_items.len() == self.template_items@.len(),
                ipred == item_of_template_fn(tid),
                rec_views(picked@) == s.template_items.take(i as int).filter(ipred),
                picked@.len() <= i,
            decreases self.template_items@.len() - i,
        {
            let ghost iv = s.template_items[i as int];
            proof {
                assert(iv == self.template_items@[i as int]@);
                assert(s.template_items.take(i as int + 1) =~= s.template_items.take(
                    i as int,
                ).push(iv));
                lemma_filter_push(s.template_items.take(i as int), ipred, iv);
            }
            let it = self.template_items[i];
            if it.template_id == template_id {
                let ghost before = picked@;
                picked.push(it);
                proof {
                    assert(rec_views(picked@) =~= rec_views(before).push(iv));
                    assert(rec_views(picked@) =~= s.template_items.take(i as int + 1).filter(
                        ipred,
                    ));
                }
            } else {
                proof {
                    assert(!ipred(iv));
                    assert(rec_views(picked@) =~= s.template_items.take(i as int + 1).filter(
                        ipred,
                    ));
                }
            }
            i += 1;
        }
        proof {
            assert(s.template_items.take(s.template_items.len() as int) =~= s.template_items);
        }
        let sorted = sort_records(picked);
        let ghost ordered = rec_views(sorted@);
        // record the template on the budget and touch last_edited
        let b = &self.budgets[bidx];
        let brec = crate::types::BudgetRecord {
            budget_id: b.budget_id,
            month: b.month,
            year: b.year,
            total_income: b.total_income,
            created_at: b.created_at,
            finished_at: b.finished_at,
            first_finished_at: b.first_finished_at,
            name: clone_opt_string(&b.name),
            last_edited: now,
            template_id: Some(template_id),
        };
        let ghost bpf = apply_patch_fn(tid, now as int);
        self.budgets[bidx] = brec;
        let ghost sp1 = StoreV { budgets: patch_budgets(s.budgets, bid, bpf), ..s };
        proof {
            lemma_patch_budgets_wf(s, bid, bpf);
            assert forall|j: int| 0 <= j < self@.budgets.len() implies #[trigger] self@.budgets[j]
                == sp1.budgets[j] by {
                if j != bidx {
                    assert(s.budgets[j].budget_id != s.budgets[bidx as int].budget_id);
                }
            }
            assert(self@.budgets =~= sp1.budgets);
            assert(self@ =~= sp1);
        }
        // destroy the budget's categories and their entries
        retain_entries(&mut self.entries, &self.categories, budget_id);
        retain_categories(&mut self.categories, budget_id);
        let ghost sp2 = StoreV {
            budgets: sp1.budgets,
            categories: s.categories.filter(keep_category_fn(bid)),
            entries: s.entries.filter(keep_entry_fn(s.categories, bid)),
            ..s
        };
        proof {
            assert(self@ =~= sp2);
        }
        // create one category per item, in application order
        let ghost freshcats = applied_categories_v(s, bid, ordered, now as int);
        let mut k: usize = 0;
        proof {
            assert(self@.categories =~= sp2.categories + freshcats.take(0));
        }
        while k < sorted.len()
            invariant
                self@ == (StoreV {
                    categories: sp2.categories + freshcats.take(k as int),
                    next_category_id: s.next_category_id + k,
                    ..sp2
                }),
                bid == budget_id as int,
                tid == template_id as int,
                k <= sorted@.len(),
                ordered == rec_views(sorted@),
                ordered.len() == sorted@.len(),
                ordered.len() <= s.template_items.len(),
                freshcats == applied_categories_v(s, bid, ordered, now as int),
                freshcats.len() == ordered.len(),
                sp2.budgets == sp1.budgets,
                ordered.to_multiset() == s.template_items.filter(ipred).to_multiset(),
                ipred == item_of_template_fn(tid),
                s.wf(),
                s.next_category_id + s.template_items.len() <= 0x7fff_ffff_ffff_ffff,
                s.global_categories == self@.global_categories,
            decreases sorted@.len() - k,
        {
            let ghost iv = ordered[k as int];
            proof {
                assert(iv == sorted@[k as int]@);
                assert(ordered.contains(iv));
                assert(ordered.to_multiset().count(iv) > 0);
                let f = s.template_items.filter(ipred);
                assert(f.to_multiset().count(iv) > 0);
                assert(f.contains(iv));
                lemma_filter_members(s.template_items, ipred);
                let w = choose|w: int| 0 <= w < f.len() && f[w] == iv;
                assert(s.template_items.contains(iv));
                let w2 = choose|w2: int|
                    0 <= w2 < s.template_items.len() && s.template_items[w2] == iv;
                assert(s.has_global(iv.global_category_id));
            }
            let it = &sorted[k];
            let gidx = match self.find_global(it.global_category_id) {
                None => {
                    vstd::pervasive::unreached()
                },
                Some(g) => g,
            };
            proof {
                let j = s.global_index(iv.global_category_id);
                assert(s.global_categories[j].global_category_id == iv.global_category_id);
                assert(j == gidx as int);
                assert(s.global_of(iv.global_category_id) == s.global_categories[gidx as int]);
            }
            let crec = CategoryRecord {
                category_id: self.next_category_id,
                budget_id: budget_id,
                category_name: self.global_categories[gidx].name.clone(),
                allocated_amount: it.allocated_amount,
                created_at: now,
                global_category_id: Some(it.global_category_id),
                category_type: it.category_type,
            };
            let ghost before = self@.categories;
            self.categories.push(crec);
            self.next_category_id = self.next_category_id + 1;
            proof {
                assert(crec@ == freshcats[k as int]);
                assert(freshcats.take(k as int + 1) =~= freshcats.take(k as int).push(
                    freshcats[k as int],
                ));
                assert(self@.categories =~= before.push(crec@));
                assert(self@ =~= (StoreV {
                    categories: sp2.categories + freshcats.take(k as int + 1),
                    next_category_id: s.next_category_id + k + 1,
                    ..sp2
                }));
            }
            k += 1;
        }
        let ghost sp3 = StoreV {
            budgets: sp1.budgets,
            categories: sp2.categories + freshcats,
            entries: sp2.entries,
            next_category_id: s.next_category_id + ordered.len(),
            ..s
        };
        proof {
            assert(freshcats.take(freshcats.len() as int) =~= freshcats);
            assert(self@ =~= sp3);
            // well-formedness of the rebuilt category table
            lemma_patch_budgets_wf(s, bid, bpf);
            let kept = sp2.categories;
            let n = kept.len() as int;
            lemma_filter_distinct_by(
                s.categories,
                keep_category_fn(bid),
                |c: CategoryV| c.category_id,
            );
            lemma_filter_members(s.categories, keep_category_fn(bid));
            assert forall|a: int|
                0 <= a < sp3.categories.len() implies 1 <= (
            #[trigger] sp3.categories[a]).category_id < sp3.next_category_id by {
                if a < n {
                    assert(sp3.categories[a] == kept[a]);
                    assert(s.categories.contains(kept[a]));
                    let w = choose|w: int| 0 <= w < s.categories.len() && s.categories[w] == kept[a];
                    assert(1 <= s.categories[w].category_id < s.next_category_id);
                } else {
                    assert(sp3.categories[a] == freshcats[a - n]);
                }
            }
            assert forall|a: int, b2: int|
                0 <= a < b2 < sp3.categories.len() implies (
            #[trigger] sp3.categories[a]).category_id != (
            #[trigger] sp3.categories[b2]).category_id by {
                if a < n {
                    assert(sp3.categories[a] == kept[a]);
                    assert(s.categories.contains(kept[a]));
                    let w = choose|w: int| 0 <= w < s.categories.len() && s.categories[w] == kept[a];
                    assert(s.categories[w].category_id < s.next_category_id);
                } else {
                    assert(sp3.categories[a] == freshcats[a - n]);
                }
                if b2 < n {
                    assert(sp3.categories[b2] == kept[b2]);
                } else {
                    assert(sp3.categories[b2] == freshcats[b2 - n]);
                }
            }
            assert forall|a: int|
                0 <= a < sp3.categories.len() implies sp3.has_budget(
                #[trigger] sp3.categories[a].budget_id,
            ) by {
                if a < n {
                    assert(sp3.categories[a] == kept[a]);
                    assert(keep_category_fn(bid)(kept[a]));
                    assert(s.categories.contains(kept[a]));
                    assert(s.has_budget(kept[a].budget_id));
                    assert(sp3.budgets == sp1.budgets);
                    let sp1b = StoreV { budgets: patch_budgets(s.budgets, bid, bpf), ..s };
                    assert(sp1b.has_budget(kept[a].budget_id));
                    let w = choose|w: int|
                        0 <= w < sp1b.budgets.len() && sp1b.budgets[w].budget_id
                            == kept[a].budget_id;
                    assert(sp3.budgets[w].budget_id == sp3.categories[a].budget_id);
                } else {
                    assert(sp3.categories[a] == freshcats[a - n]);
                    assert(sp3.categories[a].budget_id == bid);
                    assert(s.has_budget(bid));
                    let sp1b = StoreV { budgets: patch_budgets(s.budgets, bid, bpf), ..s };
                    assert(sp1b.has_budget(bid));
                    let w = choose|w: int|
                        0 <= w < sp1b.budgets.len() && sp1b.budgets[w].budget_id == bid;
                    assert(sp3.budgets[w].budget_id == bid);
                }
            }
            // entries kept still have their categories, at unchanged indexes
            lemma_filter_distinct_by(
                s.entries,
                keep_entry_fn(s.categories, bid),
                |e: crate::types::EntryV| e.entry_id,
            );
            lemma_filter_members(s.entries, keep_entry_fn(s.categories, bid));
            assert forall|a: int|
                0 <= a < sp3.entries.len() implies 1 <= (#[trigger] sp3.entries[a]).entry_id
                < sp3.next_entry_id by {
                let e = sp3.entries[a];
                assert(s.entries.contains(e));
                let w = choose|w: int| 0 <= w < s.entries.len() && s.entries[w] == e;
                assert(1 <= s.entries[w].entry_id < s.next_entry_id);
            }
            assert forall|a: int|
                0 <= a < sp3.entries.len() implies sp3.has_category(
                #[trigger] sp3.entries[a].category_id,
            ) by {
                let e = sp3.entries[a];
                assert(keep_entry_fn(s.categories, bid)(e));
                assert(!crate::budgets::entry_in_budget(s.categories, e, bid));
                assert(s.entries.contains(e));
                assert(s.has_category(e.category_id));
                let wc = choose|wc: int|
                    0 <= wc < s.categories.len() && s.categories[wc].category_id == e.category_id;
                assert(s.categories[wc].budget_id != bid);
                assert(keep_category_fn(bid)(s.categories[wc]));
                assert(kept.contains(s.categories[wc]));
                let nc = choose|nc: int| 0 <= nc < kept.len() && kept[nc] == s.categories[wc];
                assert(sp3.categories[nc].category_id == e.category_id);
            }
            // audit records still name existing budgets
            assert forall|a: int|
                0 <= a < sp3.history.len() implies sp3.has_budget(
                #[trigger] sp3.history[a].budget_id,
            ) by {
                assert(s.has_budget(s.history[a].budget_id));
                let sp1b = StoreV { budgets: patch_budgets(s.budgets, bid, bpf), ..s };
                assert(sp1b.has_budget(s.history[a].budget_id));
                let w = choose|w: int|
                    0 <= w < sp1b.budgets.len() && sp1b.budgets[w].budget_id
                        == s.history[a].budget_id;
                assert(sp3.budgets[w].budget_id == sp3.history[a].budget_id);
            }
            assert(kept.len() <= s.categories.len());
            assert(sp3.wf());
            assert(sp3.has_budget(bid)) by {
                let sp1b = StoreV { budgets: patch_budgets(s.budgets, bid, bpf), ..s };
                assert(sp1b.has_budget(bid));
                let w = choose|w: int|
                    0 <= w < sp1b.budgets.len() && sp1b.budgets[w].budget_id == bid;
                assert(sp3.budgets[w].budget_id == bid);
            }
        }
        // one audit record for the whole application
        let count: i64 = sorted.len() as i64;
        let countstr = crate::text::int_string(count);
        let mut description = crate::types::clone_string_from("Applied template '");
        description.append(template_name.as_str());
        description.append("' to budget (");
        description.append(countstr.as_str());
        description.append(" categories)");
        proof {
            assert(description@ =~= "Applied template '"@ + s.template_of(tid).name
                + "' to budget ("@ + crate::text::int_str_of(ordered.len() as int)
                + " categories)"@);
        }
        self.push_history(
            budget_id,
            "template_apply",
            Some(crate::types::clone_string_from("budget_templates")),
            None,
            Some(template_name),
            description,
            now,
        );
        proof {
            assert(self@ =~= apply_template_tr(s, bid, tid, ordered, now as int));
        }
        Ok(())
    }
}

} // verus!
