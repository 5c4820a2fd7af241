//! The catalog of global categories: shared definitions that templates and
//! budget categories refer to. Names are unique across the catalog.

use vstd::prelude::*;
use vstd::relations::sorted_by;
use crate::store::{Store, StoreV, lemma_filter_members, lemma_filter_distinct_by};
use crate::error::{ConflictKind, EntityKind, StoreError};
use crate::types::{GlobalCategory, GlobalCategoryV, TemplateItemV, view_opt_string, clone_opt_string};
use crate::text::{codes_of, lex_le, code_key_of_str, key_le, str_eq, lemma_lex_le_total, lemma_lex_le_trans};
use crate::order::{StoreOrder, sort_records, rec_views, order_le_fn};

verus! {

broadcast use vstd::seq_lib::group_filter_ensures;

impl StoreOrder for GlobalCategory {
    /// The catalog lists by name, code point by code point.
    open spec fn le(a: GlobalCategoryV, b: GlobalCategoryV) -> bool {
        lex_le(codes_of(a.name), codes_of(b.name))
    }

    proof fn lemma_total(a: GlobalCategoryV, b: GlobalCategoryV) {
        lemma_lex_le_total(codes_of(a.name), codes_of(b.name));
    }

    proof fn lemma_trans(a: GlobalCategoryV, b: GlobalCategoryV, c: GlobalCategoryV) {
        lemma_lex_le_trans(codes_of(a.name), codes_of(b.name), codes_of(c.name));
    }

    fn le_exec(&self, other: &Self) -> (r: bool) {
        let ka = code_key_of_str(self.name.as_str());
        let kb = code_key_of_str(other.name.as_str());
        key_le(&ka, &kb)
    }
}

/// The payload of a global-category creation or update.
pub struct CreateGlobalCategoryArgs {
    pub name: String,
    pub description: Option<String>,
}

#[verifier::ext_equal]
pub struct CreateGlobalCategoryArgsV {
    pub name: Seq<char>,
    pub description: Option<Seq<char>>,
}

impl View for CreateGlobalCategoryArgs {
    type V = CreateGlobalCategoryArgsV;

    open spec fn view(&self) -> CreateGlobalCategoryArgsV {
        CreateGlobalCategoryArgsV {
            name: self.name@,
            description: view_opt_string(self.description),
        }
    }
}

/// The catalog row a creation stores.
pub open spec fn new_global_v(s: StoreV, a: CreateGlobalCategoryArgsV, now: int) -> GlobalCategoryV {
    GlobalCategoryV {
        global_category_id: s.next_global_id,
        name: a.name,
        description: a.description,
        created_at: now,
    }
}

/// The store after a global category is created.
pub open spec fn create_global_tr(s: StoreV, a: CreateGlobalCategoryArgsV, now: int) -> StoreV {
    StoreV {
        global_categories: s.global_categories.push(new_global_v(s, a, now)),
        next_global_id: s.next_global_id + 1,
        ..s
    }
}

/// The update patch as a function.
pub open spec fn update_global_patch_fn(a: CreateGlobalCategoryArgsV) -> spec_fn(
    GlobalCategoryV,
) -> GlobalCategoryV {
    |g: GlobalCategoryV| GlobalCategoryV { name: a.name, description: a.description, ..g }
}

/// One catalog row rewritten by `f`, every other row untouched.
pub open spec fn patch_globals(
    gs: Seq<GlobalCategoryV>,
    id: int,
    f: spec_fn(GlobalCategoryV) -> GlobalCategoryV,
) -> Seq<GlobalCategoryV> {
    gs.map_values(|g: GlobalCategoryV| if g.global_category_id == id { f(g) } else { g })
}

/// The store after a global category is updated in place.
pub open spec fn update_global_tr(s: StoreV, id: int, a: CreateGlobalCategoryArgsV) -> StoreV {
    StoreV { global_categories: patch_globals(s.global_categories, id, update_global_patch_fn(a)), ..s }
}

/// Keeps the template items that do not refer to the deleted global
/// category.
pub open spec fn keep_item_global_fn(id: int) -> spec_fn(TemplateItemV) -> bool {
    |it: TemplateItemV| it.global_category_id != id
}

/// Whether some catalog row other than `category_id` already carries the
/// name.
pub open spec fn name_taken_by_other(s: StoreV, category_id: int, name: Seq<char>) -> bool {
    exists|i: int|
        0 <= i < s.global_categories.len() && #[trigger] s.global_categories[i].name == name
            && s.global_categories[i].global_category_id != category_id
}

/// The store after a global category is deleted: the row goes, and the
/// template items that referred to it go with it.
pub open spec fn delete_global_tr(s: StoreV, id: int) -> StoreV {
    StoreV {
        global_categories: s.global_categories.remove(s.global_index(id)),
        template_items: s.template_items.filter(keep_item_global_fn(id)),
        ..s
    }
}

impl Store {
    /// Position of the global category with the given name, if any.
    pub fn find_global_by_name(&self, name: &str) -> (r: Option<usize>)
        ensures
            match r {
                Some(i) => i < self@.global_categories.len()
                    && self@.global_categories[i as int].name == name@,
                None => !self@.has_global_name(name@),
            },
    {
        let mut i: usize = 0;
        while i < self.global_categories.len()
            invariant
                i <= self@.global_categories.len(),
                forall|j: int| 0 <= j < i ==> #[trigger] self@.global_categories[j].name != name@,
            decreases self@.global_categories.len() - i,
        {
            if str_eq(self.global_categories[i].name.as_str(), name) {
                return Some(i);
            }
            i += 1;
        }
        None
    }

    /// Every global category, ordered by name.
    pub fn get_global_categories(&self) -> (r: Result<Vec<GlobalCategory>, StoreError>)
        requires
            self@.wf(),
        ensures
            r is Ok,
            sorted_by(rec_views(r->Ok_0@), order_le_fn::<GlobalCategory>()),
            rec_views(r->Ok_0@).to_multiset() == self@.global_categories.to_multiset(),
            r->Ok_0@.len() == self@.global_categories.len(),
    {
        let mut out: Vec<GlobalCategory> = Vec::new();
        let mut i: usize = 0;
        while i < self.global_categories.len()
            invariant
                i <= self.global_categories@.len(),
                out@.len() == i,
                forall|j: int|
                    0 <= j < i ==> #[trigger] rec_views(out@)[j] == self@.global_categories[j],
            decreases self.global_categories@.len() - i,
        {
            let g = &self.global_categories[i];
            let row = GlobalCategory {
                global_category_id: g.global_category_id,
                name: g.name.clone(),
                description: clone_opt_string(&g.description),
                created_at: g.created_at,
            };
            let ghost before = out@;
            out.push(row);
            proof {
                assert(rec_views(out@)[i as int] == out@[i as int]@);
                assert(self@.global_categories[i as int] == self.global_categories@[i as int]@);
                assert forall|j: int|
                    0 <= j < i + 1 implies #[trigger] rec_views(out@)[j]
                    == self@.global_categories[j] by {
                    assert(rec_views(out@)[j] == out@[j]@);
                    if j < i {
                        assert(out@[j] == before[j]);
                        assert(rec_views(before)[j] == before[j]@);
                    }
                }
            }
            i += 1;
        }
        proof {
            assert(rec_views(out@) =~= self@.global_categories);
        }
        Ok(sort_records(out))
    }

    /// Creates a global category. Succeeds exactly when no catalog row of
    /// that name exists yet; the duplicate case is the `Conflict` error.
    /// Returns the stored row.
    pub fn create_global_category(&mut self, args: CreateGlobalCategoryArgs, now: i64) -> (r:
        Result<GlobalCategory, StoreError>)
        requires
            old(self)@.wf(),
            old(self)@.ready(),
            old(self)@.next_global_id < 0x7fff_ffff_ffff_ffff,
        ensures
            final(self)@.wf(),
            match r {
                Ok(g) => !old(self)@.has_global_name(args.name@) && g@ == new_global_v(
                    old(self)@,
                    args@,
                    now as int,
                ) && final(self)@ == create_global_tr(old(self)@, args@, now as int),
                Err(e) => e == StoreError::Conflict(ConflictKind::GlobalCategoryName) && old(
                    self,
                )@.has_global_name(args.name@) && *final(self) == *old(self),
            },
    {
        let ghost s = old(self)@;
        if self.find_global_by_name(args.name.as_str()).is_some() {
            return Err(StoreError::Conflict(ConflictKind::GlobalCategoryName));
        }
        let id = self.next_global_id;
        let rec = GlobalCategory {
            global_category_id: id,
            name: args.name.clone(),
            description: clone_opt_string(&args.description),
            created_at: now,
        };
        let returned = GlobalCategory {
            global_category_id: id,
            name: args.name,
            description: rec.description.clone(),
            created_at: now,
        };
        self.global_categories.push(rec);
        self.next_global_id = self.next_global_id + 1;
        proof {
            let s2 = create_global_tr(s, args@, now as int);
            assert(self@.global_categories =~= s2.global_categories);
            assert(self@ =~= s2);
            assert forall|i: int|
                0 <= i < s2.global_categories.len() implies 1 <= (
                #[trigger] s2.global_categories[i]).global_category_id < s2.next_global_id by {
                if i < s.global_categories.len() {
                    assert(s2.global_categories[i] == s.global_categories[i]);
                }
            }
            assert forall|i: int, j: int|
                0 <= i < j < s2.global_categories.len() implies (
            #[trigger] s2.global_categories[i]).global_category_id != (
            #[trigger] s2.global_categories[j]).global_category_id by {
                assert(s2.global_categories[i] == s.global_categories[i]);
                if j < s.global_categories.len() {
                    assert(s2.global_categories[j] == s.global_categories[j]);
                } else {
                    assert(s.global_categories[i].global_category_id < s.next_global_id);
                }
            }
            assert forall|i: int, j: int|
                0 <= i < j < s2.global_categories.len() implies (
            #[trigger] s2.global_categories[i]).name != (
            #[trigger] s2.global_categories[j]).name by {
                assert(s2.global_categories[i] == s.global_categories[i]);
                if j < s.global_categories.len() {
                    assert(s2.global_categories[j] == s.global_categories[j]);
                }
            }
            assert forall|i: int|
                0 <= i < s2.template_items.len() implies s2.has_global(
                #[trigger] s2.template_items[i].global_category_id,
            ) by {
                assert(s.has_global(s.template_items[i].global_category_id));
                let w = choose|w: int|
                    0 <= w < s.global_categories.len()
                        && s.global_categories[w].global_category_id
                        == s.template_items[i].global_category_id;
                assert(s2.global_categories[w].global_category_id
                    == s2.template_items[i].global_category_id);
            }
            assert(s2.wf());
        }
        Ok(returned)
    }

    /// Renames or re-describes a global category. Fails with `NotFound`
    /// exactly when the id does not exist, and with `Conflict` exactly when
    /// some other catalog row already carries the new name; otherwise the
    /// update succeeds. Returns the updated row.
    pub fn update_global_category(&mut self, category_id: i64, args: CreateGlobalCategoryArgs) -> (r:
        Result<GlobalCategory, StoreError>)
        requires
            old(self)@.wf(),
            old(self)@.ready(),
        ensures
            final(self)@.wf(),
            match r {
                Ok(g) => old(self)@.has_global(category_id as int) && final(self)@
                    == update_global_tr(old(self)@, category_id as int, args@) && g@
                    == update_global_patch_fn(args@)(old(self)@.global_of(category_id as int))
                    && !name_taken_by_other(old(self)@, category_id as int, args.name@),
                Err(e) => *final(self) == *old(self) && (e == StoreError::NotFound(
                    EntityKind::GlobalCategory,
                    category_id,
                ) && !old(self)@.has_global(category_id as int) || e == StoreError::Conflict(
                    ConflictKind::GlobalCategoryName,
                ) && old(self)@.has_global(category_id as int) && name_taken_by_other(
                    old(self)@,
                    category_id as int,
                    args.name@,
                )),
            },
    {
        let ghost s = old(self)@;
        let gidx = match self.find_global(category_id) {
            None => {
                return Err(StoreError::NotFound(EntityKind::GlobalCategory, category_id));
            },
            Some(i) => i,
        };
        match self.find_global_by_name(args.name.as_str()) {
            Some(w) => {
                if self.global_categories[w].global_category_id != category_id {
                    proof {
                        assert(s.global_categories[w as int].name == args.name@);
                        assert(s.global_categories[w as int].global_category_id
                            != category_id as int);
                    }
                    return Err(StoreError::Conflict(ConflictKind::GlobalCategoryName));
                }
            },
            None => {},
        }
        proof {
            assert(!name_taken_by_other(s, category_id as int, args.name@)) by {
                if name_taken_by_other(s, category_id as int, args.name@) {
                    let w = choose|i: int|
                        0 <= i < s.global_categories.len()
                            && #[trigger] s.global_categories[i].name == args.name@
                            && s.global_categories[i].global_category_id != category_id as int;
                    assert(s.has_global_name(args.name@));
                }
            }
        }
        proof {
            let j = s.global_index(category_id as int);
            assert(s.global_categories[j].global_category_id == category_id as int);
            assert(j == gidx as int);
            assert(s.global_of(category_id as int) == s.global_categories[gidx as int]);
        }
        let g = &self.global_categories[gidx];
        let rec = GlobalCategory {
            global_category_id: g.global_category_id,
            name: args.name.clone(),
            description: clone_opt_string(&args.description),
            created_at: g.created_at,
        };
        let returned = GlobalCategory {
            global_category_id: g.global_category_id,
            name: args.name,
            description: rec.description.clone(),
            created_at: g.created_at,
        };
        let ghost pf = update_global_patch_fn(args@);
        self.global_categories[gidx] = rec;
        let ghost sp = update_global_tr(s, category_id as int, args@);
        proof {
            assert forall|j: int|
                0 <= j < self@.global_categories.len() implies #[trigger] self@.global_categories[j]
                == sp.global_categories[j] by {
                if j != gidx {
                    assert(s.global_categories[j].global_category_id
                        != s.global_categories[gidx as int].global_category_id);
                }
            }
            assert(self@.global_categories =~= sp.global_categories);
            assert(self@ =~= sp);
            assert(forall|i: int|
                0 <= i < sp.global_categories.len() ==> (
                #[trigger] sp.global_categories[i]).global_category_id
                    == s.global_categories[i].global_category_id);
            assert forall|i: int, j: int|
                0 <= i < j < sp.global_categories.len() implies (
            #[trigger] sp.global_categories[i]).name != (
            #[trigger] sp.global_categories[j]).name by {
                if i != gidx && j != gidx {
                    assert(sp.global_categories[i] == s.global_categories[i]);
                    assert(sp.global_categories[j] == s.global_categories[j]);
                } else if i == gidx {
                    assert(sp.global_categories[j] == s.global_categories[j]);
                    assert(s.global_categories[j].name != args.name@);
                } else {
                    assert(sp.global_categories[i] == s.global_categories[i]);
                    assert(s.global_categories[i].name != args.name@);
                }
            }
            assert forall|i: int|
                0 <= i < sp.template_items.len() implies sp.has_global(
                #[trigger] sp.template_items[i].global_category_id,
            ) by {
                assert(s.has_global(s.template_items[i].global_category_id));
                let w = choose|w: int|
                    0 <= w < s.global_categories.len()
                        && s.global_categories[w].global_category_id
                        == s.template_items[i].global_category_id;
                assert(sp.global_categories[w].global_category_id
                    == sp.template_items[i].global_category_id);
            }
            assert(sp.wf());
        }
        Ok(returned)
    }

    /// Deletes a global category; the template items that referred to it
    /// are removed with it. Fails exactly when the id does not exist.
    pub fn delete_global_category(&mut self, category_id: i64) -> (r: Result<(), StoreError>)
        requires
            old(self)@.wf(),
            old(self)@.ready(),
        ensures
            final(self)@.wf(),
            match r {
                Ok(_) => old(self)@.has_global(category_id as int) && final(self)@
                    == delete_global_tr(old(self)@, category_id as int),
                Err(e) => e == StoreError::NotFound(EntityKind::GlobalCategory, category_id)
                    && !old(self)@.has_global(category_id as int) && *final(self) == *old(self),
            },
    {
        let ghost s = old(self)@;
        let ghost id = category_id as int;
        let gidx = match self.find_global(category_id) {
            None => {
                return Err(StoreError::NotFound(EntityKind::GlobalCategory, category_id));
            },
            Some(i) => i,
        };
        retain_items_not_of_global(&mut self.template_items, category_id);
        self.global_categories.remove(gidx);
        proof {
            broadcast use vstd::seq_lib::group_filter_ensures;

            let s2 = delete_global_tr(s, id);
            assert(s.global_categories[s.global_index(id)].global_category_id == id);
            assert(s.global_index(id) == gidx as int);
            assert(self@.global_categories =~= s.global_categories.remove(gidx as int));
            assert(self@ =~= s2);
            assert forall|i: int, j: int|
                0 <= i < j < s2.global_categories.len() implies (
            #[trigger] s2.global_categories[i]).global_category_id != (
            #[trigger] s2.global_categories[j]).global_category_id && s2.global_categories[i].name
                != s2.global_categories[j].name by {
                let oi: int = if i < gidx { i } else { i + 1 };
                let oj: int = if j < gidx { j } else { j + 1 };
                assert(s2.global_categories[i] == s.global_categories[oi]);
                assert(s2.global_categories[j] == s.global_categories[oj]);
            }
            lemma_filter_distinct_by(
                s.template_items,
                keep_item_global_fn(id),
                |it: TemplateItemV| it.template_category_id,
            );
            lemma_filter_members(s.template_items, keep_item_global_fn(id));
            assert forall|i: int|
                0 <= i < s2.template_items.len() implies s2.has_template(
                #[trigger] s2.template_items[i].template_id,
            ) by {
                let it = s2.template_items[i];
                assert(s.template_items.contains(it));
                let w = choose|w: int| 0 <= w < s.template_items.len() && s.template_items[w] == it;
                assert(s.has_template(it.template_id));
            }
            assert forall|i: int|
                0 <= i < s2.template_items.len() implies s2.has_global(
                #[trigger] s2.template_items[i].global_category_id,
            ) by {
                let it = s2.template_items[i];
                assert(keep_item_global_fn(id)(it));
                assert(it.global_category_id != id);
                assert(s.template_items.contains(it));
                let w = choose|w: int| 0 <= w < s.template_items.len() && s.template_items[w] == it;
                assert(s.has_global(it.global_category_id));
                let wg = choose|wg: int|
                    0 <= wg < s.global_categories.len()
                        && s.global_categories[wg].global_category_id == it.global_category_id;
                assert(wg != gidx);
                let ng: int = if wg < gidx { wg } else { wg - 1 };
                assert(s2.global_categories[ng] == s.global_categories[wg]);
            }
            assert forall|i: int|
                0 <= i < s2.global_categories.len() implies 1 <= (
            #[trigger] s2.global_categories[i]).global_category_id < s2.next_global_id by {
                let oi: int = if i < gidx { i } else { i + 1 };
                assert(s2.global_categories[i] == s.global_categories[oi]);
            }
            assert forall|i: int|
                0 <= i < s2.template_items.len() implies 1 <= (
            #[trigger] s2.template_items[i]).template_category_id < s2.next_item_id by {
                let it = s2.template_items[i];
                assert(s.template_items.contains(it));
                let w = choose|w: int| 0 <= w < s.template_items.len() && s.template_items[w] == it;
                assert(1 <= s.template_items[w].template_category_id < s.next_item_id);
            }
            assert(s2.wf());
        }
        Ok(())
    }
}

/// Drops in place every template item that refers to the given global
/// category.
fn retain_items_not_of_global(v: &mut Vec<crate::types::TemplateItemRecord>, global_id: i64)
    ensures
        crate::store::item_views(final(v)@) == crate::store::item_views(old(v)@).filter(
            keep_item_global_fn(global_id as int),
        ),
{
    let ghost orig = crate::store::item_views(old(v)@);
    let ghost pred = keep_item_global_fn(global_id as int);
    let mut i: usize = 0;
    let ghost mut k: int = 0;
    loop
        invariant
            0 <= k <= orig.len(),
            i as int == orig.take(k).filter(pred).len(),
            crate::store::item_views(v@) == orig.take(k).filter(pred) + orig.skip(k),
            v@.len() == i + (orig.len() - k),
            orig == crate::store::item_views(old(v)@),
            pred == keep_item_global_fn(global_id as int),
        decreases v@.len() - i,
    {
        if i >= v.len() {
            proof {
                assert(orig.take(k) =~= orig);
                assert(crate::store::item_views(v@) =~= orig.filter(pred));
            }
            return;
        }
        let ghost cur = orig[k];
        proof {
            assert(crate::store::item_views(v@)[i as int] == orig.skip(k)[0]);
            assert(cur == v@[i as int]@);
        }
        if v[i].global_category_id != global_id {
            proof {
                assert(pred(cur));
                crate::store::lemma_filter_push(orig.take(k), pred, cur);
                assert(orig.take(k + 1) =~= orig.take(k).push(cur));
                assert(orig.skip(k).drop_first() =~= orig.skip(k + 1));
                assert(crate::store::item_views(v@) =~= orig.take(k + 1).filter(pred) + orig.skip(
                    k + 1,
                ));
                k = k + 1;
            }
            i += 1;
        } else {
            let ghost before = crate::store::item_views(v@);
            v.remove(i);
            proof {
                assert(!pred(cur));
                assert(crate::store::item_views(v@) =~= before.remove(i as int));
                crate::store::lemma_filter_push(orig.take(k), pred, cur);
                assert(orig.take(k + 1) =~= orig.take(k).push(cur));
                assert(orig.skip(k).drop_first() =~= orig.skip(k + 1));
                assert(before.remove(i as int) =~= orig.take(k + 1).filter(pred) + orig.skip(
                    k + 1,
                ));
                k = k + 1;
            }
        }
    }
}

} // verus!
