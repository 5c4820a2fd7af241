//! One verified sort for every row type that lists in a fixed order.
//!
//! A row type declares its order once — the order itself, its totality and
//! transitivity, and the executable comparison — and the selection sort
//! below delivers a sequence sorted by that order holding exactly the given
//! rows.

use vstd::prelude::*;
use vstd::relations::sorted_by;
use vstd::multiset::Multiset;

verus! {

broadcast use {
    vstd::seq_lib::group_to_multiset_ensures,
    vstd::multiset::group_multiset_axioms,
    vstd::multiset::group_multiset_properties,
};

/// A row type with one fixed listing order over its view.
pub trait StoreOrder: View + Sized {
    /// The listing order.
    spec fn le(a: Self::V, b: Self::V) -> bool;

    /// Any two rows are ordered one way or the other.
    proof fn lemma_total(a: Self::V, b: Self::V)
        ensures
            Self::le(a, b) || Self::le(b, a),
    ;

    /// The order is transitive.
    proof fn lemma_trans(a: Self::V, b: Self::V, c: Self::V)
        requires
            Self::le(a, b),
            Self::le(b, c),
        ensures
            Self::le(a, c),
    ;

    /// Compares two rows by the listing order.
    fn le_exec(&self, other: &Self) -> (r: bool)
        ensures
            r == Self::le(self@, other@),
    ;
}

/// The views of a sequence of rows.
pub open spec fn rec_views<T: View>(v: Seq<T>) -> Seq<T::V> {
    v.map_values(|r: T| r@)
}

/// The listing order as a function, shared by contracts and proofs.
pub open spec fn order_le_fn<T: StoreOrder>() -> spec_fn(T::V, T::V) -> bool {
    |a: T::V, b: T::V| T::le(a, b)
}

/// Sorts rows by their listing order: the result is ordered and holds
/// exactly the given rows.
#[verifier::loop_isolation(false)]
pub fn sort_records<T: StoreOrder>(v: Vec<T>) -> (r: Vec<T>)
    ensures
        sorted_by(rec_views(r@), order_le_fn::<T>()),
        rec_views(r@).to_multiset() == rec_views(v@).to_multiset(),
        r@.len() == v@.len(),
{
    let ghost le = order_le_fn::<T>();
    let ghost orig = rec_views(v@);
    let mut rest = v;
    let mut out: Vec<T> = Vec::new();
    loop
        invariant
            le == order_le_fn::<T>(),
            sorted_by(rec_views(out@), le),
            forall|i: int, j: int|
                0 <= i < out@.len() && 0 <= j < rest@.len() ==> le(
                    #[trigger] rec_views(out@)[i],
                    #[trigger] rec_views(rest@)[j],
                ),
            rec_views(out@).to_multiset().add(rec_views(rest@).to_multiset())
                == orig.to_multiset(),
            out@.len() + rest@.len() == orig.len(),
        decreases rest@.len(),
    {
        if rest.len() == 0 {
            proof {
                assert(rec_views(rest@).len() == 0);
                assert(rec_views(rest@).to_multiset().len() == 0);
                assert(rec_views(rest@).to_multiset() =~= Multiset::<T::V>::empty());
                assert(rec_views(out@).to_multiset() =~= orig.to_multiset());
            }
            return out;
        }
        let ghost rv = rec_views(rest@);
        let mut mi: usize = 0;
        let mut j: usize = 1;
        proof {
            assert(rv[0] == rest@[0]@);
            T::lemma_total(rv[0], rv[0]);
        }
        while j < rest.len()
            invariant
                le == order_le_fn::<T>(),
                mi < j <= rest@.len(),
                rv == rec_views(rest@),
                forall|k: int| 0 <= k < j ==> le(rv[mi as int], #[trigger] rv[k]),
            decreases rest@.len() - j,
        {
            proof {
                assert(rv[j as int] == rest@[j as int]@);
                assert(rv[mi as int] == rest@[mi as int]@);
            }
            if rest[j].le_exec(&rest[mi]) {
                proof {
                    assert(le(rv[j as int], rv[mi as int]));
                    assert forall|k: int| 0 <= k < j + 1 implies le(
                        rv[j as int],
                        #[trigger] rv[k],
                    ) by {
                        if k < j {
                            T::lemma_trans(rv[j as int], rv[mi as int], rv[k]);
                        } else {
                            T::lemma_total(rv[j as int], rv[j as int]);
                        }
                    }
                }
                mi = j;
            } else {
                proof {
                    T::lemma_total(rv[mi as int], rv[j as int]);
                    assert(le(rv[mi as int], rv[j as int]));
                }
            }
            j += 1;
        }
        let ghost x = rv[mi as int];
        let picked = rest.remove(mi);
        proof {
            assert(picked@ == x);
            assert(rec_views(rest@) =~= rv.remove(mi as int));
        }
        let ghost out_before = rec_views(out@);
        out.push(picked);
        proof {
            assert(rec_views(out@) =~= out_before.push(x));
            assert forall|i: int, jj: int|
                0 <= i < jj < rec_views(out@).len() implies le(
                #[trigger] rec_views(out@)[i],
                #[trigger] rec_views(out@)[jj],
            ) by {
                if jj < out_before.len() {
                } else {
                    assert(rec_views(out@)[jj] == x);
                }
            }
            assert forall|i: int, jj: int|
                0 <= i < rec_views(out@).len() && 0 <= jj < rec_views(rest@).len() implies le(
                #[trigger] rec_views(out@)[i],
                #[trigger] rec_views(rest@)[jj],
            ) by {
                let oj: int = if jj < mi { jj } else { jj + 1 };
                assert(rec_views(rest@)[jj] == rv[oj]);
                if i < out_before.len() {
                } else {
                    assert(rec_views(out@)[i] == x);
                }
            }
            assert(rv[mi as int] == x);
            assert(rv.contains(x));
            assert(rv.to_multiset().count(x) > 0);
            assert(out_before.push(x).to_multiset() == out_before.to_multiset().insert(x));
            assert(rv.remove(mi as int).to_multiset() == rv.to_multiset().remove(x));
            assert(out_before.push(x).to_multiset().add(rv.remove(mi as int).to_multiset())
                =~= out_before.to_multiset().add(rv.to_multiset()));
        }
    }
}

} // verus!
