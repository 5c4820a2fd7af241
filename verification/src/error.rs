//! Error taxonomy of the store: an operation either cannot find the row it
//! targets, or would violate a uniqueness rule.

use vstd::prelude::*;
use vstd::string::StringExecFns;

verus! {

/// The kind of row an operation targets.
#[derive(Clone, Copy, Debug, PartialEq, Eq, Structural)]
pub enum EntityKind {
    Budget,
    Category,
    Entry,
    Template,
    GlobalCategory,
}

/// Which uniqueness rule a `Conflict` violated: a duplicate budget carries
/// the occupied (month, year) pair, so the message can name it.
#[derive(Clone, Copy, Debug, PartialEq, Eq, Structural)]
pub enum ConflictKind {
    BudgetPair { month: u8, year: i32 },
    GlobalCategoryName,
}

/// A structured failure returned by every store operation.
///
/// `NotFound` carries the kind of the missing row and the id that was asked
/// for (for soft-deleted ledger entries, the id of the hidden row).
/// `Conflict` reports a uniqueness violation, with what collided: a second
/// budget for the same month and year, or a second global category with the
/// same name.
#[derive(Clone, Copy, Debug, PartialEq, Eq, Structural)]
pub enum StoreError {
    NotFound(EntityKind, i64),
    Conflict(ConflictKind),
}

/// The word a message calls the targeted kind of row.
pub open spec fn kind_label(k: EntityKind) -> Seq<char> {
    match k {
        EntityKind::Budget => "Budget"@,
        EntityKind::Category => "Category"@,
        EntityKind::Entry => "Entry"@,
        EntityKind::Template => "Template"@,
        EntityKind::GlobalCategory => "Global category"@,
    }
}

/// The message an error carries: the missing row's kind and id, or the
/// uniqueness rule that was violated — for a duplicate budget, the occupied
/// month and year, so the failure is actionable and distinguishable from a
/// generic storage fault.
pub open spec fn message_of(e: StoreError) -> Seq<char> {
    match e {
        StoreError::NotFound(k, id) => kind_label(k) + " with ID "@ + crate::text::int_str_of(
            id as int,
        ) + " not found"@,
        StoreError::Conflict(ConflictKind::BudgetPair { month, year }) => "A budget for "@
            + crate::text::int_str_of(month as int) + "/"@ + crate::text::int_str_of(year as int)
            + " already exists. Please choose a different month/year or edit the existing budget."@,
        StoreError::Conflict(ConflictKind::GlobalCategoryName) =>
            "A global category with this name already exists"@,
    }
}

impl StoreError {
    /// Renders the error for a caller, entity ids and the colliding pair
    /// included.
    pub fn message(&self) -> (r: String)
        ensures
            r@ == message_of(*self),
    {
        match self {
            StoreError::NotFound(k, id) => {
                let label: &'static str = match k {
                    EntityKind::Budget => "Budget",
                    EntityKind::Category => "Category",
                    EntityKind::Entry => "Entry",
                    EntityKind::Template => "Template",
                    EntityKind::GlobalCategory => "Global category",
                };
                let mut out = crate::types::clone_string_from(label);
                out.append(" with ID ");
                let idstr = crate::text::int_string(*id);
                out.append(idstr.as_str());
                out.append(" not found");
                proof {
                    assert(out@ =~= message_of(*self));
                }
                out
            },
            StoreError::Conflict(ConflictKind::BudgetPair { month, year }) => {
                let mut out = crate::types::clone_string_from("A budget for ");
                let monthstr = crate::text::int_string(*month as i64);
                out.append(monthstr.as_str());
                out.append("/");
                let yearstr = crate::text::int_string(*year as i64);
                out.append(yearstr.as_str());
                out.append(
                    " already exists. Please choose a different month/year or edit the existing budget.",
                );
                proof {
                    assert(out@ =~= message_of(*self));
                }
                out
            },
            StoreError::Conflict(ConflictKind::GlobalCategoryName) => crate::types::clone_string_from(
                "A global category with this name already exists",
            ),
        }
    }
}

} // verus!
