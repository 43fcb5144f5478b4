//! Structural compatibility of schemas: does every value that one schema
//! accepts also pass another?
//!
//! A schema is spread into clauses, restrictions without combinators whose
//! disjunction it is ([`spreader`]); clauses are merged where combinators
//! ask for a conjunction ([`merger`]) and compared one to one ([`matcher`]).

pub mod literal;
pub mod matcher;
pub mod merger;
pub mod multiple;
pub mod schema;
pub mod spreader;
pub mod unit;

pub use schema::Schema;

use matcher::{is_subtype, subtype, subtype_reflexive, subtype_transitive};
use spreader::{clauses, find_unsupported, expand, or_else, unsupported, Unsupported};
use unit::{views, Unit, UnitView};
use vstd::prelude::*;

verus! {

/// Whether one schema is compatible with another.
#[derive(Debug, Clone, Copy, PartialEq, Eq, Structural)]
pub enum Verdict {
    Success,
    Failure,
}

/// Some clause of `base` admits all that `clause` admits.
pub open spec fn dominated(clause: UnitView, base: Seq<UnitView>) -> bool {
    exists|j: int| 0 <= j < base.len() && is_subtype(clause, #[trigger] base[j])
}

/// Each clause of `derived` is dominated by a clause of `base`. Where this
/// holds, everything that some clause of `derived` admits passes some clause
/// of `base`. It asks for more than that: a clause that only several
/// clauses of `base` together cover is not dominated.
pub open spec fn compatible(derived: Seq<UnitView>, base: Seq<UnitView>) -> bool {
    forall|i: int| 0 <= i < derived.len() ==> dominated(#[trigger] derived[i], base)
}

/// Whether some clause of `base` admits all that `clause` admits.
pub fn is_dominated(clause: &Unit, base: &Vec<Unit>) -> (r: bool)
    ensures
        r == dominated(clause@, views(base@)),
{
    let mut j: usize = 0;
    while j < base.len()
        invariant
            j <= base.len(),
            forall|k: int| 0 <= k < j ==> !is_subtype(clause@, #[trigger] views(base@)[k]),
        decreases base.len() - j,
    {
        if subtype(clause, &base[j]) {
            assert(is_subtype(clause@, views(base@)[j as int]));
            return true;
        }
        j += 1;
    }
    false
}

/// The verdict on two lists of clauses: success where each clause of
/// `derived` is dominated by a clause of `base`.
pub fn check_clauses(derived: &Vec<Unit>, base: &Vec<Unit>) -> (verdict: Verdict)
    ensures
        verdict == Verdict::Success <==> compatible(views(derived@), views(base@)),
{
    let mut i: usize = 0;
    while i < derived.len()
        invariant
            i <= derived.len(),
            forall|k: int| 0 <= k < i ==> dominated(#[trigger] views(derived@)[k], views(base@)),
        decreases derived.len() - i,
    {
        if !is_dominated(&derived[i], base) {
            assert(!dominated(views(derived@)[i as int], views(base@)));
            return Verdict::Failure;
        }
        i += 1;
    }
    Verdict::Success
}

/// Whether `derived` is compatible with `base`: each clause of `derived`
/// must be a subtype of some clause of `base`. Where a schema holds an
/// unsupported construct, the first such construct is named instead, that
/// of `derived` before that of `base`.
pub fn check(derived: Schema, base: Schema) -> (r: Result<Verdict, Unsupported>)
    ensures
        match r {
            Ok(verdict) => {
                &&& unsupported(derived) is None
                &&& unsupported(base) is None
                &&& verdict == Verdict::Success <==> compatible(clauses(derived), clauses(base))
            },
            Err(e) => or_else(unsupported(derived), unsupported(base)) == Some(e),
        },
{
    match find_unsupported(&derived) {
        Some(e) => {
            return Err(e);
        },
        None => {},
    }
    match find_unsupported(&base) {
        Some(e) => {
            return Err(e);
        },
        None => {},
    }
    let derived = expand(&derived);
    let base = expand(&base);
    Ok(check_clauses(&derived, &base))
}

/// A schema without clauses admits nothing, and so is compatible with
/// every schema.
pub proof fn compatible_from_nothing(base: Seq<UnitView>)
    ensures
        compatible(Seq::empty(), base),
{
}

/// Every list of clauses is compatible with itself.
pub proof fn compatible_reflexive(clauses: Seq<UnitView>)
    ensures
        compatible(clauses, clauses),
{
    assert forall|i: int| 0 <= i < clauses.len() implies dominated(
        #[trigger] clauses[i],
        clauses,
    ) by {
        subtype_reflexive(clauses[i]);
    }
}

/// Compatibility carries over a chain: what is compatible with a list of
/// clauses is compatible with all that this list is compatible with.
pub proof fn compatible_transitive(a: Seq<UnitView>, b: Seq<UnitView>, c: Seq<UnitView>)
    requires
        compatible(a, b),
        compatible(b, c),
    ensures
        compatible(a, c),
{
    assert forall|i: int| 0 <= i < a.len() implies dominated(#[trigger] a[i], c) by {
        assert(dominated(a[i], b));
        let j = choose|j: int| 0 <= j < b.len() && is_subtype(a[i], #[trigger] b[j]);
        assert(dominated(b[j], c));
        let k = choose|k: int| 0 <= k < c.len() && is_subtype(b[j], #[trigger] c[k]);
        subtype_transitive(a[i], b[j], c[k]);
    }
}

} // verus!
