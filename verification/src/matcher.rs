//! Subtyping of clauses: does everything that one clause admits pass
//! another?

use crate::multiple::{lemma_multiple_reflexive, lemma_multiple_transitive, Multiple};
use crate::schema::Type;
use crate::unit::{lemma_view_tuple, texts, Point, Props, Unit, UnitView};
use serde_json::Value;
use vstd::prelude::*;

verus! {

/// The child holds the literal that the parent asks for.
pub open spec fn within_literal(child: Option<Value>, parent: Option<Value>) -> bool {
    parent matches Some(p) ==> child == Some(p)
}

/// The child's divisor is a whole multiple of the parent's.
pub open spec fn within_multiple(child: Option<Multiple>, parent: Option<Multiple>) -> bool {
    parent matches Some(p) ==> (child matches Some(c) && c.is_multiple_of(p))
}

/// The child's upper bound lies within the parent's.
pub open spec fn within_maximum(child: Option<Point>, parent: Option<Point>) -> bool {
    parent matches Some(p) ==> (child matches Some(c) && c.within_max(p))
}

/// The child's lower bound lies within the parent's.
pub open spec fn within_minimum(child: Option<Point>, parent: Option<Point>) -> bool {
    parent matches Some(p) ==> (child matches Some(c) && c.within_min(p))
}

/// The child's largest count is no larger than the parent's.
pub open spec fn at_most(child: Option<u32>, parent: Option<u32>) -> bool {
    parent matches Some(p) ==> (child matches Some(c) && c <= p)
}

/// The child's smallest count is no smaller than the parent's.
pub open spec fn at_least(child: Option<u32>, parent: Option<u32>) -> bool {
    parent matches Some(p) ==> (child matches Some(c) && c >= p)
}

/// The child has the format that the parent asks for.
pub open spec fn within_format(child: Option<Seq<char>>, parent: Option<Seq<char>>) -> bool {
    parent matches Some(p) ==> child == Some(p)
}

/// The child's type is the parent's, or narrower.
pub open spec fn within_type(child: Option<Type>, parent: Option<Type>) -> bool {
    parent matches Some(p) ==> (child matches Some(c) && c.narrows(p))
}

/// Everything that `child` admits passes `parent`, decided field by field: on
/// each axis the child is at least as strict as the parent.
pub open spec fn is_subtype(child: UnitView, parent: UnitView) -> bool
    decreases parent,
{
    &&& within_literal(child.const_, parent.const_)
    &&& within_multiple(child.multiple_of, parent.multiple_of)
    &&& within_maximum(child.maximum, parent.maximum)
    &&& within_minimum(child.minimum, parent.minimum)
    &&& at_most(child.max_length, parent.max_length)
    &&& at_least(child.min_length, parent.min_length)
    &&& parent.pattern.subset_of(child.pattern)
    &&& (parent.additional_items matches Some(p) ==> (child.additional_items matches Some(c)
        && is_subtype(*c, *p)))
    &&& (parent.items matches Some(p) ==> (child.items matches Some(c) && is_subtype(*c, *p)))
    &&& child.tuple.len() == parent.tuple.len()
    &&& forall|i: int|
        0 <= i < parent.tuple.len() ==> is_subtype(#[trigger] child.tuple[i], parent.tuple[i])
    &&& at_most(child.max_items, parent.max_items)
    &&& at_least(child.min_items, parent.min_items)
    &&& (child.unique_items || !parent.unique_items)
    &&& at_most(child.max_properties, parent.max_properties)
    &&& at_least(child.min_properties, parent.min_properties)
    &&& parent.required.subset_of(child.required)
    &&& (parent.additional_props matches Some(p) ==> (child.additional_props matches Some(c)
        && is_subtype(*c, *p)))
    &&& (parent.property_names matches Some(p) ==> (child.property_names matches Some(c)
        && is_subtype(*c, *p)))
    &&& (parent.contains matches Some(p) ==> (child.contains matches Some(c) && is_subtype(
        *c,
        *p,
    )))
    &&& within_format(child.format, parent.format)
    &&& forall|k: Seq<char>| #[trigger]
        parent.properties.dom().contains(k) ==> child.properties.dom().contains(k) && is_subtype(
            child.properties[k],
            parent.properties[k],
        )
    &&& forall|k: Seq<char>| #[trigger]
        parent.pattern_props.dom().contains(k) ==> child.pattern_props.dom().contains(k)
            && is_subtype(child.pattern_props[k], parent.pattern_props[k])
    &&& within_type(child.type_, parent.type_)
}

/// The rule for a restriction that may be absent: where the parent has one,
/// the child must have one too, and `chk` decides between the two.
pub fn check_opt<T, F: Fn(&T, &T) -> bool>(child: &Option<T>, parent: &Option<T>, chk: F) -> (r:
    bool)
    requires
        child is Some && parent is Some ==> call_requires(chk, (&child->0, &parent->0)),
    ensures
        match (*child, *parent) {
            (Some(c), Some(p)) => call_ensures(chk, (&c, &p), r),
            (None, Some(_)) => !r,
            (_, None) => r,
        },
{
    match (child, parent) {
        (Some(c), Some(p)) => chk(c, p),
        (None, Some(_)) => false,
        _ => true,
    }
}

/// Whether `name` is among `names`.
pub fn has_text(names: &Vec<String>, name: &String) -> (r: bool)
    ensures
        r == texts(names@).contains(name@),
{
    let mut i: usize = 0;
    while i < names.len()
        invariant
            i <= names.len(),
            forall|j: int| 0 <= j < i ==> (#[trigger] names@[j])@ != name@,
        decreases names.len() - i,
    {
        if names[i] == *name {
            return true;
        }
        i += 1;
    }
    false
}

/// Whether `child` names everything that `parent` names.
pub fn is_superset(child: &Vec<String>, parent: &Vec<String>) -> (r: bool)
    ensures
        r == texts(parent@).subset_of(texts(child@)),
{
    let mut i: usize = 0;
    while i < parent.len()
        invariant
            i <= parent.len(),
            forall|j: int| 0 <= j < i ==> texts(child@).contains((#[trigger] parent@[j])@),
        decreases parent.len() - i,
    {
        if !has_text(child, &parent[i]) {
            assert(texts(parent@).contains(parent@[i as int]@));
            return false;
        }
        i += 1;
    }
    true
}

/// Whether everything that `child` admits passes `parent`.
pub fn subtype(child: &Unit, parent: &Unit) -> (r: bool)
    ensures
        r == is_subtype(child@, parent@),
    decreases parent, 0nat,
{
    proof {
        lemma_view_tuple(*child);
        lemma_view_tuple(*parent);
    }
    let same_literal = |c: &Value, p: &Value| -> (r: bool)
        ensures
            r == (*c == *p),
        {
            *c == *p
        };
    let whole_multiple = |c: &Multiple, p: &Multiple| -> (r: bool)
        ensures
            r == c.is_multiple_of(*p),
        {
            c.is_multiple(p)
        };
    let upper_within = |c: &Point, p: &Point| -> (r: bool)
        ensures
            r == c.within_max(*p),
        {
            c.min(*p) == *c
        };
    let lower_within = |c: &Point, p: &Point| -> (r: bool)
        ensures
            r == c.within_min(*p),
        {
            c.max(*p) == *c
        };
    let le = |c: &u32, p: &u32| -> (r: bool)
        ensures
            r == (*c <= *p),
        {
            *c <= *p
        };
    let ge = |c: &u32, p: &u32| -> (r: bool)
        ensures
            r == (*c >= *p),
        {
            *c >= *p
        };
    let same_format = |c: &String, p: &String| -> (r: bool)
        ensures
            r == (c@ == p@),
        {
            *c == *p
        };
    let type_within = |c: &Type, p: &Type| -> (r: bool)
        ensures
            r == c.narrows(*p),
        {
            c.is_within(*p)
        };
    let ghost c = child@;
    let ghost p = parent@;
    proof {
        assert(forall|i: int|
            0 <= i < child.tuple@.len() ==> (#[trigger] c.tuple[i]) == child.tuple@[i]@);
        assert(forall|i: int|
            0 <= i < parent.tuple@.len() ==> (#[trigger] p.tuple[i]) == parent.tuple@[i]@);
        assert(forall|i: int|
            0 <= i < child.tuple@.len() ==> (#[trigger] child.tuple@[i])@ == c.tuple[i]);
        assert(child.properties@ == c.properties && parent.properties@ == p.properties);
        assert(child.pattern_props@ == c.pattern_props && parent.pattern_props@
            == p.pattern_props);
    }
    check_opt(&child.const_, &parent.const_, same_literal)
        && check_opt(&child.multiple_of, &parent.multiple_of, whole_multiple)
        && check_opt(&child.maximum, &parent.maximum, upper_within)
        && check_opt(&child.minimum, &parent.minimum, lower_within)
        && check_opt(&child.max_length, &parent.max_length, le)
        && check_opt(&child.min_length, &parent.min_length, ge)
        && is_superset(&child.pattern, &parent.pattern)
        && check_nested(&child.additional_items, &parent.additional_items)
        && check_nested(&child.items, &parent.items)
        && check_tuple(&child.tuple, &parent.tuple)
        && check_opt(&child.max_items, &parent.max_items, le)
        && check_opt(&child.min_items, &parent.min_items, ge)
        && (child.unique_items || !parent.unique_items)
        && check_opt(&child.max_properties, &parent.max_properties, le)
        && check_opt(&child.min_properties, &parent.min_properties, ge)
        && is_superset(&child.required, &parent.required)
        && check_nested(&child.additional_props, &parent.additional_props)
        && check_nested(&child.property_names, &parent.property_names)
        && check_nested(&child.contains, &parent.contains)
        && check_opt(&child.format, &parent.format, same_format)
        && check_props(&child.properties, &parent.properties)
        && check_props(&child.pattern_props, &parent.pattern_props)
        && check_opt(&child.type_, &parent.type_, type_within)
}

/// Subtyping of two boxed clauses.
pub fn subtype_box(child: &Box<Unit>, parent: &Box<Unit>) -> (r: bool)
    ensures
        r == is_subtype(child@, parent@),
    decreases parent, 1nat,
{
    subtype(&**child, &**parent)
}

/// The rule for a nested clause: where the parent has one, the child has
/// one too, and it is a subtype of the parent's.
pub fn check_nested(child: &Option<Box<Unit>>, parent: &Option<Box<Unit>>) -> (r: bool)
    ensures
        r == (parent matches Some(p) ==> (child matches Some(c) && is_subtype(c@, p@))),
    decreases parent, 1nat,
{
    match (child, parent) {
        (Some(c), Some(p)) => subtype_box(c, p),
        (None, Some(_)) => false,
        _ => true,
    }
}

/// The rule for positional clauses: as many on both sides, and each of the
/// child's a subtype of the parent's at its position.
pub fn check_tuple(child: &Vec<Unit>, parent: &Vec<Unit>) -> (r: bool)
    ensures
        r == (child.len() == parent.len() && forall|i: int|
            0 <= i < parent.len() ==> is_subtype((#[trigger] child@[i])@, parent@[i]@)),
    decreases parent, 1nat,
{
    if child.len() != parent.len() {
        return false;
    }
    let mut i: usize = 0;
    while i < parent.len()
        invariant
            i <= parent.len(),
            child.len() == parent.len(),
            forall|j: int| 0 <= j < i ==> is_subtype((#[trigger] child@[j])@, parent@[j]@),
        decreases parent.len() - i,
    {
        if !subtype(&child[i], &parent[i]) {
            return false;
        }
        i += 1;
    }
    true
}

/// The rule for named clauses: each name of the parent is a name of the
/// child, and maps there to a subtype of what it maps to in the parent.
pub fn check_props(child: &Props, parent: &Props) -> (r: bool)
    ensures
        r == (forall|k: Seq<char>| #[trigger]
            parent@.dom().contains(k) ==> child@.dom().contains(k) && is_subtype(
                child@[k],
                parent@[k],
            )),
    decreases parent, 1nat,
{
    let n = parent.len();
    let mut i: usize = 0;
    while i < n
        invariant
            i <= n,
            n == parent.entries().len(),
            forall|j: int|
                0 <= j < i ==> child@.dom().contains((#[trigger] parent.entries()[j]).0@)
                    && parent@.dom().contains(parent.entries()[j].0@) && is_subtype(
                    child@[parent.entries()[j].0@],
                    parent@[parent.entries()[j].0@],
                ),
        decreases n - i,
    {
        let key = parent.key_at(i);
        let p = parent.unit_at(i);
        match child.get(key) {
            Some(c) => {
                if !subtype(c, p) {
                    return false;
                }
            },
            None => {
                return false;
            },
        }
        i += 1;
    }
    proof {
        crate::unit::lemma_props_view(*parent);
        assert forall|k: Seq<char>| #[trigger] parent@.dom().contains(k) implies child@.dom().contains(
            k,
        ) && is_subtype(child@[k], parent@[k]) by {
            let j = crate::unit::index_of(parent.entries(), k);
            assert(parent.entries()[j].0@ == k);
        }
    }
    true
}

/// Every clause is a subtype of itself.
pub proof fn subtype_reflexive(c: UnitView)
    ensures
        is_subtype(c, c),
    decreases c,
{
    if c.multiple_of is Some {
        lemma_multiple_reflexive(c.multiple_of->0);
    }
    if c.additional_items is Some {
        subtype_reflexive(*c.additional_items->0);
    }
    if c.items is Some {
        subtype_reflexive(*c.items->0);
    }
    if c.additional_props is Some {
        subtype_reflexive(*c.additional_props->0);
    }
    if c.property_names is Some {
        subtype_reflexive(*c.property_names->0);
    }
    if c.contains is Some {
        subtype_reflexive(*c.contains->0);
    }
    assert forall|i: int| 0 <= i < c.tuple.len() implies is_subtype(
        #[trigger] c.tuple[i],
        c.tuple[i],
    ) by {
        subtype_reflexive(c.tuple[i]);
    }
    assert forall|k: Seq<char>| #[trigger] c.properties.dom().contains(k) implies is_subtype(
        c.properties[k],
        c.properties[k],
    ) by {
        subtype_reflexive(c.properties[k]);
    }
    assert forall|k: Seq<char>| #[trigger] c.pattern_props.dom().contains(k) implies is_subtype(
        c.pattern_props[k],
        c.pattern_props[k],
    ) by {
        subtype_reflexive(c.pattern_props[k]);
    }
}

/// A subtype of a subtype is a subtype.
pub proof fn subtype_transitive(a: UnitView, b: UnitView, c: UnitView)
    requires
        is_subtype(a, b),
        is_subtype(b, c),
    ensures
        is_subtype(a, c),
    decreases c,
{
    if c.multiple_of is Some {
        lemma_multiple_transitive(a.multiple_of->0, b.multiple_of->0, c.multiple_of->0);
    }
    if c.additional_items is Some {
        subtype_transitive(
            *a.additional_items->0,
            *b.additional_items->0,
            *c.additional_items->0,
        );
    }
    if c.items is Some {
        subtype_transitive(*a.items->0, *b.items->0, *c.items->0);
    }
    if c.additional_props is Some {
        subtype_transitive(
            *a.additional_props->0,
            *b.additional_props->0,
            *c.additional_props->0,
        );
    }
    if c.property_names is Some {
        subtype_transitive(*a.property_names->0, *b.property_names->0, *c.property_names->0);
    }
    if c.contains is Some {
        subtype_transitive(*a.contains->0, *b.contains->0, *c.contains->0);
    }
    assert forall|i: int| 0 <= i < c.tuple.len() implies is_subtype(
        #[trigger] a.tuple[i],
        c.tuple[i],
    ) by {
        assert(is_subtype(b.tuple[i], c.tuple[i]));
        subtype_transitive(a.tuple[i], b.tuple[i], c.tuple[i]);
    }
    assert forall|k: Seq<char>| #[trigger]
        c.properties.dom().contains(k) implies a.properties.dom().contains(k) && is_subtype(
        a.properties[k],
        c.properties[k],
    ) by {
        assert(b.properties.dom().contains(k));
        subtype_transitive(a.properties[k], b.properties[k], c.properties[k]);
    }
    assert forall|k: Seq<char>| #[trigger]
        c.pattern_props.dom().contains(k) implies a.pattern_props.dom().contains(k)
        && is_subtype(a.pattern_props[k], c.pattern_props[k]) by {
        assert(b.pattern_props.dom().contains(k));
        subtype_transitive(a.pattern_props[k], b.pattern_props[k], c.pattern_props[k]);
    }
}

/// The clause that restricts nothing is a supertype of every clause that
/// has no positional clauses. (One that has them differs from it in the
/// number of positions, which must agree.)
pub proof fn unconstrained_is_top(c: UnitView)
    requires
        c.tuple.len() == 0,
    ensures
        is_subtype(c, UnitView::unconstrained()),
{
}

/// Raising an upper bound loosens a clause: with the position moved from
/// `x` to some `y` at or above it, and the endpoint admitted or left out as
/// before, the clause with `x` is a subtype of the clause with `y`.
pub proof fn maximum_monotone(c: UnitView, x: Point, y: Point)
    requires
        x.value <= y.value,
        x.inclusive == y.inclusive,
    ensures
        is_subtype(
            (UnitView { maximum: Some(x), ..c }),
            (UnitView { maximum: Some(y), ..c }),
        ),
{
    subtype_reflexive(c);
    let lo = UnitView { maximum: Some(x), ..c };
    let hi = UnitView { maximum: Some(y), ..c };
    assert forall|i: int| 0 <= i < hi.tuple.len() implies is_subtype(
        #[trigger] lo.tuple[i],
        hi.tuple[i],
    ) by {
        assert(is_subtype(c.tuple[i], c.tuple[i]));
    }
}

} // verus!
