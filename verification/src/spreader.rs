//! Normalization: a schema with combinators, spread into the clauses whose
//! disjunction it is.

use crate::merger::{can_merge, merge_in_place, merged};
use crate::schema::{Dependency, Items, Restrictions, Schema, Type, Types};
use crate::unit::{clone_texts, texts, views, Point, Props, Unit, UnitView};
use serde_json::Value;
use vstd::prelude::*;

verus! {

/// A construct that normalization does not take.
#[derive(Debug, Clone, Copy, PartialEq, Eq, Structural)]
pub enum Unsupported {
    /// A schema that is just `true` or `false`.
    Boolean,
    /// `oneOf`.
    OneOf,
    /// `not`.
    Not,
    /// `items` with one schema per position.
    TupleItems,
    /// A dependency on a schema.
    Dependency,
}

/// The first of two findings.
pub open spec fn or_else(first: Option<Unsupported>, second: Option<Unsupported>) -> Option<
    Unsupported,
> {
    if first is Some {
        first
    } else {
        second
    }
}

/// Some dependency, among the first `n`, is on a schema.
pub open spec fn depends_on_schema(entries: Seq<(String, Dependency)>, n: nat) -> bool {
    exists|i: int| 0 <= i < n && i < entries.len() && (#[trigger] entries[i]).1 is Schema
}

/// The first unsupported construct of a schema, if it has any. A node is
/// looked at before the schemas below it: a boolean schema, `oneOf`, `not`,
/// positional `items` and a dependency on a schema, in this order; then
/// the schemas below, in the order in which they are spread.
pub open spec fn unsupported(schema: Schema) -> Option<Unsupported>
    decreases schema, 0nat,
{
    match schema {
        Schema::Simple(_) => Some(Unsupported::Boolean),
        Schema::Complex(res) => {
            if res.one_of is Some {
                Some(Unsupported::OneOf)
            } else if res.not is Some {
                Some(Unsupported::Not)
            } else if res.items matches Some(Items::Tuple(_)) {
                Some(Unsupported::TupleItems)
            } else if res.dependencies matches Some(deps) && depends_on_schema(
                deps@,
                deps@.len(),
            ) {
                Some(Unsupported::Dependency)
            } else {
                or_else(
                    unsupported_opt(res.additional_items),
                    or_else(
                        unsupported_opt(res.additional_properties),
                        or_else(
                            unsupported_opt(res.property_names),
                            or_else(
                                unsupported_opt(res.contains),
                                or_else(
                                    unsupported_items(res.items),
                                    or_else(
                                        unsupported_map(res.properties),
                                        or_else(
                                            unsupported_map(res.pattern_properties),
                                            or_else(
                                                unsupported_list(res.any_of),
                                                unsupported_list(res.all_of),
                                            ),
                                        ),
                                    ),
                                ),
                            ),
                        ),
                    ),
                )
            }
        },
    }
}

/// The first unsupported construct of a schema that may be absent.
pub open spec fn unsupported_opt(schema: Option<Schema>) -> Option<Unsupported>
    decreases schema, 1nat,
{
    match schema {
        Some(s) => unsupported(s),
        None => None,
    }
}

/// The first unsupported construct of an `items` schema.
pub open spec fn unsupported_items(items: Option<Items>) -> Option<Unsupported>
    decreases items, 1nat,
{
    match items {
        Some(Items::Array(s)) => unsupported(s),
        _ => None,
    }
}

/// The first unsupported construct among the first `n` schemas of a list.
pub open spec fn unsupported_among(schemas: Seq<Schema>, n: nat) -> Option<Unsupported>
    decreases schemas, n,
{
    if n == 0 || n > schemas.len() {
        None
    } else {
        or_else(unsupported_among(schemas, (n - 1) as nat), unsupported(schemas[n - 1]))
    }
}

/// The first unsupported construct of a list of schemas that may be absent.
pub open spec fn unsupported_list(schemas: Option<Vec<Schema>>) -> Option<Unsupported>
    decreases schemas, 1nat,
{
    match schemas {
        Some(list) => unsupported_among(list@, list@.len()),
        None => None,
    }
}

/// The first unsupported construct among the first `n` named schemas.
pub open spec fn unsupported_named(entries: Seq<(String, Schema)>, n: nat) -> Option<Unsupported>
    decreases entries, n,
{
    if n == 0 || n > entries.len() {
        None
    } else {
        or_else(unsupported_named(entries, (n - 1) as nat), unsupported(entries[n - 1].1))
    }
}

/// The first unsupported construct of named schemas that may be absent.
pub open spec fn unsupported_map(entries: Option<Vec<(String, Schema)>>) -> Option<Unsupported>
    decreases entries, 1nat,
{
    match entries {
        Some(list) => unsupported_named(list@, list@.len()),
        None => None,
    }
}

/// One way to fill one axis of a clause.
pub enum Choice {
    Type(Type),
    Const(Value),
    AdditionalItems(UnitView),
    AdditionalProps(UnitView),
    PropertyNames(UnitView),
    Contains(UnitView),
    Items(UnitView),
    Properties(Map<Seq<char>, UnitView>),
    PatternProps(Map<Seq<char>, UnitView>),
}

/// The clause `unit` with one axis filled as `choice` says. What the axis
/// held before is replaced.
pub open spec fn chosen(unit: UnitView, choice: Choice) -> UnitView {
    match choice {
        Choice::Type(t) => UnitView { type_: Some(t), ..unit },
        Choice::Const(v) => UnitView { const_: Some(v), ..unit },
        Choice::AdditionalItems(u) => UnitView { additional_items: Some(Box::new(u)), ..unit },
        Choice::AdditionalProps(u) => UnitView { additional_props: Some(Box::new(u)), ..unit },
        Choice::PropertyNames(u) => UnitView { property_names: Some(Box::new(u)), ..unit },
        Choice::Contains(u) => UnitView { contains: Some(Box::new(u)), ..unit },
        Choice::Items(u) => UnitView { items: Some(Box::new(u)), ..unit },
        Choice::Properties(m) => UnitView { properties: m, ..unit },
        Choice::PatternProps(m) => UnitView { pattern_props: m, ..unit },
    }
}

/// `unit` with each of the first `n` choices, in order.
pub open spec fn row(unit: UnitView, choices: Seq<Choice>, n: nat) -> Seq<UnitView>
    decreases n,
{
    if n == 0 || n > choices.len() {
        Seq::empty()
    } else {
        row(unit, choices, (n - 1) as nat).push(chosen(unit, choices[n - 1]))
    }
}

/// Each of the first `m` clauses with each choice: the clauses in order, and
/// for each clause the choices in order.
pub open spec fn cross(units: Seq<UnitView>, m: nat, choices: Seq<Choice>) -> Seq<UnitView>
    decreases m,
{
    if m == 0 || m > units.len() {
        Seq::empty()
    } else {
        cross(units, (m - 1) as nat, choices) + row(units[m - 1], choices, choices.len())
    }
}

/// One axis spread over a list of clauses: each clause with each choice, or
/// the clauses as they are where there is no choice.
pub open spec fn spread_each(units: Seq<UnitView>, choices: Seq<Choice>) -> Seq<UnitView> {
    if choices.len() == 0 {
        units
    } else {
        cross(units, units.len(), choices)
    }
}

/// `outer` merged with each of the first `n` clauses of `inner`, in order,
/// leaving out those with which it cannot be merged. With `into_outer` the
/// clause of `inner` is merged into `outer`, else `outer` into it.
pub open spec fn merge_row(outer: UnitView, inner: Seq<UnitView>, n: nat, into_outer: bool) -> Seq<
    UnitView,
>
    decreases n,
{
    if n == 0 || n > inner.len() {
        Seq::empty()
    } else {
        let rest = merge_row(outer, inner, (n - 1) as nat, into_outer);
        let dst = if into_outer {
            outer
        } else {
            inner[n - 1]
        };
        let src = if into_outer {
            inner[n - 1]
        } else {
            outer
        };
        if can_merge(dst, src) {
            rest.push(merged(dst, src))
        } else {
            rest
        }
    }
}

/// Each of the first `m` clauses of `outer` merged with each clause of
/// `inner`: the outer clauses in order, for each the inner ones in order,
/// leaving out the pairs that cannot be merged.
pub open spec fn merge_cross(
    outer: Seq<UnitView>,
    m: nat,
    inner: Seq<UnitView>,
    into_outer: bool,
) -> Seq<UnitView>
    decreases m,
{
    if m == 0 || m > outer.len() {
        Seq::empty()
    } else {
        merge_cross(outer, (m - 1) as nat, inner, into_outer) + merge_row(
            outer[m - 1],
            inner,
            inner.len(),
            into_outer,
        )
    }
}

/// `map` with `key` mapped to each of the first `n` clauses, in order.
pub open spec fn insert_row(
    map: Map<Seq<char>, UnitView>,
    key: Seq<char>,
    units: Seq<UnitView>,
    n: nat,
) -> Seq<Map<Seq<char>, UnitView>>
    decreases n,
{
    if n == 0 || n > units.len() {
        Seq::empty()
    } else {
        insert_row(map, key, units, (n - 1) as nat).push(map.insert(key, units[n - 1]))
    }
}

/// Each of the first `m` maps with `key` mapped to each clause.
pub open spec fn insert_cross(
    maps: Seq<Map<Seq<char>, UnitView>>,
    m: nat,
    key: Seq<char>,
    units: Seq<UnitView>,
) -> Seq<Map<Seq<char>, UnitView>>
    decreases m,
{
    if m == 0 || m > maps.len() {
        Seq::empty()
    } else {
        insert_cross(maps, (m - 1) as nat, key, units) + insert_row(
            maps[m - 1],
            key,
            units,
            units.len(),
        )
    }
}

/// An upper bound from its inclusive and its exclusive form: the tighter
/// where both are given.
pub open spec fn upper_bound(inclusive: Option<i64>, exclusive: Option<i64>) -> Option<Point> {
    match (inclusive, exclusive) {
        (Some(i), Some(e)) => Some(
            (Point { value: i, inclusive: true }).tighten_max(Point { value: e, inclusive: false }),
        ),
        (Some(i), None) => Some(Point { value: i, inclusive: true }),
        (None, Some(e)) => Some(Point { value: e, inclusive: false }),
        (None, None) => None,
    }
}

/// A lower bound from its inclusive and its exclusive form: the tighter
/// where both are given.
pub open spec fn lower_bound(inclusive: Option<i64>, exclusive: Option<i64>) -> Option<Point> {
    match (inclusive, exclusive) {
        (Some(i), Some(e)) => Some(
            (Point { value: i, inclusive: true }).tighten_min(Point { value: e, inclusive: false }),
        ),
        (Some(i), None) => Some(Point { value: i, inclusive: true }),
        (None, Some(e)) => Some(Point { value: e, inclusive: false }),
        (None, None) => None,
    }
}

/// The clause that a node's own restrictions make, its combinators and
/// nested schemas left aside.
pub open spec fn base(res: Restrictions) -> UnitView {
    UnitView {
        const_: res.const_,
        multiple_of: res.multiple_of,
        maximum: upper_bound(res.maximum, res.exclusive_maximum),
        minimum: lower_bound(res.minimum, res.exclusive_minimum),
        max_length: res.max_length,
        min_length: res.min_length,
        pattern: match res.pattern {
            Some(p) => texts(seq![p]),
            None => Set::empty(),
        },
        max_items: res.max_items,
        min_items: res.min_items,
        unique_items: res.unique_items == Some(true),
        max_properties: res.max_properties,
        min_properties: res.min_properties,
        required: match res.required {
            Some(names) => texts(names@),
            None => Set::empty(),
        },
        format: match res.format {
            Some(f) => Some(f@),
            None => None,
        },
        type_: match res.type_ {
            Some(Types::One(t)) => Some(t),
            _ => None,
        },
        ..UnitView::unconstrained()
    }
}

/// The choices of a `type` restriction that names several types.
pub open spec fn type_choices(types: Option<Types>) -> Seq<Choice> {
    match types {
        Some(Types::Any(list)) => Seq::new(list@.len(), |i: int| Choice::Type(list@[i])),
        _ => Seq::empty(),
    }
}

/// The choices of an `enum` restriction: one literal each.
pub open spec fn const_choices(literals: Option<Vec<Value>>) -> Seq<Choice> {
    match literals {
        Some(list) => Seq::new(list@.len(), |i: int| Choice::Const(list@[i])),
        None => Seq::empty(),
    }
}

/// The clauses of a schema: the schema admits what some clause of the list
/// admits.
///
/// The node's own restrictions make one clause. Each axis that offers
/// choices (several types, the literals of `enum`, the clauses of a nested
/// schema, the ways to pick one clause per property) multiplies the list:
/// each clause with each choice. Then come `anyOf`, whose branches'
/// clauses are each merged with each clause so far, and `allOf`, branch by
/// branch; a pair that cannot be merged is left out. A schema that
/// [`unsupported`] finds wanting has its unsupported parts passed over.
pub open spec fn clauses(schema: Schema) -> Seq<UnitView>
    decreases schema, 0nat,
{
    match schema {
        Schema::Simple(_) => Seq::empty(),
        Schema::Complex(res) => {
            let s = seq![base(*res)];
            let s = spread_each(s, type_choices(res.type_));
            let s = spread_each(s, const_choices(res.enum_));
            let a = clauses_opt(res.additional_items);
            let s = spread_each(s, Seq::new(a.len(), |i: int| Choice::AdditionalItems(a[i])));
            let a = clauses_opt(res.additional_properties);
            let s = spread_each(s, Seq::new(a.len(), |i: int| Choice::AdditionalProps(a[i])));
            let a = clauses_opt(res.property_names);
            let s = spread_each(s, Seq::new(a.len(), |i: int| Choice::PropertyNames(a[i])));
            let a = clauses_opt(res.contains);
            let s = spread_each(s, Seq::new(a.len(), |i: int| Choice::Contains(a[i])));
            let a = clauses_items(res.items);
            let s = spread_each(s, Seq::new(a.len(), |i: int| Choice::Items(a[i])));
            let m = maps_opt(res.properties);
            let s = spread_each(s, Seq::new(m.len(), |i: int| Choice::Properties(m[i])));
            let m = maps_opt(res.pattern_properties);
            let s = spread_each(s, Seq::new(m.len(), |i: int| Choice::PatternProps(m[i])));
            let s = with_any_of(s, res.any_of);
            let s = with_all_of(s, res.all_of);
            s
        },
    }
}

/// The clauses of a schema that may be absent: none where it is.
pub open spec fn clauses_opt(schema: Option<Schema>) -> Seq<UnitView>
    decreases schema, 1nat,
{
    match schema {
        Some(s) => clauses(s),
        None => Seq::empty(),
    }
}

/// The clauses of an `items` schema: none where it is absent or positional.
pub open spec fn clauses_items(items: Option<Items>) -> Seq<UnitView>
    decreases items, 1nat,
{
    match items {
        Some(Items::Array(s)) => clauses(s),
        _ => Seq::empty(),
    }
}

/// The clauses of the first `n` schemas of a list, one schema's after
/// another's.
pub open spec fn clauses_among(schemas: Seq<Schema>, n: nat) -> Seq<UnitView>
    decreases schemas, n,
{
    if n == 0 || n > schemas.len() {
        Seq::empty()
    } else {
        clauses_among(schemas, (n - 1) as nat) + clauses(schemas[n - 1])
    }
}

/// The ways to pick one clause for each of the first `n` named schemas, as
/// maps from the names: the last name's clauses change fastest. A name
/// that comes twice maps to the clause picked at its last place.
pub open spec fn maps_among(entries: Seq<(String, Schema)>, n: nat) -> Seq<
    Map<Seq<char>, UnitView>,
>
    decreases entries, n,
{
    if n == 0 || n > entries.len() {
        seq![Map::empty()]
    } else {
        let before = maps_among(entries, (n - 1) as nat);
        insert_cross(before, before.len(), entries[n - 1].0@, clauses(entries[n - 1].1))
    }
}

/// The ways to pick one clause per named schema: none where the names are
/// absent.
pub open spec fn maps_opt(entries: Option<Vec<(String, Schema)>>) -> Seq<Map<Seq<char>, UnitView>>
    decreases entries, 1nat,
{
    match entries {
        Some(list) => maps_among(list@, list@.len()),
        None => Seq::empty(),
    }
}

/// `anyOf` folded in: where it has branches, each clause so far is merged
/// into each clause of each branch.
pub open spec fn with_any_of(units: Seq<UnitView>, schemas: Option<Vec<Schema>>) -> Seq<UnitView>
    decreases schemas, 1nat,
{
    match schemas {
        Some(list) => if list@.len() == 0 {
            units
        } else {
            merge_cross(units, units.len(), clauses_among(list@, list@.len()), false)
        },
        None => units,
    }
}

/// The first `n` branches of `allOf` folded in, one after another: each
/// clause of a branch is merged into each clause so far.
pub open spec fn all_of_among(units: Seq<UnitView>, schemas: Seq<Schema>, n: nat) -> Seq<UnitView>
    decreases schemas, n,
{
    if n == 0 || n > schemas.len() {
        units
    } else {
        let before = all_of_among(units, schemas, (n - 1) as nat);
        merge_cross(before, before.len(), clauses(schemas[n - 1]), true)
    }
}

/// `allOf` folded in.
pub open spec fn with_all_of(units: Seq<UnitView>, schemas: Option<Vec<Schema>>) -> Seq<UnitView>
    decreases schemas, 1nat,
{
    match schemas {
        Some(list) => all_of_among(units, list@, list@.len()),
        None => units,
    }
}

/// An axis with choices multiplies the number of clauses by the number of
/// choices; merging can only leave pairs out.
pub proof fn lemma_product_sizes(
    units: Seq<UnitView>,
    choices: Seq<Choice>,
    inner: Seq<UnitView>,
    into_outer: bool,
)
    ensures
        cross(units, units.len(), choices).len() == units.len() * choices.len(),
        merge_cross(units, units.len(), inner, into_outer).len() <= units.len() * inner.len(),
{
    lemma_cross_len(units, units.len(), choices);
    lemma_merge_cross_len(units, units.len(), inner, into_outer);
}

/// A clause with its first `n` choices makes `n` clauses.
proof fn lemma_row_len(unit: UnitView, choices: Seq<Choice>, n: nat)
    requires
        n <= choices.len(),
    ensures
        row(unit, choices, n).len() == n,
    decreases n,
{
    if n > 0 {
        lemma_row_len(unit, choices, (n - 1) as nat);
    }
}

/// The first `m` clauses with each choice make `m` times as many as there
/// are choices.
proof fn lemma_cross_len(units: Seq<UnitView>, m: nat, choices: Seq<Choice>)
    requires
        m <= units.len(),
    ensures
        cross(units, m, choices).len() == m * choices.len(),
    decreases m,
{
    if m > 0 {
        lemma_cross_len(units, (m - 1) as nat, choices);
        lemma_row_len(units[m - 1], choices, choices.len());
        assert((m - 1) * choices.len() + choices.len() == m * choices.len())
            by (nonlinear_arith);
    } else {
        assert(0 * choices.len() == 0);
    }
}

/// A clause merged with `n` others makes `n` clauses at most.
proof fn lemma_merge_row_len(outer: UnitView, inner: Seq<UnitView>, n: nat, into_outer: bool)
    requires
        n <= inner.len(),
    ensures
        merge_row(outer, inner, n, into_outer).len() <= n,
    decreases n,
{
    if n > 0 {
        lemma_merge_row_len(outer, inner, (n - 1) as nat, into_outer);
    }
}

/// The first `m` clauses merged with each of `inner` make `m` times as
/// many as `inner` holds at most.
proof fn lemma_merge_cross_len(
    outer: Seq<UnitView>,
    m: nat,
    inner: Seq<UnitView>,
    into_outer: bool,
)
    requires
        m <= outer.len(),
    ensures
        merge_cross(outer, m, inner, into_outer).len() <= m * inner.len(),
    decreases m,
{
    if m > 0 {
        lemma_merge_cross_len(outer, (m - 1) as nat, inner, into_outer);
        lemma_merge_row_len(outer[m - 1], inner, inner.len(), into_outer);
        assert((m - 1) * inner.len() + inner.len() == m * inner.len()) by (nonlinear_arith);
    } else {
        assert(0 * inner.len() == 0);
    }
}

/// Whether some dependency is on a schema.
pub fn has_schema_dependency(entries: &Vec<(String, Dependency)>) -> (r: bool)
    ensures
        r == depends_on_schema(entries@, entries@.len()),
{
    let mut i: usize = 0;
    while i < entries.len()
        invariant
            i <= entries.len(),
            !depends_on_schema(entries@, i as nat),
        decreases entries.len() - i,
    {
        match &entries[i].1 {
            Dependency::Schema(_) => {
                return true;
            },
            Dependency::Property(_) => {},
        }
        i += 1;
    }
    false
}

/// The first unsupported construct of a schema, if it has any.
pub fn find_unsupported(schema: &Schema) -> (r: Option<Unsupported>)
    ensures
        r == unsupported(*schema),
    decreases schema, 0nat,
{
    match schema {
        Schema::Simple(_) => Some(Unsupported::Boolean),
        Schema::Complex(res) => {
            if res.one_of.is_some() {
                return Some(Unsupported::OneOf);
            }
            if res.not.is_some() {
                return Some(Unsupported::Not);
            }
            match &res.items {
                Some(Items::Tuple(_)) => {
                    return Some(Unsupported::TupleItems);
                },
                _ => {},
            }
            match &res.dependencies {
                Some(deps) => {
                    if has_schema_dependency(deps) {
                        return Some(Unsupported::Dependency);
                    }
                },
                None => {},
            }
            let found = find_in_opt(&res.additional_items);
            if found.is_some() {
                return found;
            }
            let found = find_in_opt(&res.additional_properties);
            if found.is_some() {
                return found;
            }
            let found = find_in_opt(&res.property_names);
            if found.is_some() {
                return found;
            }
            let found = find_in_opt(&res.contains);
            if found.is_some() {
                return found;
            }
            let found = find_in_items(&res.items);
            if found.is_some() {
                return found;
            }
            let found = find_in_map(&res.properties);
            if found.is_some() {
                return found;
            }
            let found = find_in_map(&res.pattern_properties);
            if found.is_some() {
                return found;
            }
            let found = find_in_list(&res.any_of);
            if found.is_some() {
                return found;
            }
            find_in_list(&res.all_of)
        },
    }
}

/// The first unsupported construct of a schema that may be absent.
fn find_in_opt(schema: &Option<Schema>) -> (r: Option<Unsupported>)
    ensures
        r == unsupported_opt(*schema),
    decreases schema, 1nat,
{
    match schema {
        Some(s) => find_unsupported(s),
        None => None,
    }
}

/// The first unsupported construct of an `items` schema.
fn find_in_items(items: &Option<Items>) -> (r: Option<Unsupported>)
    ensures
        r == unsupported_items(*items),
    decreases items, 1nat,
{
    match items {
        Some(Items::Array(s)) => find_unsupported(s),
        _ => None,
    }
}

/// The first unsupported construct of a list of schemas that may be absent.
fn find_in_list(schemas: &Option<Vec<Schema>>) -> (r: Option<Unsupported>)
    ensures
        r == unsupported_list(*schemas),
    decreases schemas, 1nat,
{
    match schemas {
        Some(list) => {
            let mut i: usize = 0;
            while i < list.len()
                invariant
                    i <= list.len(),
                    *schemas == Some(*list),
                    unsupported_among(list@, i as nat) is None,
                decreases list.len() - i,
            {
                proof {
                    vstd::std_specs::vec::axiom_vec_index_decreases(*list, i as int);
                }
                let found = find_unsupported(&list[i]);
                if found.is_some() {
                    proof {
                        lemma_found_among(list@, i as nat, list@.len());
                    }
                    return found;
                }
                i += 1;
            }
            None
        },
        None => None,
    }
}

/// The first unsupported construct of named schemas that may be absent.
fn find_in_map(entries: &Option<Vec<(String, Schema)>>) -> (r: Option<Unsupported>)
    ensures
        r == unsupported_map(*entries),
    decreases entries, 1nat,
{
    match entries {
        Some(list) => {
            let mut i: usize = 0;
            while i < list.len()
                invariant
                    i <= list.len(),
                    *entries == Some(*list),
                    unsupported_named(list@, i as nat) is None,
                decreases list.len() - i,
            {
                proof {
                    vstd::std_specs::vec::axiom_vec_index_decreases(*list, i as int);
                }
                let found = find_unsupported(&list[i].1);
                if found.is_some() {
                    proof {
                        lemma_found_named(list@, i as nat, list@.len());
                    }
                    return found;
                }
                i += 1;
            }
            None
        },
        None => None,
    }
}

/// Once a schema of a list is found wanting, and none before it, the
/// finding stands however many more are looked at.
proof fn lemma_found_among(schemas: Seq<Schema>, i: nat, n: nat)
    requires
        i < n <= schemas.len(),
        unsupported_among(schemas, i) is None,
        unsupported(schemas[i as int]) is Some,
    ensures
        unsupported_among(schemas, n) == unsupported(schemas[i as int]),
    decreases n,
{
    if n > i + 1 {
        lemma_found_among(schemas, i, (n - 1) as nat);
    }
}

/// Once a named schema is found wanting, and none before it, the finding
/// stands however many more are looked at.
proof fn lemma_found_named(entries: Seq<(String, Schema)>, i: nat, n: nat)
    requires
        i < n <= entries.len(),
        unsupported_named(entries, i) is None,
        unsupported(entries[i as int].1) is Some,
    ensures
        unsupported_named(entries, n) == unsupported(entries[i as int].1),
    decreases n,
{
    if n > i + 1 {
        lemma_found_named(entries, i, (n - 1) as nat);
    }
}

/// Sets the type.
pub fn save_type(dst: &mut Unit, type_: Type)
    ensures
        final(dst)@ == chosen(old(dst)@, Choice::Type(type_)),
{
    dst.type_ = Some(type_);
}

/// Sets the literal, in place of one that is there.
pub fn save_const(dst: &mut Unit, const_: Value)
    ensures
        final(dst)@ == chosen(old(dst)@, Choice::Const(const_)),
{
    dst.const_ = Some(const_);
}

/// Sets the clause for the items beyond the positional ones.
pub fn save_additional_items(dst: &mut Unit, unit: Unit)
    ensures
        final(dst)@ == chosen(old(dst)@, Choice::AdditionalItems(unit@)),
{
    dst.additional_items = Some(Box::new(unit));
}

/// Sets the clause for the properties without a clause of their own.
pub fn save_additional_props(dst: &mut Unit, unit: Unit)
    ensures
        final(dst)@ == chosen(old(dst)@, Choice::AdditionalProps(unit@)),
{
    dst.additional_props = Some(Box::new(unit));
}

/// Sets the clause for the names of properties.
pub fn save_property_names(dst: &mut Unit, unit: Unit)
    ensures
        final(dst)@ == chosen(old(dst)@, Choice::PropertyNames(unit@)),
{
    dst.property_names = Some(Box::new(unit));
}

/// Sets the clause that some item must meet.
pub fn save_contains(dst: &mut Unit, unit: Unit)
    ensures
        final(dst)@ == chosen(old(dst)@, Choice::Contains(unit@)),
{
    dst.contains = Some(Box::new(unit));
}

/// Sets the clause for every item.
pub fn save_items(dst: &mut Unit, unit: Unit)
    ensures
        final(dst)@ == chosen(old(dst)@, Choice::Items(unit@)),
{
    dst.items = Some(Box::new(unit));
}

/// Sets the clauses of the named properties.
pub fn save_properties(dst: &mut Unit, props: Props)
    ensures
        final(dst)@ == chosen(old(dst)@, Choice::Properties(props@)),
{
    dst.properties = props;
}

/// Sets the clauses of the properties named by pattern.
pub fn save_pattern_props(dst: &mut Unit, props: Props)
    ensures
        final(dst)@ == chosen(old(dst)@, Choice::PatternProps(props@)),
{
    dst.pattern_props = props;
}

/// The choices that the items of `nested` stand for, in order.
pub open spec fn choices_of<T>(nested: Seq<T>, choice_of: spec_fn(T) -> Choice) -> Seq<Choice> {
    Seq::new(nested.len(), |i: int| choice_of(nested[i]))
}

/// The views of a list of sets of named clauses, in order.
pub open spec fn map_views(maps: Seq<Props>) -> Seq<Map<Seq<char>, UnitView>> {
    Seq::new(maps.len(), |i: int| maps[i]@)
}

/// Spreads one axis over `units`: each clause with each of `nested`, as
/// `save` puts the two together, or `units` as they are where `nested` is
/// empty. `choice_of` says which choice an item of `nested` stands for.
fn spread_nested<T, F: Fn(&Unit, &T) -> Unit>(
    units: Vec<Unit>,
    nested: &Vec<T>,
    save: F,
    Ghost(choice_of): Ghost<spec_fn(T) -> Choice>,
) -> (out: Vec<Unit>)
    requires
        forall|u: &Unit, t: &T| call_requires(save, (u, t)),
        forall|u: &Unit, t: &T, r: Unit|
            call_ensures(save, (u, t), r) ==> r@ == chosen(u@, choice_of(*t)),
    ensures
        views(out@) == spread_each(views(units@), choices_of(nested@, choice_of)),
{
    if nested.len() == 0 {
        return units;
    }
    let ghost choices = choices_of(nested@, choice_of);
    let mut out: Vec<Unit> = Vec::new();
    let mut i: usize = 0;
    while i < units.len()
        invariant
            i <= units.len(),
            choices == choices_of(nested@, choice_of),
            forall|u: &Unit, t: &T| call_requires(save, (u, t)),
            forall|u: &Unit, t: &T, r: Unit|
                call_ensures(save, (u, t), r) ==> r@ == chosen(u@, choice_of(*t)),
            views(out@) == cross(views(units@), i as nat, choices),
        decreases units.len() - i,
    {
        let ghost done = views(out@);
        let mut j: usize = 0;
        while j < nested.len()
            invariant
                i < units.len(),
                j <= nested.len(),
                choices == choices_of(nested@, choice_of),
                forall|u: &Unit, t: &T| call_requires(save, (u, t)),
                forall|u: &Unit, t: &T, r: Unit|
                    call_ensures(save, (u, t), r) ==> r@ == chosen(u@, choice_of(*t)),
                views(out@) == done + row(views(units@)[i as int], choices, j as nat),
            decreases nested.len() - j,
        {
            let ghost before = views(out@);
            let unit = save(&units[i], &nested[j]);
            out.push(unit);
            assert(views(out@) =~= before.push(unit@));
            assert(views(out@) =~= done + row(views(units@)[i as int], choices, (j + 1) as nat));
            j += 1;
        }
        i += 1;
    }
    out
}

/// The ways to pick one clause for each named schema, as sets of named
/// clauses.
pub fn spread_map(map: &Vec<(String, Schema)>) -> (out: Vec<Props>)
    ensures
        map_views(out@) == maps_among(map@, map@.len()),
    decreases map, 1nat,
{
    let mut acc: Vec<Props> = Vec::new();
    acc.push(Props::new());
    assert(map_views(acc@) =~= maps_among(map@, 0));
    let mut n: usize = 0;
    while n < map.len()
        invariant
            n <= map.len(),
            map_views(acc@) == maps_among(map@, n as nat),
        decreases map.len() - n,
    {
        proof {
            vstd::std_specs::vec::axiom_vec_index_decreases(*map, n as int);
        }
        let key = &map[n].0;
        let alts = expand(&map[n].1);
        let mut next: Vec<Props> = Vec::new();
        let mut i: usize = 0;
        assert(map_views(next@) =~= insert_cross(map_views(acc@), 0, key@, views(alts@)));
        while i < acc.len()
            invariant
                i <= acc.len(),
                map_views(next@) == insert_cross(map_views(acc@), i as nat, key@, views(alts@)),
            decreases acc.len() - i,
        {
            let ghost done = map_views(next@);
            let mut j: usize = 0;
            assert(done =~= done + insert_row(acc@[i as int]@, key@, views(alts@), 0));
            while j < alts.len()
                invariant
                    i < acc.len(),
                    j <= alts.len(),
                    map_views(next@) == done + insert_row(
                        acc@[i as int]@,
                        key@,
                        views(alts@),
                        j as nat,
                    ),
                decreases alts.len() - j,
            {
                let ghost before = map_views(next@);
                let mut props = acc[i].clone();
                props.insert(key.clone(), alts[j].clone());
                next.push(props);
                assert(map_views(next@) =~= before.push(props@));
                assert(map_views(next@) =~= done + insert_row(
                    acc@[i as int]@,
                    key@,
                    views(alts@),
                    (j + 1) as nat,
                ));
                j += 1;
            }
            i += 1;
        }
        acc = next;
        n += 1;
    }
    acc
}

/// Each clause of `outer` merged with each clause of `inner`, the pairs
/// that cannot be merged left out. With `into_outer` the clause of `inner`
/// is merged into a copy of the one of `outer`, else the other way round.
pub fn merge_product(outer: &Vec<Unit>, inner: &Vec<Unit>, into_outer: bool) -> (out: Vec<Unit>)
    ensures
        views(out@) == merge_cross(views(outer@), outer@.len(), views(inner@), into_outer),
{
    let mut out: Vec<Unit> = Vec::new();
    let mut i: usize = 0;
    assert(views(out@) =~= merge_cross(views(outer@), 0, views(inner@), into_outer));
    while i < outer.len()
        invariant
            i <= outer.len(),
            views(out@) == merge_cross(views(outer@), i as nat, views(inner@), into_outer),
        decreases outer.len() - i,
    {
        let ghost done = views(out@);
        let mut j: usize = 0;
        assert(done =~= done + merge_row(views(outer@)[i as int], views(inner@), 0, into_outer));
        while j < inner.len()
            invariant
                i < outer.len(),
                j <= inner.len(),
                views(out@) == done + merge_row(
                    views(outer@)[i as int],
                    views(inner@),
                    j as nat,
                    into_outer,
                ),
            decreases inner.len() - j,
        {
            let ghost before = views(out@);
            if into_outer {
                let mut dst = outer[i].clone();
                if merge_in_place(&mut dst, &inner[j]) {
                    out.push(dst);
                    assert(views(out@) =~= before.push(dst@));
                }
            } else {
                let mut dst = inner[j].clone();
                if merge_in_place(&mut dst, &outer[i]) {
                    out.push(dst);
                    assert(views(out@) =~= before.push(dst@));
                }
            }
            assert(views(out@) =~= done + merge_row(
                views(outer@)[i as int],
                views(inner@),
                (j + 1) as nat,
                into_outer,
            ));
            j += 1;
        }
        i += 1;
    }
    out
}

/// Folds `anyOf` in: where it has branches, each clause so far is merged
/// into each clause of each branch.
pub fn spread_any_of(common: Vec<Unit>, schemas: &Option<Vec<Schema>>) -> (out: Vec<Unit>)
    ensures
        views(out@) == with_any_of(views(common@), *schemas),
    decreases schemas, 1nat,
{
    match schemas {
        Some(list) => {
            if list.len() == 0 {
                return common;
            }
            let mut variants: Vec<Unit> = Vec::new();
            let mut n: usize = 0;
            assert(views(variants@) =~= clauses_among(list@, 0));
            while n < list.len()
                invariant
                    n <= list.len(),
                    decreases_to!(schemas => list),
                    views(variants@) == clauses_among(list@, n as nat),
                decreases list.len() - n,
            {
                proof {
                    vstd::std_specs::vec::axiom_vec_index_decreases(*list, n as int);
                }
                let ghost before = views(variants@);
                let mut branch = expand(&list[n]);
                let ghost added = views(branch@);
                variants.append(&mut branch);
                assert(views(variants@) =~= before + added);
                n += 1;
            }
            merge_product(&common, &variants, false)
        },
        None => common,
    }
}

/// Folds `allOf` in, branch by branch: each clause of a branch is merged
/// into each clause so far.
pub fn spread_all_of(common: Vec<Unit>, schemas: &Option<Vec<Schema>>) -> (out: Vec<Unit>)
    ensures
        views(out@) == with_all_of(views(common@), *schemas),
    decreases schemas, 1nat,
{
    match schemas {
        Some(list) => {
            let ghost start = views(common@);
            let mut acc = common;
            let mut n: usize = 0;
            while n < list.len()
                invariant
                    n <= list.len(),
                    decreases_to!(schemas => list),
                    views(acc@) == all_of_among(start, list@, n as nat),
                decreases list.len() - n,
            {
                proof {
                    vstd::std_specs::vec::axiom_vec_index_decreases(*list, n as int);
                }
                let branch = expand(&list[n]);
                acc = merge_product(&acc, &branch, true);
                n += 1;
            }
            acc
        },
        None => common,
    }
}

/// The clauses of a schema that may be absent.
fn expand_opt(schema: &Option<Schema>) -> (out: Vec<Unit>)
    ensures
        views(out@) == clauses_opt(*schema),
    decreases schema, 1nat,
{
    match schema {
        Some(s) => expand(s),
        None => {
            let out: Vec<Unit> = Vec::new();
            assert(views(out@) =~= Seq::<UnitView>::empty());
            out
        },
    }
}

/// The clauses of an `items` schema.
fn expand_items(items: &Option<Items>) -> (out: Vec<Unit>)
    ensures
        views(out@) == clauses_items(*items),
    decreases items, 1nat,
{
    match items {
        Some(Items::Array(s)) => expand(s),
        _ => {
            let out: Vec<Unit> = Vec::new();
            assert(views(out@) =~= Seq::<UnitView>::empty());
            out
        },
    }
}

/// The ways to pick one clause per named schema, where there are names.
fn expand_map(entries: &Option<Vec<(String, Schema)>>) -> (out: Vec<Props>)
    ensures
        map_views(out@) == maps_opt(*entries),
    decreases entries, 2nat,
{
    match entries {
        Some(list) => spread_map(list),
        None => {
            let out: Vec<Props> = Vec::new();
            assert(map_views(out@) =~= Seq::<Map<Seq<char>, UnitView>>::empty());
            out
        },
    }
}

/// The clause that a node's own restrictions make.
pub fn base_unit(res: &Restrictions) -> (unit: Unit)
    ensures
        unit@ == base(*res),
{
    let mut unit = Unit::default();
    unit.multiple_of = res.multiple_of;
    unit.max_length = res.max_length;
    unit.min_length = res.min_length;
    unit.max_items = res.max_items;
    unit.min_items = res.min_items;
    unit.max_properties = res.max_properties;
    unit.min_properties = res.min_properties;
    unit.unique_items = match res.unique_items {
        Some(unique) => unique,
        None => false,
    };
    match &res.required {
        Some(names) => {
            unit.required = clone_texts(names);
        },
        None => {},
    }
    match &res.format {
        Some(format) => {
            unit.format = Some(format.clone());
        },
        None => {},
    }
    match &res.const_ {
        Some(literal) => {
            unit.const_ = Some(literal.clone());
        },
        None => {},
    }
    unit.maximum = match (res.maximum, res.exclusive_maximum) {
        (Some(inc), Some(exc)) => Some(Point::inc(inc).min(Point::exc(exc))),
        (Some(inc), None) => Some(Point::inc(inc)),
        (None, Some(exc)) => Some(Point::exc(exc)),
        (None, None) => None,
    };
    unit.minimum = match (res.minimum, res.exclusive_minimum) {
        (Some(inc), Some(exc)) => Some(Point::inc(inc).max(Point::exc(exc))),
        (Some(inc), None) => Some(Point::inc(inc)),
        (None, Some(exc)) => Some(Point::exc(exc)),
        (None, None) => None,
    };
    match &res.pattern {
        Some(pattern) => {
            let mut patterns: Vec<String> = Vec::new();
            patterns.push(pattern.clone());
            assert(patterns@ =~= seq![*pattern]);
            unit.pattern = patterns;
        },
        None => {},
    }
    match &res.type_ {
        Some(Types::One(type_)) => {
            unit.type_ = Some(*type_);
        },
        _ => {},
    }
    proof {
        assert(unit@.tuple =~= Seq::<UnitView>::empty());
        assert(unit@ =~= base(*res));
    }
    unit
}

/// The clauses of a schema, what is unsupported in it passed over.
pub fn expand(schema: &Schema) -> (out: Vec<Unit>)
    ensures
        views(out@) == clauses(*schema),
    decreases schema, 0nat,
{
    let res = match schema {
        Schema::Complex(res) => res,
        Schema::Simple(_) => {
            let out: Vec<Unit> = Vec::new();
            assert(views(out@) =~= Seq::<UnitView>::empty());
            return out;
        },
    };
    let unit = base_unit(res);
    let mut units: Vec<Unit> = Vec::new();
    units.push(unit);
    assert(views(units@) =~= seq![base(**res)]);

    let no_types: Vec<Type> = Vec::new();
    let types: &Vec<Type> = match &res.type_ {
        Some(Types::Any(list)) => list,
        _ => &no_types,
    };
    let no_literals: Vec<Value> = Vec::new();
    let literals: &Vec<Value> = match &res.enum_ {
        Some(list) => list,
        None => &no_literals,
    };
    let additional_items = expand_opt(&res.additional_items);
    let additional_properties = expand_opt(&res.additional_properties);
    let property_names = expand_opt(&res.property_names);
    let contains = expand_opt(&res.contains);
    let items = expand_items(&res.items);
    let properties = expand_map(&res.properties);
    let pattern_props = expand_map(&res.pattern_properties);

    let with_type = |u: &Unit, t: &Type| -> (r: Unit)
        ensures
            r@ == chosen(u@, Choice::Type(*t)),
        {
            let mut r = u.clone();
            save_type(&mut r, *t);
            r
        };
    let with_const = |u: &Unit, v: &Value| -> (r: Unit)
        ensures
            r@ == chosen(u@, Choice::Const(*v)),
        {
            let mut r = u.clone();
            save_const(&mut r, v.clone());
            r
        };
    let with_additional_items = |u: &Unit, n: &Unit| -> (r: Unit)
        ensures
            r@ == chosen(u@, Choice::AdditionalItems(n@)),
        {
            let mut r = u.clone();
            save_additional_items(&mut r, n.clone());
            r
        };
    let with_additional_props = |u: &Unit, n: &Unit| -> (r: Unit)
        ensures
            r@ == chosen(u@, Choice::AdditionalProps(n@)),
        {
            let mut r = u.clone();
            save_additional_props(&mut r, n.clone());
            r
        };
    let with_property_names = |u: &Unit, n: &Unit| -> (r: Unit)
        ensures
            r@ == chosen(u@, Choice::PropertyNames(n@)),
        {
            let mut r = u.clone();
            save_property_names(&mut r, n.clone());
            r
        };
    let with_contains = |u: &Unit, n: &Unit| -> (r: Unit)
        ensures
            r@ == chosen(u@, Choice::Contains(n@)),
        {
            let mut r = u.clone();
            save_contains(&mut r, n.clone());
            r
        };
    let with_items = |u: &Unit, n: &Unit| -> (r: Unit)
        ensures
            r@ == chosen(u@, Choice::Items(n@)),
        {
            let mut r = u.clone();
            save_items(&mut r, n.clone());
            r
        };
    let with_properties = |u: &Unit, p: &Props| -> (r: Unit)
        ensures
            r@ == chosen(u@, Choice::Properties(p@)),
        {
            let mut r = u.clone();
            save_properties(&mut r, p.clone());
            r
        };
    let with_pattern_props = |u: &Unit, p: &Props| -> (r: Unit)
        ensures
            r@ == chosen(u@, Choice::PatternProps(p@)),
        {
            let mut r = u.clone();
            save_pattern_props(&mut r, p.clone());
            r
        };

    let ghost of_type = |t: Type| Choice::Type(t);
    let ghost of_const = |v: Value| Choice::Const(v);
    let ghost of_additional_items = |n: Unit| Choice::AdditionalItems(n@);
    let ghost of_additional_props = |n: Unit| Choice::AdditionalProps(n@);
    let ghost of_property_names = |n: Unit| Choice::PropertyNames(n@);
    let ghost of_contains = |n: Unit| Choice::Contains(n@);
    let ghost of_items = |n: Unit| Choice::Items(n@);
    let ghost of_properties = |p: Props| Choice::Properties(p@);
    let ghost of_pattern_props = |p: Props| Choice::PatternProps(p@);
    proof {
        assert(choices_of(types@, of_type) =~= type_choices(res.type_));
        assert(choices_of(literals@, of_const) =~= const_choices(res.enum_));
        let a = clauses_opt(res.additional_items);
        assert(choices_of(additional_items@, of_additional_items) =~= Seq::new(
            a.len(),
            |i: int| Choice::AdditionalItems(a[i]),
        ));
        let a = clauses_opt(res.additional_properties);
        assert(choices_of(additional_properties@, of_additional_props) =~= Seq::new(
            a.len(),
            |i: int| Choice::AdditionalProps(a[i]),
        ));
        let a = clauses_opt(res.property_names);
        assert(choices_of(property_names@, of_property_names) =~= Seq::new(
            a.len(),
            |i: int| Choice::PropertyNames(a[i]),
        ));
        let a = clauses_opt(res.contains);
        assert(choices_of(contains@, of_contains) =~= Seq::new(
            a.len(),
            |i: int| Choice::Contains(a[i]),
        ));
        let a = clauses_items(res.items);
        assert(choices_of(items@, of_items) =~= Seq::new(a.len(), |i: int| Choice::Items(a[i])));
        let m = maps_opt(res.properties);
        assert(choices_of(properties@, of_properties) =~= Seq::new(
            m.len(),
            |i: int| Choice::Properties(m[i]),
        ));
        let m = maps_opt(res.pattern_properties);
        assert(choices_of(pattern_props@, of_pattern_props) =~= Seq::new(
            m.len(),
            |i: int| Choice::PatternProps(m[i]),
        ));
    }
    let units = spread_nested(units, types, with_type, Ghost(of_type));
    let units = spread_nested(units, literals, with_const, Ghost(of_const));
    let units = spread_nested(
        units,
        &additional_items,
        with_additional_items,
        Ghost(of_additional_items),
    );
    let units = spread_nested(
        units,
        &additional_properties,
        with_additional_props,
        Ghost(of_additional_props),
    );
    let units = spread_nested(units, &property_names, with_property_names, Ghost(of_property_names));
    let units = spread_nested(units, &contains, with_contains, Ghost(of_contains));
    let units = spread_nested(units, &items, with_items, Ghost(of_items));
    let units = spread_nested(units, &properties, with_properties, Ghost(of_properties));
    let units = spread_nested(units, &pattern_props, with_pattern_props, Ghost(of_pattern_props));
    let units = spread_any_of(units, &res.any_of);
    spread_all_of(units, &res.all_of)
}

/// Spreads a schema into its clauses, or names the first unsupported
/// construct that stands in the way.
pub fn spread(schema: Schema) -> (r: Result<Vec<Unit>, Unsupported>)
    ensures
        match r {
            Ok(units) => unsupported(schema) is None && views(units@) == clauses(schema),
            Err(e) => unsupported(schema) == Some(e),
        },
{
    match find_unsupported(&schema) {
        Some(e) => Err(e),
        None => Ok(expand(&schema)),
    }
}

} // verus!
