//! Clauses: the combinator-free restrictions that are merged and compared.

use crate::multiple::Multiple;
use crate::schema::Type;
use serde_json::Value;
use vstd::prelude::*;

verus! {

/// A numeric endpoint.
///
/// `value` is the endpoint's position on the number line, held as an integer
/// that orders exactly as the numbers it stands for; only the order of two
/// positions is ever read. `inclusive` says whether the endpoint itself is
/// admitted.
#[derive(Debug, PartialEq, Eq, Clone, Copy, Structural)]
pub struct Point {
    pub value: i64,
    pub inclusive: bool,
}

impl Point {
    /// As an upper bound, the endpoint admits the position `x`.
    pub open spec fn admits_below(self, x: int) -> bool {
        x < self.value || (x == self.value && self.inclusive)
    }

    /// As a lower bound, the endpoint admits the position `x`.
    pub open spec fn admits_above(self, x: int) -> bool {
        x > self.value || (x == self.value && self.inclusive)
    }

    /// As an upper bound, `self` is at least as tight as `other`: it lies
    /// at a smaller position, or at the same one without admitting an
    /// endpoint that `other` leaves out.
    pub open spec fn within_max(self, other: Point) -> bool {
        self.value < other.value || (self.value == other.value && (other.inclusive
            || !self.inclusive))
    }

    /// As a lower bound, `self` is at least as tight as `other`: it lies
    /// at a larger position, or at the same one without admitting an
    /// endpoint that `other` leaves out.
    pub open spec fn within_min(self, other: Point) -> bool {
        self.value > other.value || (self.value == other.value && (other.inclusive
            || !self.inclusive))
    }

    /// The tighter of two upper bounds.
    pub open spec fn tighten_max(self, other: Point) -> Point {
        if self.within_max(other) {
            self
        } else {
            other
        }
    }

    /// The tighter of two lower bounds.
    pub open spec fn tighten_min(self, other: Point) -> Point {
        if self.within_min(other) {
            self
        } else {
            other
        }
    }

    /// An endpoint that is itself left out.
    pub fn exc(value: i64) -> (r: Point)
        ensures
            r.value == value,
            !r.inclusive,
    {
        Point { value, inclusive: false }
    }

    /// An endpoint that is itself admitted.
    pub fn inc(value: i64) -> (r: Point)
        ensures
            r.value == value,
            r.inclusive,
    {
        Point { value, inclusive: true }
    }

    /// The tighter of two upper bounds: the smaller position, and at equal
    /// positions the exclusive endpoint.
    pub fn min(self, other: Point) -> (r: Point)
        ensures
            r == self.tighten_max(other),
    {
        if self.value < other.value || self.value == other.value && other.inclusive {
            self
        } else {
            other
        }
    }

    /// The tighter of two lower bounds: the larger position, and at equal
    /// positions the exclusive endpoint.
    pub fn max(self, other: Point) -> (r: Point)
        ensures
            r == self.tighten_min(other),
    {
        if self.value > other.value || self.value == other.value && other.inclusive {
            self
        } else {
            other
        }
    }
}

/// A bound that lies within another admits nothing that the other refuses.
pub proof fn lemma_within_admits(a: Point, b: Point, x: int)
    ensures
        a.within_max(b) && a.admits_below(x) ==> b.admits_below(x),
        a.within_min(b) && a.admits_above(x) ==> b.admits_above(x),
{
}

/// Upper bounds are totally ordered by [`Point::within_max`]: at one
/// position the exclusive endpoint comes first.
pub proof fn lemma_within_max_is_total_order(a: Point, b: Point, c: Point)
    ensures
        a.within_max(a),
        a.within_max(b) || b.within_max(a),
        a.within_max(b) && b.within_max(a) ==> a == b,
        a.within_max(b) && b.within_max(c) ==> a.within_max(c),
{
}

/// Lower bounds are totally ordered by [`Point::within_min`]: at one
/// position the exclusive endpoint comes first.
pub proof fn lemma_within_min_is_total_order(a: Point, b: Point, c: Point)
    ensures
        a.within_min(a),
        a.within_min(b) || b.within_min(a),
        a.within_min(b) && b.within_min(a) ==> a == b,
        a.within_min(b) && b.within_min(c) ==> a.within_min(c),
{
}

/// The tighter of two bounds is one of the two, lies within both, is the
/// loosest bound that does, and does not depend on which comes first.
pub proof fn lemma_tighten(a: Point, b: Point, c: Point)
    ensures
        a.tighten_max(b) == a || a.tighten_max(b) == b,
        a.tighten_max(b).within_max(a) && a.tighten_max(b).within_max(b),
        c.within_max(a) && c.within_max(b) ==> c.within_max(a.tighten_max(b)),
        a.tighten_max(b) == b.tighten_max(a),
        a.tighten_min(b) == a || a.tighten_min(b) == b,
        a.tighten_min(b).within_min(a) && a.tighten_min(b).within_min(b),
        c.within_min(a) && c.within_min(b) ==> c.within_min(a.tighten_min(b)),
        a.tighten_min(b) == b.tighten_min(a),
{
}

/// The texts that a list of names holds, as a set.
pub open spec fn texts(names: Seq<String>) -> Set<Seq<char>> {
    Set::new(|t: Seq<char>| exists|i: int| 0 <= i < names.len() && (#[trigger] names[i])@ == t)
}

/// What a clause restricts, as mathematics: names and patterns as sets,
/// properties as maps from a name to the clause for its value.
#[verifier::ext_equal]
pub struct UnitView {
    pub const_: Option<Value>,
    pub multiple_of: Option<Multiple>,
    pub maximum: Option<Point>,
    pub minimum: Option<Point>,
    pub max_length: Option<u32>,
    pub min_length: Option<u32>,
    pub pattern: Set<Seq<char>>,
    pub additional_items: Option<Box<UnitView>>,
    pub items: Option<Box<UnitView>>,
    pub tuple: Seq<UnitView>,
    pub max_items: Option<u32>,
    pub min_items: Option<u32>,
    pub unique_items: bool,
    pub max_properties: Option<u32>,
    pub min_properties: Option<u32>,
    pub required: Set<Seq<char>>,
    pub additional_props: Option<Box<UnitView>>,
    pub property_names: Option<Box<UnitView>>,
    pub contains: Option<Box<UnitView>>,
    pub format: Option<Seq<char>>,
    pub properties: Map<Seq<char>, UnitView>,
    pub pattern_props: Map<Seq<char>, UnitView>,
    pub type_: Option<Type>,
}

impl UnitView {
    /// The clause that restricts nothing.
    pub open spec fn unconstrained() -> UnitView {
        UnitView {
            const_: None,
            multiple_of: None,
            maximum: None,
            minimum: None,
            max_length: None,
            min_length: None,
            pattern: Set::empty(),
            additional_items: None,
            items: None,
            tuple: Seq::empty(),
            max_items: None,
            min_items: None,
            unique_items: false,
            max_properties: None,
            min_properties: None,
            required: Set::empty(),
            additional_props: None,
            property_names: None,
            contains: None,
            format: None,
            properties: Map::empty(),
            pattern_props: Map::empty(),
            type_: None,
        }
    }
}

/// Clauses by name, each name once.
#[derive(Debug, PartialEq)]
pub struct Props {
    entries: Vec<(String, Unit)>,
}

/// One conjunctive restriction without combinators. A field that is `None`,
/// empty or `false` restricts nothing.
#[derive(Debug, PartialEq)]
pub struct Unit {
    pub const_: Option<Value>,
    pub multiple_of: Option<Multiple>,
    pub maximum: Option<Point>,
    pub minimum: Option<Point>,
    pub max_length: Option<u32>,
    pub min_length: Option<u32>,
    pub pattern: Vec<String>,
    pub additional_items: Option<Box<Unit>>,
    pub items: Option<Box<Unit>>,
    pub tuple: Vec<Unit>,
    pub max_items: Option<u32>,
    pub min_items: Option<u32>,
    pub unique_items: bool,
    pub max_properties: Option<u32>,
    pub min_properties: Option<u32>,
    pub required: Vec<String>,
    pub additional_props: Option<Box<Unit>>,
    pub property_names: Option<Box<Unit>>,
    pub contains: Option<Box<Unit>>,
    pub format: Option<String>,
    pub properties: Props,
    pub pattern_props: Props,
    pub type_: Option<Type>,
}

/// Some entry of the list has the name `k`.
pub open spec fn has_key(entries: Seq<(String, Unit)>, k: Seq<char>) -> bool {
    exists|i: int| 0 <= i < entries.len() && (#[trigger] entries[i]).0@ == k
}

/// Where the name `k` stands in the list, if it stands there.
pub open spec fn index_of(entries: Seq<(String, Unit)>, k: Seq<char>) -> int {
    choose|i: int| 0 <= i < entries.len() && (#[trigger] entries[i]).0@ == k
}

/// No name stands twice in the list.
pub open spec fn distinct_keys(entries: Seq<(String, Unit)>) -> bool {
    forall|i: int, j: int|
        0 <= i < j < entries.len() ==> (#[trigger] entries[i]).0@ != (#[trigger] entries[j]).0@
}

/// The map that a list of named clauses stands for.
pub open spec fn props_map(entries: Seq<(String, Unit)>) -> Map<Seq<char>, UnitView> {
    Map::new(
        |k: Seq<char>| has_key(entries, k),
        |k: Seq<char>| entries[index_of(entries, k)].1@,
    )
}

/// The views of a list of clauses, in order.
pub open spec fn views(units: Seq<Unit>) -> Seq<UnitView> {
    Seq::new(units.len(), |i: int| units[i]@)
}

/// The view of a nested clause, where there is one.
pub open spec fn nested_view(nested: Option<Box<Unit>>) -> Option<Box<UnitView>> {
    match nested {
        Some(b) => Some(Box::new(unit_view(*b))),
        None => None,
    }
}

/// What a set of named clauses stands for: a map from each name to the view
/// of its clause.
pub closed spec fn props_view(props: Props) -> Map<Seq<char>, UnitView>
    decreases props,
{
    Map::new(
        |k: Seq<char>| has_key(props.entries@, k),
        |k: Seq<char>|
            {
                let i = index_of(props.entries@, k);
                if 0 <= i < props.entries@.len() {
                    unit_view(props.entries@[i].1)
                } else {
                    UnitView::unconstrained()
                }
            },
    )
}

/// What a clause restricts.
pub open spec fn unit_view(unit: Unit) -> UnitView
    decreases unit,
{
    UnitView {
        const_: unit.const_,
        multiple_of: unit.multiple_of,
        maximum: unit.maximum,
        minimum: unit.minimum,
        max_length: unit.max_length,
        min_length: unit.min_length,
        pattern: texts(unit.pattern@),
        additional_items: match unit.additional_items {
            Some(b) => Some(Box::new(unit_view(*b))),
            None => None,
        },
        items: match unit.items {
            Some(b) => Some(Box::new(unit_view(*b))),
            None => None,
        },
        tuple: Seq::new(
            unit.tuple@.len(),
            |i: int|
                if 0 <= i < unit.tuple@.len() {
                    unit_view(unit.tuple@[i])
                } else {
                    UnitView::unconstrained()
                },
        ),
        max_items: unit.max_items,
        min_items: unit.min_items,
        unique_items: unit.unique_items,
        max_properties: unit.max_properties,
        min_properties: unit.min_properties,
        required: texts(unit.required@),
        additional_props: match unit.additional_props {
            Some(b) => Some(Box::new(unit_view(*b))),
            None => None,
        },
        property_names: match unit.property_names {
            Some(b) => Some(Box::new(unit_view(*b))),
            None => None,
        },
        contains: match unit.contains {
            Some(b) => Some(Box::new(unit_view(*b))),
            None => None,
        },
        format: match unit.format {
            Some(s) => Some(s@),
            None => None,
        },
        properties: props_view(unit.properties),
        pattern_props: props_view(unit.pattern_props),
        type_: unit.type_,
    }
}

impl View for Props {
    type V = Map<Seq<char>, UnitView>;

    open spec fn view(&self) -> Map<Seq<char>, UnitView> {
        props_view(*self)
    }
}

impl View for Unit {
    type V = UnitView;

    open spec fn view(&self) -> UnitView {
        unit_view(*self)
    }
}

impl Props {
    /// No name stands twice.
    #[verifier::type_invariant]
    spec fn well_formed(self) -> bool {
        distinct_keys(self.entries@)
    }

    /// The named clauses, in the order in which they are held.
    pub closed spec fn entries(self) -> Seq<(String, Unit)> {
        self.entries@
    }
}

/// A set of named clauses stands for the map of its entries.
pub proof fn lemma_props_view(props: Props)
    ensures
        props@ == props_map(props.entries()),
{
    assert(props@ =~= props_map(props.entries()));
}

/// In a list without a repeated name, each entry is what its name maps to.
pub proof fn lemma_props_map_at(entries: Seq<(String, Unit)>, i: int)
    requires
        distinct_keys(entries),
        0 <= i < entries.len(),
    ensures
        props_map(entries).dom().contains(entries[i].0@),
        props_map(entries)[entries[i].0@] == entries[i].1@,
{
    let k = entries[i].0@;
    assert(has_key(entries, k));
    let j = index_of(entries, k);
    assert(0 <= j < entries.len() && entries[j].0@ == k);
    if j < i {
        assert(entries[j].0@ != entries[i].0@);
    } else if i < j {
        assert(entries[i].0@ != entries[j].0@);
    }
}

/// The tuple of a clause's view holds the views of its tuple.
pub proof fn lemma_view_tuple(unit: Unit)
    ensures
        unit@.tuple == views(unit.tuple@),
{
    assert(unit@.tuple =~= views(unit.tuple@));
}

impl Props {
    /// No named clause at all.
    pub fn new() -> (r: Props)
        ensures
            r@ == Map::<Seq<char>, UnitView>::empty(),
            r.entries() == Seq::<(String, Unit)>::empty(),
    {
        let r = Props { entries: Vec::new() };
        assert(r@ =~= Map::<Seq<char>, UnitView>::empty());
        r
    }

    /// How many names there are.
    pub fn len(&self) -> (r: usize)
        ensures
            r == self.entries().len(),
            distinct_keys(self.entries()),
    {
        proof {
            use_type_invariant(self);
        }
        self.entries.len()
    }

    /// The name at position `i`.
    pub fn key_at(&self, i: usize) -> (r: &String)
        requires
            i < self.entries().len(),
        ensures
            *r == self.entries()[i as int].0,
            self@.dom().contains(r@),
    {
        assert(has_key(self.entries@, self.entries@[i as int].0@));
        &self.entries[i].0
    }

    /// The clause at position `i`: the one that the name there maps to.
    pub fn unit_at(&self, i: usize) -> (r: &Unit)
        requires
            i < self.entries().len(),
        ensures
            *r == self.entries()[i as int].1,
            self@.dom().contains(self.entries()[i as int].0@),
            self@[self.entries()[i as int].0@] == r@,
            decreases_to!(*self => *r),
    {
        proof {
            use_type_invariant(self);
            lemma_props_view(*self);
            lemma_props_map_at(self.entries@, i as int);
            vstd::std_specs::vec::axiom_vec_index_decreases(self.entries, i as int);
        }
        &self.entries[i].1
    }

    /// The position of `key`, or the number of entries where it is not there.
    fn position(&self, key: &String) -> (i: usize)
        ensures
            i <= self.entries().len(),
            i < self.entries().len() ==> self.entries()[i as int].0@ == key@,
            i == self.entries().len() ==> !has_key(self.entries(), key@),
    {
        find_key(&self.entries, key)
    }

    /// The clause that `key` maps to, if any.
    pub fn get(&self, key: &String) -> (r: Option<&Unit>)
        ensures
            match r {
                Some(unit) => self@.dom().contains(key@) && unit@ == self@[key@],
                None => !self@.dom().contains(key@),
            },
    {
        let i = self.position(key);
        if i < self.entries.len() {
            Some(self.unit_at(i))
        } else {
            None
        }
    }

    /// Maps `key` to `unit`, in place of what it mapped to before.
    pub fn insert(&mut self, key: String, unit: Unit)
        ensures
            final(self)@ == old(self)@.insert(key@, unit@),
    {
        proof {
            use_type_invariant(&*self);
            lemma_props_view(*self);
        }
        let i = self.position(&key);
        let mut entries: Vec<(String, Unit)> = Vec::new();
        std::mem::swap(&mut self.entries, &mut entries);
        let ghost before = entries@;
        if i < entries.len() {
            entries[i].1 = unit;
            assert(forall|j: int| 0 <= j < before.len() ==> (#[trigger] entries@[j]).0 == before[j].0);
        } else {
            entries.push((key, unit));
        }
        proof {
            lemma_props_map_insert(before, entries@, key@, unit@);
        }
        self.entries = entries;
        proof {
            lemma_props_view(*self);
        }
    }

    /// Hands the entries out.
    pub(crate) fn into_entries(self) -> (r: Vec<(String, Unit)>)
        ensures
            r@ == self.entries(),
            distinct_keys(r@),
            self@ == props_map(r@),
    {
        proof {
            use_type_invariant(&self);
            lemma_props_view(self);
        }
        self.entries
    }

    /// The set that holds just these entries.
    pub(crate) fn from_entries(entries: Vec<(String, Unit)>) -> (r: Props)
        requires
            distinct_keys(entries@),
        ensures
            r.entries() == entries@,
            r@ == props_map(entries@),
    {
        let r = Props { entries };
        proof {
            lemma_props_view(r);
        }
        r
    }
}

/// The first position at which `key` stands in the list, or the length of
/// the list where it stands nowhere.
pub fn find_key(entries: &Vec<(String, Unit)>, key: &String) -> (i: usize)
    ensures
        i <= entries.len(),
        i < entries.len() ==> entries@[i as int].0@ == key@,
        forall|j: int| 0 <= j < i ==> (#[trigger] entries@[j]).0@ != key@,
        i == entries.len() ==> !has_key(entries@, key@),
{
    let mut i: usize = 0;
    while i < entries.len()
        invariant
            i <= entries.len(),
            forall|j: int| 0 <= j < i ==> (#[trigger] entries@[j]).0@ != key@,
        decreases entries.len() - i,
    {
        if entries[i].0 == *key {
            return i;
        }
        i += 1;
    }
    i
}

/// Replacing the clause of a name that is there, or appending a name that is
/// not, is an insertion into the map.
pub proof fn lemma_props_map_insert(
    before: Seq<(String, Unit)>,
    after: Seq<(String, Unit)>,
    key: Seq<char>,
    unit: UnitView,
)
    requires
        distinct_keys(before),
        has_key(before, key) ==> {
            &&& after.len() == before.len()
            &&& forall|j: int| 0 <= j < before.len() ==> (#[trigger] after[j]).0 == before[j].0
            &&& forall|j: int|
                0 <= j < before.len() && before[j].0@ != key ==> (#[trigger] after[j]).1
                    == before[j].1
            &&& forall|j: int|
                0 <= j < before.len() && before[j].0@ == key ==> (#[trigger] after[j]).1@ == unit
        },
        !has_key(before, key) ==> {
            &&& after.len() == before.len() + 1
            &&& forall|j: int| 0 <= j < before.len() ==> (#[trigger] after[j]) == before[j]
            &&& after[before.len() as int].0@ == key
            &&& after[before.len() as int].1@ == unit
        },
    ensures
        distinct_keys(after),
        props_map(after) == props_map(before).insert(key, unit),
{
    assert(distinct_keys(after)) by {
        assert forall|i: int, j: int| 0 <= i < j < after.len() implies (#[trigger] after[i]).0@ != (
        #[trigger] after[j]).0@ by {
            if has_key(before, key) {
                assert(after[i].0 == before[i].0);
                assert(after[j].0 == before[j].0);
            } else {
                if j < before.len() {
                    assert(after[i] == before[i]);
                    assert(after[j] == before[j]);
                } else {
                    assert(after[i] == before[i]);
                    assert(before[i].0@ != key);
                }
            }
        }
    }
    let lhs = props_map(after);
    let rhs = props_map(before).insert(key, unit);
    assert forall|k: Seq<char>| lhs.dom().contains(k) <==> rhs.dom().contains(k) by {
        if lhs.dom().contains(k) {
            let i = index_of(after, k);
            if i < before.len() {
                assert(before[i].0@ == k);
            }
        }
        if rhs.dom().contains(k) {
            if k == key {
                if has_key(before, key) {
                    let i = index_of(before, key);
                    assert(after[i].0@ == k);
                } else {
                    assert(after[before.len() as int].0@ == k);
                }
            } else {
                let i = index_of(before, k);
                assert(after[i].0@ == k);
            }
        }
    }
    assert forall|k: Seq<char>| lhs.dom().contains(k) implies lhs[k] == rhs[k] by {
        let i = index_of(after, k);
        lemma_props_map_at(after, i);
        if i < before.len() {
            lemma_props_map_at(before, i);
            assert(after[i].0@ == before[i].0@);
        }
    }
    assert(lhs =~= rhs);
}

/// A copy of a list of names.
pub fn clone_texts(names: &Vec<String>) -> (r: Vec<String>)
    ensures
        r@ == names@,
{
    let mut r: Vec<String> = Vec::new();
    let mut i: usize = 0;
    while i < names.len()
        invariant
            i <= names.len(),
            r@ == names@.subrange(0, i as int),
        decreases names.len() - i,
    {
        r.push(names[i].clone());
        assert(r@ =~= names@.subrange(0, i + 1));
        i += 1;
    }
    assert(names@.subrange(0, names.len() as int) =~= names@);
    r
}

impl Clone for Props {
    /// A copy with the same names, each mapped to a copy of its clause.
    fn clone(&self) -> (r: Props)
        ensures
            r@ == self@,
        decreases self,
    {
        proof {
            use_type_invariant(self);
            lemma_props_view(*self);
        }
        let mut entries: Vec<(String, Unit)> = Vec::new();
        let mut i: usize = 0;
        while i < self.entries.len()
            invariant
                i <= self.entries.len(),
                entries.len() == i,
                forall|j: int|
                    0 <= j < i ==> (#[trigger] entries@[j]).0@ == self.entries@[j].0@
                        && entries@[j].1@ == self.entries@[j].1@,
            decreases self.entries.len() - i,
        {
            let key = self.entries[i].0.clone();
            let unit = self.entries[i].1.clone();
            entries.push((key, unit));
            i += 1;
        }
        proof {
            lemma_props_map_same(self.entries@, entries@);
        }
        Props::from_entries(entries)
    }
}

/// Lists with the same names and clauses of the same views stand for the
/// same map.
pub proof fn lemma_props_map_same(a: Seq<(String, Unit)>, b: Seq<(String, Unit)>)
    requires
        distinct_keys(a),
        a.len() == b.len(),
        forall|j: int|
            0 <= j < a.len() ==> (#[trigger] b[j]).0@ == a[j].0@ && b[j].1@ == a[j].1@,
    ensures
        distinct_keys(b),
        props_map(b) == props_map(a),
{
    assert forall|i: int, j: int| 0 <= i < j < b.len() implies (#[trigger] b[i]).0@ != (
    #[trigger] b[j]).0@ by {
        assert(a[i].0@ != a[j].0@);
    }
    assert forall|k: Seq<char>| has_key(a, k) <==> has_key(b, k) by {
        if has_key(a, k) {
            let i = index_of(a, k);
            assert(b[i].0@ == k);
        }
        if has_key(b, k) {
            let i = index_of(b, k);
            assert(a[i].0@ == k);
        }
    }
    assert forall|k: Seq<char>| has_key(a, k) implies props_map(a)[k] == props_map(b)[k] by {
        let i = index_of(a, k);
        lemma_props_map_at(a, i);
        assert(b[i].0@ == k);
        lemma_props_map_at(b, i);
    }
    assert(props_map(a) =~= props_map(b));
}

/// A copy of a list of clauses.
pub fn clone_units(units: &Vec<Unit>) -> (r: Vec<Unit>)
    ensures
        views(r@) == views(units@),
    decreases units,
{
    let mut r: Vec<Unit> = Vec::new();
    let mut i: usize = 0;
    while i < units.len()
        invariant
            i <= units.len(),
            r.len() == i,
            forall|j: int| 0 <= j < i ==> (#[trigger] r@[j])@ == units@[j]@,
        decreases units.len() - i,
    {
        r.push(units[i].clone());
        i += 1;
    }
    assert(views(r@) =~= views(units@));
    r
}

/// A copy of a nested clause.
fn clone_nested(nested: &Option<Box<Unit>>) -> (r: Option<Box<Unit>>)
    ensures
        r is Some == nested is Some,
        r matches Some(b) ==> b@ == nested->0@,
    decreases nested,
{
    match nested {
        Some(b) => Some(Box::new((**b).clone())),
        None => None,
    }
}

impl Clone for Unit {
    /// A copy that restricts the same.
    fn clone(&self) -> (r: Unit)
        ensures
            r@ == self@,
        decreases self,
    {
        let r = Unit {
            const_: match &self.const_ {
                Some(v) => Some(v.clone()),
                None => None,
            },
            multiple_of: self.multiple_of,
            maximum: self.maximum,
            minimum: self.minimum,
            max_length: self.max_length,
            min_length: self.min_length,
            pattern: clone_texts(&self.pattern),
            additional_items: clone_nested(&self.additional_items),
            items: clone_nested(&self.items),
            tuple: clone_units(&self.tuple),
            max_items: self.max_items,
            min_items: self.min_items,
            unique_items: self.unique_items,
            max_properties: self.max_properties,
            min_properties: self.min_properties,
            required: clone_texts(&self.required),
            additional_props: clone_nested(&self.additional_props),
            property_names: clone_nested(&self.property_names),
            contains: clone_nested(&self.contains),
            format: match &self.format {
                Some(s) => Some(s.clone()),
                None => None,
            },
            properties: self.properties.clone(),
            pattern_props: self.pattern_props.clone(),
            type_: self.type_,
        };
        proof {
            lemma_view_tuple(r);
            lemma_view_tuple(*self);
            assert(r@ =~= self@);
        }
        r
    }
}

impl Default for Unit {
    /// The clause that restricts nothing.
    fn default() -> (r: Unit)
        ensures
            r@ == UnitView::unconstrained(),
    {
        let r = Unit {
            const_: None,
            multiple_of: None,
            maximum: None,
            minimum: None,
            max_length: None,
            min_length: None,
            pattern: Vec::new(),
            additional_items: None,
            items: None,
            tuple: Vec::new(),
            max_items: None,
            min_items: None,
            unique_items: false,
            max_properties: None,
            min_properties: None,
            required: Vec::new(),
            additional_props: None,
            property_names: None,
            contains: None,
            format: None,
            properties: Props::new(),
            pattern_props: Props::new(),
            type_: None,
        };
        proof {
            assert(r@.pattern =~= Set::<Seq<char>>::empty());
            assert(r@.required =~= Set::<Seq<char>>::empty());
            assert(r@.tuple =~= Seq::<UnitView>::empty());
            assert(r@ =~= UnitView::unconstrained());
        }
        r
    }
}

} // verus!
