//! Conjunction of clauses: the clause that admits what both of two clauses
//! admit.

use crate::schema::Type;
use crate::unit::{
    clone_units, distinct_keys, find_key, has_key, lemma_props_map_at, lemma_props_map_insert,
    lemma_view_tuple, nested_view, props_map, texts, views, Point, Props, Unit, UnitView,
};
use vstd::prelude::*;

verus! {

/// Two restrictions that must be the same where both are there.
pub open spec fn agree<T>(dst: Option<T>, src: Option<T>) -> bool {
    dst is None || src is None || dst == src
}

/// The restriction of `dst`, or that of `src` where `dst` has none.
pub open spec fn join<T>(dst: Option<T>, src: Option<T>) -> Option<T> {
    match dst {
        Some(_) => dst,
        None => src,
    }
}

/// Two type restrictions that some value can meet together.
pub open spec fn types_agree(dst: Option<Type>, src: Option<Type>) -> bool {
    dst matches Some(d) ==> (src matches Some(s) ==> d.meet(s) is Some)
}

/// The type of the values that meet both type restrictions.
pub open spec fn merged_type(dst: Option<Type>, src: Option<Type>) -> Option<Type> {
    match (dst, src) {
        (Some(d), Some(s)) => d.meet(s),
        (Some(_), None) => dst,
        (None, _) => src,
    }
}

/// The tighter of two upper bounds, either of which may be absent.
pub open spec fn tightened_max(dst: Option<Point>, src: Option<Point>) -> Option<Point> {
    match (dst, src) {
        (Some(d), Some(s)) => Some(d.tighten_max(s)),
        (Some(_), None) => dst,
        (None, _) => src,
    }
}

/// The tighter of two lower bounds, either of which may be absent.
pub open spec fn tightened_min(dst: Option<Point>, src: Option<Point>) -> Option<Point> {
    match (dst, src) {
        (Some(d), Some(s)) => Some(d.tighten_min(s)),
        (Some(_), None) => dst,
        (None, _) => src,
    }
}

/// The smaller of two counts, either of which may be absent.
pub open spec fn smaller(dst: Option<u32>, src: Option<u32>) -> Option<u32> {
    match (dst, src) {
        (Some(d), Some(s)) => Some(if d <= s { d } else { s }),
        (Some(_), None) => dst,
        (None, _) => src,
    }
}

/// The larger of two counts, either of which may be absent.
pub open spec fn larger(dst: Option<u32>, src: Option<u32>) -> Option<u32> {
    match (dst, src) {
        (Some(d), Some(s)) => Some(if d >= s { d } else { s }),
        (Some(_), None) => dst,
        (None, _) => src,
    }
}

/// The two clauses do not contradict each other: their literals, formats
/// and types agree, positional clauses are absent from `dst` or as many on
/// both sides, and what is nested or named on both sides does not
/// contradict either.
pub open spec fn can_merge(dst: UnitView, src: UnitView) -> bool
    decreases src,
{
    &&& agree(dst.const_, src.const_)
    &&& types_agree(dst.type_, src.type_)
    &&& agree(dst.format, src.format)
    &&& (src.items matches Some(s) ==> (dst.items matches Some(d) ==> can_merge(*d, *s)))
    &&& (src.additional_items matches Some(s) ==> (dst.additional_items matches Some(d)
        ==> can_merge(*d, *s)))
    &&& (src.additional_props matches Some(s) ==> (dst.additional_props matches Some(d)
        ==> can_merge(*d, *s)))
    &&& (src.property_names matches Some(s) ==> (dst.property_names matches Some(d)
        ==> can_merge(*d, *s)))
    &&& (src.contains matches Some(s) ==> (dst.contains matches Some(d) ==> can_merge(*d, *s)))
    &&& (dst.tuple.len() == 0 || (dst.tuple.len() == src.tuple.len() && forall|i: int|
        0 <= i < src.tuple.len() ==> can_merge(#[trigger] dst.tuple[i], src.tuple[i])))
    &&& forall|k: Seq<char>| #[trigger]
        src.properties.dom().contains(k) ==> (dst.properties.dom().contains(k) ==> can_merge(
            dst.properties[k],
            src.properties[k],
        ))
    &&& forall|k: Seq<char>| #[trigger]
        src.pattern_props.dom().contains(k) ==> (dst.pattern_props.dom().contains(k)
            ==> can_merge(dst.pattern_props[k], src.pattern_props[k]))
}

/// The conjunction of two clauses that do not contradict each other.
///
/// Each axis takes the tighter restriction; names and patterns are united;
/// what is nested or named on both sides is merged in turn, and what only
/// one side has is taken from it. The divisor is not combined: it stays as
/// `dst` had it.
pub open spec fn merged(dst: UnitView, src: UnitView) -> UnitView
    decreases src,
{
    UnitView {
        const_: join(dst.const_, src.const_),
        multiple_of: dst.multiple_of,
        maximum: tightened_max(dst.maximum, src.maximum),
        minimum: tightened_min(dst.minimum, src.minimum),
        max_length: smaller(dst.max_length, src.max_length),
        min_length: larger(dst.min_length, src.min_length),
        pattern: dst.pattern.union(src.pattern),
        additional_items: match src.additional_items {
            Some(s) => match dst.additional_items {
                Some(d) => Some(Box::new(merged(*d, *s))),
                None => Some(s),
            },
            None => dst.additional_items,
        },
        items: match src.items {
            Some(s) => match dst.items {
                Some(d) => Some(Box::new(merged(*d, *s))),
                None => Some(s),
            },
            None => dst.items,
        },
        tuple: if dst.tuple.len() == 0 {
            src.tuple
        } else {
            Seq::new(
                dst.tuple.len(),
                |i: int|
                    if 0 <= i < src.tuple.len() {
                        merged(dst.tuple[i], src.tuple[i])
                    } else {
                        dst.tuple[i]
                    },
            )
        },
        max_items: smaller(dst.max_items, src.max_items),
        min_items: larger(dst.min_items, src.min_items),
        unique_items: dst.unique_items || src.unique_items,
        max_properties: smaller(dst.max_properties, src.max_properties),
        min_properties: larger(dst.min_properties, src.min_properties),
        required: dst.required.union(src.required),
        additional_props: match src.additional_props {
            Some(s) => match dst.additional_props {
                Some(d) => Some(Box::new(merged(*d, *s))),
                None => Some(s),
            },
            None => dst.additional_props,
        },
        property_names: match src.property_names {
            Some(s) => match dst.property_names {
                Some(d) => Some(Box::new(merged(*d, *s))),
                None => Some(s),
            },
            None => dst.property_names,
        },
        contains: match src.contains {
            Some(s) => match dst.contains {
                Some(d) => Some(Box::new(merged(*d, *s))),
                None => Some(s),
            },
            None => dst.contains,
        },
        format: join(dst.format, src.format),
        properties: Map::new(
            |k: Seq<char>| dst.properties.dom().contains(k) || src.properties.dom().contains(k),
            |k: Seq<char>|
                if src.properties.dom().contains(k) {
                    if dst.properties.dom().contains(k) {
                        merged(dst.properties[k], src.properties[k])
                    } else {
                        src.properties[k]
                    }
                } else {
                    dst.properties[k]
                },
        ),
        pattern_props: Map::new(
            |k: Seq<char>|
                dst.pattern_props.dom().contains(k) || src.pattern_props.dom().contains(k),
            |k: Seq<char>|
                if src.pattern_props.dom().contains(k) {
                    if dst.pattern_props.dom().contains(k) {
                        merged(dst.pattern_props[k], src.pattern_props[k])
                    } else {
                        src.pattern_props[k]
                    }
                } else {
                    dst.pattern_props[k]
                },
        ),
        type_: merged_type(dst.type_, src.type_),
    }
}

/// What [`can_merge`] asks of a nested clause.
pub open spec fn nested_agree(dst: Option<Box<UnitView>>, src: Option<Box<UnitView>>) -> bool {
    src matches Some(s) ==> (dst matches Some(d) ==> can_merge(*d, *s))
}

/// What [`merged`] makes of a nested clause.
pub open spec fn merged_nested(dst: Option<Box<UnitView>>, src: Option<Box<UnitView>>) -> Option<
    Box<UnitView>,
> {
    match src {
        Some(s) => match dst {
            Some(d) => Some(Box::new(merged(*d, *s))),
            None => Some(s),
        },
        None => dst,
    }
}

/// What [`can_merge`] asks of positional clauses.
pub open spec fn tuples_agree(dst: Seq<UnitView>, src: Seq<UnitView>) -> bool {
    dst.len() == 0 || (dst.len() == src.len() && forall|i: int|
        0 <= i < src.len() ==> can_merge(#[trigger] dst[i], src[i]))
}

/// What [`merged`] makes of positional clauses.
pub open spec fn merged_tuple(dst: Seq<UnitView>, src: Seq<UnitView>) -> Seq<UnitView> {
    if dst.len() == 0 {
        src
    } else {
        Seq::new(
            dst.len(),
            |i: int|
                if 0 <= i < src.len() {
                    merged(dst[i], src[i])
                } else {
                    dst[i]
                },
        )
    }
}

/// What [`can_merge`] asks of named clauses.
pub open spec fn props_agree(dst: Map<Seq<char>, UnitView>, src: Map<Seq<char>, UnitView>)
    -> bool {
    forall|k: Seq<char>| #[trigger]
        src.dom().contains(k) ==> (dst.dom().contains(k) ==> can_merge(dst[k], src[k]))
}

/// What [`merged`] makes of named clauses.
pub open spec fn merged_props(dst: Map<Seq<char>, UnitView>, src: Map<Seq<char>, UnitView>)
    -> Map<Seq<char>, UnitView> {
    Map::new(
        |k: Seq<char>| dst.dom().contains(k) || src.dom().contains(k),
        |k: Seq<char>|
            if src.dom().contains(k) {
                if dst.dom().contains(k) {
                    merged(dst[k], src[k])
                } else {
                    src[k]
                }
            } else {
                dst[k]
            },
    )
}

/// Keeps `dst` where the two are the same, takes a copy of `src` where
/// `dst` has nothing, and fails where they differ. What "the same" and
/// "a copy" are is up to `T`'s `==` and `clone`.
pub fn merge_unique<T: PartialEq + Clone>(dst: &mut Option<T>, src: &Option<T>) -> (ok: bool)
    ensures
        match (*old(dst), *src) {
            (Some(d), Some(s)) => *final(dst) == *old(dst) && call_ensures(T::eq, (&s, &d), ok),
            (None, Some(s)) => ok && (*final(dst) matches Some(c) && cloned(s, c)),
            (_, None) => ok && *final(dst) == *old(dst),
        },
{
    match src {
        Some(s) => {
            match dst {
                Some(d) => *s == *d,
                None => {
                    *dst = Some(s.clone());
                    true
                },
            }
        },
        None => true,
    }
}

/// Narrows `dst` to the type that meets both restrictions, and fails where
/// no type does.
pub fn merge_type(dst: &mut Option<Type>, src: &Option<Type>) -> (ok: bool)
    ensures
        ok == types_agree(*old(dst), *src),
        ok ==> *final(dst) == merged_type(*old(dst), *src),
        !ok ==> *final(dst) == *old(dst),
{
    match (*dst, *src) {
        (Some(d), Some(s)) => {
            match d.intersect(s) {
                Some(t) => {
                    *dst = Some(t);
                    true
                },
                None => false,
            }
        },
        (None, Some(s)) => {
            *dst = Some(s);
            true
        },
        _ => true,
    }
}

/// Tightens a bound: where both sides have one, `strategy` picks; where one
/// side has one, it is taken.
pub fn merge_point<F: Fn(Point, Point) -> Point>(
    dst: &mut Option<Point>,
    src: &Option<Point>,
    strategy: F,
)
    requires
        (*old(dst)) is Some && src is Some ==> call_requires(
            strategy,
            ((*old(dst))->0, src->0),
        ),
    ensures
        match (*old(dst), *src) {
            (Some(d), Some(s)) => *final(dst) matches Some(r) && call_ensures(
                strategy,
                (d, s),
                r,
            ),
            (Some(_), None) => *final(dst) == *old(dst),
            (None, _) => *final(dst) == *src,
        },
{
    *dst = match (*dst, *src) {
        (Some(d), Some(s)) => Some(strategy(d, s)),
        (Some(d), None) => Some(d),
        (None, y) => y,
    };
}

/// Tightens a count: where both sides have one, `strategy` picks; where one
/// side has one, it is taken.
pub fn merge_count<T: Ord + Copy, F: Fn(T, T) -> T>(
    dst: &mut Option<T>,
    src: &Option<T>,
    strategy: F,
)
    requires
        (*old(dst)) is Some && src is Some ==> call_requires(
            strategy,
            ((*old(dst))->0, src->0),
        ),
    ensures
        match (*old(dst), *src) {
            (Some(d), Some(s)) => *final(dst) matches Some(r) && call_ensures(
                strategy,
                (d, s),
                r,
            ),
            (Some(_), None) => *final(dst) == *old(dst),
            (None, _) => *final(dst) == *src,
        },
{
    *dst = match (*dst, *src) {
        (Some(d), Some(s)) => Some(strategy(d, s)),
        (Some(d), None) => Some(d),
        (None, y) => y,
    };
}

/// Whether `item` is among `items`, as `T`'s `==` tells.
pub fn has_item<T: PartialEq>(items: &Vec<T>, item: &T) -> (r: bool)
    ensures
        r ==> exists|k: int|
            0 <= k < items@.len() && call_ensures(T::eq, (&#[trigger] items@[k], item), true),
        !r ==> forall|k: int|
            0 <= k < items@.len() ==> call_ensures(T::eq, (&#[trigger] items@[k], item), false),
{
    let mut k: usize = 0;
    while k < items.len()
        invariant
            k <= items.len(),
            forall|m: int|
                0 <= m < k ==> call_ensures(T::eq, (&#[trigger] items@[m], item), false),
        decreases items.len() - k,
    {
        if items[k] == *item {
            return true;
        }
        k += 1;
    }
    false
}

/// `held` stands for `item`: the two compare equal, or `held` is a copy of
/// `item`.
pub open spec fn alike<T: PartialEq + Clone>(held: T, item: T) -> bool {
    call_ensures(T::eq, (&held, &item), true) || cloned(item, held)
}

/// Some item of `items` stands for `item`.
pub open spec fn holds_like<T: PartialEq + Clone>(items: Seq<T>, item: T) -> bool {
    exists|k: int| 0 <= k < items.len() && alike(#[trigger] items[k], item)
}

/// `item` is a copy of some item of `src`.
pub open spec fn copied_from<T: Clone>(src: Seq<T>, item: T) -> bool {
    exists|j: int| 0 <= j < src.len() && cloned(#[trigger] src[j], item)
}

/// Adds to `dst`, behind what it holds, a copy of each item of `src` that
/// it lacks. What "lacks" and "a copy" are is up to `T`'s `==` and `clone`:
/// in the end each item of `src` has its like in `dst`, and what was added
/// are copies of items of `src`.
pub fn merge_set<T: PartialEq + Clone>(dst: &mut Vec<T>, src: &[T])
    ensures
        final(dst)@.len() >= old(dst)@.len(),
        final(dst)@.subrange(0, old(dst)@.len() as int) == old(dst)@,
        forall|j: int| 0 <= j < src@.len() ==> holds_like(final(dst)@, #[trigger] src@[j]),
        forall|k: int|
            old(dst)@.len() <= k < final(dst)@.len() ==> copied_from(
                src@,
                #[trigger] final(dst)@[k],
            ),
{
    let mut i: usize = 0;
    while i < src.len()
        invariant
            i <= src@.len(),
            dst@.len() >= old(dst)@.len(),
            dst@.subrange(0, old(dst)@.len() as int) == old(dst)@,
            forall|j: int| 0 <= j < i ==> holds_like(dst@, #[trigger] src@[j]),
            forall|k: int|
                old(dst)@.len() <= k < dst@.len() ==> copied_from(src@, #[trigger] dst@[k]),
        decreases src@.len() - i,
    {
        let ghost before = dst@;
        let found = has_item(dst, &src[i]);
        if !found {
            let copy = src[i].clone();
            dst.push(copy);
            proof {
                assert(dst@.subrange(0, old(dst)@.len() as int) =~= before.subrange(
                    0,
                    old(dst)@.len() as int,
                ));
                assert(cloned(src@[i as int], dst@[before.len() as int]));
            }
        }
        proof {
            assert(forall|k: int| 0 <= k < before.len() ==> dst@[k] == before[k]);
            assert forall|j: int| 0 <= j < i + 1 implies holds_like(dst@, #[trigger] src@[j]) by {
                if j < i {
                    assert(holds_like(before, src@[j]));
                    let k = choose|k: int|
                        0 <= k < before.len() && alike(#[trigger] before[k], src@[j]);
                    assert(alike(dst@[k], src@[j]));
                } else if !found {
                    assert(alike(dst@[before.len() as int], src@[j]));
                } else {
                    let k = choose|k: int|
                        0 <= k < before.len() && call_ensures(
                            T::eq,
                            (&#[trigger] before[k], &src@[i as int]),
                            true,
                        );
                    assert(alike(dst@[k], src@[j]));
                }
            }
            assert forall|k: int| old(dst)@.len() <= k < dst@.len() implies copied_from(
                src@,
                #[trigger] dst@[k],
            ) by {
                if k < before.len() {
                    assert(copied_from(src@, before[k]));
                } else {
                    assert(cloned(src@[i as int], dst@[k]));
                }
            }
        }
        i += 1;
    }
}

/// Merging lists of names unites what they name.
pub proof fn lemma_merge_set_unites(before: Seq<String>, src: Seq<String>, after: Seq<String>)
    requires
        after.len() >= before.len(),
        after.subrange(0, before.len() as int) == before,
        forall|j: int| 0 <= j < src.len() ==> holds_like(after, #[trigger] src[j]),
        forall|k: int| before.len() <= k < after.len() ==> copied_from(src, #[trigger] after[k]),
    ensures
        texts(after) == texts(before).union(texts(src)),
{
    assert forall|t: Seq<char>| texts(after).contains(t) <==> texts(before).union(
        texts(src),
    ).contains(t) by {
        if texts(after).contains(t) {
            let k = choose|k: int| 0 <= k < after.len() && (#[trigger] after[k])@ == t;
            if k < before.len() {
                assert(after.subrange(0, before.len() as int)[k] == after[k]);
                assert(before[k]@ == t);
            } else {
                assert(copied_from(src, after[k]));
                let j = choose|j: int| 0 <= j < src.len() && cloned(#[trigger] src[j], after[k]);
                assert(src[j]@ == t);
            }
        }
        if texts(before).contains(t) {
            let k = choose|k: int| 0 <= k < before.len() && (#[trigger] before[k])@ == t;
            assert(after.subrange(0, before.len() as int)[k] == after[k]);
            assert(after[k]@ == t);
        }
        if texts(src).contains(t) {
            let j = choose|j: int| 0 <= j < src.len() && (#[trigger] src[j])@ == t;
            assert(holds_like(after, src[j]));
            let k = choose|k: int| 0 <= k < after.len() && alike(#[trigger] after[k], src[j]);
            assert(after[k]@ == t);
        }
    }
    assert(texts(after) =~= texts(before).union(texts(src)));
}

/// Merges a nested clause: a copy of `src`'s where `dst` has none, the
/// conjunction where both have one.
pub fn merge_nested(dst: &mut Option<Box<Unit>>, src: &Option<Box<Unit>>) -> (ok: bool)
    ensures
        ok == nested_agree(nested_view(*old(dst)), nested_view(*src)),
        ok ==> nested_view(*final(dst)) == merged_nested(
            nested_view(*old(dst)),
            nested_view(*src),
        ),
    decreases src, 1nat,
{
    match src {
        Some(s) => {
            match dst {
                Some(d) => merge_in_place(&mut **d, &**s),
                None => {
                    *dst = Some(Box::new((**s).clone()));
                    true
                },
            }
        },
        None => true,
    }
}

/// Merges positional clauses: copies of `src`'s where `dst` has none, else
/// position by position, which takes as many on both sides.
pub fn merge_tuple(dst: &mut Vec<Unit>, src: &Vec<Unit>) -> (ok: bool)
    ensures
        ok == tuples_agree(views(old(dst)@), views(src@)),
        ok ==> views(final(dst)@) == merged_tuple(views(old(dst)@), views(src@)),
    decreases src, 1nat,
{
    if dst.len() == 0 {
        *dst = clone_units(src);
        return true;
    }
    if dst.len() != src.len() {
        return false;
    }
    let mut i: usize = 0;
    while i < src.len()
        invariant
            i <= src.len(),
            dst.len() == src.len(),
            old(dst).len() == src.len(),
            src.len() > 0,
            forall|j: int|
                0 <= j < i ==> can_merge((#[trigger] old(dst)@[j])@, src@[j]@) && dst@[j]@
                    == merged(old(dst)@[j]@, src@[j]@),
            forall|j: int| i <= j < src.len() ==> (#[trigger] dst@[j]) == old(dst)@[j],
        decreases src.len() - i,
    {
        let ghost before = dst@;
        if !merge_in_place(&mut dst[i], &src[i]) {
            assert(!can_merge(views(old(dst)@)[i as int], views(src@)[i as int]));
            return false;
        }
        assert(forall|j: int| 0 <= j < src.len() && j != i ==> (#[trigger] dst@[j]) == before[j]);
        i += 1;
    }
    proof {
        assert(views(dst@) =~= merged_tuple(views(old(dst)@), views(src@)));
        assert forall|j: int| 0 <= j < src.len() implies can_merge(
            #[trigger] views(old(dst)@)[j],
            views(src@)[j],
        ) by {
            assert(can_merge(old(dst)@[j]@, src@[j]@));
        }
    }
    true
}

/// Merges named clauses: a name of `src` that `dst` lacks comes over with a
/// copy of its clause; under a name that both have, the clauses are merged.
pub fn merge_props(dst: &mut Props, src: &Props) -> (ok: bool)
    ensures
        ok == props_agree(old(dst)@, src@),
        ok ==> final(dst)@ == merged_props(old(dst)@, src@),
    decreases src, 1nat,
{
    let mut taken = Props::new();
    std::mem::swap(dst, &mut taken);
    let mut entries = taken.into_entries();
    let n = src.len();
    let ghost start = old(dst)@;
    let mut ok = true;
    let mut i: usize = 0;
    proof {
        assert(props_map(src.entries().subrange(0, 0)) =~= Map::<Seq<char>, UnitView>::empty());
        assert(props_map(entries@) =~= merged_props(start, props_map(src.entries().subrange(0, 0))));
    }
    while i < n && ok
        invariant
            i <= n,
            n == src.entries().len(),
            distinct_keys(src.entries()),
            distinct_keys(entries@),
            ok ==> props_map(entries@) == merged_props(
                start,
                props_map(src.entries().subrange(0, i as int)),
            ),
            ok ==> props_agree(start, props_map(src.entries().subrange(0, i as int))),
            !ok ==> !props_agree(start, src@),
        decreases n - i,
    {
        let key = src.key_at(i);
        let s = src.unit_at(i);
        let ghost seen = src.entries().subrange(0, i as int);
        let ghost next = src.entries().subrange(0, i + 1);
        let ghost before = entries@;
        proof {
            assert(distinct_keys(seen)) by {
                assert forall|a: int, b: int| 0 <= a < b < seen.len() implies (#[trigger] seen[a]).0@
                    != (#[trigger] seen[b]).0@ by {
                    assert(src.entries()[a].0@ != src.entries()[b].0@);
                }
            }
            assert(!has_key(seen, key@)) by {
                if has_key(seen, key@) {
                    let j = choose|j: int| 0 <= j < seen.len() && (#[trigger] seen[j]).0@ == key@;
                    assert(src.entries()[j].0@ != src.entries()[i as int].0@);
                }
            }
            assert(next[i as int] == src.entries()[i as int]);
            assert(forall|j: int| 0 <= j < seen.len() ==> (#[trigger] next[j]) == seen[j]);
            lemma_props_map_insert(seen, next, key@, s@);
        }
        let pos = find_key(&entries, key);
        let ghost held = props_map(before);
        if pos < entries.len() {
            proof {
                lemma_props_map_at(before, pos as int);
            }
            if merge_in_place(&mut entries[pos].1, s) {
                proof {
                    let now = merged(held[key@], s@);
                    assert(entries@[pos as int].1@ == now);
                    assert(forall|j: int|
                        0 <= j < before.len() ==> (#[trigger] entries@[j]).0 == before[j].0);
                    assert(forall|j: int|
                        0 <= j < before.len() && j != pos ==> (#[trigger] entries@[j]).1
                            == before[j].1);
                    assert forall|j: int|
                        0 <= j < before.len() && before[j].0@ == key@ implies j == pos by {
                        if j < pos {
                            assert(before[j].0@ != before[pos as int].0@);
                        } else if pos < j {
                            assert(before[pos as int].0@ != before[j].0@);
                        }
                    }
                    lemma_props_map_insert(before, entries@, key@, now);
                    lemma_merge_props_step(
                        start,
                        props_map(seen),
                        held,
                        key@,
                        s@,
                        props_map(entries@),
                    );
                }
            } else {
                ok = false;
                proof {
                    assert(src@.dom().contains(key@));
                    assert(src@[key@] == s@);
                    assert(held.dom().contains(key@));
                    assert(start.dom().contains(key@) && start[key@] == held[key@]);
                }
            }
        } else {
            entries.push((key.clone(), s.clone()));
            proof {
                assert(forall|j: int| 0 <= j < before.len() ==> (#[trigger] entries@[j]) == before[j]);
                lemma_props_map_insert(before, entries@, key@, s@);
                lemma_merge_props_step(
                    start,
                    props_map(seen),
                    held,
                    key@,
                    s@,
                    props_map(entries@),
                );
            }
        }
        i += 1;
    }
    proof {
        if ok {
            assert(src.entries().subrange(0, n as int) =~= src.entries());
            crate::unit::lemma_props_view(*src);
        }
    }
    *dst = Props::from_entries(entries);
    ok
}

/// One step of merging named clauses: with the clause `s` under the name
/// `key` taken in, the clauses held are those of `start` merged with what
/// was seen of the source, `key` included.
proof fn lemma_merge_props_step(
    start: Map<Seq<char>, UnitView>,
    seen: Map<Seq<char>, UnitView>,
    held: Map<Seq<char>, UnitView>,
    key: Seq<char>,
    s: UnitView,
    after: Map<Seq<char>, UnitView>,
)
    requires
        held == merged_props(start, seen),
        props_agree(start, seen),
        !seen.dom().contains(key),
        held.dom().contains(key) ==> can_merge(held[key], s) && after == held.insert(
            key,
            merged(held[key], s),
        ),
        !held.dom().contains(key) ==> after == held.insert(key, s),
    ensures
        after == merged_props(start, seen.insert(key, s)),
        props_agree(start, seen.insert(key, s)),
{
    let grown = seen.insert(key, s);
    if held.dom().contains(key) {
        assert(start.dom().contains(key));
        assert(held[key] == start[key]);
    } else {
        assert(!start.dom().contains(key));
    }
    assert forall|k: Seq<char>| #[trigger] grown.dom().contains(k) implies (start.dom().contains(k)
        ==> can_merge(start[k], grown[k])) by {
        if k != key {
            assert(seen.dom().contains(k));
        }
    }
    assert(after =~= merged_props(start, grown));
}

/// Merges `src` into `dst` field by field, in place. Where it fails, `dst`
/// is left part-merged and is fit only to be dropped.
pub fn merge_in_place(dst: &mut Unit, src: &Unit) -> (ok: bool)
    ensures
        ok == can_merge(old(dst)@, src@),
        ok ==> final(dst)@ == merged(old(dst)@, src@),
    decreases src, 0nat,
{
    proof {
        lemma_view_tuple(*dst);
        lemma_view_tuple(*src);
    }
    let ghost d0 = dst@;
    let ghost s0 = src@;
    if !merge_unique(&mut dst.const_, &src.const_) {
        return false;
    }
    if !merge_type(&mut dst.type_, &src.type_) {
        return false;
    }
    if !merge_unique(&mut dst.format, &src.format) {
        return false;
    }
    if !merge_nested(&mut dst.items, &src.items) {
        return false;
    }
    if !merge_nested(&mut dst.additional_items, &src.additional_items) {
        return false;
    }
    if !merge_nested(&mut dst.additional_props, &src.additional_props) {
        return false;
    }
    if !merge_nested(&mut dst.property_names, &src.property_names) {
        return false;
    }
    if !merge_nested(&mut dst.contains, &src.contains) {
        return false;
    }
    if !merge_tuple(&mut dst.tuple, &src.tuple) {
        return false;
    }
    if !merge_props(&mut dst.properties, &src.properties) {
        return false;
    }
    if !merge_props(&mut dst.pattern_props, &src.pattern_props) {
        return false;
    }
    let least = |a: u32, b: u32| -> (r: u32)
        ensures
            r == (if a <= b { a } else { b }),
        {
            if a <= b {
                a
            } else {
                b
            }
        };
    let most = |a: u32, b: u32| -> (r: u32)
        ensures
            r == (if a >= b { a } else { b }),
        {
            if a >= b {
                a
            } else {
                b
            }
        };
    merge_point(&mut dst.maximum, &src.maximum, Point::min);
    merge_point(&mut dst.minimum, &src.minimum, Point::max);
    merge_count(&mut dst.max_length, &src.max_length, least);
    merge_count(&mut dst.min_length, &src.min_length, most);
    merge_count(&mut dst.max_items, &src.max_items, least);
    merge_count(&mut dst.min_items, &src.min_items, most);
    merge_count(&mut dst.max_properties, &src.max_properties, least);
    merge_count(&mut dst.min_properties, &src.min_properties, most);
    dst.unique_items = dst.unique_items || src.unique_items;
    let ghost patterns = dst.pattern@;
    let ghost required = dst.required@;
    merge_set(&mut dst.pattern, src.pattern.as_slice());
    merge_set(&mut dst.required, src.required.as_slice());
    proof {
        lemma_merge_set_unites(patterns, src.pattern@, dst.pattern@);
        lemma_merge_set_unites(required, src.required@, dst.required@);
        lemma_view_tuple(*dst);
        let m = merged(d0, s0);
        assert(dst@.tuple =~= m.tuple);
        assert(dst@.properties =~= m.properties);
        assert(dst@.pattern_props =~= m.pattern_props);
        assert(dst@ =~= m);
    }
    true
}

/// Merges `src` into `dst`: `dst` becomes the conjunction of the two.
/// Where the two contradict each other, nothing is merged: `dst` stays as
/// it was, and the answer is `false`.
pub fn merge(dst: &mut Unit, src: &Unit) -> (ok: bool)
    ensures
        ok == can_merge(old(dst)@, src@),
        ok ==> final(dst)@ == merged(old(dst)@, src@),
        !ok ==> *final(dst) == *old(dst),
{
    let mut out = dst.clone();
    if merge_in_place(&mut out, src) {
        *dst = out;
        true
    } else {
        false
    }
}

} // verus!
