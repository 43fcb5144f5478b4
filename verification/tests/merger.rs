use checkco::merger::{
    has_item, merge, merge_count, merge_in_place, merge_nested, merge_point, merge_props,
    merge_set, merge_tuple, merge_type, merge_unique,
};
use checkco::multiple::Multiple;
use checkco::schema::Type;
use checkco::unit::{Point, Props, Unit};
use serde_json::Value;

fn unit(fill: impl Fn(&mut Unit)) -> Unit {
    let mut unit = Unit::default();
    fill(&mut unit);
    unit
}

fn names(list: &[&str]) -> Vec<String> {
    list.iter().map(|name| name.to_string()).collect()
}

/// Merges a clause that holds `src` in one field into one that holds `dst`.
fn case<T: Clone>(set: &impl Fn(&mut Unit, T), dst: &T, src: &T) -> (Unit, bool) {
    let mut into = unit(|u| set(u, dst.clone()));
    let from = unit(|u| set(u, src.clone()));
    let ok = merge(&mut into, &from);
    (into, ok)
}

/// Both ways round, the merge succeeds and leaves `res` in the field.
fn merges<T: Clone + PartialEq + std::fmt::Debug>(
    set: impl Fn(&mut Unit, T),
    get: impl Fn(&Unit) -> T,
    dst: T,
    src: T,
    res: T,
) {
    let (dst_d, ok_d) = case(&set, &dst, &src);
    let (dst_r, ok_r) = case(&set, &src, &dst);
    assert!(ok_d);
    assert!(ok_r);
    assert_eq!(get(&dst_d), res);
    assert_eq!(get(&dst_r), res);
}

/// Both ways round, the merge fails.
fn fails<T: Clone>(set: impl Fn(&mut Unit, T), dst: T, src: T) {
    let (_, ok_d) = case(&set, &dst, &src);
    let (_, ok_r) = case(&set, &src, &dst);
    assert!(!ok_d);
    assert!(!ok_r);
}

fn max_items(value: u32) -> Unit {
    unit(|u| u.max_items = Some(value))
}

fn min_items(value: u32) -> Unit {
    unit(|u| u.min_items = Some(value))
}

fn both_items(max: u32, min: u32) -> Unit {
    unit(|u| {
        u.max_items = Some(max);
        u.min_items = Some(min);
    })
}

fn typed(type_: Type) -> Unit {
    unit(|u| u.type_ = Some(type_))
}

fn nested_merge_if_unfilled(
    set: impl Fn(&mut Unit, Option<Box<Unit>>),
    get: impl Fn(&Unit) -> Option<Box<Unit>>,
) {
    merges(set, get, None, Some(Box::new(Unit::default())), Some(Box::new(Unit::default())));
}

fn nested_merge_nested_unit(
    set: impl Fn(&mut Unit, Option<Box<Unit>>),
    get: impl Fn(&Unit) -> Option<Box<Unit>>,
) {
    merges(
        set,
        get,
        Some(Box::new(max_items(42))),
        Some(Box::new(min_items(32))),
        Some(Box::new(both_items(42, 32))),
    );
}

fn nested_fail_if_cannot_merge(set: impl Fn(&mut Unit, Option<Box<Unit>>)) {
    fails(set, Some(Box::new(typed(Type::Integer))), Some(Box::new(typed(Type::Array))));
}

#[test]
fn it_should_merge_if_nones() {
    let mut dst = Unit::default();
    assert!(merge(&mut dst, &Unit::default()));
    assert_eq!(dst, Unit::default());
}

#[test]
fn max_length_it_should_merge_if_unfilled() {
    merges(|u, v| u.max_length = v, |u| u.max_length, None, Some(42), Some(42));
}

#[test]
fn max_length_it_should_select_minimum() {
    merges(|u, v| u.max_length = v, |u| u.max_length, Some(32), Some(42), Some(32));
}

#[test]
fn min_length_it_should_merge_if_unfilled() {
    merges(|u, v| u.min_length = v, |u| u.min_length, None, Some(42), Some(42));
}

#[test]
fn min_length_it_should_select_maximum() {
    merges(|u, v| u.min_length = v, |u| u.min_length, Some(32), Some(42), Some(42));
}

#[test]
fn max_items_it_should_merge_if_unfilled() {
    merges(|u, v| u.max_items = v, |u| u.max_items, None, Some(42), Some(42));
}

#[test]
fn max_items_it_should_select_minimum() {
    merges(|u, v| u.max_items = v, |u| u.max_items, Some(32), Some(42), Some(32));
}

#[test]
fn min_items_it_should_merge_if_unfilled() {
    merges(|u, v| u.min_items = v, |u| u.min_items, None, Some(42), Some(42));
}

#[test]
fn min_items_it_should_select_maximum() {
    merges(|u, v| u.min_items = v, |u| u.min_items, Some(32), Some(42), Some(42));
}

#[test]
fn max_properties_it_should_merge_if_unfilled() {
    merges(|u, v| u.max_properties = v, |u| u.max_properties, None, Some(42), Some(42));
}

#[test]
fn max_properties_it_should_select_minimum() {
    merges(|u, v| u.max_properties = v, |u| u.max_properties, Some(32), Some(42), Some(32));
}

#[test]
fn min_properties_it_should_merge_if_unfilled() {
    merges(|u, v| u.min_properties = v, |u| u.min_properties, None, Some(42), Some(42));
}

#[test]
fn min_properties_it_should_select_maximum() {
    merges(|u, v| u.min_properties = v, |u| u.min_properties, Some(32), Some(42), Some(42));
}

#[test]
fn items_it_should_merge_if_unfilled() {
    nested_merge_if_unfilled(|u, v| u.items = v, |u| u.items.clone());
}

#[test]
fn items_it_should_merge_nested_unit() {
    nested_merge_nested_unit(|u, v| u.items = v, |u| u.items.clone());
}

#[test]
fn items_it_should_fail_if_cannot_merge() {
    nested_fail_if_cannot_merge(|u, v| u.items = v);
}

#[test]
fn additional_items_it_should_merge_if_unfilled() {
    nested_merge_if_unfilled(|u, v| u.additional_items = v, |u| u.additional_items.clone());
}

#[test]
fn additional_items_it_should_merge_nested_unit() {
    nested_merge_nested_unit(|u, v| u.additional_items = v, |u| u.additional_items.clone());
}

#[test]
fn additional_items_it_should_fail_if_cannot_merge() {
    nested_fail_if_cannot_merge(|u, v| u.additional_items = v);
}

#[test]
fn additional_props_it_should_merge_if_unfilled() {
    nested_merge_if_unfilled(|u, v| u.additional_props = v, |u| u.additional_props.clone());
}

#[test]
fn additional_props_it_should_merge_nested_unit() {
    nested_merge_nested_unit(|u, v| u.additional_props = v, |u| u.additional_props.clone());
}

#[test]
fn additional_props_it_should_fail_if_cannot_merge() {
    nested_fail_if_cannot_merge(|u, v| u.additional_props = v);
}

#[test]
fn property_names_it_should_merge_if_unfilled() {
    nested_merge_if_unfilled(|u, v| u.property_names = v, |u| u.property_names.clone());
}

#[test]
fn property_names_it_should_merge_nested_unit() {
    nested_merge_nested_unit(|u, v| u.property_names = v, |u| u.property_names.clone());
}

#[test]
fn property_names_it_should_fail_if_cannot_merge() {
    nested_fail_if_cannot_merge(|u, v| u.property_names = v);
}

#[test]
fn contains_it_should_merge_if_unfilled() {
    nested_merge_if_unfilled(|u, v| u.contains = v, |u| u.contains.clone());
}

#[test]
fn contains_it_should_merge_nested_unit() {
    nested_merge_nested_unit(|u, v| u.contains = v, |u| u.contains.clone());
}

#[test]
fn contains_it_should_fail_if_cannot_merge() {
    nested_fail_if_cannot_merge(|u, v| u.contains = v);
}

#[test]
fn spec_it_should_merge_if_unfilled() {
    merges(
        |u, v| u.const_ = v,
        |u| u.const_.clone(),
        None,
        Some(Value::from(42)),
        Some(Value::from(42)),
    );
    merges(|u, v| u.type_ = v, |u| u.type_, None, Some(Type::Integer), Some(Type::Integer));
    merges(
        |u, v| u.format = v,
        |u| u.format.clone(),
        None,
        Some("foo".to_string()),
        Some("foo".to_string()),
    );
    merges(
        |u, v| u.maximum = v,
        |u| u.maximum,
        None,
        Some(Point::inc(42)),
        Some(Point::inc(42)),
    );
    merges(
        |u, v| u.minimum = v,
        |u| u.minimum,
        None,
        Some(Point::inc(42)),
        Some(Point::inc(42)),
    );
    let (dst, ok) = case(&|u: &mut Unit, v| u.tuple = v, &vec![], &vec![Unit::default()]);
    assert!(ok);
    assert_eq!(dst.tuple, vec![Unit::default()]);
}

#[test]
fn tuple_it_should_refuse_to_drop_its_positions() {
    let (dst, ok) = case(&|u: &mut Unit, v| u.tuple = v, &vec![Unit::default()], &vec![]);
    assert!(!ok);
    assert_eq!(dst.tuple, vec![Unit::default()]);
}

#[test]
fn spec_it_should_merge_if_equal() {
    merges(
        |u, v| u.const_ = v,
        |u| u.const_.clone(),
        Some(Value::from(42)),
        Some(Value::from(42)),
        Some(Value::from(42)),
    );
    merges(
        |u, v| u.type_ = v,
        |u| u.type_,
        Some(Type::Integer),
        Some(Type::Integer),
        Some(Type::Integer),
    );
    merges(
        |u, v| u.format = v,
        |u| u.format.clone(),
        Some("foo".to_string()),
        Some("foo".to_string()),
        Some("foo".to_string()),
    );
    merges(
        |u, v| u.maximum = v,
        |u| u.maximum,
        Some(Point::inc(42)),
        Some(Point::inc(42)),
        Some(Point::inc(42)),
    );
    merges(
        |u, v| u.minimum = v,
        |u| u.minimum,
        Some(Point::inc(42)),
        Some(Point::inc(42)),
        Some(Point::inc(42)),
    );
}

#[test]
fn spec_it_should_fail_if_different() {
    fails(|u, v| u.const_ = v, Some(Value::from(42)), Some(Value::from(40)));
    fails(|u, v| u.type_ = v, Some(Type::Integer), Some(Type::String));
    fails(|u, v| u.format = v, Some("foo".to_string()), Some("bar".to_string()));
}

#[test]
fn it_should_merge_integer_and_number() {
    merges(
        |u, v| u.type_ = v,
        |u| u.type_,
        Some(Type::Integer),
        Some(Type::Number),
        Some(Type::Integer),
    );
}

#[test]
fn it_should_remain_minimum() {
    merges(
        |u, v| u.maximum = v,
        |u| u.maximum,
        Some(Point::inc(42)),
        Some(Point::inc(32)),
        Some(Point::inc(32)),
    );
}

#[test]
fn it_should_remain_maximum() {
    merges(
        |u, v| u.minimum = v,
        |u| u.minimum,
        Some(Point::inc(42)),
        Some(Point::inc(32)),
        Some(Point::inc(42)),
    );
}

#[test]
fn spec_it_should_prefer_exclusive() {
    merges(
        |u, v| u.maximum = v,
        |u| u.maximum,
        Some(Point::inc(42)),
        Some(Point::exc(42)),
        Some(Point::exc(42)),
    );
    merges(
        |u, v| u.minimum = v,
        |u| u.minimum,
        Some(Point::inc(42)),
        Some(Point::exc(42)),
        Some(Point::exc(42)),
    );
}

#[test]
fn it_should_remain_false() {
    merges(|u, v| u.unique_items = v, |u| u.unique_items, false, false, false);
}

#[test]
fn it_should_select_true() {
    merges(|u, v| u.unique_items = v, |u| u.unique_items, false, true, true);
}

#[test]
fn it_should_fail_if_different_shape() {
    fails(|u, v| u.tuple = v, vec![Unit::default(), Unit::default()], vec![Unit::default()]);
}

#[test]
fn it_should_merge_appropriate_items() {
    let a = max_items(42);
    let b = min_items(32);
    let r = both_items(42, 32);
    merges(
        |u, v| u.tuple = v,
        |u| u.tuple.clone(),
        vec![a.clone(), a.clone()],
        vec![Unit::default(), b],
        vec![a, r],
    );
}

#[test]
fn it_should_fail_if_cannot_merge_items() {
    let a = typed(Type::Integer);
    let b = typed(Type::Array);
    fails(|u, v| u.tuple = v, vec![a.clone(), a.clone()], vec![Unit::default(), b]);
}

#[test]
fn a_contradiction_leaves_the_clause_as_it_was() {
    let mut dst = unit(|u| {
        u.type_ = Some(Type::Integer);
        u.format = Some("date".to_string());
        u.max_length = Some(3);
        u.required = names(&["a"]);
    });
    let before = dst.clone();
    let src = unit(|u| {
        u.format = Some("date".to_string());
        u.max_length = Some(1);
        u.required = names(&["b"]);
        u.type_ = Some(Type::String);
    });
    assert_eq!(merge(&mut dst, &src), false);
    assert_eq!(dst, before);
    let mut dst = typed(Type::Integer);
    assert_eq!(merge(&mut dst, &typed(Type::String)), false);
    assert_eq!(dst, typed(Type::Integer));
}

#[test]
fn a_nested_contradiction_leaves_the_clause_as_it_was() {
    let mut props = Props::new();
    props.insert("id".to_string(), typed(Type::Integer));
    let mut other = Props::new();
    other.insert("id".to_string(), typed(Type::Boolean));
    let mut dst = unit(|u| {
        u.max_items = Some(4);
        u.properties = props.clone();
    });
    let before = dst.clone();
    let src = unit(|u| {
        u.max_items = Some(2);
        u.const_ = Some(Value::from(1));
        u.properties = other.clone();
    });
    assert_eq!(merge(&mut dst, &src), false);
    assert_eq!(dst, before);
}

#[test]
fn the_divisor_stays_as_the_destination_had_it() {
    let six = Multiple::new(6, 0);
    let four = Multiple::new(4, 0);
    let mut dst = unit(|u| u.multiple_of = six);
    assert!(merge(&mut dst, &unit(|u| u.multiple_of = four)));
    assert_eq!(dst.multiple_of, six);
    let mut dst = Unit::default();
    assert!(merge(&mut dst, &unit(|u| u.multiple_of = four)));
    assert_eq!(dst.multiple_of, None);
}

#[test]
fn names_and_patterns_are_united() {
    let mut dst = unit(|u| {
        u.required = names(&["a", "b"]);
        u.pattern = names(&["^x"]);
    });
    let src = unit(|u| {
        u.required = names(&["b", "c"]);
        u.pattern = names(&["y$"]);
    });
    assert!(merge(&mut dst, &src));
    assert_eq!(dst.required, names(&["a", "b", "c"]));
    assert_eq!(dst.pattern, names(&["^x", "y$"]));
}

#[test]
fn properties_are_merged_by_name() {
    let mut dst_props = Props::new();
    dst_props.insert("a".to_string(), max_items(42));
    dst_props.insert("b".to_string(), typed(Type::Number));
    let mut src_props = Props::new();
    src_props.insert("b".to_string(), typed(Type::Integer));
    src_props.insert("c".to_string(), min_items(1));
    src_props.insert("a".to_string(), min_items(32));
    let mut dst = unit(|u| u.properties = dst_props.clone());
    let src = unit(|u| u.properties = src_props.clone());
    assert!(merge(&mut dst, &src));
    assert_eq!(dst.properties.len(), 3);
    assert_eq!(dst.properties.get(&"a".to_string()), Some(&both_items(42, 32)));
    assert_eq!(dst.properties.get(&"b".to_string()), Some(&typed(Type::Integer)));
    assert_eq!(dst.properties.get(&"c".to_string()), Some(&min_items(1)));
    assert_eq!(dst.properties.get(&"d".to_string()), None);
    assert_eq!(dst.pattern_props.len(), 0);
}

#[test]
fn pattern_properties_are_merged_by_name() {
    let mut dst_props = Props::new();
    dst_props.insert("^a".to_string(), typed(Type::Integer));
    let mut src_props = Props::new();
    src_props.insert("^a".to_string(), typed(Type::String));
    fails(|u, v: Props| u.pattern_props = v, dst_props.clone(), src_props);
    let mut more = Props::new();
    more.insert("^b".to_string(), typed(Type::String));
    let (dst, ok) = case(&|u: &mut Unit, v: Props| u.pattern_props = v, &dst_props, &more);
    assert!(ok);
    assert_eq!(dst.pattern_props.len(), 2);
    assert_eq!(dst.pattern_props.key_at(0), "^a");
    assert_eq!(dst.pattern_props.unit_at(1), &typed(Type::String));
}

#[test]
fn merging_in_place_answers_as_merging_does() {
    let mut dst = max_items(42);
    assert_eq!(merge_in_place(&mut dst, &min_items(32)), true);
    assert_eq!(dst, both_items(42, 32));
    let mut dst = typed(Type::Integer);
    assert_eq!(merge_in_place(&mut dst, &typed(Type::Null)), false);
}

#[test]
fn merge_unique_keeps_adopts_or_fails() {
    let mut dst = Some(1);
    assert_eq!(merge_unique(&mut dst, &Some(1)), true);
    assert_eq!(dst, Some(1));
    assert_eq!(merge_unique(&mut dst, &Some(2)), false);
    assert_eq!(dst, Some(1));
    assert_eq!(merge_unique(&mut dst, &None), true);
    assert_eq!(dst, Some(1));
    let mut dst = None;
    assert_eq!(merge_unique(&mut dst, &Some("a".to_string())), true);
    assert_eq!(dst, Some("a".to_string()));
    let mut dst: Option<Value> = None;
    assert_eq!(merge_unique(&mut dst, &None), true);
    assert_eq!(dst, None);
}

#[test]
fn merge_type_narrows_or_fails() {
    let mut dst = Some(Type::Number);
    assert_eq!(merge_type(&mut dst, &Some(Type::Integer)), true);
    assert_eq!(dst, Some(Type::Integer));
    assert_eq!(merge_type(&mut dst, &Some(Type::Number)), true);
    assert_eq!(dst, Some(Type::Integer));
    assert_eq!(merge_type(&mut dst, &Some(Type::Object)), false);
    assert_eq!(dst, Some(Type::Integer));
    assert_eq!(merge_type(&mut dst, &None), true);
    assert_eq!(dst, Some(Type::Integer));
    let mut dst = None;
    assert_eq!(merge_type(&mut dst, &Some(Type::Null)), true);
    assert_eq!(dst, Some(Type::Null));
}

#[test]
fn merge_count_and_point_take_what_the_strategy_picks() {
    let mut dst = Some(3u32);
    merge_count(&mut dst, &Some(5), |a: u32, b: u32| a.min(b));
    assert_eq!(dst, Some(3));
    merge_count(&mut dst, &Some(5), |a: u32, b: u32| a.max(b));
    assert_eq!(dst, Some(5));
    merge_count(&mut dst, &None, |a: u32, b: u32| a.max(b));
    assert_eq!(dst, Some(5));
    let mut dst = None;
    merge_count(&mut dst, &Some(5), |a: u32, b: u32| a.min(b));
    assert_eq!(dst, Some(5));
    let mut dst = Some(Point::inc(1));
    merge_point(&mut dst, &Some(Point::exc(1)), Point::min);
    assert_eq!(dst, Some(Point::exc(1)));
    merge_point(&mut dst, &Some(Point::inc(2)), Point::max);
    assert_eq!(dst, Some(Point::inc(2)));
    merge_point(&mut dst, &None, Point::max);
    assert_eq!(dst, Some(Point::inc(2)));
    let mut dst = None;
    merge_point(&mut dst, &Some(Point::inc(2)), Point::max);
    assert_eq!(dst, Some(Point::inc(2)));
}

#[test]
fn merge_set_adds_what_is_missing() {
    let mut dst = names(&["a", "b"]);
    merge_set(&mut dst, &names(&["b", "c", "c", "a", "d"]));
    assert_eq!(dst, names(&["a", "b", "c", "d"]));
    let mut dst = names(&[]);
    merge_set(&mut dst, &names(&[]));
    assert_eq!(dst, names(&[]));
    let mut dst = vec![3, 1];
    merge_set(&mut dst, &[1, 2, 3, 2]);
    assert_eq!(dst, vec![3, 1, 2]);
    assert_eq!(has_item(&dst, &2), true);
    assert_eq!(has_item(&dst, &4), false);
    assert_eq!(has_item(&Vec::new(), &4), false);
}

#[test]
fn merge_nested_tuple_and_props_work_on_their_own() {
    let mut dst = Some(Box::new(max_items(42)));
    assert_eq!(merge_nested(&mut dst, &Some(Box::new(min_items(32)))), true);
    assert_eq!(dst, Some(Box::new(both_items(42, 32))));
    let mut dst = vec![max_items(42)];
    assert_eq!(merge_tuple(&mut dst, &vec![min_items(32)]), true);
    assert_eq!(dst, vec![both_items(42, 32)]);
    assert_eq!(merge_tuple(&mut dst, &vec![]), false);
    let mut dst = Props::new();
    let mut src = Props::new();
    src.insert("a".to_string(), max_items(1));
    assert_eq!(merge_props(&mut dst, &src), true);
    assert_eq!(dst, src);
}

#[test]
fn it_should_merge_if_unfilled() {
    merges(|u, v| u.type_ = v, |u| u.type_, None, Some(Type::Integer), Some(Type::Integer));
}

#[test]
fn it_should_merge_if_equal() {
    merges(
        |u, v| u.type_ = v,
        |u| u.type_,
        Some(Type::Integer),
        Some(Type::Integer),
        Some(Type::Integer),
    );
}

#[test]
fn it_should_fail_if_different() {
    fails(|u, v| u.type_ = v, Some(Type::Integer), Some(Type::String));
}

#[test]
fn it_should_prefer_exclusive() {
    merges(
        |u, v| u.maximum = v,
        |u| u.maximum,
        Some(Point::inc(42)),
        Some(Point::exc(42)),
        Some(Point::exc(42)),
    );
}
