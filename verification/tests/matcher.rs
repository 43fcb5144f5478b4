use checkco::matcher::{check_opt, has_text, is_superset, subtype};
use checkco::multiple::Multiple;
use checkco::schema::Type;
use checkco::unit::{Point, Props, Unit};
use serde_json::Value;

fn unit(fill: impl Fn(&mut Unit)) -> Unit {
    let mut unit = Unit::default();
    fill(&mut unit);
    unit
}

fn names(list: &[&str]) -> Vec<String> {
    list.iter().map(|name| name.to_string()).collect()
}

fn requiring(list: &[&str]) -> Unit {
    unit(|u| u.required = names(list))
}

fn multiple(value: u64) -> Option<Multiple> {
    Some(Multiple::new(value, 0).expect("a positive divisor"))
}

fn check_max(set: impl Fn(&mut Unit, Option<u32>)) {
    let with = |value: Option<u32>| unit(|u| set(u, value));
    assert_eq!(subtype(&with(None), &with(Some(42))), false);
    assert_eq!(subtype(&with(Some(42)), &with(None)), true);
    assert_eq!(subtype(&with(Some(42)), &with(Some(43))), true);
    assert_eq!(subtype(&with(Some(42)), &with(Some(41))), false);
}

fn check_min(set: impl Fn(&mut Unit, Option<u32>)) {
    let with = |value: Option<u32>| unit(|u| set(u, value));
    assert_eq!(subtype(&with(None), &with(Some(42))), false);
    assert_eq!(subtype(&with(Some(42)), &with(None)), true);
    assert_eq!(subtype(&with(Some(42)), &with(Some(43))), false);
    assert_eq!(subtype(&with(Some(42)), &with(Some(41))), true);
}

fn check_nested(set: impl Fn(&mut Unit, Option<Box<Unit>>)) {
    let with = |nested: Option<Unit>| unit(|u| set(u, nested.clone().map(Box::new)));
    let a = requiring(&["a", "b"]);
    let b = requiring(&["a"]);
    let c = requiring(&["c"]);
    assert_eq!(subtype(&with(None), &with(Some(a.clone()))), false);
    assert_eq!(subtype(&with(Some(a.clone())), &with(None)), true);
    assert_eq!(subtype(&with(Some(a.clone())), &with(Some(c))), false);
    assert_eq!(subtype(&with(Some(a.clone())), &with(Some(b))), true);
}

fn check_props(set: impl Fn(&mut Unit, Props)) {
    let with = |props: &Props| unit(|u| set(u, props.clone()));
    let mut ha = Props::new();
    ha.insert("a".to_string(), requiring(&["a", "b"]));
    let mut hb = Props::new();
    hb.insert("a".to_string(), requiring(&["a"]));
    let mut hc = Props::new();
    hc.insert("a".to_string(), requiring(&["c"]));
    assert_eq!(subtype(&with(&Props::new()), &with(&ha)), false);
    assert_eq!(subtype(&with(&ha), &with(&Props::new())), true);
    assert_eq!(subtype(&with(&ha), &with(&hc)), false);
    assert_eq!(subtype(&with(&ha), &with(&hb)), true);
}

#[test]
fn it_should_check_const() {
    let with = |value: Option<Value>| unit(|u| u.const_ = value.clone());
    assert_eq!(subtype(&with(None), &with(Some(Value::from(42)))), false);
    assert_eq!(subtype(&with(Some(Value::from(42))), &with(None)), true);
    assert_eq!(subtype(&with(Some(Value::from(42))), &with(Some(Value::from(42)))), true);
}

#[test]
fn it_should_tell_literals_apart() {
    let with = |value: Value| unit(|u| u.const_ = Some(value.clone()));
    assert_eq!(subtype(&with(Value::from(42)), &with(Value::from(40))), false);
    assert_eq!(subtype(&with(Value::from("42")), &with(Value::from(42))), false);
    assert_eq!(subtype(&with(Value::from("a")), &with(Value::from("a"))), true);
}

#[test]
fn it_should_check_multiple_of() {
    let with = |value: Option<Multiple>| unit(|u| u.multiple_of = value);
    assert_eq!(subtype(&with(None), &with(multiple(42))), false);
    assert_eq!(subtype(&with(multiple(42)), &with(None)), true);
    assert_eq!(subtype(&with(multiple(42)), &with(multiple(42))), true);
    assert_eq!(subtype(&with(multiple(84)), &with(multiple(42))), true);
    assert_eq!(subtype(&with(multiple(83)), &with(multiple(42))), false);
}

#[test]
fn it_should_check_fractional_multiples() {
    let with = |value: Option<Multiple>| unit(|u| u.multiple_of = value);
    // 1.5 = 3 * 2^-1, 0.5 = 1 * 2^-1, 0.75 = 3 * 2^-2
    assert_eq!(subtype(&with(Multiple::new(3, -1)), &with(Multiple::new(1, -1))), true);
    assert_eq!(subtype(&with(Multiple::new(1, -1)), &with(Multiple::new(3, -1))), false);
    assert_eq!(subtype(&with(Multiple::new(3, -1)), &with(Multiple::new(3, -2))), true);
    assert_eq!(subtype(&with(Multiple::new(3, -2)), &with(Multiple::new(3, -1))), false);
    assert_eq!(subtype(&with(Multiple::new(1, 0)), &with(Multiple::new(1, 1))), false);
}

#[test]
fn it_should_check_maximum() {
    let with = |value: Option<Point>| unit(|u| u.maximum = value);
    assert_eq!(subtype(&with(None), &with(Some(Point::exc(42)))), false);
    assert_eq!(subtype(&with(Some(Point::exc(42))), &with(None)), true);
    assert_eq!(subtype(&with(Some(Point::exc(42))), &with(Some(Point::exc(42)))), true);
    assert_eq!(subtype(&with(Some(Point::inc(42))), &with(Some(Point::inc(42)))), true);
    assert_eq!(subtype(&with(Some(Point::exc(42))), &with(Some(Point::inc(42)))), true);
    assert_eq!(subtype(&with(Some(Point::inc(42))), &with(Some(Point::exc(42)))), false);
    assert_eq!(subtype(&with(Some(Point::inc(42))), &with(Some(Point::exc(43)))), true);
    assert_eq!(subtype(&with(Some(Point::inc(42))), &with(Some(Point::inc(43)))), true);
    assert_eq!(subtype(&with(Some(Point::inc(43))), &with(Some(Point::inc(42)))), false);
}

#[test]
fn it_should_check_minimum() {
    let with = |value: Option<Point>| unit(|u| u.minimum = value);
    assert_eq!(subtype(&with(None), &with(Some(Point::exc(42)))), false);
    assert_eq!(subtype(&with(Some(Point::exc(42))), &with(None)), true);
    assert_eq!(subtype(&with(Some(Point::exc(42))), &with(Some(Point::exc(42)))), true);
    assert_eq!(subtype(&with(Some(Point::inc(42))), &with(Some(Point::inc(42)))), true);
    assert_eq!(subtype(&with(Some(Point::exc(42))), &with(Some(Point::inc(42)))), true);
    assert_eq!(subtype(&with(Some(Point::inc(42))), &with(Some(Point::exc(42)))), false);
    assert_eq!(subtype(&with(Some(Point::inc(42))), &with(Some(Point::exc(43)))), false);
    assert_eq!(subtype(&with(Some(Point::inc(42))), &with(Some(Point::inc(43)))), false);
    assert_eq!(subtype(&with(Some(Point::inc(43))), &with(Some(Point::inc(42)))), true);
}

#[test]
fn it_should_check_max_length() {
    check_max(|u, value| u.max_length = value);
}

#[test]
fn it_should_check_min_length() {
    check_min(|u, value| u.min_length = value);
}

#[test]
fn it_should_check_max_items() {
    check_max(|u, value| u.max_items = value);
}

#[test]
fn it_should_check_min_items() {
    check_min(|u, value| u.min_items = value);
}

#[test]
fn it_should_check_max_properties() {
    check_max(|u, value| u.max_properties = value);
}

#[test]
fn it_should_check_min_properties() {
    check_min(|u, value| u.min_properties = value);
}

#[test]
fn it_should_check_pattern() {
    let with = |list: &[&str]| unit(|u| u.pattern = names(list));
    assert_eq!(subtype(&with(&["a"]), &with(&["a"])), true);
    assert_eq!(subtype(&with(&["a"]), &with(&["b"])), false);
    assert_eq!(subtype(&with(&["a", "b"]), &with(&["b"])), true);
}

#[test]
fn it_should_check_required() {
    let with = |list: &[&str]| unit(|u| u.required = names(list));
    assert_eq!(subtype(&with(&["a"]), &with(&["a"])), true);
    assert_eq!(subtype(&with(&["a"]), &with(&["b"])), false);
    assert_eq!(subtype(&with(&["a", "b"]), &with(&["b"])), true);
}

#[test]
fn it_should_ask_for_every_required_name_of_the_parent() {
    assert_eq!(subtype(&requiring(&["a", "b"]), &requiring(&["a"])), true);
    assert_eq!(subtype(&requiring(&["a"]), &requiring(&["a", "b"])), false);
    assert_eq!(subtype(&requiring(&["b", "a", "a"]), &requiring(&["a", "b"])), true);
    assert_eq!(subtype(&requiring(&[]), &requiring(&[])), true);
}

#[test]
fn it_should_check_additional_items() {
    check_nested(|u, nested| u.additional_items = nested);
}

#[test]
fn it_should_check_items() {
    check_nested(|u, nested| u.items = nested);
}

#[test]
fn it_should_check_additional_props() {
    check_nested(|u, nested| u.additional_props = nested);
}

#[test]
fn it_should_check_contains() {
    check_nested(|u, nested| u.contains = nested);
}

#[test]
fn it_should_check_property_names() {
    check_nested(|u, nested| u.property_names = nested);
}

#[test]
fn it_should_check_properties() {
    check_props(|u, props| u.properties = props);
}

#[test]
fn it_should_check_pattern_props() {
    check_props(|u, props| u.pattern_props = props);
}

#[test]
fn it_should_allow_extra_properties_in_the_child() {
    let mut child = Props::new();
    child.insert("a".to_string(), requiring(&["a"]));
    child.insert("b".to_string(), requiring(&["b"]));
    let mut parent = Props::new();
    parent.insert("b".to_string(), requiring(&[]));
    let child = unit(|u| u.properties = child.clone());
    let parent = unit(|u| u.properties = parent.clone());
    assert_eq!(subtype(&child, &parent), true);
    assert_eq!(subtype(&parent, &child), false);
}

#[test]
fn it_should_check_type() {
    let with = |value: Option<Type>| unit(|u| u.type_ = value);
    assert_eq!(subtype(&with(None), &with(Some(Type::Integer))), false);
    assert_eq!(subtype(&with(Some(Type::Integer)), &with(None)), true);
    assert_eq!(subtype(&with(Some(Type::Integer)), &with(Some(Type::String))), false);
    assert_eq!(subtype(&with(Some(Type::Integer)), &with(Some(Type::Number))), true);
}

#[test]
fn it_should_take_an_integer_for_a_number_only() {
    let with = |value: Type| unit(|u| u.type_ = Some(value));
    assert_eq!(subtype(&with(Type::Integer), &with(Type::Number)), true);
    assert_eq!(subtype(&with(Type::Number), &with(Type::Integer)), false);
    assert_eq!(subtype(&with(Type::Number), &with(Type::Number)), true);
    assert_eq!(subtype(&with(Type::Null), &with(Type::Object)), false);
    assert_eq!(Type::Integer.is_within(Type::Number), true);
    assert_eq!(Type::Number.is_within(Type::Integer), false);
    assert_eq!(Type::Integer.intersect(Type::Number), Some(Type::Integer));
    assert_eq!(Type::Number.intersect(Type::Integer), Some(Type::Integer));
    assert_eq!(Type::Array.intersect(Type::Array), Some(Type::Array));
    assert_eq!(Type::Array.intersect(Type::Boolean), None);
}

#[test]
fn it_should_check_tuple() {
    let with = |list: Vec<Unit>| unit(|u| u.tuple = list.clone());
    let a = requiring(&["a", "b"]);
    let b = requiring(&["a"]);
    let c = requiring(&["c"]);
    assert_eq!(subtype(&with(vec![a.clone()]), &with(vec![a.clone(), b.clone()])), false);
    assert_eq!(subtype(&with(vec![a.clone()]), &with(vec![b.clone()])), true);
    assert_eq!(subtype(&with(vec![a.clone()]), &with(vec![c.clone()])), false);
}

#[test]
fn it_should_check_unique_items() {
    let with = |value: bool| unit(|u| u.unique_items = value);
    assert_eq!(subtype(&with(false), &with(false)), true);
    assert_eq!(subtype(&with(true), &with(false)), true);
    assert_eq!(subtype(&with(true), &with(true)), true);
    assert_eq!(subtype(&with(false), &with(true)), false);
}

#[test]
fn it_should_check_format() {
    let with = |value: Option<&str>| unit(|u| u.format = value.map(|f| f.to_string()));
    assert_eq!(subtype(&with(None), &with(Some("date"))), false);
    assert_eq!(subtype(&with(Some("date")), &with(None)), true);
    assert_eq!(subtype(&with(Some("date")), &with(Some("date"))), true);
    assert_eq!(subtype(&with(Some("date")), &with(Some("time"))), false);
}

#[test]
fn it_should_fail_on_a_single_field() {
    let child = unit(|u| {
        u.type_ = Some(Type::Integer);
        u.maximum = Some(Point::inc(10));
        u.required = names(&["a"]);
    });
    let parent = unit(|u| {
        u.type_ = Some(Type::Number);
        u.maximum = Some(Point::inc(10));
    });
    assert_eq!(subtype(&child, &parent), true);
    let stricter = unit(|u| {
        u.type_ = Some(Type::Number);
        u.maximum = Some(Point::exc(10));
    });
    assert_eq!(subtype(&child, &stricter), false);
}

fn rich() -> Unit {
    let mut props = Props::new();
    props.insert("id".to_string(), unit(|u| u.type_ = Some(Type::Integer)));
    unit(|u| {
        u.const_ = Some(Value::from("x"));
        u.multiple_of = multiple(6);
        u.maximum = Some(Point::exc(9));
        u.minimum = Some(Point::inc(-3));
        u.max_length = Some(7);
        u.min_length = Some(1);
        u.pattern = names(&["^a", "b$"]);
        u.items = Some(Box::new(requiring(&["k"])));
        u.tuple = vec![requiring(&["t"]), Unit::default()];
        u.unique_items = true;
        u.required = names(&["id"]);
        u.format = Some("date".to_string());
        u.properties = props.clone();
        u.type_ = Some(Type::Integer);
    })
}

#[test]
fn every_clause_is_a_subtype_of_itself() {
    assert_eq!(subtype(&rich(), &rich()), true);
    assert_eq!(subtype(&Unit::default(), &Unit::default()), true);
}

#[test]
fn subtyping_carries_over_a_chain() {
    let a = unit(|u| {
        u.type_ = Some(Type::Integer);
        u.maximum = Some(Point::exc(5));
        u.multiple_of = multiple(12);
        u.required = names(&["a", "b", "c"]);
    });
    let b = unit(|u| {
        u.type_ = Some(Type::Integer);
        u.maximum = Some(Point::inc(5));
        u.multiple_of = multiple(6);
        u.required = names(&["a", "b"]);
    });
    let c = unit(|u| {
        u.type_ = Some(Type::Number);
        u.maximum = Some(Point::inc(8));
        u.multiple_of = multiple(3);
        u.required = names(&["a"]);
    });
    assert_eq!(subtype(&a, &b), true);
    assert_eq!(subtype(&b, &c), true);
    assert_eq!(subtype(&a, &c), true);
    assert_eq!(subtype(&c, &a), false);
}

#[test]
fn the_empty_clause_is_above_a_clause_without_positions() {
    let mut child = rich();
    child.tuple = Vec::new();
    assert_eq!(subtype(&child, &Unit::default()), true);
    assert_eq!(subtype(&Unit::default(), &child), false);
}

#[test]
fn the_empty_clause_is_not_above_a_clause_with_positions() {
    let child = unit(|u| u.tuple = vec![Unit::default()]);
    assert_eq!(subtype(&child, &Unit::default()), false);
}

#[test]
fn a_raised_maximum_is_looser() {
    let with = |value: Point| unit(|u| u.maximum = Some(value));
    assert_eq!(subtype(&with(Point::inc(3)), &with(Point::inc(8))), true);
    assert_eq!(subtype(&with(Point::exc(3)), &with(Point::exc(8))), true);
    assert_eq!(subtype(&with(Point::inc(3)), &with(Point::inc(3))), true);
    assert_eq!(subtype(&with(Point::inc(-8)), &with(Point::inc(-3))), true);
    assert_eq!(subtype(&with(Point::inc(8)), &with(Point::inc(3))), false);
}

#[test]
fn check_opt_asks_the_child_for_what_the_parent_has() {
    let le = |c: &u32, p: &u32| c <= p;
    assert_eq!(check_opt(&None, &Some(1), le), false);
    assert_eq!(check_opt(&Some(1), &None, le), true);
    assert_eq!(check_opt(&None::<u32>, &None, le), true);
    assert_eq!(check_opt(&Some(1), &Some(2), le), true);
    assert_eq!(check_opt(&Some(3), &Some(2), le), false);
}

#[test]
fn names_are_found_by_their_text() {
    let list = names(&["a", "b"]);
    assert_eq!(has_text(&list, &"b".to_string()), true);
    assert_eq!(has_text(&list, &"c".to_string()), false);
    assert_eq!(has_text(&Vec::new(), &"a".to_string()), false);
    assert_eq!(is_superset(&list, &names(&["b", "b"])), true);
    assert_eq!(is_superset(&list, &names(&[])), true);
    assert_eq!(is_superset(&names(&[]), &list), false);
}

#[test]
fn bounds_tighten_to_the_exclusive_endpoint() {
    assert_eq!(Point::inc(42).min(Point::exc(42)), Point::exc(42));
    assert_eq!(Point::exc(42).min(Point::inc(42)), Point::exc(42));
    assert_eq!(Point::inc(42).max(Point::exc(42)), Point::exc(42));
    assert_eq!(Point::exc(42).max(Point::inc(42)), Point::exc(42));
    assert_eq!(Point::inc(41).min(Point::exc(42)), Point::inc(41));
    assert_eq!(Point::inc(41).max(Point::exc(42)), Point::exc(42));
    assert_eq!(Point::inc(7), Point { value: 7, inclusive: true });
    assert_eq!(Point::exc(7), Point { value: 7, inclusive: false });
}

#[test]
fn divisors_are_brought_to_an_odd_mantissa() {
    assert_eq!(Multiple::new(0, 0), None);
    assert_eq!(Multiple::new(84, 0), Multiple::new(21, 2));
    assert_eq!(Multiple::new(1 << 63, -63), Multiple::new(1, 0));
    assert_ne!(Multiple::new(3, 0), Multiple::new(3, 1));
    let six = Multiple::new(6, 0).expect("positive");
    let three = Multiple::new(3, 0).expect("positive");
    let half = Multiple::new(1, -1).expect("positive");
    assert_eq!(six.is_multiple(&three), true);
    assert_eq!(three.is_multiple(&six), false);
    assert_eq!(three.is_multiple(&half), true);
    assert_eq!(half.is_multiple(&three), false);
    assert_eq!(Multiple::new(u64::MAX, i32::MAX).is_some(), true);
}
