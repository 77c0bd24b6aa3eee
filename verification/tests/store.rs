use pydantic_core::errors::{LocItem, Location};
use pydantic_core::output::Output;
use pydantic_core::value::{Heap, Literal, Value};

#[test]
fn values_are_placed_in_the_order_added() {
    let mut heap = Heap::new();
    assert_eq!(heap.len(), 0);
    assert_eq!(heap.add(Value::Null), Some(0));
    assert_eq!(heap.add(Value::Int(5)), Some(1));
    assert_eq!(heap.add(Value::List(vec![0, 1, 1])), Some(2));
    assert_eq!(heap.len(), 3);
    assert_eq!(heap.get(1), &Value::Int(5));
    assert_eq!(heap.get(2), &Value::List(vec![0, 1, 1]));
}

#[test]
fn value_may_name_itself_but_nothing_beyond() {
    let mut heap = Heap::new();
    assert_eq!(heap.add(Value::List(vec![1])), None);
    assert_eq!(heap.len(), 0);
    assert_eq!(heap.add(Value::List(vec![0])), Some(0));
    assert_eq!(heap.add(Value::SetOf(vec![0, 2])), None);
    assert_eq!(heap.add(Value::Dict(vec![("k".to_string(), 2)])), None);
    assert_eq!(heap.add(Value::Dict(vec![("k".to_string(), 1)])), Some(1));
    assert_eq!(heap.len(), 2);
}

#[test]
fn append_and_insert_add_members_in_place() {
    let mut heap = Heap::new();
    let list = heap.add(Value::List(vec![])).unwrap();
    let set = heap.add(Value::SetOf(vec![])).unwrap();
    let dict = heap.add(Value::Dict(vec![])).unwrap();
    let int = heap.add(Value::Int(1)).unwrap();
    assert!(heap.append(list, int));
    assert!(heap.append(list, list));
    assert!(heap.append(set, dict));
    assert!(heap.insert(dict, "a".to_string(), set));
    assert!(heap.insert(dict, "a".to_string(), int));
    assert_eq!(heap.get(list), &Value::List(vec![int, list]));
    assert_eq!(heap.get(set), &Value::SetOf(vec![dict]));
    assert_eq!(heap.get(dict), &Value::Dict(vec![("a".to_string(), set), ("a".to_string(), int)]));
    assert!(!heap.append(int, list));
    assert!(!heap.append(dict, int));
    assert!(!heap.append(list, 9));
    assert!(!heap.append(9, int));
    assert!(!heap.insert(list, "a".to_string(), int));
    assert!(!heap.insert(dict, "a".to_string(), 9));
    assert!(!heap.insert(9, "a".to_string(), int));
    assert_eq!(heap.len(), 4);
    assert_eq!(heap.get(list), &Value::List(vec![int, list]));
}

#[test]
fn copies_are_equal() {
    let values = vec![
        Value::Null,
        Value::Bool(true),
        Value::Int(-1),
        Value::Str("s".to_string()),
        Value::Bytes(vec![1, 2]),
        Value::Real("1e9".to_string()),
        Value::List(vec![1, 2]),
        Value::SetOf(vec![3]),
        Value::Dict(vec![("k".to_string(), 4)]),
    ];
    for v in &values {
        assert_eq!(&v.clone(), v);
    }
    let literals =
        vec![Literal::Null, Literal::Bool(false), Literal::Int(3), Literal::Str("x".to_string()), Literal::Bytes(vec![9])];
    for l in &literals {
        assert_eq!(&l.clone(), l);
    }
    let out = Output::Dict(vec![
        ("a".to_string(), Output::List(vec![Output::Int(1), Output::SetOf(vec![Output::Null, Output::Kept(3)])])),
        ("b".to_string(), Output::Bytes(vec![1])),
        ("c".to_string(), Output::Str("s".to_string())),
        ("d".to_string(), Output::Bool(true)),
    ]);
    assert_eq!(out.clone(), out);
    assert!(out.same(&out.clone()));
}

#[test]
fn sameness_of_outputs_is_by_kind_and_content() {
    let a = Output::List(vec![Output::Int(1), Output::Str("1".to_string())]);
    assert!(a.same(&Output::List(vec![Output::Int(1), Output::Str("1".to_string())])));
    assert!(!a.same(&Output::List(vec![Output::Str("1".to_string()), Output::Int(1)])));
    assert!(!a.same(&Output::SetOf(vec![Output::Int(1), Output::Str("1".to_string())])));
    assert!(!a.same(&Output::List(vec![Output::Int(1)])));
    assert!(!Output::Int(1).same(&Output::Str("1".to_string())));
    assert!(!Output::Int(1).same(&Output::Bool(true)));
    assert!(!Output::Kept(1).same(&Output::Int(1)));
    assert!(Output::Kept(1).same(&Output::Kept(1)));
    let d = |k: &str, v: i64| Output::Dict(vec![(k.to_string(), Output::Int(v))]);
    assert!(d("a", 1).same(&d("a", 1)));
    assert!(!d("a", 1).same(&d("b", 1)));
    assert!(!d("a", 1).same(&d("a", 2)));
    assert!(Output::Bytes(vec![1, 2]).same(&Output::Bytes(vec![1, 2])));
    assert!(!Output::Bytes(vec![1, 2]).same(&Output::Bytes(vec![1, 3])));
    assert_eq!(Output::from_literal(&Literal::Str("x".to_string())), Output::Str("x".to_string()));
    assert_eq!(Output::from_literal(&Literal::Null), Output::Null);
}

#[test]
fn location_grows_and_shrinks_at_its_end() {
    let mut loc = Location::new();
    assert_eq!(loc.len(), 0);
    loc.pop();
    assert_eq!(loc.len(), 0);
    loc.push(LocItem::Field("a".to_string()));
    loc.push(LocItem::Index(2));
    loc.push(LocItem::Key("k".to_string()));
    assert_eq!(loc.len(), 3);
    let copy = loc.clone();
    loc.pop();
    assert_eq!(loc.items, vec![LocItem::Field("a".to_string()), LocItem::Index(2)]);
    assert_eq!(copy.items, vec![LocItem::Field("a".to_string()), LocItem::Index(2), LocItem::Key("k".to_string())]);
}
