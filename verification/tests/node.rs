use std::collections::HashSet;
use yaml_peg::{AnchorTable, Node, NodeBase, Yaml};

fn s(text: &str) -> Node {
    Node::new(Yaml::Str(text.to_string()), 0, "", "")
}

fn num(text: &str, pos: u64) -> Node {
    Node::new(Yaml::Int(text.to_string()), pos, "", "")
}

fn map(entries: Vec<(Node, Node)>, pos: u64) -> Node {
    Node::new(Yaml::Mapping(entries), pos, "", "")
}

#[test]
fn equality_ignores_decorations() {
    let mut set = HashSet::new();
    set.insert(Node::new(Yaml::Str("a".to_string()), 0, "", ""));
    set.insert(Node::new(Yaml::Str("a".to_string()), 1, "my-type", ""));
    set.insert(Node::new(Yaml::Str("a".to_string()), 2, "", "my-anchor"));
    assert_eq!(set.len(), 1);
    assert_ne!(s("a"), s("b"));
    assert_ne!(s("1"), num("1", 0));
}

#[test]
fn fields_are_kept() {
    let n = Node::new(Yaml::Bool(true), 7, "tag:yaml.org,2002:bool", "flag");
    assert_eq!(n.pos(), 7);
    assert_eq!(n.ty(), "tag:yaml.org,2002:bool");
    assert_eq!(n.anchor(), "flag");
    assert!(matches!(n.yaml(), Yaml::Bool(true)));
    assert!(!n.is_null());
    assert!(matches!(n.into_yaml(), Yaml::Bool(true)));
    assert!(NodeBase::from(Yaml::Null).is_null());
}

#[test]
fn typed_accessors() {
    assert_eq!(Node::new(Yaml::Bool(true), 3, "", "").as_bool(), Ok(true));
    assert_eq!(s("x").as_bool(), Err(0));
    assert_eq!(num("60", 4).as_int::<i64>(), Ok(60));
    assert_eq!(num("0x3c", 4).as_int::<i64>(), Err(4));
    assert_eq!(s("60").as_int::<i64>(), Err(0));
    let f = Node::new(Yaml::Float("20.06".to_string()), 9, "", "");
    assert_eq!(f.as_float::<f64>(), Ok(20.06));
    assert_eq!(f.as_number::<f64>(), Ok(20.06));
    assert_eq!(num("60", 4).as_number::<u8>(), Ok(60));
    assert_eq!(num("60", 4).as_float::<f64>(), Err(4));
    assert_eq!(s("abc").as_str(), Ok("abc"));
    assert_eq!(Node::new(Yaml::Null, 5, "", "").as_str(), Ok(""));
    assert_eq!(num("1", 5).as_str(), Err(5));
}

#[test]
fn as_value_of_each_scalar() {
    assert_eq!(s("abc").as_value(), Ok("abc"));
    assert_eq!(num("123", 0).as_value(), Ok("123"));
    assert_eq!(Node::new(Yaml::Float("12.04".to_string()), 0, "", "").as_value(), Ok("12.04"));
    assert_eq!(Node::new(Yaml::Bool(true), 0, "", "").as_value(), Ok("true"));
    assert_eq!(Node::new(Yaml::Bool(false), 0, "", "").as_value(), Ok("false"));
    assert_eq!(Node::new(Yaml::Null, 0, "", "").as_value(), Ok(""));
    assert_eq!(Node::new(Yaml::Array(vec![]), 11, "", "").as_value(), Err(11));
    assert_eq!(Node::new(Yaml::Anchor("a".to_string()), 12, "", "").as_value(), Err(12));
}

#[test]
fn containers() {
    let a = Node::new(Yaml::Array(vec![num("1", 1), num("2", 3)]), 0, "", "");
    assert_eq!(a.as_array().unwrap(), &vec![num("1", 0), num("2", 0)]);
    assert_eq!(a.as_map().err(), Some(0));
    let m = map(vec![(num("1", 0), num("2", 0))], 8);
    assert_eq!(m.as_map().unwrap().len(), 1);
    assert_eq!(m.as_array().err(), Some(8));
}

#[test]
fn get_walks_nested_mappings() {
    let n = map(vec![(s("a"), map(vec![(s("b"), num("30", 9))], 4))], 0);
    assert_eq!(n.get(&["a", "b"]), Ok(num("30", 0)));
    assert_eq!(n.get(&["a", "b"]).unwrap().pos(), 9);
    assert_eq!(n.get(&["a"]).unwrap().pos(), 4);
    assert_eq!(n.get(&["x"]), Err(0));
    assert_eq!(n.get(&["a", "x"]), Err(4));
    assert_eq!(n.get(&["a", "b", "c"]), Err(9));
    assert_eq!(n.get(&[true]), Err(0));
}

#[test]
fn get_equals_repeated_indexing() {
    let n = map(vec![(s("a"), map(vec![(s("b"), num("30", 9))], 4))], 0);
    let got = n.get(&["a", "b"]).unwrap();
    assert_eq!(got, n["a"]["b"]);
    assert_eq!(got.pos(), n["a"]["b"].pos());
}

#[test]
fn get_default_falls_back_on_a_missing_key() {
    let a = map(vec![(s("a"), map(vec![(s("b"), s("c"))], 1))], 0);
    assert_eq!(a.get_default(&["a", "b"], "d", NodeBase::as_str), Ok("c"));
    let b = map(vec![(s("a"), map(vec![], 1))], 0);
    assert_eq!(b.get_default(&["a", "b"], "d", NodeBase::as_str), Ok("d"));
    assert_eq!(b.get_default(&["x", "b"], "d", NodeBase::as_str), Ok("d"));
    let c = map(vec![(s("a"), map(vec![(s("b"), Node::new(Yaml::Float("20.".to_string()), 6, "", ""))], 1))], 0);
    assert_eq!(c.get_default(&["a", "b"], "d", NodeBase::as_str), Err(6));
    let d = map(vec![(s("a"), num("1", 3))], 0);
    assert_eq!(d.get_default(&["a", "b"], "d", NodeBase::as_str), Err(3));
}

#[test]
fn indexing_returns_self_on_a_miss() {
    let n = Node::new(Yaml::Null, 21, "", "");
    assert_eq!(n["a"][0]["bc"], n);
    assert_eq!(n["a"][0]["bc"].pos(), 21);
    let a = Node::new(Yaml::Array(vec![num("1", 1), num("2", 3)]), 0, "", "");
    assert_eq!(a[1], num("2", 0));
    assert_eq!(a[1].pos(), 3);
    assert_eq!(a[2].pos(), 0);
    let m = map(vec![(num("0", 0), s("zero")), (s("k"), s("v"))], 2);
    assert_eq!(m[0], s("zero"));
    assert_eq!(m["k"], s("v"));
    assert_eq!(m["0"].pos(), 2);
    assert_eq!(m[1].pos(), 2);
}

#[test]
fn as_anchor_resolves_bound_names() {
    let mut table = AnchorTable::new();
    assert!(table.is_empty());
    let target = Node::new(Yaml::Float("20.".to_string()), 5, "", "a");
    table.insert("a".to_string(), target.clone());
    assert!(table.contains_key("a"));
    assert!(!table.contains_key("b"));
    let alias = Node::new(Yaml::Anchor("a".to_string()), 30, "", "");
    let got = alias.as_anchor(&table);
    assert_eq!(got, target);
    assert_eq!(got.pos(), 5);
    let missing = Node::new(Yaml::Anchor("b".to_string()), 31, "", "");
    assert_eq!(missing.as_anchor(&table).pos(), 31);
    assert!(matches!(missing.as_anchor(&table).yaml(), Yaml::Anchor(_)));
    assert_eq!(s("x").as_anchor(&table), s("x"));
    table.insert("a".to_string(), s("later"));
    assert_eq!(alias.as_anchor(&table), s("later"));
    assert_eq!(table.get("a"), Some(&s("later")));
    assert_eq!(table.get("zz"), None);
}

#[test]
fn clone_shares_the_value() {
    let a = s("a");
    let b = a.clone();
    assert_eq!(std::rc::Rc::strong_count(&a.0), 2);
    drop(b);
    assert_eq!(std::rc::Rc::strong_count(&a.0), 1);
}

#[test]
fn index_by_number_looks_up_its_decimal_text() {
    let m = map(vec![(num("12", 0), s("twelve")), (num("012", 0), s("padded")), (s("7"), s("text"))], 3);
    assert_eq!(m[12], s("twelve"));
    assert_eq!(m[7].pos(), 3);
    assert_eq!(m[120].pos(), 3);
    let big = map(vec![(num("18446744073709551615", 0), s("max"))], 0);
    assert_eq!(big[usize::MAX], s("max"));
}
