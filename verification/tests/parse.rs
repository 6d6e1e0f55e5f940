use yaml_peg::{parse, AnchorTable, Node, PError, Yaml};

fn s(text: &str) -> Node {
    Node::new(Yaml::Str(text.to_string()), 0, "", "")
}

fn i(text: &str) -> Node {
    Node::new(Yaml::Int(text.to_string()), 0, "", "")
}

fn f(text: &str) -> Node {
    Node::new(Yaml::Float(text.to_string()), 0, "", "")
}

fn b(v: bool) -> Node {
    Node::new(Yaml::Bool(v), 0, "", "")
}

fn null() -> Node {
    Node::new(Yaml::Null, 0, "", "")
}

fn seq(items: Vec<Node>) -> Node {
    Node::new(Yaml::Array(items), 0, "", "")
}

fn map(entries: Vec<(Node, Node)>) -> Node {
    Node::new(Yaml::Mapping(entries), 0, "", "")
}

fn one(text: &str) -> (Node, AnchorTable) {
    let mut docs = parse(text.as_bytes()).unwrap();
    assert_eq!(docs.len(), 1, "documents of {:?}", text);
    docs.pop().unwrap()
}

fn root(text: &str) -> Node {
    one(text).0
}

fn fails_at(text: &str) -> u64 {
    match parse(text.as_bytes()) {
        Err(PError::Terminate(at, _)) => at,
        other => panic!("{:?} gave {:?}", text, other),
    }
}

#[test]
fn empty_input_has_no_document() {
    assert_eq!(parse(b"").unwrap().len(), 0);
    assert_eq!(parse(b"\n\n").unwrap().len(), 0);
    assert_eq!(parse(b"# only a comment\n   \n").unwrap().len(), 0);
    assert_eq!(parse(b"\xef\xbb\xbf").unwrap().len(), 0);
}

#[test]
fn lone_document_start_is_null() {
    let docs = parse(b"---").unwrap();
    assert_eq!(docs.len(), 1);
    assert!(docs[0].0.is_null());
    assert!(docs[0].1.is_empty());
    assert!(root("---\n").is_null());
    assert!(root("---\n...\n").is_null());
}

#[test]
fn block_mapping_keeps_insertion_order() {
    let n = root("a: 1\nb: 2\n");
    assert_eq!(n, map(vec![(s("a"), i("1")), (s("b"), i("2"))]));
    let entries = n.as_map().unwrap();
    assert_eq!(entries[0].0, s("a"));
    assert_eq!(entries[1].0, s("b"));
    assert_eq!(entries[0].0.pos(), 0);
    assert_eq!(entries[0].1.pos(), 3);
    assert_eq!(entries[1].0.pos(), 5);
    assert_eq!(entries[1].1.pos(), 8);
    assert_ne!(n, map(vec![(s("b"), i("2")), (s("a"), i("1"))]));
}

#[test]
fn block_sequence() {
    assert_eq!(root("- 1\n- 2\n- 3\n"), seq(vec![i("1"), i("2"), i("3")]));
}

#[test]
fn anchored_root_scalar() {
    let (n, anchors) = one("&x 42\n");
    assert_eq!(n, i("42"));
    assert_eq!(n.anchor(), "x");
    assert_eq!(n.pos(), 0);
    assert_eq!(anchors.get("x"), Some(&i("42")));
    assert_eq!(anchors.get("x").unwrap().anchor(), "x");
}

#[test]
fn alias_resolves_to_the_anchored_node() {
    let (n, anchors) = one("a: &id [1, 2]\nb: *id\n");
    let a = n.get(&["a"]).unwrap();
    let b_node = n.get(&["b"]).unwrap();
    assert!(matches!(b_node.yaml(), Yaml::Anchor(name) if name == "id"));
    assert_eq!(a, seq(vec![i("1"), i("2")]));
    assert_eq!(b_node.as_anchor(&anchors), a);
    assert_eq!(a.anchor(), "id");
}

#[test]
fn double_quoted_folds_lines() {
    assert_eq!(root("\"line 1\n  line 2\""), s("line 1 line 2"));
    assert_eq!(root("\"a\n\n  b\""), s("a\nb"));
    assert_eq!(root("\"a  \\\n  b\""), s("a  b"));
}

#[test]
fn unsupported_version_is_fatal() {
    let at = fails_at("%YAML 2.0\n---\nx: 1\n");
    assert!(at < 9);
    assert_eq!(root("%YAML 1.2\n---\nx: 1\n"), map(vec![(s("x"), i("1"))]));
    assert!(fails_at("%YAML 1.2\n%YAML 1.2\n---\nx: 1\n") < 20);
    assert!(parse(b"%YAML 1.2\nx: 1\n").is_err());
}

#[test]
fn duplicate_key_is_fatal() {
    assert_eq!(fails_at("{a: 1, a: 2}"), 7);
    assert_eq!(fails_at("a: 1\na: 2\n"), 5);
    assert!(parse(b"{a: 1, 'a': 2}").is_err());
    assert!(parse(b"{1: a, '1': b}").is_ok());
}

#[test]
fn colon_needs_a_separator_to_start_a_mapping() {
    assert_eq!(root("a: b"), map(vec![(s("a"), s("b"))]));
    assert_eq!(root("a:\n  b"), map(vec![(s("a"), s("b"))]));
    assert_eq!(root("a:\n"), map(vec![(s("a"), null())]));
    assert_eq!(root("a:b"), s("a:b"));
    assert_eq!(root("http://x.y/z"), s("http://x.y/z"));
}

#[test]
fn plain_scalars_are_classified() {
    for text in ["null", "Null", "NULL", "~"] {
        assert!(root(text).is_null(), "{}", text);
    }
    for text in ["true", "True", "TRUE"] {
        assert_eq!(root(text), b(true));
    }
    for text in ["false", "False", "FALSE"] {
        assert_eq!(root(text), b(false));
    }
    for text in ["0", "12", "+12", "-7", "0o17", "0x1F"] {
        assert_eq!(root(text), i(text), "{}", text);
    }
    for text in ["1.5", "-0.25", "1.", ".5", "1e3", "1.5E-3", ".inf", "-.Inf", "+.INF", ".nan", ".NaN"] {
        assert_eq!(root(text), f(text), "{}", text);
    }
    for text in ["007", "0x", "0o8", "1e", ".", "-x", "nul", "tRUE", "1.2.3", "+.nan", "a1"] {
        assert_eq!(root(text), s(text), "{}", text);
    }
    assert_eq!(root("''"), s(""));
    assert_ne!(root("''"), null());
    assert_eq!(root("'12'"), s("12"));
    assert_eq!(root("\"true\""), s("true"));
}

#[test]
fn scalars_keep_their_text() {
    let n = root("- 0x1F\n- 1.50\n- 007\n");
    assert_eq!(n[0].as_value(), Ok("0x1F"));
    assert_eq!(n[1].as_value(), Ok("1.50"));
    assert_eq!(n[1].as_float::<f64>(), Ok(1.5));
    assert_eq!(n[2].as_str(), Ok("007"));
    for text in ["12", "-7", "0o17", "1.5", ".inf", "true", "plain text"] {
        let first = root(text);
        let again = root(first.as_value().unwrap());
        assert_eq!(first, again);
        assert_eq!(again.as_value(), Ok(text));
    }
}

#[test]
fn escapes_in_double_quotes() {
    assert_eq!(root(r#""a\tb\n\"c\"\\""#), s("a\tb\n\"c\"\\"));
    assert_eq!(root(r#""\0\a\b\v\f\r\e""#), s("\0\x07\x08\x0b\x0c\r\x1b"));
    assert_eq!(root(r#""\x41\u00e9\U0001F600""#), s("A\u{e9}\u{1F600}"));
    assert_eq!(root(r#""\N\_\L\P""#), s("\u{85}\u{a0}\u{2028}\u{2029}"));
    assert_eq!(fails_at(r#""\q""#), 2);
    assert_eq!(fails_at(r#""\x4""#), 2);
    assert_eq!(fails_at(r#""\ud800""#), 2);
    assert!(parse(b"\"abc").is_err());
}

#[test]
fn single_quotes() {
    assert_eq!(root("'it''s'"), s("it's"));
    assert_eq!(root("'a\n  b'"), s("a b"));
    assert_eq!(root("'a\\n'"), s("a\\n"));
    assert!(parse(b"'abc").is_err());
}

#[test]
fn plain_scalars_fold_and_trim() {
    assert_eq!(root("a b  \n"), s("a b"));
    assert_eq!(root("hello\nworld\n"), s("hello world"));
    assert_eq!(root("hello\n\nworld\n"), s("hello\nworld"));
    assert_eq!(root("k: one\n  two\n"), map(vec![(s("k"), s("one two"))]));
    assert_eq!(root("a # comment\n"), s("a"));
    assert_eq!(root("a#b\n"), s("a#b"));
}

#[test]
fn literal_block_scalars() {
    assert_eq!(root("|\n a\n b\n"), s("a\nb\n"));
    assert_eq!(root("a: |\n  x\n   y\n\n  z\nb: 1\n"), map(vec![(s("a"), s("x\n y\n\nz\n")), (s("b"), i("1"))]));
    assert_eq!(root("|-\n a\n\n"), s("a"));
    assert_eq!(root("|+\n a\n\n"), s("a\n\n"));
    assert_eq!(root("|\n a\n\n"), s("a\n"));
    assert_eq!(root("k: |2\n    a\n   b\n"), map(vec![(s("k"), s("  a\n b\n"))]));
    assert_eq!(root("k: |\n"), map(vec![(s("k"), s(""))]));
}

#[test]
fn folded_block_scalars() {
    assert_eq!(root(">\n a\n b\n"), s("a b\n"));
    assert_eq!(root(">\n a\n\n b\n"), s("a\nb\n"));
    assert_eq!(root(">\n a\n   more\n b\n"), s("a\n  more\nb\n"));
    assert_eq!(root(">-\n a\n b\n"), s("a b"));
    assert_eq!(root(">+\n a\n\n"), s("a\n\n"));
}

#[test]
fn flow_collections() {
    assert_eq!(root("[1, 2]"), seq(vec![i("1"), i("2")]));
    assert_eq!(root("[]"), seq(vec![]));
    assert_eq!(root("[a,,b]"), seq(vec![s("a"), null(), s("b")]));
    assert_eq!(root("[a, b,]"), seq(vec![s("a"), s("b")]));
    assert_eq!(root("[a, [b, {c: d}]]"), seq(vec![s("a"), seq(vec![s("b"), map(vec![(s("c"), s("d"))])])]));
    assert_eq!(root("{}"), map(vec![]));
    assert_eq!(root("{a: 1, b}"), map(vec![(s("a"), i("1")), (s("b"), null())]));
    assert_eq!(root("{: v}"), map(vec![(null(), s("v"))]));
    assert_eq!(root("{? k : v, x: y,}"), map(vec![(s("k"), s("v")), (s("x"), s("y"))]));
    assert_eq!(root("{\"a\":1}"), map(vec![(s("a"), i("1"))]));
    assert_eq!(root("[\n  1,\n  2 # two\n]\n"), seq(vec![i("1"), i("2")]));
    assert!(parse(b"[1, 2").is_err());
    assert!(parse(b"{a: 1").is_err());
    assert!(parse(b"[1 2]").is_ok());
    assert!(parse(b"[1] 2").is_err());
}

#[test]
fn nested_blocks() {
    let text = "a:\n  b:\n    - 1\n    - c: d\n      e: f\n  g: h\ni:\n- j\n- k\n";
    let want = map(vec![
        (
            s("a"),
            map(vec![
                (s("b"), seq(vec![i("1"), map(vec![(s("c"), s("d")), (s("e"), s("f"))])])),
                (s("g"), s("h")),
            ]),
        ),
        (s("i"), seq(vec![s("j"), s("k")])),
    ]);
    assert_eq!(root(text), want);
    assert_eq!(root("- - a\n  - b\n- c\n"), seq(vec![seq(vec![s("a"), s("b")]), s("c")]));
    assert_eq!(root("-\n  a\n-\n"), seq(vec![s("a"), null()]));
    assert_eq!(root("   a: 1\n   b: 2\n"), map(vec![(s("a"), i("1")), (s("b"), i("2"))]));
}

#[test]
fn bad_indentation_is_fatal() {
    assert!(parse(b"a:\n    b: 1\n  c: 2\n").is_err());
    assert!(parse(b"- a\n - b\n").is_ok());
    assert!(parse(b"a: 1\n b: 2\n").is_err());
    assert!(parse(b"  a: 1\nb: 2\n").is_err());
}

#[test]
fn explicit_keys() {
    assert_eq!(root("? a\n: b\n"), map(vec![(s("a"), s("b"))]));
    assert_eq!(root("? [x, y]\n: z\n? w\n"), map(vec![(seq(vec![s("x"), s("y")]), s("z")), (s("w"), null())]));
    assert_eq!(root("? - a\n  - b\n: c\n"), map(vec![(seq(vec![s("a"), s("b")]), s("c"))]));
}

#[test]
fn tags_are_resolved() {
    assert_eq!(root("!!str 12").ty(), "tag:yaml.org,2002:str");
    assert_eq!(root("!!str 12"), i("12"));
    assert_eq!(root("!local x").ty(), "local");
    assert_eq!(root("!<tag:example.com,2000:t> x").ty(), "tag:example.com,2000:t");
    assert_eq!(root("%TAG !e! tag:example.com,2000:\n---\n!e!thing x\n").ty(), "tag:example.com,2000:thing");
    assert!(parse(b"!e!thing x\n").is_err());
    assert_eq!(fails_at("a: !e!thing x\n"), 3);
    let docs = parse(b"%TAG !e! tag:e,1:\n---\n!e!a x\n---\n!e!a x\n");
    assert!(docs.is_err());
    let n = root("k: !!map\n  a: 1\n");
    assert_eq!(n["k"].ty(), "tag:yaml.org,2002:map");
    assert_eq!(n["k"], map(vec![(s("a"), i("1"))]));
    assert_eq!(root("! x").ty(), "");
}

#[test]
fn anchors_decorate_what_follows() {
    let (n, anchors) = one("&m\nk: &v 1\n&kk j: 2\n");
    assert_eq!(n.anchor(), "m");
    assert_eq!(n["k"].anchor(), "v");
    assert!(anchors.contains_key("m"));
    assert!(anchors.contains_key("v"));
    assert_eq!(anchors.get("kk"), Some(&s("j")));
    let (_, later) = one("- &a 1\n- &a 2\n");
    assert_eq!(later.get("a"), Some(&i("2")));
    let (n, table) = one("&a !!str x");
    assert_eq!(n.anchor(), "a");
    assert_eq!(n.ty(), "tag:yaml.org,2002:str");
    assert_eq!(table.get("a"), Some(&s("x")));
    let (n, _) = one("!!str &a x");
    assert_eq!(n.anchor(), "a");
    assert_eq!(n.ty(), "tag:yaml.org,2002:str");
    assert!(parse(b"& x").is_err());
}

#[test]
fn documents_in_a_stream() {
    let docs = parse(b"a: 1\n---\n- b\n...\n--- c\n").unwrap();
    assert_eq!(docs.len(), 3);
    assert_eq!(docs[0].0, map(vec![(s("a"), i("1"))]));
    assert_eq!(docs[1].0, seq(vec![s("b")]));
    assert_eq!(docs[2].0, s("c"));
    assert_eq!(docs[1].0.pos(), 9);
    assert_eq!(docs[1].0[0].pos(), 11);
    assert_eq!(docs[2].0.pos(), 21);
    let docs = parse(b"&a 1\n---\n*a\n").unwrap();
    assert!(docs[0].1.contains_key("a"));
    assert!(docs[1].1.is_empty());
    assert_eq!(parse(b"---\n---\n").unwrap().len(), 2);
    assert_eq!(parse(b"a\n...\nb\n").unwrap().len(), 2);
}

#[test]
fn comments_and_blank_lines() {
    let text = "# head\n\na: 1 # one\n\n# between\nb:\n  # inner\n  - x\n\n  - y\n# tail\n";
    assert_eq!(root(text), map(vec![(s("a"), i("1")), (s("b"), seq(vec![s("x"), s("y")]))]));
    assert_eq!(root("\r\na: 1\r\nb: 2\r\n"), map(vec![(s("a"), i("1")), (s("b"), i("2"))]));
    assert_eq!(root("a: 1\rb: 2\r"), map(vec![(s("a"), i("1")), (s("b"), i("2"))]));
    assert_eq!(root("\u{feff}a: 1\n"), map(vec![(s("a"), i("1"))]));
}

#[test]
fn nesting_is_limited() {
    let mut parser = yaml_peg::Parser::new(b"[[[1]]]").max_depth(2);
    assert!(matches!(parser.parse(), Err(PError::Terminate(2, _))));
    let mut parser = yaml_peg::Parser::new(b"[[[1]]]").max_depth(3);
    assert!(parser.parse().is_ok());
    let deep = "[".repeat(200);
    assert!(parse(deep.as_bytes()).is_err());
}

#[test]
fn non_ascii_text_passes_through() {
    assert_eq!(root("k\u{e9}y: v\u{e4}l"), map(vec![(s("k\u{e9}y"), s("v\u{e4}l"))]));
    assert_eq!(root("'\u{1F600}'"), s("\u{1F600}"));
    assert_eq!(root("\"\u{4e2d}\u{6587}\""), s("\u{4e2d}\u{6587}"));
}
