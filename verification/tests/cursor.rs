use yaml_peg::{insert_entry, Node, PError, Parser, TakeOpt, Yaml};

fn is_mismatch(r: Result<(), PError>) -> bool {
    matches!(r, Err(PError::Mismatch))
}

#[test]
fn new_parser_starts_at_zero() {
    let mut p = Parser::new(b"abc");
    assert_eq!(p.pos, 0);
    assert_eq!(p.eaten, 0);
    assert_eq!(p.indicator(), 0);
    assert_eq!(p.food(), b"abc");
    assert_eq!(p.text(), "");
    let d = Parser::default();
    assert_eq!(d.food(), b"");
    assert_eq!(d.with_doc(b"xy").food(), b"xy");
}

#[test]
fn builders_set_their_field() {
    let p = Parser::new(b"abcdef").pos(2).indent(4).max_depth(9);
    assert_eq!(p.pos, 2);
    assert_eq!(p.eaten, 2);
    assert_eq!(p.width, 4);
    assert_eq!(p.depth, 9);
    assert_eq!(p.food(), b"cdef");
    assert_eq!(p.indicator(), 2);
}

#[test]
fn sym_matches_one_byte() {
    let mut p = Parser::new(b"ab");
    assert!(p.sym(b'a').is_ok());
    assert_eq!(p.pos, 1);
    assert!(is_mismatch(p.sym(b'a')));
    assert_eq!(p.pos, 0);
    let mut e = Parser::new(b"");
    assert!(is_mismatch(e.sym(b'a')));
}

#[test]
fn mismatch_rewinds_to_the_commit_point() {
    let mut p = Parser::new(b"abcx");
    assert!(p.sym(b'a').is_ok());
    p.forward();
    assert_eq!(p.eaten, 1);
    assert!(p.sym(b'b').is_ok());
    assert!(p.sym(b'c').is_ok());
    assert_eq!(p.pos, 3);
    assert!(is_mismatch(p.sym(b'd')));
    assert_eq!(p.pos, 1);
    p.backward();
    assert_eq!(p.pos, 1);
}

#[test]
fn sym_set_and_sequences() {
    let mut p = Parser::new(b"---x");
    assert!(p.sym_set(b"+-").is_ok());
    assert_eq!(p.pos, 1);
    p.backward();
    assert!(p.sym_seq(b"---").is_ok());
    assert_eq!(p.pos, 3);
    assert!(is_mismatch(p.sym_seq(b"xy")));
    assert_eq!(p.pos, 0);
    assert!(p.seq(b"---x").is_ok());
    assert_eq!(p.pos, 4);
    assert!(p.seq(b"").is_ok());
    assert_eq!(p.pos, 4);
    assert!(is_mismatch(p.sym_set(b"x")));
}

#[test]
fn take_while_one() {
    let mut p = Parser::new(b"aab");
    assert!(p.take_while(|c| *c == b'a', TakeOpt::One).is_ok());
    assert_eq!(p.pos, 1);
    let mut q = Parser::new(b"baa");
    assert!(is_mismatch(q.take_while(|c| *c == b'a', TakeOpt::One)));
    assert_eq!(q.pos, 0);
}

#[test]
fn take_while_more() {
    let mut p = Parser::new(b"aaab");
    assert!(p.take_while(|c| *c == b'a', TakeOpt::More(0)).is_ok());
    assert_eq!(p.pos, 3);
    assert!(p.take_while(|c| *c == b'a', TakeOpt::More(0)).is_ok());
    assert_eq!(p.pos, 3);
    assert!(is_mismatch(p.take_while(|c| *c == b'a', TakeOpt::More(1))));
    assert_eq!(p.pos, 0);
    assert!(is_mismatch(p.take_while(|c| *c == b'a', TakeOpt::More(4))));
    assert_eq!(p.pos, 0);
    assert!(p.take_while(|c| *c == b'a', TakeOpt::More(3)).is_ok());
    assert_eq!(p.pos, 3);
    assert!(p.take_while(|_| true, TakeOpt::More(1)).is_ok());
    assert_eq!(p.pos, 4);
}

#[test]
fn take_while_range() {
    let mut p = Parser::new(b"aaaab");
    assert!(p.take_while(|c| *c == b'a', TakeOpt::Range(1, 2)).is_ok());
    assert_eq!(p.pos, 2);
    p.forward();
    assert!(is_mismatch(p.take_while(|c| *c == b'a', TakeOpt::Range(3, 5))));
    assert_eq!(p.pos, 2);
    assert!(p.take_while(|c| *c == b'x', TakeOpt::Range(0, 1)).is_ok());
    assert_eq!(p.pos, 2);
    assert!(p.take_while(|c| *c == b'a', TakeOpt::Range(0, 0)).is_ok());
    assert_eq!(p.pos, 2);
    assert!(is_mismatch(p.take_while(|c| *c == b'a', TakeOpt::Range(1, 0))));
    assert_eq!(p.pos, 2);
    assert!(p.take_while(|c| *c == b'a', TakeOpt::Range(2, 9)).is_ok());
    assert_eq!(p.pos, 4);
}

#[test]
fn text_and_consume() {
    let mut p = Parser::new("k\u{e9}y: v".as_bytes());
    assert!(p.sym_seq("k\u{e9}y".as_bytes()).is_ok());
    assert_eq!(p.text(), "k\u{e9}y");
    p.forward();
    assert_eq!(p.text(), "");
    assert!(p.sym(b':').is_ok());
    assert_eq!(p.text(), ":");
    assert_eq!(p.indicator(), 5);
    p.consume();
    assert_eq!(p.pos, 0);
    assert_eq!(p.eaten, 0);
    assert_eq!(p.consumed, 5);
    assert_eq!(p.indicator(), 5);
    assert_eq!(p.food(), "k\u{e9}y: v".as_bytes());
    let mut rest = p.with_doc(b" v");
    assert_eq!(rest.indicator(), 5);
    assert!(rest.sym(b' ').is_ok());
    assert_eq!(rest.indicator(), 6);
    let mut q = Parser::new(b"\xffa");
    assert!(q.sym_seq(b"\xffa").is_ok());
    assert_eq!(q.text(), "\u{fffd}a");
}

#[test]
fn consume_keeps_the_window() {
    let mut p = Parser::new(b"abc").pos(2);
    p.consume();
    assert_eq!(p.pos, 0);
    assert_eq!(p.eaten, 0);
    assert_eq!(p.consumed, 2);
    assert!(p.sym(b'a').is_ok());
    assert_eq!(p.indicator(), 3);
}

#[test]
fn back_moves_the_cursor() {
    let mut p = Parser::new(b"abc");
    assert!(p.sym_seq(b"abc").is_ok());
    p.back(2);
    assert_eq!(p.pos, 1);
    p.back(0);
    assert_eq!(p.pos, 1);
}

#[test]
fn err_carries_the_offset() {
    let mut p = Parser::new(b"abc");
    assert!(p.sym(b'a').is_ok());
    assert!(matches!(p.err::<()>("bad"), Err(PError::Terminate(1, "bad"))));
    p.consume();
    assert!(p.sym(b'a').is_ok());
    assert!(matches!(p.err::<u8>("worse"), Err(PError::Terminate(2, "worse"))));
}

#[test]
fn count_measures_the_advance() {
    let mut p = Parser::new(b"aaab");
    let n = p.count(|q| q.take_while(|c| *c == b'a', TakeOpt::More(1)));
    assert!(matches!(n, Ok(3)));
    let m = p.count(|q| q.sym(b'a'));
    assert!(matches!(m, Err(PError::Mismatch)));
}

#[test]
fn context_restores_the_commit_point() {
    let mut p = Parser::new(b"abcd");
    assert!(p.sym(b'a').is_ok());
    let r = p.context(|q| {
        q.sym(b'b')?;
        q.sym(b'x')
    });
    assert!(is_mismatch(r));
    assert_eq!(p.pos, 1);
    assert_eq!(p.eaten, 0);
    let r = p.context(|q| {
        q.sym_seq(b"bc")?;
        q.err::<()>("stop")
    });
    assert!(matches!(r, Err(PError::Terminate(3, "stop"))));
    assert_eq!(p.pos, 1);
    assert_eq!(p.eaten, 0);
    let r = p.context(|q| q.sym_seq(b"bc"));
    assert!(r.is_ok());
    assert_eq!(p.pos, 3);
    assert_eq!(p.eaten, 0);
}

#[test]
fn set_tests() {
    let inside = Parser::is_in(b"abc");
    assert!(inside(&b'a'));
    assert!(!inside(&b'x'));
    let outside = Parser::not_in(b"abc");
    assert!(!outside(&b'c'));
    assert!(outside(&b'x'));
    assert!(Parser::not_in(b"")(&b'a'));
}

#[test]
fn ind_matches_the_summed_widths() {
    let mut p = Parser::new(b"    x").indent(2);
    assert!(p.ind(0).is_ok());
    assert_eq!(p.pos, 0);
    assert_eq!(p.indent, vec![0]);
    assert!(p.ind(2).is_ok());
    assert_eq!(p.pos, 4);
    assert_eq!(p.indent, vec![0, 2, 2]);
    p.backward();
    assert!(is_mismatch(p.ind(3)));
    assert_eq!(p.pos, 0);
    assert_eq!(p.indent, vec![0, 2, 2, 2]);
    assert!(p.ind(1).is_ok());
    assert_eq!(p.pos, 2);
    assert_eq!(p.indent, vec![0, 2]);
    let mut q = Parser::new(b"   x").indent(3);
    assert!(q.ind(1).is_ok());
    assert_eq!(q.pos, 3);
}

#[test]
fn cursor_stays_inside_the_input() {
    let mut p = Parser::new(b"aa");
    assert!(p.take_while(|_| true, TakeOpt::More(0)).is_ok());
    assert_eq!(p.pos, 2);
    assert!(is_mismatch(p.sym(b'a')));
    assert!(p.pos <= 2);
    assert!(p.take_while(|_| true, TakeOpt::Range(0, 9)).is_ok());
    assert_eq!(p.pos, 2);
}

#[test]
fn indicator_never_decreases_over_a_parse() {
    let text = b"a: 1\n---\n- b\n...\n--- c\n";
    let mut p = Parser::new(text);
    let before = p.indicator();
    assert!(p.parse().is_ok());
    assert!(p.indicator() >= before);
    assert_eq!(p.indicator(), text.len() as u64);
}

#[test]
fn insert_entry_replaces_an_equal_key() {
    let k = |t: &str| Node::from(Yaml::Str(t.to_string()));
    let mut entries = vec![(k("a"), k("1")), (k("b"), k("2"))];
    insert_entry(&mut entries, Node::new(Yaml::Str("a".to_string()), 7, "", ""), k("3"));
    assert_eq!(entries, vec![(k("b"), k("2")), (k("a"), k("3"))]);
    assert_eq!(entries[1].0.pos(), 0);
    insert_entry(&mut entries, k("c"), k("4"));
    assert_eq!(entries.len(), 3);
}
