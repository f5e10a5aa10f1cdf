use lisp::eval::{arithmetic_op, assoc, eval, evcond, evlis, pair, ArithOp};
use lisp::printer::{print_car, print_cdr};
use lisp::reader::{is_atom, parse, parse_atom, parse_list, parse_s_expr};
use lisp::sexpr::{
    append, atom, caadr, caar, cadadr, cadar, caddr, cadr, car, cdr, cons, eq, get_t, list, Diagnostic,
    Expr, Fault,
};

fn read(s: &str) -> Expr {
    let mut log = Vec::new();
    let e = parse(s.as_bytes(), &mut log).unwrap();
    assert!(log.is_empty());
    e
}

fn show(e: &Expr) -> String {
    String::from_utf8(print_car(e)).unwrap()
}

#[test]
fn get_t_is_t() {
    assert_eq!(show(&get_t()), "T");
}

#[test]
fn atom_of_each_kind() {
    assert_eq!(show(&atom(&read("A"))), "T");
    assert_eq!(show(&atom(&read("5"))), "T");
    assert_eq!(show(&atom(&read("T"))), "T");
    assert_eq!(show(&atom(&read("NIL"))), "NIL");
    assert_eq!(show(&atom(&read("(A)"))), "NIL");
}

#[test]
fn eq_compares_structure() {
    assert_eq!(show(&eq(&read("(A (B 1) T)"), &read("(A (B 1) T)"))), "T");
    assert_eq!(show(&eq(&read("(A (B 1) T)"), &read("(A (B 2) T)"))), "NIL");
    assert_eq!(show(&eq(&read("NIL"), &read("NIL"))), "T");
    assert_eq!(show(&eq(&read("A"), &read("NIL"))), "NIL");
    assert_eq!(show(&eq(&read("1"), &read("A"))), "NIL");
}

#[test]
fn car_cdr_and_their_compositions() {
    let mut log = Vec::new();
    let e = read("((A B) (C D) E)");
    assert_eq!(show(&car(&e, &mut log)), "(A B)");
    assert_eq!(show(&cdr(&e, &mut log)), "((C D) E)");
    assert_eq!(show(&cadr(&e, &mut log)), "(C D)");
    assert_eq!(show(&caar(&e, &mut log)), "A");
    assert_eq!(show(&cadar(&e, &mut log)), "B");
    assert_eq!(show(&caddr(&e, &mut log)), "E");
    assert_eq!(show(&caadr(&e, &mut log)), "C");
    assert_eq!(show(&cadadr(&e, &mut log)), "D");
    assert!(log.is_empty());
    assert_eq!(show(&car(&None, &mut log)), "NIL");
    assert!(log.is_empty());
    assert_eq!(show(&cdr(&read("X"), &mut log)), "NIL");
    assert!(matches!(&log[0], Diagnostic::CdrNotList(x) if show(x) == "X"));
}

#[test]
fn cons_and_list() {
    assert_eq!(show(&cons(&read("A"), &read("(B)"))), "(A B)");
    assert_eq!(show(&list(&read("A"), &read("(B)"))), "(A (B))");
}

#[test]
fn append_of_lists_and_atoms() {
    assert_eq!(show(&append(&read("(1 2)"), &read("(3 4)"))), "(1 2 3 4)");
    assert_eq!(show(&append(&read("NIL"), &read("(3)"))), "(3)");
    assert_eq!(show(&append(&read("(1 2)"), &read("NIL"))), "(1 2)");
    assert_eq!(show(&append(&read("A"), &read("(3)"))), "(A 3)");
}

#[test]
fn pair_zips_and_stops_at_the_shorter_list() {
    let mut log = Vec::new();
    assert_eq!(show(&pair(&read("(A B)"), &read("(1 2)"), &mut log)), "((A 1) (B 2))");
    assert_eq!(show(&pair(&read("(A B C)"), &read("(1)"), &mut log)), "((A 1))");
    assert!(log.is_empty());
    assert_eq!(show(&pair(&read("(A)"), &read("1"), &mut log)), "NIL");
    assert!(matches!(&log[0], Diagnostic::NotAList(x) if show(x) == "1"));
}

#[test]
fn assoc_finds_the_first_binding() {
    let mut log = Vec::new();
    let env = read("((A 1) (B 2) (A 3))");
    assert_eq!(show(&assoc(&read("A"), &env, &None, &mut log)), "1");
    assert_eq!(show(&assoc(&read("B"), &env, &None, &mut log)), "2");
    assert!(log.is_empty());
    assert_eq!(show(&assoc(&read("C"), &env, &None, &mut log)), "NIL");
    assert!(matches!(&log[0], Diagnostic::Undefined(x) if show(x) == "C"));
    assert_eq!(show(&assoc(&read("C"), &read("5"), &None, &mut log)), "NIL");
    assert!(matches!(&log[1], Diagnostic::NotAList(x) if show(x) == "5"));
}

#[test]
fn arithmetic_op_on_numbers_and_others() {
    let mut log = Vec::new();
    assert_eq!(show(&arithmetic_op(&read("7"), &read("2"), ArithOp::Quot, &mut log).unwrap()), "3");
    assert_eq!(show(&arithmetic_op(&read("7"), &read("2"), ArithOp::Diff, &mut log).unwrap()), "5");
    assert_eq!(show(&arithmetic_op(&read("NIL"), &read("2"), ArithOp::Plus, &mut log).unwrap()), "NIL");
    assert_eq!(show(&arithmetic_op(&read("2"), &read("NIL"), ArithOp::Plus, &mut log).unwrap()), "NIL");
    assert!(log.is_empty());
    assert_eq!(show(&arithmetic_op(&read("T"), &read("2"), ArithOp::Plus, &mut log).unwrap()), "NIL");
    assert!(matches!(&log[0], Diagnostic::NotANumber(x) if show(x) == "T"));
    assert_eq!(
        arithmetic_op(&read("9223372036854775807"), &read("2"), ArithOp::Prod, &mut log).err(),
        Some(Fault::MulOverflow)
    );
}

#[test]
fn evlis_evcond_eval() {
    let mut log = Vec::new();
    let env = read("((X 4) (Y 5))");
    let mut g: Expr = None;
    assert_eq!(show(&evlis(&read("(X (PLUS X Y) 3)"), &env, &mut g, &mut log, 100).unwrap()), "(4 9 3)");
    assert_eq!(show(&evcond(&read("((NIL 1) (X 2))"), &env, &mut g, &mut log, 100).unwrap()), "2");
    assert_eq!(show(&eval(&read("(SETQ Z (CONS X Y))"), &env, &mut g, &mut log, 100).unwrap()), "(4 . 5)");
    assert_eq!(show(&g), "((Z (4 . 5)))");
    assert!(log.is_empty());
    assert_eq!(show(&evlis(&read("5"), &env, &mut g, &mut log, 100).unwrap()), "NIL");
    assert!(matches!(&log[0], Diagnostic::NotAList(x) if show(x) == "5"));
    assert_eq!(evcond(&read("((NIL 1))"), &env, &mut g, &mut log, 50).err(), Some(Fault::OutOfFuel));
}

#[test]
fn printer_writes_lists_and_dotted_tails() {
    assert_eq!(show(&read("(A (B C) -3 T NIL)")), "(A (B C) -3 T NIL)");
    assert_eq!(String::from_utf8(print_cdr(&read("(B C)"))).unwrap(), " B C)");
    assert_eq!(String::from_utf8(print_cdr(&read("B"))).unwrap(), " . B)");
    assert_eq!(String::from_utf8(print_cdr(&read("7"))).unwrap(), " . 7)");
    assert_eq!(String::from_utf8(print_cdr(&read("T"))).unwrap(), " . T)");
    assert_eq!(String::from_utf8(print_cdr(&None)).unwrap(), ")");
    assert_eq!(show(&read("-9223372036854775808")), "-9223372036854775808");
}

#[test]
fn reader_pieces() {
    let mut log = Vec::new();
    let pieces = parse_s_expr(b"(A (B C) D  E)", &mut log).unwrap();
    let texts: Vec<String> = pieces.iter().map(|p| String::from_utf8(p.clone()).unwrap()).collect();
    assert_eq!(texts, vec!["A", "(B C)", "D", "E"]);
    assert!(log.is_empty());
    let pieces = parse_s_expr(b"(A))", &mut log).unwrap();
    let texts: Vec<String> = pieces.iter().map(|p| String::from_utf8(p.clone()).unwrap()).collect();
    assert_eq!(texts, vec!["NIL", ")"]);
    assert!(matches!(log[0], Diagnostic::UnmatchedParen(1)));
    assert_eq!(parse_s_expr(b"", &mut log).err(), Some(Fault::SubOverflow));
    assert_eq!(parse_s_expr(b"(", &mut log).err(), Some(Fault::StrSlice));
}

#[test]
fn reader_atoms_and_lists() {
    assert_eq!(is_atom(b"(A)"), Ok(false));
    assert_eq!(is_atom(b"A"), Ok(true));
    assert_eq!(is_atom(b""), Err(Fault::StrSlice));
    assert_eq!(show(&parse_atom(b"42")), "42");
    assert_eq!(show(&parse_atom(b"NIL")), "NIL");
    assert_eq!(show(&parse_atom(b"'X")), "(QUOTE X)");
    assert_eq!(show(&parse_atom(b"FOO")), "FOO");
    let mut log = Vec::new();
    let list = parse_list(vec![b"1".to_vec(), b"(2 3)".to_vec()], &mut log).unwrap();
    assert_eq!(show(&list), "(1 (2 3))");
    let mut log = Vec::new();
    assert_eq!(show(&parse(b"(A))", &mut log).unwrap()), "(NIL ))");
}
