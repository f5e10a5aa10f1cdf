use lisp::eval::eval;
use lisp::printer::print_car;
use lisp::reader::parse;
use lisp::sexpr::{append, car, cdr, cons, eq, Expr, Fault};
use lisp::text::{parse_i64, push_decimal};

fn read(s: &str) -> Expr {
    let mut log = Vec::new();
    parse(s.as_bytes(), &mut log).unwrap()
}

fn show(e: &Expr) -> String {
    String::from_utf8(print_car(e)).unwrap()
}

#[test]
fn car_and_cdr_undo_cons() {
    let mut log = Vec::new();
    let c = cons(&read("(A B)"), &read("7"));
    assert_eq!(show(&car(&c, &mut log)), "(A B)");
    assert_eq!(show(&cdr(&c, &mut log)), "7");
    assert!(log.is_empty());
}

#[test]
fn eq_is_symmetric_and_reflexive() {
    let a = read("(1 (X))");
    let b = read("(1 (Y))");
    assert_eq!(show(&eq(&a, &b)), show(&eq(&b, &a)));
    assert_eq!(show(&eq(&a, &a)), "T");
}

#[test]
fn append_is_associative_with_nil_as_unit() {
    let (a, b, c) = (read("(1 2)"), read("(3)"), read("(4 5)"));
    assert_eq!(show(&append(&append(&a, &b), &c)), show(&append(&a, &append(&b, &c))));
    assert_eq!(show(&append(&a, &None)), show(&a));
    assert_eq!(show(&append(&None, &a)), show(&a));
}

#[test]
fn self_evaluation_and_quote() {
    let mut log = Vec::new();
    let mut g: Expr = None;
    for text in ["5", "T", "NIL", "-1"] {
        assert_eq!(show(&eval(&read(text), &None, &mut g, &mut log, 1).unwrap()), show(&read(text)));
    }
    assert_eq!(show(&eval(&read("(QUOTE (PLUS 1 2))"), &None, &mut g, &mut log, 1).unwrap()), "(PLUS 1 2)");
    assert!(g.is_none());
    assert!(log.is_empty());
}

#[test]
fn setq_then_lookup_at_eval_level() {
    let mut log = Vec::new();
    let mut g: Expr = None;
    let v = eval(&read("(SETQ N (CONS 1 2))"), &None, &mut g, &mut log, 10).unwrap();
    let snapshot = g.clone();
    let w = eval(&read("N"), &snapshot, &mut g, &mut log, 1).unwrap();
    assert_eq!(show(&v), show(&w));
    assert!(log.is_empty());
}

#[test]
fn larger_budgets_agree() {
    let program = "((LABEL F (LAMBDA (N) (COND ((EQ N 0) 0) (T (PLUS 1 (F (DIFF N 1))))))) 4)";
    let mut first = None;
    for fuel in [1u64, 5, 20, 40, 80, 200, 1000] {
        let mut log = Vec::new();
        let mut g: Expr = None;
        let env = read("((PLUS PLUS))");
        match eval(&read(program), &env, &mut g, &mut log, fuel) {
            Err(Fault::OutOfFuel) => assert!(first.is_none()),
            Ok(v) => {
                let text = show(&v);
                assert_eq!(text, "4");
                first.get_or_insert(text);
            },
            Err(other) => panic!("unexpected {:?}", other),
        }
    }
    assert!(first.is_some());
}

#[test]
fn decimal_round_trip() {
    for n in [0i64, 7, -7, 10, 1234567890, i64::MAX, i64::MIN] {
        let mut out = Vec::new();
        push_decimal(n, &mut out);
        assert_eq!(String::from_utf8(out.clone()).unwrap(), n.to_string());
        assert_eq!(parse_i64(&out), Some(n));
    }
    assert_eq!(parse_i64(b"9223372036854775808"), None);
    assert_eq!(parse_i64(b"-9223372036854775809"), None);
    assert_eq!(parse_i64(b"+"), None);
    assert_eq!(parse_i64(b"1a"), None);
}

#[test]
fn atoms_read_back_as_printed() {
    for text in ["FOO", "12", "-3", "T", "NIL", "A-B"] {
        let e = read(text);
        assert_eq!(show(&read(&show(&e))), show(&e));
    }
}

#[test]
fn lists_read_back_as_printed() {
    for text in ["(A (B (C 1) -2) T NIL)", "((((X))))", "(1)", "(NIL NIL)", "(A-B (+ - *) 007)"] {
        let e = read(text);
        let printed = show(&e);
        let mut log = Vec::new();
        let again = parse(printed.as_bytes(), &mut log).unwrap();
        assert!(log.is_empty());
        assert_eq!(show(&again), printed);
        assert_eq!(show(&eq(&again, &e)), "T");
    }
}

#[test]
fn global_environment_only_grows() {
    let mut log = Vec::new();
    let mut g = read("((X 0))");
    let v = eval(&read("(CONS (SETQ A 1) (SETQ B 2))"), &None, &mut g, &mut log, 20).unwrap();
    assert_eq!(show(&v), "(1 . 2)");
    assert_eq!(show(&g), "((B 2) (A 1) (X 0))");
    let r = eval(&read("(PLUS (SETQ C 1) (QUOT 1 0))"), &None, &mut g, &mut log, 20);
    assert_eq!(r.err(), Some(Fault::DivideByZero));
    assert_eq!(show(&g), "((C 1) (B 2) (A 1) (X 0))");
    assert!(log.is_empty());
}

#[test]
fn global_environment_is_not_read() {
    let program = "(CONS (SETQ A (CAR X)) (LIST Y (QUOTE Z)))";
    let env = read("((X (1 2)) (LIST LIST))");
    let mut g1: Expr = None;
    let mut g2 = read("((X 5) (Y 6) (A 7))");
    let mut log1 = Vec::new();
    let mut log2 = Vec::new();
    let v1 = eval(&read(program), &env, &mut g1, &mut log1, 50).unwrap();
    let v2 = eval(&read(program), &env, &mut g2, &mut log2, 50).unwrap();
    assert_eq!(show(&v1), show(&v2));
    assert_eq!(show(&v1), "(1 NIL Z)");
    assert_eq!(format!("{:?}", log1), format!("{:?}", log2));
    assert_eq!(log1.len(), 1);
    assert_eq!(show(&g1), "((A 1))");
    assert_eq!(show(&g2), "((A 1) (X 5) (Y 6) (A 7))");
}

#[test]
fn no_setq_leaves_global_environment_alone() {
    let mut log = Vec::new();
    let mut g = read("((X 0))");
    let env = read("((F (LAMBDA (N) (CONS N N))))");
    let v = eval(&read("(F (QUOTE (SET Q)))"), &env, &mut g, &mut log, 50).unwrap();
    assert_eq!(show(&v), "((SET Q) SET Q)");
    assert_eq!(show(&g), "((X 0))");
    assert!(log.is_empty());
}

#[test]
fn symbols_with_control_bytes_read_back() {
    for text in [&b"A\x01B"[..], &b"\x7f"[..], &b"X\x1fY"[..]] {
        let mut log = Vec::new();
        let e = parse(text, &mut log).unwrap();
        assert_eq!(print_car(&e), text.to_vec());
        let mut whole = b"(".to_vec();
        whole.extend_from_slice(text);
        whole.extend_from_slice(b" 1)");
        let l = parse(&whole, &mut log).unwrap();
        assert_eq!(print_car(&l), whole);
        assert!(log.is_empty());
    }
}

#[test]
fn canonical_texts_print_as_read() {
    for text in ["(A (B (C 1) -2) T NIL)", "((((X))))", "QUOTE", "-9223372036854775808", "(NIL (NIL))"] {
        assert_eq!(show(&read(text)), text);
    }
    assert_eq!(show(&read("()")), "NIL");
    assert_eq!(show(&read("007")), "7");
}
