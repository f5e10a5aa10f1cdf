use lisp::printer::print_car;
use lisp::repl::{eval_line, initial_env, read_eval_print};
use lisp::sexpr::{Diagnostic, Expr, Fault};

const FUEL: u64 = 10_000;

fn start() -> Expr {
    let mut log = Vec::new();
    let env = initial_env(&mut log).unwrap();
    assert!(log.is_empty());
    env
}

fn text(e: &Expr) -> String {
    String::from_utf8(print_car(e)).unwrap()
}

fn describe(d: &Diagnostic) -> String {
    match d {
        Diagnostic::CarNotList(e) => format!("car: Error. {:?} is not a list", text(e)),
        Diagnostic::CdrNotList(e) => format!("cdr: Error. {:?} is not a list", text(e)),
        Diagnostic::NotAList(e) => format!("Error. {:?} is not a list", text(e)),
        Diagnostic::Undefined(e) => format!("Error. {:?} is undefined", text(e)),
        Diagnostic::NotANumber(e) => format!("Error. {:?} is not a number", text(e)),
        Diagnostic::NotAFunction(e) => format!("Error. {:?} is not a function", text(e)),
        Diagnostic::UnmatchedParen(p) => format!("Unmatched open token at {}", p),
    }
}

fn line_with(env: &mut Expr, input: &str, fuel: u64) -> (Result<String, Fault>, Vec<String>) {
    let mut log = Vec::new();
    let out = read_eval_print(input, env, &mut log, fuel);
    (out.map(|b| String::from_utf8(b).unwrap()), log.iter().map(describe).collect())
}

fn line(env: &mut Expr, input: &str) -> (Result<String, Fault>, Vec<String>) {
    line_with(env, input, FUEL)
}

fn value(env: &mut Expr, input: &str) -> String {
    let (out, log) = line(env, input);
    assert!(log.is_empty(), "unexpected diagnostics {:?}", log);
    out.unwrap()
}

#[test]
fn quote_returns_its_argument() {
    let mut env = start();
    assert_eq!(value(&mut env, "(quote (a b c))"), "(A B C)");
}

#[test]
fn lowercase_input_is_uppercased() {
    let mut env = start();
    assert_eq!(value(&mut env, "(quote straße)"), "STRASSE");
}

#[test]
fn quote_prefix_on_an_atom() {
    let mut env = start();
    assert_eq!(value(&mut env, "'a"), "A");
}

#[test]
fn quote_prefix_before_a_list_quotes_an_empty_name() {
    let mut env = start();
    let (out, log) = line(&mut env, "(car '(a b))");
    assert_eq!(out, Ok("NIL".to_string()));
    assert_eq!(log, vec!["car: Error. \"\" is not a list".to_string()]);
}

#[test]
fn car_cdr_cons() {
    let mut env = start();
    assert_eq!(value(&mut env, "(car (quote (a b)))"), "A");
    assert_eq!(value(&mut env, "(cdr (quote (a b)))"), "(B)");
    assert_eq!(value(&mut env, "(cons (quote a) (quote (b)))"), "(A B)");
    assert_eq!(value(&mut env, "(cons 1 2)"), "(1 . 2)");
    assert_eq!(value(&mut env, "(cons 1 t)"), "(1 . T)");
    assert_eq!(value(&mut env, "(cons (quote a) (quote b))"), "(A . B)");
}

#[test]
fn eq_and_atom() {
    let mut env = start();
    assert_eq!(value(&mut env, "(eq (quote a) (quote a))"), "T");
    assert_eq!(value(&mut env, "(eq 1 2)"), "NIL");
    assert_eq!(value(&mut env, "(eq (quote (1 (2))) (quote (1 (2))))"), "T");
    assert_eq!(value(&mut env, "(atom 5)"), "T");
    assert_eq!(value(&mut env, "(atom (quote (a)))"), "NIL");
}

#[test]
fn arithmetic() {
    let mut env = start();
    assert_eq!(value(&mut env, "(plus 2 3)"), "5");
    assert_eq!(value(&mut env, "(diff 2 5)"), "-3");
    assert_eq!(value(&mut env, "(prod 4 5)"), "20");
    assert_eq!(value(&mut env, "(quot -7 2)"), "-3");
    assert_eq!(value(&mut env, "(quot 7 -2)"), "-3");
    assert_eq!(value(&mut env, "(plus +5 -0)"), "5");
}

#[test]
fn list_cond_append_eval() {
    let mut env = start();
    assert_eq!(value(&mut env, "(list 1 (plus 1 1) 3)"), "(1 2 3)");
    assert_eq!(value(&mut env, "(cond ((eq 1 2) 1) (t 2))"), "2");
    assert_eq!(value(&mut env, "(append (quote (1 2)) (quote (3)))"), "(1 2 3)");
    assert_eq!(value(&mut env, "(eval (quote (plus 1 2)))"), "3");
}

#[test]
fn setq_is_seen_on_the_next_line() {
    let mut env = start();
    assert_eq!(value(&mut env, "(setq x 5)"), "5");
    assert_eq!(value(&mut env, "x"), "5");
    assert_eq!(value(&mut env, "(plus x 1)"), "6");
    assert_eq!(value(&mut env, "(setq y (quote (1 2)))"), "(1 2)");
    assert_eq!(value(&mut env, "(car y)"), "1");
}

#[test]
fn setq_is_not_seen_on_its_own_line() {
    let mut env = start();
    let (out, log) = line(&mut env, "(cons (setq z 1) z)");
    assert_eq!(out, Ok("(1)".to_string()));
    assert_eq!(log, vec!["Error. \"Z\" is undefined".to_string()]);
    assert_eq!(value(&mut env, "z"), "1");
}

#[test]
fn lambda_label_loop_macro() {
    let mut env = start();
    assert_eq!(value(&mut env, "((lambda (x y) (plus x y)) 2 3)"), "5");
    assert_eq!(
        value(
            &mut env,
            "((label fact (lambda (n) (cond ((eq n 0) 1) (t (prod n (fact (diff n 1))))))) 5)"
        ),
        "120"
    );
    assert_eq!(value(&mut env, "((loop (i s) ((eq i 5) s) ((plus i 1) (plus s i))) 0 0)"), "10");
    assert_eq!(value(&mut env, "((macro (x) (car x)) (a b))"), "A");
    assert_eq!(value(&mut env, "((lambda (x) &args) 1)"), "(1)");
    assert_eq!(value(&mut env, "(lambda (x) x)"), "(LAMBDA (X) X)");
    assert_eq!(value(&mut env, "(macro (x) x)"), "(MACRO (X) X)");
}

#[test]
fn lambda_arguments_are_evaluated_twice() {
    let mut env = start();
    assert_eq!(value(&mut env, "((lambda (a) a) (setq w 7))"), "7");
    assert_eq!(value(&mut env, "(cdr (car (cdr (cdr (quote (0 0 (0 0)))))))"), "(0)");
}

#[test]
fn initial_bindings() {
    let mut env = start();
    assert_eq!(value(&mut env, "quote"), "QUOTE");
    assert_eq!(value(&mut env, "quot"), "NIL");
    assert_eq!(value(&mut env, "nil"), "NIL");
    assert_eq!(value(&mut env, "t"), "T");
}

#[test]
fn diagnostics_of_each_kind() {
    let mut env = start();
    assert_eq!(line(&mut env, "foo"), (Ok("NIL".to_string()), vec!["Error. \"FOO\" is undefined".to_string()]));
    assert_eq!(
        line(&mut env, "(plus 1 (quote a))"),
        (Ok("NIL".to_string()), vec!["Error. \"A\" is not a number".to_string()])
    );
    assert_eq!(
        line(&mut env, "(plus (quote a) 1)"),
        (Ok("NIL".to_string()), vec!["Error. \"A\" is not a number".to_string()])
    );
    assert_eq!(line(&mut env, "(5 1)"), (Ok("NIL".to_string()), vec!["Error. \"5\" is not a function".to_string()]));
    assert_eq!(line(&mut env, "((5) 1)"), (Ok("NIL".to_string()), vec!["Error. \"5\" is not a function".to_string()]));
    assert_eq!(line(&mut env, "(car 5)"), (Ok("NIL".to_string()), vec!["car: Error. \"5\" is not a list".to_string()]));
    assert_eq!(line(&mut env, "(cdr 5)"), (Ok("NIL".to_string()), vec!["cdr: Error. \"5\" is not a list".to_string()]));
    assert_eq!(
        line(&mut env, "((lambda x x) 1)"),
        (
            Ok("NIL".to_string()),
            vec!["Error. \"X\" is not a list".to_string(), "Error. \"X\" is undefined".to_string()]
        )
    );
    assert_eq!(
        line(&mut env, "(a))"),
        (Ok("NIL".to_string()), vec!["Unmatched open token at 1".to_string()])
    );
}

#[test]
fn arithmetic_faults() {
    let mut env = start();
    assert_eq!(line(&mut env, "(plus 9223372036854775807 1)").0, Err(Fault::AddOverflow));
    assert_eq!(line(&mut env, "(diff -9223372036854775808 1)").0, Err(Fault::SubOverflow));
    assert_eq!(line(&mut env, "(prod 4611686018427387904 2)").0, Err(Fault::MulOverflow));
    assert_eq!(line(&mut env, "(quot 1 0)").0, Err(Fault::DivideByZero));
    assert_eq!(line(&mut env, "(quot -9223372036854775808 -1)").0, Err(Fault::DivideOverflow));
    assert_eq!(value(&mut env, "(plus -9223372036854775808 0)"), "-9223372036854775808");
}

#[test]
fn reader_faults() {
    let mut env = start();
    assert_eq!(line(&mut env, "").0, Err(Fault::StrSlice));
    assert_eq!(line(&mut env, "(").0, Err(Fault::StrSlice));
    assert_eq!(line(&mut env, "(a ( b)").0, Err(Fault::StrSlice));
    assert_eq!(line(&mut env, "(a (").1, vec!["Error. \"A\" is undefined".to_string()]);
    assert_eq!(line(&mut env, "é").0, Err(Fault::StrSlice));
    assert_eq!(line(&mut env, "(éé())").0, Err(Fault::CharIndex));
}

#[test]
fn endless_cond_runs_out_of_fuel() {
    let mut env = start();
    assert_eq!(line_with(&mut env, "(cond)", 200).0, Err(Fault::OutOfFuel));
}

#[test]
fn a_small_budget_runs_out_where_a_larger_one_finishes() {
    let mut env = start();
    assert_eq!(line_with(&mut env, "(plus 1 (plus 2 3))", 2).0, Err(Fault::OutOfFuel));
    assert_eq!(line_with(&mut env, "(plus 1 (plus 2 3))", 3).0, Ok("6".to_string()));
    assert_eq!(line_with(&mut env, "(plus 1 (plus 2 3))", 500).0, Ok("6".to_string()));
}

#[test]
fn numbers_and_odd_atoms() {
    let mut env = start();
    assert_eq!(value(&mut env, "+5"), "5");
    assert_eq!(value(&mut env, "-12"), "-12");
    assert_eq!(line(&mut env, "-").1, vec!["Error. \"-\" is undefined".to_string()]);
    assert_eq!(
        line(&mut env, "9223372036854775808").1,
        vec!["Error. \"9223372036854775808\" is undefined".to_string()]
    );
}

#[test]
fn unicode_whitespace_separates_words() {
    let mut env = start();
    assert_eq!(value(&mut env, "(list 1\u{a0}2\u{3000}3)"), "(1 2 3)");
}

#[test]
fn a_parenthesis_after_wide_characters_is_looked_up_by_byte_offset() {
    let mut env = start();
    assert_eq!(line(&mut env, "(quote (a\u{a0}b))").0, Err(Fault::CharIndex));
}

#[test]
fn eval_line_takes_text_as_it_is() {
    let mut env = start();
    let mut log = Vec::new();
    let out = eval_line(b"(QUOTE (x y))", &mut env, &mut log, FUEL).unwrap();
    assert_eq!(String::from_utf8(out).unwrap(), "(x y)");
    assert!(log.is_empty());
}

#[test]
fn initial_environment_text() {
    let env = start();
    let printed = text(&env);
    assert!(printed.starts_with("((QUOTE QUOTE) (ATOM ATOM) (EQ EQ)"));
    assert!(printed.ends_with("(LOOP LOOP) (NIL NIL))"));
}
