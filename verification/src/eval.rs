//! The evaluator: its semantics as spec functions over `Sx`, and the executable
//! functions proved to compute them.
//!
//! Every evaluation step spends one unit of a budget (`fuel`): a form that does
//! not finish within its budget ends in `Fault::OutOfFuel`.
use crate::sexpr::{
    append_s, cadadr_s, caadr_s, caar_s, cadar_s, caddr_s, cadr_s, car_s, cdr_s, eq_s, list_s, mk_cons, sx,
    word, word_eq, atom_s, Expr, Fault, Note, Sx, Elem, Diagnostic, notes, emit, clone_expr, car, cdr,
    cadr, caar, cadar, caddr, caadr, cadadr, cons, list, append, atom, eq, mk_symbol, mk_int, word_bytes, res_sx,
};
use vstd::prelude::*;

verus! {

/// The outcome of an evaluation: a value or a fault, the global environment
/// afterwards, and the diagnostics reported on the way.
#[verifier::ext_equal]
pub struct Run {
    pub res: Result<Sx, Fault>,
    pub g: Sx,
    pub notes: Seq<Note>,
}

/// The outcome of evaluating two arguments in turn.
#[verifier::ext_equal]
pub struct Run2 {
    pub res: Result<(Sx, Sx), Fault>,
    pub g: Sx,
    pub notes: Seq<Note>,
}

/// The executable result and global environment are those of the run `r`.
pub open spec fn runs(r: Run, res: Result<Expr, Fault>, g: Expr) -> bool {
    &&& r.res == res_sx(res)
    &&& r.g == sx(g)
}

pub open spec fn runs2(r: Run2, res: Result<(Expr, Expr), Fault>, g: Expr) -> bool {
    &&& match res {
        Ok((a, b)) => r.res == Ok::<(Sx, Sx), Fault>((sx(a), sx(b))),
        Err(f) => r.res == Err::<(Sx, Sx), Fault>(f),
    }
    &&& r.g == sx(g)
}

pub open spec fn done(v: Sx, g: Sx, ns: Seq<Note>) -> Run {
    Run { res: Ok(v), g, notes: ns }
}

pub open spec fn prepend(ns: Seq<Note>, r: Run) -> Run {
    Run { res: r.res, g: r.g, notes: ns + r.notes }
}

/// `r`, with its value replaced by `v` and `ns` reported after it, when it succeeded.
pub open spec fn then_value(r: Run, v: Sx, ns: Seq<Note>) -> Run {
    match r.res {
        Ok(_) => Run { res: Ok(v), g: r.g, notes: r.notes + ns },
        Err(_) => r,
    }
}

/// The symbol heads that the evaluator treats specially.
#[derive(Clone, Copy, Debug, PartialEq, Eq, Structural)]
pub enum Form {
    Quote,
    Atom,
    Eq,
    Car,
    Cdr,
    Cons,
    List,
    Cond,
    Plus,
    Prod,
    Diff,
    Quot,
    Setq,
    Lambda,
    Macro,
    Eval,
    Append,
    Call,
}

pub open spec fn form_of(name: Seq<u8>) -> Form {
    if name == word(seq!['Q', 'U', 'O', 'T', 'E']) {
        Form::Quote
    } else if name == word(seq!['A', 'T', 'O', 'M']) {
        Form::Atom
    } else if name == word(seq!['E', 'Q']) {
        Form::Eq
    } else if name == word(seq!['C', 'A', 'R']) {
        Form::Car
    } else if name == word(seq!['C', 'D', 'R']) {
        Form::Cdr
    } else if name == word(seq!['C', 'O', 'N', 'S']) {
        Form::Cons
    } else if name == word(seq!['L', 'I', 'S', 'T']) {
        Form::List
    } else if name == word(seq!['C', 'O', 'N', 'D']) {
        Form::Cond
    } else if name == word(seq!['P', 'L', 'U', 'S']) {
        Form::Plus
    } else if name == word(seq!['P', 'R', 'O', 'D']) {
        Form::Prod
    } else if name == word(seq!['D', 'I', 'F', 'F']) {
        Form::Diff
    } else if name == word(seq!['Q', 'U', 'O', 'T']) {
        Form::Quot
    } else if name == word(seq!['S', 'E', 'T', 'Q']) {
        Form::Setq
    } else if name == word(seq!['L', 'A', 'M', 'B', 'D', 'A']) {
        Form::Lambda
    } else if name == word(seq!['M', 'A', 'C', 'R', 'O']) {
        Form::Macro
    } else if name == word(seq!['E', 'V', 'A', 'L']) {
        Form::Eval
    } else if name == word(seq!['A', 'P', 'P', 'E', 'N', 'D']) {
        Form::Append
    } else {
        Form::Call
    }
}

pub fn classify_form(name: &[u8]) -> (f: Form)
    ensures
        f == form_of(name@),
{
    if word_eq(name, &['Q', 'U', 'O', 'T', 'E']) {
        Form::Quote
    } else if word_eq(name, &['A', 'T', 'O', 'M']) {
        Form::Atom
    } else if word_eq(name, &['E', 'Q']) {
        Form::Eq
    } else if word_eq(name, &['C', 'A', 'R']) {
        Form::Car
    } else if word_eq(name, &['C', 'D', 'R']) {
        Form::Cdr
    } else if word_eq(name, &['C', 'O', 'N', 'S']) {
        Form::Cons
    } else if word_eq(name, &['L', 'I', 'S', 'T']) {
        Form::List
    } else if word_eq(name, &['C', 'O', 'N', 'D']) {
        Form::Cond
    } else if word_eq(name, &['P', 'L', 'U', 'S']) {
        Form::Plus
    } else if word_eq(name, &['P', 'R', 'O', 'D']) {
        Form::Prod
    } else if word_eq(name, &['D', 'I', 'F', 'F']) {
        Form::Diff
    } else if word_eq(name, &['Q', 'U', 'O', 'T']) {
        Form::Quot
    } else if word_eq(name, &['S', 'E', 'T', 'Q']) {
        Form::Setq
    } else if word_eq(name, &['L', 'A', 'M', 'B', 'D', 'A']) {
        Form::Lambda
    } else if word_eq(name, &['M', 'A', 'C', 'R', 'O']) {
        Form::Macro
    } else if word_eq(name, &['E', 'V', 'A', 'L']) {
        Form::Eval
    } else if word_eq(name, &['A', 'P', 'P', 'E', 'N', 'D']) {
        Form::Append
    } else {
        Form::Call
    }
}

/// The symbol heads of a cell in function position.
#[derive(Clone, Copy, Debug, PartialEq, Eq, Structural)]
pub enum HeadForm {
    Label,
    Lambda,
    Loop,
    Macro,
    Call,
}

pub open spec fn head_form_of(name: Seq<u8>) -> HeadForm {
    if name == word(seq!['L', 'A', 'B', 'E', 'L']) {
        HeadForm::Label
    } else if name == word(seq!['L', 'A', 'M', 'B', 'D', 'A']) {
        HeadForm::Lambda
    } else if name == word(seq!['L', 'O', 'O', 'P']) {
        HeadForm::Loop
    } else if name == word(seq!['M', 'A', 'C', 'R', 'O']) {
        HeadForm::Macro
    } else {
        HeadForm::Call
    }
}

pub fn classify_head_form(name: &[u8]) -> (f: HeadForm)
    ensures
        f == head_form_of(name@),
{
    if word_eq(name, &['L', 'A', 'B', 'E', 'L']) {
        HeadForm::Label
    } else if word_eq(name, &['L', 'A', 'M', 'B', 'D', 'A']) {
        HeadForm::Lambda
    } else if word_eq(name, &['L', 'O', 'O', 'P']) {
        HeadForm::Loop
    } else if word_eq(name, &['M', 'A', 'C', 'R', 'O']) {
        HeadForm::Macro
    } else {
        HeadForm::Call
    }
}

/// The name under which a lambda or a macro sees its whole argument list.
pub open spec fn args_name() -> Seq<u8> {
    word(seq!['&', 'A', 'R', 'G', 'S'])
}

/// The value bound to `x` by the first entry of `env` whose key is `x`.
pub open spec fn assoc_s(x: Sx, env: Sx) -> (Sx, Seq<Note>)
    decreases env,
{
    match env {
        Sx::Cons(head, tail) => {
            let (k, n1) = car_s(*head);
            if eq_s(x, k) == Sx::Nil {
                let (v, n2) = assoc_s(x, *tail);
                (v, n1 + n2)
            } else {
                let (v, n2) = cadr_s(*head);
                (v, n1 + n2)
            }
        },
        Sx::Nil => (Sx::Nil, seq![Note::Undefined(x)]),
        _ => (Sx::Nil, seq![Note::NotAList(env)]),
    }
}

/// The list of two-element lists `(a_i b_i)`, up to the end of the shorter list.
pub open spec fn pair_s(a: Sx, b: Sx) -> (Sx, Seq<Note>)
    decreases a,
{
    match a {
        Sx::Cons(ha, ta) => match b {
            Sx::Cons(hb, tb) => {
                let (p, ns) = pair_s(*ta, *tb);
                (mk_cons(list_s(*ha, *hb), p), ns)
            },
            Sx::Nil => (Sx::Nil, seq![]),
            _ => (Sx::Nil, seq![Note::NotAList(b)]),
        },
        Sx::Nil => (Sx::Nil, seq![]),
        _ => (Sx::Nil, seq![Note::NotAList(a)]),
    }
}

/// The arithmetic operators.
#[derive(Clone, Copy, Debug, PartialEq, Eq, Structural)]
pub enum ArithOp {
    Plus,
    Prod,
    Diff,
    Quot,
}

/// `x / y` rounded toward zero, for `y != 0`.
pub open spec fn trunc_div(x: int, y: int) -> int {
    if x == 0 {
        0
    } else if x > 0 && y > 0 {
        x / y
    } else if x < 0 && y < 0 {
        (x * -1) / (y * -1)
    } else if x < 0 {
        ((x * -1) / y) * -1
    } else {
        (x / (y * -1)) * -1
    }
}

/// The `i64` operation, or the fault where it overflows or divides by zero.
pub open spec fn arith_value(op: ArithOp, x: i64, y: i64) -> Result<i64, Fault> {
    match op {
        ArithOp::Plus => if i64::MIN <= x + y <= i64::MAX {
            Ok((x + y) as i64)
        } else {
            Err(Fault::AddOverflow)
        },
        ArithOp::Prod => if i64::MIN <= x * y <= i64::MAX {
            Ok((x * y) as i64)
        } else {
            Err(Fault::MulOverflow)
        },
        ArithOp::Diff => if i64::MIN <= x - y <= i64::MAX {
            Ok((x - y) as i64)
        } else {
            Err(Fault::SubOverflow)
        },
        ArithOp::Quot => if y == 0 {
            Err(Fault::DivideByZero)
        } else if x == i64::MIN && y == -1 {
            Err(Fault::DivideOverflow)
        } else {
            Ok(trunc_div(x as int, y as int) as i64)
        },
    }
}

/// Arithmetic on two numbers; NIL (and a diagnostic for a non-number that is not NIL)
/// when an argument is not a number.
pub open spec fn arith_s(op: ArithOp, a: Sx, b: Sx) -> (Result<Sx, Fault>, Seq<Note>) {
    match a {
        Sx::Int(x) => match b {
            Sx::Int(y) => match arith_value(op, x, y) {
                Ok(v) => (Ok(Sx::Int(v)), seq![]),
                Err(f) => (Err(f), seq![]),
            },
            Sx::Nil => (Ok(Sx::Nil), seq![]),
            _ => (Ok(Sx::Nil), seq![Note::NotANumber(b)]),
        },
        Sx::Nil => (Ok(Sx::Nil), seq![]),
        _ => (Ok(Sx::Nil), seq![Note::NotANumber(a)]),
    }
}

/// Evaluates `e` in the local environment `env` and the global environment `g`.
pub open spec fn eval_s(fuel: nat, e: Sx, env: Sx, g: Sx) -> Run
    decreases fuel, 0nat,
{
    if fuel == 0 {
        Run { res: Err(Fault::OutOfFuel), g, notes: seq![] }
    } else {
        let f = (fuel - 1) as nat;
        match e {
            Sx::Sym(_) => {
                let (v, ns) = assoc_s(e, env);
                done(v, g, ns)
            },
            Sx::Cons(head, rest) => match *head {
                Sx::Nil => done(Sx::Nil, g, seq![]),
                Sx::Sym(name) => form_s(f, name, *head, *rest, env, g),
                Sx::Cons(h1, t1) => apply_s(f, *h1, *t1, *head, *rest, env, g),
                _ => done(Sx::Nil, g, seq![Note::NotAFunction(*head)]),
            },
            _ => done(e, g, seq![]),
        }
    }
}

/// Evaluates the first element of `c`.
pub open spec fn eval_car_s(fuel: nat, c: Sx, env: Sx, g: Sx) -> Run
    decreases fuel, 1nat,
{
    let (a, ns) = car_s(c);
    prepend(ns, eval_s(fuel, a, env, g))
}

/// Evaluates the second element of `c`.
pub open spec fn eval_cadr_s(fuel: nat, c: Sx, env: Sx, g: Sx) -> Run
    decreases fuel, 1nat,
{
    let (a, ns) = cadr_s(c);
    prepend(ns, eval_s(fuel, a, env, g))
}

/// Evaluates the first and then the second element of `c`.
pub open spec fn eval_two_s(fuel: nat, c: Sx, env: Sx, g: Sx) -> Run2
    decreases fuel, 2nat,
{
    let r1 = eval_car_s(fuel, c, env, g);
    match r1.res {
        Err(x) => Run2 { res: Err(x), g: r1.g, notes: r1.notes },
        Ok(a) => {
            let r2 = eval_cadr_s(fuel, c, env, r1.g);
            match r2.res {
                Err(x) => Run2 { res: Err(x), g: r2.g, notes: r1.notes + r2.notes },
                Ok(b) => Run2 { res: Ok((a, b)), g: r2.g, notes: r1.notes + r2.notes },
            }
        },
    }
}

/// `f(a, b)` of the two evaluated arguments.
pub open spec fn binary_s(r: Run2, v: Sx) -> Run {
    match r.res {
        Ok(_) => Run { res: Ok(v), g: r.g, notes: r.notes },
        Err(x) => Run { res: Err(x), g: r.g, notes: r.notes },
    }
}

/// A cell whose head is the symbol `name` and whose tail is `c`.
pub open spec fn form_s(fuel: nat, name: Seq<u8>, head: Sx, c: Sx, env: Sx, g: Sx) -> Run
    decreases fuel, 4nat,
{
    match form_of(name) {
        Form::Quote => {
            let (v, ns) = car_s(c);
            done(v, g, ns)
        },
        Form::Atom => {
            let r = eval_car_s(fuel, c, env, g);
            match r.res {
                Ok(v) => then_value(r, atom_s(v), seq![]),
                Err(_) => r,
            }
        },
        Form::Eq => {
            let r = eval_two_s(fuel, c, env, g);
            match r.res {
                Ok((a, b)) => binary_s(r, eq_s(a, b)),
                Err(_) => binary_s(r, Sx::Nil),
            }
        },
        Form::Car => {
            let r = eval_car_s(fuel, c, env, g);
            match r.res {
                Ok(v) => then_value(r, car_s(v).0, car_s(v).1),
                Err(_) => r,
            }
        },
        Form::Cdr => {
            let r = eval_car_s(fuel, c, env, g);
            match r.res {
                Ok(v) => then_value(r, cdr_s(v).0, cdr_s(v).1),
                Err(_) => r,
            }
        },
        Form::Cons => {
            let r = eval_two_s(fuel, c, env, g);
            match r.res {
                Ok((a, b)) => binary_s(r, mk_cons(a, b)),
                Err(_) => binary_s(r, Sx::Nil),
            }
        },
        Form::List => evlis_s(fuel, c, env, g),
        Form::Cond => evcond_s(fuel, c, env, g),
        Form::Plus => arith_form_s(fuel, ArithOp::Plus, c, env, g),
        Form::Prod => arith_form_s(fuel, ArithOp::Prod, c, env, g),
        Form::Diff => arith_form_s(fuel, ArithOp::Diff, c, env, g),
        Form::Quot => arith_form_s(fuel, ArithOp::Quot, c, env, g),
        Form::Setq => {
            let r = eval_cadr_s(fuel, c, env, g);
            match r.res {
                Ok(v) => {
                    let (name_v, ns) = car_s(c);
                    Run { res: Ok(v), g: mk_cons(list_s(name_v, v), r.g), notes: r.notes + ns }
                },
                Err(_) => r,
            }
        },
        Form::Lambda => done(mk_cons(head, c), g, seq![]),
        Form::Macro => done(mk_cons(head, c), g, seq![]),
        Form::Eval => {
            let r = eval_car_s(fuel, c, env, g);
            match r.res {
                Ok(v) => prepend(r.notes, eval_s(fuel, v, env, r.g)),
                Err(_) => r,
            }
        },
        Form::Append => {
            let r = eval_two_s(fuel, c, env, g);
            match r.res {
                Ok((a, b)) => binary_s(r, append_s(a, b)),
                Err(_) => binary_s(r, Sx::Nil),
            }
        },
        Form::Call => {
            let r = eval_s(fuel, head, env, g);
            match r.res {
                Ok(fv) => prepend(r.notes, eval_s(fuel, mk_cons(fv, c), env, r.g)),
                Err(_) => r,
            }
        },
    }
}

/// An arithmetic form: both arguments, then the operation.
pub open spec fn arith_form_s(fuel: nat, op: ArithOp, c: Sx, env: Sx, g: Sx) -> Run
    decreases fuel, 3nat,
{
    let r = eval_two_s(fuel, c, env, g);
    match r.res {
        Ok((a, b)) => {
            let (v, ns) = arith_s(op, a, b);
            Run { res: v, g: r.g, notes: r.notes + ns }
        },
        Err(x) => Run { res: Err(x), g: r.g, notes: r.notes },
    }
}

/// A cell whose head is the cell `(h1 . t1)` (`head`) and whose tail is `c`.
pub open spec fn apply_s(fuel: nat, h1: Sx, t1: Sx, head: Sx, c: Sx, env: Sx, g: Sx) -> Run
    decreases fuel, 3nat,
{
    match h1 {
        Sx::Sym(name) => match head_form_of(name) {
            HeadForm::Label => label_s(fuel, t1, head, c, env, g),
            HeadForm::Lambda => lambda_s(fuel, t1, c, env, g),
            HeadForm::Loop => loop_form_s(fuel, t1, c, env, g),
            HeadForm::Macro => macro_s(fuel, t1, c, env, g),
            HeadForm::Call => {
                let (fv, ns) = assoc_s(h1, env);
                prepend(ns, eval_s(fuel, mk_cons(mk_cons(fv, t1), c), env, g))
            },
        },
        Sx::Nil => done(Sx::Nil, g, seq![]),
        _ => done(Sx::Nil, g, seq![Note::NotAFunction(h1)]),
    }
}

/// `((LABEL name f) args...)`: applies `f` with `name` bound to `(LABEL name f)`.
pub open spec fn label_s(fuel: nat, t1: Sx, head: Sx, c: Sx, env: Sx, g: Sx) -> Run
    decreases fuel, 1nat,
{
    let (fbody, n1) = cadr_s(t1);
    let (fname, n2) = car_s(t1);
    let env2 = mk_cons(list_s(fname, head), env);
    prepend(n1 + n2, eval_s(fuel, mk_cons(fbody, c), env2, g))
}

/// `((LAMBDA params body) args...)`: the arguments are evaluated twice, once for
/// `&ARGS` and once for the parameters, which are bound in front of `env`.
pub open spec fn lambda_s(fuel: nat, t1: Sx, c: Sx, env: Sx, g: Sx) -> Run
    decreases fuel, 1nat,
{
    let (body, n1) = cadr_s(t1);
    let r1 = evlis_s(fuel, c, env, g);
    match r1.res {
        Err(_) => prepend(n1, r1),
        Ok(args1) => {
            let (params, n2) = car_s(t1);
            let r2 = evlis_s(fuel, c, env, r1.g);
            match r2.res {
                Err(_) => prepend(n1 + r1.notes + n2, r2),
                Ok(args2) => {
                    let (p, n3) = pair_s(params, args2);
                    let env2 = mk_cons(list_s(Sx::Sym(args_name()), args1), append_s(p, env));
                    prepend(n1 + r1.notes + n2 + r2.notes + n3, eval_s(fuel, body, env2, r2.g))
                },
            }
        },
    }
}

/// `((LOOP params (test body) updates) args...)`.
pub open spec fn loop_form_s(fuel: nat, t1: Sx, c: Sx, env: Sx, g: Sx) -> Run
    decreases fuel, 1nat,
{
    let (params, n1) = car_s(t1);
    let r1 = evlis_s(fuel, c, env, g);
    match r1.res {
        Err(_) => prepend(n1, r1),
        Ok(args) => {
            let (p, n2) = pair_s(params, args);
            prepend(n1 + r1.notes + n2, loop_s(fuel, t1, env, append_s(p, env), r1.g))
        },
    }
}

/// `((MACRO params body) args...)`: the parameters are bound to the unevaluated arguments.
pub open spec fn macro_s(fuel: nat, t1: Sx, c: Sx, env: Sx, g: Sx) -> Run
    decreases fuel, 1nat,
{
    let (body, n1) = cadr_s(t1);
    let (params, n2) = car_s(t1);
    let (p, n3) = pair_s(params, c);
    let env2 = mk_cons(list_s(Sx::Sym(args_name()), c), append_s(p, env));
    prepend(n1 + n2 + n3, eval_s(fuel, body, env2, g))
}

/// Evaluates each element of a list, left to right, into a new list.
pub open spec fn evlis_s(fuel: nat, args: Sx, env: Sx, g: Sx) -> Run
    decreases fuel, 0nat,
{
    if fuel == 0 {
        Run { res: Err(Fault::OutOfFuel), g, notes: seq![] }
    } else {
        let f = (fuel - 1) as nat;
        match args {
            Sx::Nil => done(Sx::Nil, g, seq![]),
            Sx::Cons(h, t) => {
                let r1 = eval_s(f, *h, env, g);
                match r1.res {
                    Err(_) => r1,
                    Ok(v) => {
                        let r2 = evlis_s(f, *t, env, r1.g);
                        match r2.res {
                            Err(_) => prepend(r1.notes, r2),
                            Ok(vs) => done(mk_cons(v, vs), r2.g, r1.notes + r2.notes),
                        }
                    },
                }
            },
            _ => done(Sx::Nil, g, seq![Note::NotAList(args)]),
        }
    }
}

/// The clauses `(test expr)` of a COND, tried in order; a list of clauses that
/// runs out is tried again as NIL, and never ends.
pub open spec fn evcond_s(fuel: nat, e: Sx, env: Sx, g: Sx) -> Run
    decreases fuel, 0nat,
{
    if fuel == 0 {
        Run { res: Err(Fault::OutOfFuel), g, notes: seq![] }
    } else {
        let f = (fuel - 1) as nat;
        let (test, n1) = caar_s(e);
        let r1 = eval_s(f, test, env, g);
        match r1.res {
            Err(_) => prepend(n1, r1),
            Ok(Sx::Nil) => {
                let (rest, n2) = cdr_s(e);
                prepend(n1 + r1.notes + n2, evcond_s(f, rest, env, r1.g))
            },
            Ok(_) => {
                let (body, n3) = cadar_s(e);
                prepend(n1 + r1.notes + n3, eval_s(f, body, env, r1.g))
            },
        }
    }
}

/// The iterations of `((LOOP params (test body) updates) args...)`, with `t1`
/// the tail after LOOP and `lenv` the current loop environment: while `test` is NIL
/// the parameters are bound anew to the values of `updates`.
pub open spec fn loop_s(fuel: nat, t1: Sx, env: Sx, lenv: Sx, g: Sx) -> Run
    decreases fuel, 0nat,
{
    if fuel == 0 {
        Run { res: Err(Fault::OutOfFuel), g, notes: seq![] }
    } else {
        let f = (fuel - 1) as nat;
        let (test, n1) = caadr_s(t1);
        let r1 = eval_s(f, test, lenv, g);
        match r1.res {
            Err(_) => prepend(n1, r1),
            Ok(Sx::Nil) => {
                let (params, n2) = car_s(t1);
                let (update, n3) = caddr_s(t1);
                let r2 = evlis_s(f, update, lenv, r1.g);
                match r2.res {
                    Err(_) => prepend(n1 + r1.notes + n2 + n3, r2),
                    Ok(args) => {
                        let (p, n4) = pair_s(params, args);
                        prepend(
                            n1 + r1.notes + n2 + n3 + r2.notes + n4,
                            loop_s(f, t1, env, append_s(p, env), r2.g),
                        )
                    },
                }
            },
            Ok(_) => {
                let (body, n5) = cadadr_s(t1);
                prepend(n1 + r1.notes + n5, eval_s(f, body, lenv, r1.g))
            },
        }
    }
}


/// The value of the first binding of `x` in `env`; NIL and a diagnostic when there is none.
pub fn assoc(x: &Expr, env: &Expr, global_env: &Expr, log: &mut Vec<Diagnostic>) -> (res: Expr)
    ensures
        sx(res) == assoc_s(sx(*x), sx(*env)).0,
        notes(final(log)@) =~= notes(old(log)@) + assoc_s(sx(*x), sx(*env)).1,
    decreases *env,
{
    match env {
        Some(elem) => match &**elem {
            Elem::Node(head, tail) => {
                let k = car(head, log);
                let cond = eq(x, &k);
                match cond {
                    None => assoc(x, tail, global_env, log),
                    Some(_) => cadr(head, log),
                }
            },
            _ => {
                emit(log, Diagnostic::NotAList(clone_expr(env)));
                None
            },
        },
        None => {
            emit(log, Diagnostic::Undefined(clone_expr(x)));
            None
        },
    }
}

/// Zips two lists into a list of two-element lists.
pub fn pair(a: &Expr, b: &Expr, log: &mut Vec<Diagnostic>) -> (res: Expr)
    ensures
        sx(res) == pair_s(sx(*a), sx(*b)).0,
        notes(final(log)@) =~= notes(old(log)@) + pair_s(sx(*a), sx(*b)).1,
    decreases *a,
{
    match a {
        Some(elem_a) => match &**elem_a {
            Elem::Node(head_a, tail_a) => match b {
                Some(elem_b) => match &**elem_b {
                    Elem::Node(head_b, tail_b) => {
                        let first = list(head_a, head_b);
                        let rest = pair(tail_a, tail_b, log);
                        cons(&first, &rest)
                    },
                    _ => {
                        emit(log, Diagnostic::NotAList(clone_expr(b)));
                        None
                    },
                },
                None => None,
            },
            _ => {
                emit(log, Diagnostic::NotAList(clone_expr(a)));
                None
            },
        },
        None => None,
    }
}

/// The `i64` operation; the fault where the operation would panic.
pub fn arith_i64(op: ArithOp, x: i64, y: i64) -> (res: Result<i64, Fault>)
    ensures
        res == arith_value(op, x, y),
{
    match op {
        ArithOp::Plus => match x.checked_add(y) {
            Some(v) => Ok(v),
            None => Err(Fault::AddOverflow),
        },
        ArithOp::Prod => match x.checked_mul(y) {
            Some(v) => Ok(v),
            None => Err(Fault::MulOverflow),
        },
        ArithOp::Diff => match x.checked_sub(y) {
            Some(v) => Ok(v),
            None => Err(Fault::SubOverflow),
        },
        ArithOp::Quot => {
            if y == 0 {
                Err(Fault::DivideByZero)
            } else if x == i64::MIN && y == -1 {
                Err(Fault::DivideOverflow)
            } else {
                let q = x.checked_div(y);
                assert(i64::MIN <= trunc_div(x as int, y as int) <= i64::MAX) by (nonlinear_arith)
                    requires
                        y != 0,
                        !(x == i64::MIN && y == -1),
                {
                }
                match q {
                    Some(v) => Ok(v),
                    None => Err(Fault::DivideOverflow),
                }
            }
        },
    }
}

/// Applies an arithmetic operator to two numbers.
pub fn arithmetic_op(a: &Expr, b: &Expr, op: ArithOp, log: &mut Vec<Diagnostic>) -> (res: Result<
    Expr,
    Fault,
>)
    ensures
        res_sx(res) == arith_s(op, sx(*a), sx(*b)).0,
        notes(final(log)@) =~= notes(old(log)@) + arith_s(op, sx(*a), sx(*b)).1,
{
    match a {
        Some(elem_a) => match &**elem_a {
            Elem::I64(value_a) => match b {
                Some(elem_b) => match &**elem_b {
                    Elem::I64(value_b) => match arith_i64(op, *value_a, *value_b) {
                        Ok(v) => Ok(mk_int(v)),
                        Err(f) => Err(f),
                    },
                    _ => {
                        emit(log, Diagnostic::NotANumber(clone_expr(b)));
                        Ok(None)
                    },
                },
                None => Ok(None),
            },
            _ => {
                emit(log, Diagnostic::NotANumber(clone_expr(a)));
                Ok(None)
            },
        },
        None => Ok(None),
    }
}

/// Evaluates `expr` with the local environment `env`; SETQ extends `global_env`.
/// Each nested evaluation spends one unit of `fuel`.
pub fn eval(
    expr: &Expr,
    env: &Expr,
    global_env: &mut Expr,
    log: &mut Vec<Diagnostic>,
    fuel: u64,
) -> (res: Result<Expr, Fault>)
    ensures
        runs(
            eval_s(fuel as nat, sx(*expr), sx(*env), sx(*old(global_env))),
            res,
            *final(global_env),
        ),
        notes(final(log)@) =~= notes(old(log)@) + eval_s(
            fuel as nat,
            sx(*expr),
            sx(*env),
            sx(*old(global_env)),
        ).notes,
    decreases fuel, 0nat,
{
    if fuel == 0 {
        return Err(Fault::OutOfFuel);
    }
    let f = fuel - 1;
    match expr {
        None => Ok(None),
        Some(elem) => match &**elem {
            Elem::Symbol(_) => Ok(assoc(expr, env, global_env, log)),
            Elem::Node(car_elem, cdr_elem) => match car_elem {
                None => Ok(None),
                Some(sub) => match &**sub {
                    Elem::Symbol(symbol) => eval_form(
                        symbol,
                        car_elem,
                        cdr_elem,
                        env,
                        global_env,
                        log,
                        f,
                    ),
                    Elem::Node(car1, cdr1) => eval_apply(
                        car1,
                        cdr1,
                        car_elem,
                        cdr_elem,
                        env,
                        global_env,
                        log,
                        f,
                    ),
                    _ => {
                        emit(log, Diagnostic::NotAFunction(clone_expr(car_elem)));
                        Ok(None)
                    },
                },
            },
            _ => Ok(clone_expr(expr)),
        },
    }
}

/// Evaluates the first element of `c`.
pub fn eval_car_arg(
    c: &Expr,
    env: &Expr,
    global_env: &mut Expr,
    log: &mut Vec<Diagnostic>,
    fuel: u64,
) -> (res: Result<Expr, Fault>)
    ensures
        runs(
            eval_car_s(fuel as nat, sx(*c), sx(*env), sx(*old(global_env))),
            res,
            *final(global_env),
        ),
        notes(final(log)@) =~= notes(old(log)@) + eval_car_s(
            fuel as nat,
            sx(*c),
            sx(*env),
            sx(*old(global_env)),
        ).notes,
    decreases fuel, 1nat,
{
    let a = car(c, log);
    eval(&a, env, global_env, log, fuel)
}

/// Evaluates the second element of `c`.
pub fn eval_cadr_arg(
    c: &Expr,
    env: &Expr,
    global_env: &mut Expr,
    log: &mut Vec<Diagnostic>,
    fuel: u64,
) -> (res: Result<Expr, Fault>)
    ensures
        runs(
            eval_cadr_s(fuel as nat, sx(*c), sx(*env), sx(*old(global_env))),
            res,
            *final(global_env),
        ),
        notes(final(log)@) =~= notes(old(log)@) + eval_cadr_s(
            fuel as nat,
            sx(*c),
            sx(*env),
            sx(*old(global_env)),
        ).notes,
    decreases fuel, 1nat,
{
    let a = cadr(c, log);
    eval(&a, env, global_env, log, fuel)
}

/// Evaluates the first and then the second element of `c`.
pub fn eval_two_args(
    c: &Expr,
    env: &Expr,
    global_env: &mut Expr,
    log: &mut Vec<Diagnostic>,
    fuel: u64,
) -> (res: Result<(Expr, Expr), Fault>)
    ensures
        runs2(
            eval_two_s(fuel as nat, sx(*c), sx(*env), sx(*old(global_env))),
            res,
            *final(global_env),
        ),
        notes(final(log)@) =~= notes(old(log)@) + eval_two_s(
            fuel as nat,
            sx(*c),
            sx(*env),
            sx(*old(global_env)),
        ).notes,
    decreases fuel, 2nat,
{
    let a = eval_car_arg(c, env, global_env, log, fuel)?;
    let b = eval_cadr_arg(c, env, global_env, log, fuel)?;
    Ok((a, b))
}

/// An arithmetic form.
pub fn eval_arith(
    op: ArithOp,
    c: &Expr,
    env: &Expr,
    global_env: &mut Expr,
    log: &mut Vec<Diagnostic>,
    fuel: u64,
) -> (res: Result<Expr, Fault>)
    ensures
        runs(
            arith_form_s(fuel as nat, op, sx(*c), sx(*env), sx(*old(global_env))),
            res,
            *final(global_env),
        ),
        notes(final(log)@) =~= notes(old(log)@) + arith_form_s(
            fuel as nat,
            op,
            sx(*c),
            sx(*env),
            sx(*old(global_env)),
        ).notes,
    decreases fuel, 3nat,
{
    let (a, b) = eval_two_args(c, env, global_env, log, fuel)?;
    arithmetic_op(&a, &b, op, log)
}

/// A cell whose head is the symbol `symbol` (the expression `head`) and whose tail is `rest`.
pub fn eval_form(
    symbol: &Vec<u8>,
    head: &Expr,
    rest: &Expr,
    env: &Expr,
    global_env: &mut Expr,
    log: &mut Vec<Diagnostic>,
    fuel: u64,
) -> (res: Result<Expr, Fault>)
    ensures
        runs(
            form_s(fuel as nat, symbol@, sx(*head), sx(*rest), sx(*env), sx(*old(global_env))),
            res,
            *final(global_env),
        ),
        notes(final(log)@) =~= notes(old(log)@) + form_s(
            fuel as nat,
            symbol@,
            sx(*head),
            sx(*rest),
            sx(*env),
            sx(*old(global_env)),
        ).notes,
    decreases fuel, 4nat,
{
    match classify_form(symbol.as_slice()) {
        Form::Quote => Ok(car(rest, log)),
        Form::Atom => {
            let v = eval_car_arg(rest, env, global_env, log, fuel)?;
            Ok(atom(&v))
        },
        Form::Eq => {
            let (a, b) = eval_two_args(rest, env, global_env, log, fuel)?;
            Ok(eq(&a, &b))
        },
        Form::Car => {
            let v = eval_car_arg(rest, env, global_env, log, fuel)?;
            Ok(car(&v, log))
        },
        Form::Cdr => {
            let v = eval_car_arg(rest, env, global_env, log, fuel)?;
            Ok(cdr(&v, log))
        },
        Form::Cons => {
            let (a, b) = eval_two_args(rest, env, global_env, log, fuel)?;
            Ok(cons(&a, &b))
        },
        Form::List => evlis(rest, env, global_env, log, fuel),
        Form::Cond => evcond(rest, env, global_env, log, fuel),
        Form::Plus => eval_arith(ArithOp::Plus, rest, env, global_env, log, fuel),
        Form::Prod => eval_arith(ArithOp::Prod, rest, env, global_env, log, fuel),
        Form::Diff => eval_arith(ArithOp::Diff, rest, env, global_env, log, fuel),
        Form::Quot => eval_arith(ArithOp::Quot, rest, env, global_env, log, fuel),
        Form::Setq => {
            let value = eval_cadr_arg(rest, env, global_env, log, fuel)?;
            let name = car(rest, log);
            let entry = list(&name, &value);
            let extended = cons(&entry, global_env);
            *global_env = extended;
            Ok(value)
        },
        Form::Lambda => Ok(cons(head, rest)),
        Form::Macro => Ok(cons(head, rest)),
        Form::Eval => {
            let new_context = eval_car_arg(rest, env, global_env, log, fuel)?;
            eval(&new_context, env, global_env, log, fuel)
        },
        Form::Append => {
            let (a, b) = eval_two_args(rest, env, global_env, log, fuel)?;
            Ok(append(&a, &b))
        },
        Form::Call => {
            let fv = eval(head, env, global_env, log, fuel)?;
            let applied = cons(&fv, rest);
            eval(&applied, env, global_env, log, fuel)
        },
    }
}

/// A cell whose head is the cell `(car1 . cdr1)` (the expression `head`) and whose tail is `rest`.
pub fn eval_apply(
    car1: &Expr,
    cdr1: &Expr,
    head: &Expr,
    rest: &Expr,
    env: &Expr,
    global_env: &mut Expr,
    log: &mut Vec<Diagnostic>,
    fuel: u64,
) -> (res: Result<Expr, Fault>)
    ensures
        runs(
            apply_s(
                fuel as nat,
                sx(*car1),
                sx(*cdr1),
                sx(*head),
                sx(*rest),
                sx(*env),
                sx(*old(global_env)),
            ),
            res,
            *final(global_env),
        ),
        notes(final(log)@) =~= notes(old(log)@) + apply_s(
            fuel as nat,
            sx(*car1),
            sx(*cdr1),
            sx(*head),
            sx(*rest),
            sx(*env),
            sx(*old(global_env)),
        ).notes,
    decreases fuel, 3nat,
{
    match car1 {
        None => Ok(None),
        Some(sub) => match &**sub {
            Elem::Symbol(symbol) => match classify_head_form(symbol.as_slice()) {
                HeadForm::Label => eval_label(cdr1, head, rest, env, global_env, log, fuel),
                HeadForm::Lambda => eval_lambda(cdr1, rest, env, global_env, log, fuel),
                HeadForm::Loop => eval_loop_form(cdr1, rest, env, global_env, log, fuel),
                HeadForm::Macro => eval_macro(cdr1, rest, env, global_env, log, fuel),
                HeadForm::Call => {
                    let fv = assoc(car1, env, global_env, log);
                    let applied = cons(&cons(&fv, cdr1), rest);
                    eval(&applied, env, global_env, log, fuel)
                },
            },
            _ => {
                emit(log, Diagnostic::NotAFunction(clone_expr(car1)));
                Ok(None)
            },
        },
    }
}

/// `((LABEL name f) args...)`.
pub fn eval_label(
    cdr1: &Expr,
    head: &Expr,
    rest: &Expr,
    env: &Expr,
    global_env: &mut Expr,
    log: &mut Vec<Diagnostic>,
    fuel: u64,
) -> (res: Result<Expr, Fault>)
    ensures
        runs(
            label_s(fuel as nat, sx(*cdr1), sx(*head), sx(*rest), sx(*env), sx(*old(global_env))),
            res,
            *final(global_env),
        ),
        notes(final(log)@) =~= notes(old(log)@) + label_s(
            fuel as nat,
            sx(*cdr1),
            sx(*head),
            sx(*rest),
            sx(*env),
            sx(*old(global_env)),
        ).notes,
    decreases fuel, 1nat,
{
    let fbody = cadr(cdr1, log);
    let applied = cons(&fbody, rest);
    let fname = car(cdr1, log);
    let env2 = cons(&list(&fname, head), env);
    eval(&applied, &env2, global_env, log, fuel)
}

/// `((LAMBDA params body) args...)`.
pub fn eval_lambda(
    cdr1: &Expr,
    rest: &Expr,
    env: &Expr,
    global_env: &mut Expr,
    log: &mut Vec<Diagnostic>,
    fuel: u64,
) -> (res: Result<Expr, Fault>)
    ensures
        runs(
            lambda_s(fuel as nat, sx(*cdr1), sx(*rest), sx(*env), sx(*old(global_env))),
            res,
            *final(global_env),
        ),
        notes(final(log)@) =~= notes(old(log)@) + lambda_s(
            fuel as nat,
            sx(*cdr1),
            sx(*rest),
            sx(*env),
            sx(*old(global_env)),
        ).notes,
    decreases fuel, 1nat,
{
    let body = cadr(cdr1, log);
    let args1 = evlis(rest, env, global_env, log, fuel)?;
    let all_args = list(&mk_symbol(word_bytes(&['&', 'A', 'R', 'G', 'S'])), &args1);
    let params = car(cdr1, log);
    let args2 = evlis(rest, env, global_env, log, fuel)?;
    let bound = pair(&params, &args2, log);
    let env2 = cons(&all_args, &append(&bound, env));
    eval(&body, &env2, global_env, log, fuel)
}

/// `((LOOP params (test body) updates) args...)`.
pub fn eval_loop_form(
    cdr1: &Expr,
    rest: &Expr,
    env: &Expr,
    global_env: &mut Expr,
    log: &mut Vec<Diagnostic>,
    fuel: u64,
) -> (res: Result<Expr, Fault>)
    ensures
        runs(
            loop_form_s(fuel as nat, sx(*cdr1), sx(*rest), sx(*env), sx(*old(global_env))),
            res,
            *final(global_env),
        ),
        notes(final(log)@) =~= notes(old(log)@) + loop_form_s(
            fuel as nat,
            sx(*cdr1),
            sx(*rest),
            sx(*env),
            sx(*old(global_env)),
        ).notes,
    decreases fuel, 1nat,
{
    let params = car(cdr1, log);
    let args = evlis(rest, env, global_env, log, fuel)?;
    let bound = pair(&params, &args, log);
    let loop_env = append(&bound, env);
    eval_loop(cdr1, env, loop_env, global_env, log, fuel)
}

/// `((MACRO params body) args...)`.
pub fn eval_macro(
    cdr1: &Expr,
    rest: &Expr,
    env: &Expr,
    global_env: &mut Expr,
    log: &mut Vec<Diagnostic>,
    fuel: u64,
) -> (res: Result<Expr, Fault>)
    ensures
        runs(
            macro_s(fuel as nat, sx(*cdr1), sx(*rest), sx(*env), sx(*old(global_env))),
            res,
            *final(global_env),
        ),
        notes(final(log)@) =~= notes(old(log)@) + macro_s(
            fuel as nat,
            sx(*cdr1),
            sx(*rest),
            sx(*env),
            sx(*old(global_env)),
        ).notes,
    decreases fuel, 1nat,
{
    let body = cadr(cdr1, log);
    let all_args = list(&mk_symbol(word_bytes(&['&', 'A', 'R', 'G', 'S'])), rest);
    let params = car(cdr1, log);
    let bound = pair(&params, rest, log);
    let env2 = cons(&all_args, &append(&bound, env));
    eval(&body, &env2, global_env, log, fuel)
}

/// Evaluates the elements of `arguments` in order into a new list.
pub fn evlis(
    arguments: &Expr,
    env: &Expr,
    global_env: &mut Expr,
    log: &mut Vec<Diagnostic>,
    fuel: u64,
) -> (res: Result<Expr, Fault>)
    ensures
        runs(
            evlis_s(fuel as nat, sx(*arguments), sx(*env), sx(*old(global_env))),
            res,
            *final(global_env),
        ),
        notes(final(log)@) =~= notes(old(log)@) + evlis_s(
            fuel as nat,
            sx(*arguments),
            sx(*env),
            sx(*old(global_env)),
        ).notes,
    decreases fuel, 0nat,
{
    if fuel == 0 {
        return Err(Fault::OutOfFuel);
    }
    let f = fuel - 1;
    match arguments {
        None => Ok(None),
        Some(elem) => match &**elem {
            Elem::Node(head, tail) => {
                let v = eval(head, env, global_env, log, f)?;
                let vs = evlis(tail, env, global_env, log, f)?;
                Ok(cons(&v, &vs))
            },
            _ => {
                emit(log, Diagnostic::NotAList(clone_expr(arguments)));
                Ok(None)
            },
        },
    }
}

/// Tries the clauses of a COND in order.
pub fn evcond(
    expr: &Expr,
    env: &Expr,
    global_env: &mut Expr,
    log: &mut Vec<Diagnostic>,
    fuel: u64,
) -> (res: Result<Expr, Fault>)
    ensures
        runs(
            evcond_s(fuel as nat, sx(*expr), sx(*env), sx(*old(global_env))),
            res,
            *final(global_env),
        ),
        notes(final(log)@) =~= notes(old(log)@) + evcond_s(
            fuel as nat,
            sx(*expr),
            sx(*env),
            sx(*old(global_env)),
        ).notes,
    decreases fuel, 0nat,
{
    if fuel == 0 {
        return Err(Fault::OutOfFuel);
    }
    let f = fuel - 1;
    let test = caar(expr, log);
    let cond = eval(&test, env, global_env, log, f)?;
    match cond {
        None => {
            let rest = cdr(expr, log);
            evcond(&rest, env, global_env, log, f)
        },
        Some(_) => {
            let body = cadar(expr, log);
            eval(&body, env, global_env, log, f)
        },
    }
}

/// Runs a LOOP from the environment `start_env`: while the test is NIL, rebinds the
/// parameters to the evaluated updates; then evaluates the body.
#[verifier::rlimit(80)]
pub fn eval_loop(
    cdr1: &Expr,
    env: &Expr,
    start_env: Expr,
    global_env: &mut Expr,
    log: &mut Vec<Diagnostic>,
    budget: u64,
) -> (res: Result<Expr, Fault>)
    ensures
        runs(
            loop_s(budget as nat, sx(*cdr1), sx(*env), sx(start_env), sx(*old(global_env))),
            res,
            *final(global_env),
        ),
        notes(final(log)@) =~= notes(old(log)@) + loop_s(
            budget as nat,
            sx(*cdr1),
            sx(*env),
            sx(start_env),
            sx(*old(global_env)),
        ).notes,
    decreases budget, 0nat,
{
    let ghost whole = loop_s(budget as nat, sx(*cdr1), sx(*env), sx(start_env), sx(*global_env));
    let ghost log0 = notes(log@);
    let mut loop_env = start_env;
    let mut fuel = budget;
    let ghost mut acc: Seq<Note> = seq![];
    loop
        invariant
            fuel <= budget,
            whole == loop_s(budget as nat, sx(*cdr1), sx(*env), sx(start_env), sx(*old(global_env))),
            log0 == notes(old(log)@),
            whole == prepend(
                acc,
                loop_s(fuel as nat, sx(*cdr1), sx(*env), sx(loop_env), sx(*global_env)),
            ),
            notes(log@) =~= log0 + acc,
        decreases fuel,
    {
        if fuel == 0 {
            return Err(Fault::OutOfFuel);
        }
        let f = fuel - 1;
        let ghost log_before = notes(log@);
        let ghost g_before = sx(*global_env);
        let ghost lenv_before = sx(loop_env);
        let test = caadr(cdr1, log);
        let cond = eval(&test, &loop_env, global_env, log, f)?;
        match cond {
            None => {
                let params = car(cdr1, log);
                let update = caddr(cdr1, log);
                let args = evlis(&update, &loop_env, global_env, log, f)?;
                let bound = pair(&params, &args, log);
                loop_env = append(&bound, env);
                proof {
                    let x = notes(log@).skip(log_before.len() as int);
                    assert(notes(log@) =~= log_before + x);
                    assert(loop_s(fuel as nat, sx(*cdr1), sx(*env), lenv_before, g_before) =~= prepend(
                        x,
                        loop_s(f as nat, sx(*cdr1), sx(*env), sx(loop_env), sx(*global_env)),
                    ));
                    acc = acc + x;
                }
                fuel = f;
            },
            Some(_) => {
                let body = cadadr(cdr1, log);
                return eval(&body, &loop_env, global_env, log, f);
            },
        }
    }
}

} // verus!
