//! What the built-in forms compute, applied to quoted arguments: each law speaks of
//! every value of the arguments.
use crate::eval::{
    label_s, macro_s, loop_form_s, loop_s,
    apply_s, args_name, assoc_s, evcond_s, evlis_s, head_form_of, lambda_s, pair_s, prepend, HeadForm,
    arith_form_s, done, eval_car_s, eval_s, eval_two_s, form_of, form_s, trunc_div, ArithOp, Form, Run2,
};
use crate::laws::{from_items, items, law_append_concatenates, law_quote, quote_sym};
use crate::sexpr::{append_s, car_s, list_s, mk_cons, word, Fault, Note, Sx};
use vstd::prelude::*;

verus! {

/// `(QUOTE x)`.
pub open spec fn quoted(x: Sx) -> Sx {
    list_s(quote_sym(), x)
}

/// `(name (QUOTE x))`.
pub open spec fn call1(name: Seq<u8>, x: Sx) -> Sx {
    list_s(Sx::Sym(name), quoted(x))
}

/// `(name (QUOTE a) (QUOTE b))`.
pub open spec fn call2(name: Seq<u8>, a: Sx, b: Sx) -> Sx {
    mk_cons(Sx::Sym(name), list_s(quoted(a), quoted(b)))
}

proof fn lemma_one_quoted(f: nat, x: Sx, env: Sx, g: Sx)
    requires
        f >= 1,
    ensures
        eval_car_s(f, mk_cons(quoted(x), Sx::Nil), env, g) == done(x, g, Seq::<Note>::empty()),
{
    law_quote(f, x, env, g);
    let e = Seq::<Note>::empty();
    assert(e + e =~= e);
    assert(car_s(mk_cons(quoted(x), Sx::Nil)) == (quoted(x), e));
}

proof fn lemma_two_quoted(f: nat, a: Sx, b: Sx, env: Sx, g: Sx)
    requires
        f >= 1,
    ensures
        eval_two_s(f, list_s(quoted(a), quoted(b)), env, g) == (Run2 {
            res: Ok((a, b)),
            g,
            notes: Seq::<Note>::empty(),
        }),
{
    let c = list_s(quoted(a), quoted(b));
    law_quote(f, a, env, g);
    law_quote(f, b, env, g);
    let e = Seq::<Note>::empty();
    assert(e + e =~= e);
    assert(car_s(c) == (quoted(a), e));
    assert(crate::sexpr::cadr_s(c) == (quoted(b), e + e));
    assert(crate::eval::eval_car_s(f, c, env, g) == done(a, g, e));
    assert(crate::eval::eval_cadr_s(f, c, env, g) == done(b, g, e));
}

pub open spec fn cons_word() -> Seq<u8> {
    word(seq!['C', 'O', 'N', 'S'])
}

pub open spec fn car_word() -> Seq<u8> {
    word(seq!['C', 'A', 'R'])
}

pub open spec fn cdr_word() -> Seq<u8> {
    word(seq!['C', 'D', 'R'])
}

pub open spec fn append_word() -> Seq<u8> {
    word(seq!['A', 'P', 'P', 'E', 'N', 'D'])
}

/// `(CONS 'a 'b)` is the cell `(a . b)`, and `(CAR ...)` and `(CDR ...)` of it give
/// back `a` and `b`; nothing is changed or reported.
pub proof fn law_cons_car_cdr_forms(fuel: nat, a: Sx, b: Sx, env: Sx, g: Sx)
    requires
        fuel >= 2,
    ensures
        eval_s(fuel, call2(cons_word(), a, b), env, g) == done(mk_cons(a, b), g, Seq::<Note>::empty()),
        eval_s(fuel, call1(car_word(), mk_cons(a, b)), env, g) == done(a, g, Seq::<Note>::empty()),
        eval_s(fuel, call1(cdr_word(), mk_cons(a, b)), env, g) == done(b, g, Seq::<Note>::empty()),
        eval_s(fuel, call1(car_word(), Sx::Nil), env, g) == done(Sx::Nil, g, Seq::<Note>::empty()),
        eval_s(fuel, call1(cdr_word(), Sx::Nil), env, g) == done(Sx::Nil, g, Seq::<Note>::empty()),
{
    let f = (fuel - 1) as nat;
    let e = Seq::<Note>::empty();
    assert(e + e =~= e);
    assert(cons_word() =~= seq![67u8, 79, 78, 83]);
    assert(car_word() =~= seq![67u8, 65, 82]);
    assert(cdr_word() =~= seq![67u8, 68, 82]);
    assert(form_of(cons_word()) == Form::Cons);
    assert(form_of(car_word()) == Form::Car);
    assert(form_of(cdr_word()) == Form::Cdr);
    lemma_two_quoted(f, a, b, env, g);
    assert(form_s(f, cons_word(), Sx::Sym(cons_word()), list_s(quoted(a), quoted(b)), env, g) == done(mk_cons(a, b), g, e));
    lemma_one_quoted(f, mk_cons(a, b), env, g);
    lemma_one_quoted(f, Sx::Nil, env, g);
    assert(form_s(f, car_word(), Sx::Sym(car_word()), mk_cons(quoted(mk_cons(a, b)), Sx::Nil), env, g) == done(a, g, e));
    assert(form_s(f, cdr_word(), Sx::Sym(cdr_word()), mk_cons(quoted(mk_cons(a, b)), Sx::Nil), env, g) == done(b, g, e));
    assert(form_s(f, car_word(), Sx::Sym(car_word()), mk_cons(quoted(Sx::Nil), Sx::Nil), env, g) == done(Sx::Nil, g, e));
    assert(form_s(f, cdr_word(), Sx::Sym(cdr_word()), mk_cons(quoted(Sx::Nil), Sx::Nil), env, g) == done(Sx::Nil, g, e));
}

/// `(CAR 'x)` and `(CDR 'x)` of an atom other than NIL are NIL, and each reports
/// that `x` is not a list.
pub proof fn law_car_cdr_of_atom_forms(fuel: nat, x: Sx, env: Sx, g: Sx)
    requires
        fuel >= 2,
        !(x is Cons),
        x != Sx::Nil,
    ensures
        eval_s(fuel, call1(car_word(), x), env, g) == done(Sx::Nil, g, seq![Note::CarNotList(x)]),
        eval_s(fuel, call1(cdr_word(), x), env, g) == done(Sx::Nil, g, seq![Note::CdrNotList(x)]),
{
    let f = (fuel - 1) as nat;
    let e = Seq::<Note>::empty();
    assert(e + seq![Note::CarNotList(x)] =~= seq![Note::CarNotList(x)]);
    assert(e + seq![Note::CdrNotList(x)] =~= seq![Note::CdrNotList(x)]);
    assert(car_word() =~= seq![67u8, 65, 82]);
    assert(cdr_word() =~= seq![67u8, 68, 82]);
    assert(form_of(car_word()) == Form::Car);
    assert(form_of(cdr_word()) == Form::Cdr);
    lemma_one_quoted(f, x, env, g);
}

/// `(APPEND 'a 'b)` of two proper lists is the list of the elements of `a` and then
/// those of `b`.
pub proof fn law_append_form(fuel: nat, a: Sx, b: Sx, env: Sx, g: Sx)
    requires
        fuel >= 2,
        items(a) is Some,
        items(b) is Some,
    ensures
        eval_s(fuel, call2(append_word(), a, b), env, g).res matches Ok(v) && items(v) == Some(
            items(a).unwrap() + items(b).unwrap(),
        ),
        eval_s(fuel, call2(append_word(), a, b), env, g).g == g,
        eval_s(fuel, call2(append_word(), a, b), env, g).notes == Seq::<Note>::empty(),
{
    let f = (fuel - 1) as nat;
    assert(append_word() =~= seq![65u8, 80, 80, 69, 78, 68]);
    assert(form_of(append_word()) == Form::Append);
    lemma_two_quoted(f, a, b, env, g);
    law_append_concatenates(a, b);
    assert(form_s(f, append_word(), Sx::Sym(append_word()), list_s(quoted(a), quoted(b)), env, g) == done(
        append_s(a, b),
        g,
        Seq::<Note>::empty(),
    ));
}

pub open spec fn abs(x: int) -> int {
    if x < 0 {
        -x
    } else {
        x
    }
}

/// What `x / y` means for integers rounded toward zero: the remainder `x - q * y` is
/// smaller than `y` in size and is zero or has the sign of `x`.
pub open spec fn is_trunc_quotient(x: int, y: int, q: int) -> bool {
    let r = x - q * y;
    &&& abs(r) < abs(y)
    &&& (r == 0 || (r < 0) == (x < 0))
}

proof fn lemma_trunc_div(x: int, y: int)
    requires
        y != 0,
    ensures
        is_trunc_quotient(x, y, trunc_div(x, y)),
{
    let q = trunc_div(x, y);
    if x == 0 {
        assert(x - q * y == 0) by (nonlinear_arith)
            requires
                q == 0,
                x == 0,
        ;
    } else {
        let a = abs(x);
        let b = abs(y);
        let q0 = a / b;
        let m = a % b;
        vstd::arithmetic::div_mod::lemma_fundamental_div_mod(a, b);
        vstd::arithmetic::div_mod::lemma_mod_bound(a, b);
        if x > 0 && y > 0 {
            assert(q == q0);
            assert(x - q * y == m) by (nonlinear_arith)
                requires
                    q == q0,
                    x == a,
                    y == b,
                    a == b * q0 + m,
            ;
        } else if x < 0 && y < 0 {
            assert(x * -1 == a && y * -1 == b);
            assert(q == q0);
            assert(x - q * y == -m) by (nonlinear_arith)
                requires
                    q == q0,
                    x == -a,
                    y == -b,
                    a == b * q0 + m,
            ;
        } else if x < 0 {
            assert(x * -1 == a);
            assert(q == q0 * -1);
            assert(x - q * y == -m) by (nonlinear_arith)
                requires
                    q == -q0,
                    x == -a,
                    y == b,
                    a == b * q0 + m,
            ;
        } else {
            assert(y * -1 == b);
            assert(q == q0 * -1);
            assert(x - q * y == m) by (nonlinear_arith)
                requires
                    q == -q0,
                    x == a,
                    y == -b,
                    a == b * q0 + m,
            ;
        }
    }
}

pub open spec fn plus_word() -> Seq<u8> {
    word(seq!['P', 'L', 'U', 'S'])
}

pub open spec fn diff_word() -> Seq<u8> {
    word(seq!['D', 'I', 'F', 'F'])
}

pub open spec fn prod_word() -> Seq<u8> {
    word(seq!['P', 'R', 'O', 'D'])
}

pub open spec fn quot_word() -> Seq<u8> {
    word(seq!['Q', 'U', 'O', 'T'])
}

proof fn lemma_arith_call(fuel: nat, name: Seq<u8>, op: ArithOp, a: Sx, b: Sx, env: Sx, g: Sx)
    requires
        fuel >= 2,
        form_of(name) == match op {
            ArithOp::Plus => Form::Plus,
            ArithOp::Prod => Form::Prod,
            ArithOp::Diff => Form::Diff,
            ArithOp::Quot => Form::Quot,
        },
    ensures
        eval_s(fuel, call2(name, a, b), env, g) == arith_form_s(
            (fuel - 1) as nat,
            op,
            list_s(quoted(a), quoted(b)),
            env,
            g,
        ),
        arith_form_s((fuel - 1) as nat, op, list_s(quoted(a), quoted(b)), env, g).g == g,
        arith_form_s((fuel - 1) as nat, op, list_s(quoted(a), quoted(b)), env, g).notes
            == crate::eval::arith_s(op, a, b).1,
        arith_form_s((fuel - 1) as nat, op, list_s(quoted(a), quoted(b)), env, g).res
            == crate::eval::arith_s(op, a, b).0,
{
    let f = (fuel - 1) as nat;
    lemma_two_quoted(f, a, b, env, g);
    assert(Seq::<Note>::empty() + crate::eval::arith_s(op, a, b).1 =~= crate::eval::arith_s(op, a, b).1);
}

/// PLUS, DIFF and PROD of two numbers are their sum, difference and product, or
/// the overflow fault when that leaves `i64`; QUOT is the quotient rounded toward
/// zero, or a fault for a zero divisor and for `i64::MIN / -1`. Nothing is changed
/// or reported.
pub proof fn law_arith_forms(fuel: nat, x: i64, y: i64, env: Sx, g: Sx)
    requires
        fuel >= 2,
    ensures
        ({
            let r = eval_s(fuel, call2(plus_word(), Sx::Int(x), Sx::Int(y)), env, g);
            &&& r.g == g
            &&& r.notes == Seq::<Note>::empty()
            &&& i64::MIN <= x + y <= i64::MAX ==> r.res == Ok::<Sx, Fault>(Sx::Int((x + y) as i64))
            &&& !(i64::MIN <= x + y <= i64::MAX) ==> r.res == Err::<Sx, Fault>(Fault::AddOverflow)
        }),
        ({
            let r = eval_s(fuel, call2(diff_word(), Sx::Int(x), Sx::Int(y)), env, g);
            &&& r.g == g
            &&& r.notes == Seq::<Note>::empty()
            &&& i64::MIN <= x - y <= i64::MAX ==> r.res == Ok::<Sx, Fault>(Sx::Int((x - y) as i64))
            &&& !(i64::MIN <= x - y <= i64::MAX) ==> r.res == Err::<Sx, Fault>(Fault::SubOverflow)
        }),
        ({
            let r = eval_s(fuel, call2(prod_word(), Sx::Int(x), Sx::Int(y)), env, g);
            &&& r.g == g
            &&& r.notes == Seq::<Note>::empty()
            &&& i64::MIN <= x * y <= i64::MAX ==> r.res == Ok::<Sx, Fault>(Sx::Int((x * y) as i64))
            &&& !(i64::MIN <= x * y <= i64::MAX) ==> r.res == Err::<Sx, Fault>(Fault::MulOverflow)
        }),
        ({
            let r = eval_s(fuel, call2(quot_word(), Sx::Int(x), Sx::Int(y)), env, g);
            &&& r.g == g
            &&& r.notes == Seq::<Note>::empty()
            &&& y == 0 ==> r.res == Err::<Sx, Fault>(Fault::DivideByZero)
            &&& (x == i64::MIN && y == -1) ==> r.res == Err::<Sx, Fault>(Fault::DivideOverflow)
            &&& (y != 0 && !(x == i64::MIN && y == -1)) ==> (r.res matches Ok(Sx::Int(q))
                && is_trunc_quotient(x as int, y as int, q as int))
        }),
{
    assert(plus_word() =~= seq![80u8, 76, 85, 83]);
    assert(diff_word() =~= seq![68u8, 73, 70, 70]);
    assert(prod_word() =~= seq![80u8, 82, 79, 68]);
    assert(quot_word() =~= seq![81u8, 85, 79, 84]);
    assert(form_of(plus_word()) == Form::Plus);
    assert(form_of(diff_word()) == Form::Diff);
    assert(form_of(prod_word()) == Form::Prod);
    assert(form_of(quot_word()) == Form::Quot);
    lemma_arith_call(fuel, plus_word(), ArithOp::Plus, Sx::Int(x), Sx::Int(y), env, g);
    lemma_arith_call(fuel, diff_word(), ArithOp::Diff, Sx::Int(x), Sx::Int(y), env, g);
    lemma_arith_call(fuel, prod_word(), ArithOp::Prod, Sx::Int(x), Sx::Int(y), env, g);
    lemma_arith_call(fuel, quot_word(), ArithOp::Quot, Sx::Int(x), Sx::Int(y), env, g);
    assert(Seq::<Note>::empty() =~= seq![]);
    if y != 0 && !(x == i64::MIN && y == -1) {
        lemma_trunc_div(x as int, y as int);
        let q = trunc_div(x as int, y as int);
        assert(i64::MIN <= q <= i64::MAX) by {
            lemma_trunc_div_range(x as int, y as int);
        }
    }
}

proof fn lemma_trunc_div_range(x: int, y: int)
    requires
        y != 0,
        i64::MIN <= x <= i64::MAX,
        i64::MIN <= y <= i64::MAX,
        !(x == i64::MIN && y == -1),
    ensures
        i64::MIN <= trunc_div(x, y) <= i64::MAX,
{
    let q = trunc_div(x, y);
    if x != 0 {
        let a = abs(x);
        let b = abs(y);
        vstd::arithmetic::div_mod::lemma_div_is_ordered_by_denominator(a, 1, b);
        vstd::arithmetic::div_mod::lemma_div_basics(a);
        if b >= 2 {
            vstd::arithmetic::div_mod::lemma_div_is_ordered_by_denominator(a, 2, b);
        }
        vstd::arithmetic::div_mod::lemma_div_pos_is_pos(a, b);
        if x < 0 && y < 0 {
            assert(x * -1 == a && y * -1 == b);
        } else if x < 0 {
            assert(x * -1 == a);
        } else if y < 0 {
            assert(y * -1 == b);
        }
        if b == 1 && x < 0 && y < 0 {
            assert(x != i64::MIN);
        }
    }
}

pub open spec fn cond_word() -> Seq<u8> {
    word(seq!['C', 'O', 'N', 'D'])
}

/// A COND clause `((QUOTE t) (QUOTE v))` whose test is not NIL gives `v`; one whose
/// test is NIL is passed over, and the rest of the clauses are tried as a COND of
/// their own (one evaluation step less).
pub proof fn law_cond_form(fuel: nat, t: Sx, v: Sx, rest: Sx, env: Sx, g: Sx)
    requires
        fuel >= 3,
    ensures
        t != Sx::Nil ==> eval_s(
            fuel,
            mk_cons(Sx::Sym(cond_word()), mk_cons(list_s(quoted(t), quoted(v)), rest)),
            env,
            g,
        ) == done(v, g, Seq::<Note>::empty()),
        t == Sx::Nil ==> eval_s(
            fuel,
            mk_cons(Sx::Sym(cond_word()), mk_cons(list_s(quoted(t), quoted(v)), rest)),
            env,
            g,
        ) == eval_s((fuel - 1) as nat, mk_cons(Sx::Sym(cond_word()), rest), env, g),
{
    let f1 = (fuel - 1) as nat;
    let f2 = (fuel - 2) as nat;
    let e = Seq::<Note>::empty();
    assert(e + e =~= e);
    assert(e + e + e =~= e);
    assert(cond_word() =~= seq![67u8, 79, 78, 68]);
    assert(form_of(cond_word()) == Form::Cond);
    let clause = list_s(quoted(t), quoted(v));
    let c = mk_cons(clause, rest);
    law_quote(f2, t, env, g);
    law_quote(f2, v, env, g);
    assert(crate::sexpr::caar_s(c) == (quoted(t), e + e));
    assert(crate::sexpr::cadar_s(c) == (quoted(v), e + (e + e)));
    assert(crate::sexpr::cdr_s(c) == (rest, e));
    let n1 = crate::sexpr::caar_s(c).1;
    let n2 = crate::sexpr::cdr_s(c).1;
    let n3 = crate::sexpr::cadar_s(c).1;
    assert(n1 =~= e && n2 =~= e && n3 =~= e);
    assert(eval_s(f2, crate::sexpr::caar_s(c).0, env, g) == done(t, g, e));
    let inner = evcond_s(f2, rest, env, g);
    assert(prepend(n1 + e + n2, inner) == inner) by {
        assert(n1 + e + n2 + inner.notes =~= inner.notes);
    }
    assert(prepend(n1 + e + n3, done(v, g, e)) == done(v, g, e)) by {
        assert(n1 + e + n3 + e =~= e);
    }
    if t == Sx::Nil {
        assert(evcond_s(f1, c, env, g) == inner);
    } else {
        assert(evcond_s(f1, c, env, g) == done(v, g, e));
    }
    assert(eval_s(fuel, mk_cons(Sx::Sym(cond_word()), c), env, g) == form_s(f1, cond_word(), Sx::Sym(cond_word()), c, env, g));
    assert(form_s(f1, cond_word(), Sx::Sym(cond_word()), c, env, g) == evcond_s(f1, c, env, g));
    assert(eval_s(f1, mk_cons(Sx::Sym(cond_word()), rest), env, g) == form_s(f2, cond_word(), Sx::Sym(cond_word()), rest, env, g));
    assert(form_s(f2, cond_word(), Sx::Sym(cond_word()), rest, env, g) == inner);
}

pub open spec fn lambda_word() -> Seq<u8> {
    word(seq!['L', 'A', 'M', 'B', 'D', 'A'])
}

/// `((LAMBDA (p) p) (QUOTE v))` is `v`: the parameter is bound to the value of the
/// argument, and the body sees that binding.
pub proof fn law_lambda_binds_parameter(fuel: nat, p: Seq<u8>, v: Sx, env: Sx, g: Sx)
    requires
        fuel >= 3,
        p != args_name(),
    ensures
        eval_s(
            fuel,
            list_s(
                mk_cons(Sx::Sym(lambda_word()), list_s(mk_cons(Sx::Sym(p), Sx::Nil), Sx::Sym(p))),
                quoted(v),
            ),
            env,
            g,
        ) == done(v, g, Seq::<Note>::empty()),
{
    let f1 = (fuel - 1) as nat;
    let f2 = (fuel - 2) as nat;
    let e = Seq::<Note>::empty();
    assert(e + e =~= e);
    assert(e + e + e + e + e + e =~= e);
    assert(lambda_word() =~= seq![76u8, 65, 77, 66, 68, 65]);
    assert(head_form_of(lambda_word()) == HeadForm::Lambda);
    let params = mk_cons(Sx::Sym(p), Sx::Nil);
    let t1 = list_s(params, Sx::Sym(p));
    let head = mk_cons(Sx::Sym(lambda_word()), t1);
    let c = mk_cons(quoted(v), Sx::Nil);
    law_quote(f2, v, env, g);
    assert(evlis_s(f2, Sx::Nil, env, g) == done(Sx::Nil, g, e));
    assert(evlis_s(f1, c, env, g) == done(mk_cons(v, Sx::Nil), g, e));
    assert(crate::sexpr::cadr_s(t1) == (Sx::Sym(p), e + e));
    assert(car_s(t1) == (params, e));
    assert(pair_s(Sx::Nil, Sx::Nil) == (Sx::Nil, e));
    let pr = pair_s(params, mk_cons(v, Sx::Nil));
    assert(pr == (mk_cons(list_s(Sx::Sym(p), v), Sx::Nil), e));
    assert(append_s(Sx::Nil, env) == env);
    assert(append_s(pr.0, env) == mk_cons(list_s(Sx::Sym(p), v), env));
    let env2 = mk_cons(list_s(Sx::Sym(args_name()), mk_cons(v, Sx::Nil)), mk_cons(list_s(Sx::Sym(p), v), env));
    assert(Sx::Sym(args_name()) != Sx::Sym(p));
    assert(assoc_s(Sx::Sym(p), mk_cons(list_s(Sx::Sym(p), v), env)) == (v, e + (e + e)));
    assert(assoc_s(Sx::Sym(p), env2) == (v, e + (e + (e + e))));
    assert(eval_s(f1, Sx::Sym(p), env2, g) == done(v, g, e));
    assert(lambda_s(f1, t1, c, env, g) == done(v, g, e));
    assert(apply_s(f1, Sx::Sym(lambda_word()), t1, head, c, env, g) == done(v, g, e));
}

/// The list of the quoted values `(QUOTE v)` of `vs`.
pub open spec fn quote_all(vs: Seq<Sx>) -> Sx
    decreases vs.len(),
{
    if vs.len() == 0 {
        Sx::Nil
    } else {
        mk_cons(quoted(vs[0]), quote_all(vs.drop_first()))
    }
}

proof fn lemma_evlis_quoted(f: nat, vs: Seq<Sx>, env: Sx, g: Sx)
    requires
        f > vs.len(),
    ensures
        evlis_s(f, quote_all(vs), env, g) == done(from_items(vs), g, Seq::<Note>::empty()),
    decreases vs.len(),
{
    let e = Seq::<Note>::empty();
    assert(e + e =~= e);
    if vs.len() > 0 {
        let p = (f - 1) as nat;
        law_quote(p, vs[0], env, g);
        lemma_evlis_quoted(p, vs.drop_first(), env, g);
    }
}

pub open spec fn list_word() -> Seq<u8> {
    word(seq!['L', 'I', 'S', 'T'])
}

/// `(LIST (QUOTE v1) ... (QUOTE vn))` is the list `(v1 ... vn)`, given a budget of
/// more than one step for each element.
pub proof fn law_list_form(fuel: nat, vs: Seq<Sx>, env: Sx, g: Sx)
    requires
        fuel > vs.len() + 1,
    ensures
        eval_s(fuel, mk_cons(Sx::Sym(list_word()), quote_all(vs)), env, g) == done(
            from_items(vs),
            g,
            Seq::<Note>::empty(),
        ),
{
    let f1 = (fuel - 1) as nat;
    assert(list_word() =~= seq![76u8, 73, 83, 84]);
    assert(form_of(list_word()) == Form::List);
    lemma_evlis_quoted(f1, vs, env, g);
}

pub open spec fn eval_word() -> Seq<u8> {
    word(seq!['E', 'V', 'A', 'L'])
}

/// `(EVAL (QUOTE x))` evaluates `x` itself, one step later.
pub proof fn law_eval_form(fuel: nat, x: Sx, env: Sx, g: Sx)
    requires
        fuel >= 2,
    ensures
        eval_s(fuel, call1(eval_word(), x), env, g) == eval_s((fuel - 1) as nat, x, env, g),
{
    let f1 = (fuel - 1) as nat;
    assert(eval_word() =~= seq![69u8, 86, 65, 76]);
    assert(form_of(eval_word()) == Form::Eval);
    lemma_one_quoted(f1, x, env, g);
    let r = eval_s(f1, x, env, g);
    assert(prepend(Seq::<Note>::empty(), r) == r) by {
        assert(Seq::<Note>::empty() + r.notes =~= r.notes);
    }
}

pub open spec fn label_word() -> Seq<u8> {
    word(seq!['L', 'A', 'B', 'E', 'L'])
}

pub open spec fn macro_word() -> Seq<u8> {
    word(seq!['M', 'A', 'C', 'R', 'O'])
}

/// `((LABEL n f) args...)` applies `f` to the arguments with `n` bound to the whole
/// `(LABEL n f)` in front of the local environment, so that `f` can call itself.
pub proof fn law_label_form(fuel: nat, n: Sx, fb: Sx, args: Sx, env: Sx, g: Sx)
    requires
        fuel >= 1,
    ensures
        eval_s(fuel, mk_cons(mk_cons(Sx::Sym(label_word()), list_s(n, fb)), args), env, g) == eval_s(
            (fuel - 1) as nat,
            mk_cons(fb, args),
            mk_cons(list_s(n, mk_cons(Sx::Sym(label_word()), list_s(n, fb))), env),
            g,
        ),
{
    let f1 = (fuel - 1) as nat;
    let e = Seq::<Note>::empty();
    assert(e + e + e =~= e);
    assert(label_word() =~= seq![76u8, 65, 66, 69, 76]);
    assert(head_form_of(label_word()) == HeadForm::Label);
    let t1 = list_s(n, fb);
    assert(crate::sexpr::cadr_s(t1) == (fb, e + e));
    assert(car_s(t1) == (n, e));
    let head = mk_cons(Sx::Sym(label_word()), t1);
    let r = eval_s(f1, mk_cons(fb, args), mk_cons(list_s(n, head), env), g);
    assert(prepend(e + e + e, r) == r) by {
        assert(e + e + e + r.notes =~= r.notes);
    }
    assert(label_s(f1, t1, head, args, env, g) == r);
}

/// `((MACRO (p) p) x)` is `x` itself: a macro's parameter is bound to the argument
/// as written, unevaluated.
pub proof fn law_macro_binds_unevaluated(fuel: nat, p: Seq<u8>, x: Sx, env: Sx, g: Sx)
    requires
        fuel >= 2,
        p != args_name(),
    ensures
        eval_s(
            fuel,
            list_s(
                mk_cons(Sx::Sym(macro_word()), list_s(mk_cons(Sx::Sym(p), Sx::Nil), Sx::Sym(p))),
                x,
            ),
            env,
            g,
        ) == done(x, g, Seq::<Note>::empty()),
{
    let f1 = (fuel - 1) as nat;
    let e = Seq::<Note>::empty();
    assert(e + e =~= e);
    assert(macro_word() =~= seq![77u8, 65, 67, 82, 79]);
    assert(head_form_of(macro_word()) == HeadForm::Macro);
    let params = mk_cons(Sx::Sym(p), Sx::Nil);
    let t1 = list_s(params, Sx::Sym(p));
    let head = mk_cons(Sx::Sym(macro_word()), t1);
    let c = mk_cons(x, Sx::Nil);
    assert(crate::sexpr::cadr_s(t1) == (Sx::Sym(p), e + e));
    assert(car_s(t1) == (params, e));
    assert(pair_s(Sx::Nil, Sx::Nil) == (Sx::Nil, e));
    let pr = pair_s(params, c);
    assert(pr == (mk_cons(list_s(Sx::Sym(p), x), Sx::Nil), e));
    assert(append_s(Sx::Nil, env) == env);
    assert(append_s(pr.0, env) == mk_cons(list_s(Sx::Sym(p), x), env));
    let env2 = mk_cons(list_s(Sx::Sym(args_name()), c), mk_cons(list_s(Sx::Sym(p), x), env));
    assert(Sx::Sym(args_name()) != Sx::Sym(p));
    assert(assoc_s(Sx::Sym(p), mk_cons(list_s(Sx::Sym(p), x), env)) == (x, e + (e + e)));
    assert(assoc_s(Sx::Sym(p), env2) == (x, e + (e + (e + e))));
    assert(eval_s(f1, Sx::Sym(p), env2, g) == done(x, g, e));
    assert((e + e) + e + e =~= e);
    assert(macro_s(f1, t1, c, env, g) == done(x, g, e));
    assert(apply_s(f1, Sx::Sym(macro_word()), t1, head, c, env, g) == done(x, g, e));
}

/// A symbol that the local environment does not bind evaluates to NIL and is
/// reported as undefined; a cell whose head is an atom that is not a symbol (nor
/// NIL, nor a cell) is reported as not a function and gives NIL.
pub proof fn law_undefined_and_not_a_function(fuel: nat, x: Seq<u8>, n: i64, c: Sx, g: Sx)
    requires
        fuel >= 1,
    ensures
        eval_s(fuel, Sx::Sym(x), Sx::Nil, g) == done(Sx::Nil, g, seq![Note::Undefined(Sx::Sym(x))]),
        eval_s(fuel, mk_cons(Sx::Int(n), c), Sx::Nil, g) == done(
            Sx::Nil,
            g,
            seq![Note::NotAFunction(Sx::Int(n))],
        ),
        eval_s(fuel, mk_cons(Sx::T, c), Sx::Nil, g) == done(Sx::Nil, g, seq![Note::NotAFunction(Sx::T)]),
{
}

/// Arithmetic on an argument that is not a number gives NIL: NIL passes silently,
/// anything else is reported as not a number (the first argument is looked at first).
pub proof fn law_arith_not_a_number(fuel: nat, a: Sx, y: i64, env: Sx, g: Sx)
    requires
        fuel >= 2,
        !(a is Int),
    ensures
        ({
            let r = eval_s(fuel, call2(plus_word(), a, Sx::Int(y)), env, g);
            &&& r.res == Ok::<Sx, Fault>(Sx::Nil)
            &&& r.g == g
            &&& r.notes == if a == Sx::Nil { Seq::<Note>::empty() } else { seq![Note::NotANumber(a)] }
        }),
        ({
            let r = eval_s(fuel, call2(plus_word(), Sx::Int(y), a), env, g);
            &&& r.res == Ok::<Sx, Fault>(Sx::Nil)
            &&& r.g == g
            &&& r.notes == if a == Sx::Nil { Seq::<Note>::empty() } else { seq![Note::NotANumber(a)] }
        }),
{
    assert(plus_word() =~= seq![80u8, 76, 85, 83]);
    assert(form_of(plus_word()) == Form::Plus);
    lemma_arith_call(fuel, plus_word(), ArithOp::Plus, a, Sx::Int(y), env, g);
    lemma_arith_call(fuel, plus_word(), ArithOp::Plus, Sx::Int(y), a, env, g);
}

pub open spec fn loop_word() -> Seq<u8> {
    word(seq!['L', 'O', 'O', 'P'])
}

/// `((LOOP (p) ((QUOTE t) (QUOTE v)) u) args...)` whose test `t` is not NIL ends at
/// once with `v`.
pub proof fn law_loop_ends_when_test_holds(fuel: nat, p: Sx, t: Sx, v: Sx, u: Sx, env: Sx, g: Sx)
    requires
        fuel >= 3,
        t != Sx::Nil,
    ensures
        eval_s(
            fuel,
            mk_cons(
                mk_cons(
                    Sx::Sym(loop_word()),
                    mk_cons(mk_cons(p, Sx::Nil), mk_cons(list_s(quoted(t), quoted(v)), mk_cons(u, Sx::Nil))),
                ),
                Sx::Nil,
            ),
            env,
            g,
        ).res == Ok::<Sx, Fault>(v),
{
    let f1 = (fuel - 1) as nat;
    let f2 = (fuel - 2) as nat;
    let e = Seq::<Note>::empty();
    assert(loop_word() =~= seq![76u8, 79, 79, 80]);
    assert(head_form_of(loop_word()) == HeadForm::Loop);
    let t1 = mk_cons(mk_cons(p, Sx::Nil), mk_cons(list_s(quoted(t), quoted(v)), mk_cons(u, Sx::Nil)));
    let head = mk_cons(Sx::Sym(loop_word()), t1);
    assert(evlis_s(f1, Sx::Nil, env, g) == done(Sx::Nil, g, e));
    let r1 = evlis_s(f1, Sx::Nil, env, g);
    let lenv = append_s(pair_s(car_s(t1).0, Sx::Nil).0, env);
    law_quote(f2, t, lenv, g);
    law_quote(f2, v, lenv, g);
    assert(crate::sexpr::caadr_s(t1).0 == quoted(t));
    assert(crate::sexpr::cadadr_s(t1).0 == quoted(v));
    assert(loop_s(f1, t1, env, lenv, g).res == Ok::<Sx, Fault>(v));
    assert(loop_form_s(f1, t1, Sx::Nil, env, g).res == Ok::<Sx, Fault>(v));
    assert(apply_s(f1, Sx::Sym(loop_word()), t1, head, Sx::Nil, env, g).res == Ok::<Sx, Fault>(v));
}

} // verus!
