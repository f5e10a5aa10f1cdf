//! Only SETQ writes the global environment: an evaluation whose expression and
//! local environment hold no symbol SETQ leaves the global environment as it was.
use crate::eval::{
    apply_s, arith_form_s, arith_s, args_name, assoc_s, eval_car_s, eval_cadr_s, eval_s, eval_two_s,
    evcond_s, evlis_s, form_s, label_s, lambda_s, loop_form_s, loop_s, macro_s, pair_s, ArithOp,
    Run, Run2,
};
use crate::sexpr::{
    append_s, atom_s, caadr_s, caar_s, cadadr_s, cadar_s, caddr_s, cadr_s, car_s, cdr_s, eq_s,
    list_s, mk_cons, word, Sx,
};
use vstd::prelude::*;

verus! {

/// The bytes of the name SETQ.
pub open spec fn setq_word() -> Seq<u8> {
    word(seq!['S', 'E', 'T', 'Q'])
}

/// No symbol SETQ occurs anywhere in `x`.
pub open spec fn setq_free(x: Sx) -> bool
    decreases x,
{
    match x {
        Sx::Sym(s) => s != setq_word(),
        Sx::Cons(h, t) => setq_free(*h) && setq_free(*t),
        _ => true,
    }
}

/// The run left the global environment `g` as it was, and its value, if any, holds
/// no symbol SETQ.
pub open spec fn calm(r: Run, g: Sx) -> bool {
    &&& r.g == g
    &&& match r.res {
        Ok(v) => setq_free(v),
        Err(_) => true,
    }
}

pub open spec fn calm2(r: Run2, g: Sx) -> bool {
    &&& r.g == g
    &&& match r.res {
        Ok((a, b)) => setq_free(a) && setq_free(b),
        Err(_) => true,
    }
}

proof fn lemma_free_car_cdr(x: Sx)
    requires
        setq_free(x),
    ensures
        setq_free(car_s(x).0),
        setq_free(cdr_s(x).0),
{
}

proof fn lemma_free_parts(x: Sx)
    requires
        setq_free(x),
    ensures
        setq_free(car_s(x).0),
        setq_free(cdr_s(x).0),
        setq_free(cadr_s(x).0),
        setq_free(caar_s(x).0),
        setq_free(cadar_s(x).0),
        setq_free(caddr_s(x).0),
        setq_free(caadr_s(x).0),
        setq_free(cadadr_s(x).0),
        setq_free(atom_s(x)),
{
    lemma_free_car_cdr(x);
    let a = car_s(x).0;
    let d = cdr_s(x).0;
    lemma_free_car_cdr(a);
    lemma_free_car_cdr(d);
    lemma_free_car_cdr(cdr_s(a).0);
    lemma_free_car_cdr(cdr_s(d).0);
    lemma_free_car_cdr(car_s(d).0);
    lemma_free_car_cdr(cdr_s(car_s(d).0).0);
}

proof fn lemma_free_list(a: Sx, b: Sx)
    requires
        setq_free(a),
        setq_free(b),
    ensures
        setq_free(list_s(a, b)),
        setq_free(mk_cons(a, b)),
{
    assert(setq_free(Sx::Nil));
    assert(setq_free(mk_cons(b, Sx::Nil)));
}

proof fn lemma_free_assoc(x: Sx, env: Sx)
    requires
        setq_free(env),
    ensures
        setq_free(assoc_s(x, env).0),
    decreases env,
{
    if let Sx::Cons(head, tail) = env {
        lemma_free_parts(*head);
        lemma_free_assoc(x, *tail);
    }
}

proof fn lemma_free_pair(a: Sx, b: Sx)
    requires
        setq_free(a),
        setq_free(b),
    ensures
        setq_free(pair_s(a, b).0),
    decreases a,
{
    if let Sx::Cons(ha, ta) = a {
        if let Sx::Cons(hb, tb) = b {
            lemma_free_pair(*ta, *tb);
            assert(setq_free(Sx::Nil));
            assert(setq_free(mk_cons(*hb, Sx::Nil)));
            assert(setq_free(list_s(*ha, *hb)));
        }
    }
}

proof fn lemma_free_append(a: Sx, b: Sx)
    requires
        setq_free(a),
        setq_free(b),
    ensures
        setq_free(append_s(a, b)),
    decreases a,
{
    if let Sx::Cons(h, t) = a {
        lemma_free_append(*t, b);
    }
}

proof fn lemma_free_misc(op: ArithOp, a: Sx, b: Sx)
    ensures
        setq_free(eq_s(a, b)),
        setq_free(Sx::Sym(args_name())),
        match arith_s(op, a, b).0 {
            Ok(v) => setq_free(v),
            Err(_) => true,
        },
{
    assert(args_name().len() != setq_word().len());
}

pub open spec fn calm_eval(f: nat) -> bool {
    forall|e: Sx, env: Sx, g: Sx|
        setq_free(e) && setq_free(env) ==> calm(#[trigger] eval_s(f, e, env, g), g)
}

pub open spec fn calm_evlis(f: nat) -> bool {
    forall|a: Sx, env: Sx, g: Sx|
        setq_free(a) && setq_free(env) ==> calm(#[trigger] evlis_s(f, a, env, g), g)
}

pub open spec fn calm_evcond(f: nat) -> bool {
    forall|a: Sx, env: Sx, g: Sx|
        setq_free(a) && setq_free(env) ==> calm(#[trigger] evcond_s(f, a, env, g), g)
}

pub open spec fn calm_loop(f: nat) -> bool {
    forall|t1: Sx, env: Sx, lenv: Sx, g: Sx|
        setq_free(t1) && setq_free(env) && setq_free(lenv) ==> calm(
            #[trigger] loop_s(f, t1, env, lenv, g),
            g,
        )
}

pub open spec fn calm_args(f: nat) -> bool {
    &&& forall|c: Sx, env: Sx, g: Sx|
        setq_free(c) && setq_free(env) ==> calm(#[trigger] eval_car_s(f, c, env, g), g)
    &&& forall|c: Sx, env: Sx, g: Sx|
        setq_free(c) && setq_free(env) ==> calm(#[trigger] eval_cadr_s(f, c, env, g), g)
    &&& forall|c: Sx, env: Sx, g: Sx|
        setq_free(c) && setq_free(env) ==> calm2(#[trigger] eval_two_s(f, c, env, g), g)
    &&& forall|op: ArithOp, c: Sx, env: Sx, g: Sx|
        setq_free(c) && setq_free(env) ==> calm(#[trigger] arith_form_s(f, op, c, env, g), g)
}

pub open spec fn calm_apply(f: nat) -> bool {
    forall|h1: Sx, t1: Sx, head: Sx, c: Sx, env: Sx, g: Sx|
        setq_free(h1) && setq_free(t1) && setq_free(head) && setq_free(c) && setq_free(env)
            ==> calm(#[trigger] apply_s(f, h1, t1, head, c, env, g), g)
}

pub open spec fn calm_form(f: nat) -> bool {
    forall|name: Seq<u8>, head: Sx, c: Sx, env: Sx, g: Sx|
        name != setq_word() && setq_free(head) && setq_free(c) && setq_free(env) ==> calm(
            #[trigger] form_s(f, name, head, c, env, g),
            g,
        )
}

proof fn calm_eval_step(f: nat)
    requires
        f > 0 ==> calm_form((f - 1) as nat),
        f > 0 ==> calm_apply((f - 1) as nat),
    ensures
        calm_eval(f),
{
    assert forall|e: Sx, env: Sx, g: Sx| setq_free(e) && setq_free(env) implies calm(#[trigger] eval_s(f, e, env, g), g) by {
        if f > 0 {
            let p = (f - 1) as nat;
            match e {
                Sx::Sym(_) => {
                    lemma_free_assoc(e, env);
                },
                Sx::Cons(head, rest) => match *head {
                    Sx::Sym(name) => {
                        assert(setq_free(*head) && setq_free(*rest));
                        assert(calm(form_s(p, name, *head, *rest, env, g), g));
                    },
                    Sx::Cons(h1, t1) => {
                        assert(setq_free(*head) && setq_free(*rest));
                        assert(setq_free(*h1) && setq_free(*t1));
                        assert(calm(apply_s(p, *h1, *t1, *head, *rest, env, g), g));
                    },
                    _ => {},
                },
                _ => {},
            }
        }
    }
}

proof fn calm_evlis_step(f: nat)
    requires
        f > 0 ==> calm_eval((f - 1) as nat),
        f > 0 ==> calm_evlis((f - 1) as nat),
    ensures
        calm_evlis(f),
{
    assert forall|a: Sx, env: Sx, g: Sx| setq_free(a) && setq_free(env) implies calm(#[trigger] evlis_s(f, a, env, g), g) by {
        if f > 0 {
            let p = (f - 1) as nat;
            if let Sx::Cons(hd, tl) = a {
                let r1 = eval_s(p, *hd, env, g);
                assert(calm(r1, g));
                assert(calm(evlis_s(p, *tl, env, r1.g), r1.g));
            }
        }
    }
}

proof fn calm_evcond_step(f: nat)
    requires
        f > 0 ==> calm_eval((f - 1) as nat),
        f > 0 ==> calm_evcond((f - 1) as nat),
    ensures
        calm_evcond(f),
{
    assert forall|a: Sx, env: Sx, g: Sx| setq_free(a) && setq_free(env) implies calm(#[trigger] evcond_s(f, a, env, g), g) by {
        if f > 0 {
            let p = (f - 1) as nat;
            lemma_free_parts(a);
            let r1 = eval_s(p, caar_s(a).0, env, g);
            assert(calm(r1, g));
            assert(calm(evcond_s(p, cdr_s(a).0, env, r1.g), r1.g));
            assert(calm(eval_s(p, cadar_s(a).0, env, r1.g), r1.g));
        }
    }
}

proof fn calm_loop_step(f: nat)
    requires
        f > 0 ==> calm_eval((f - 1) as nat),
        f > 0 ==> calm_evlis((f - 1) as nat),
        f > 0 ==> calm_loop((f - 1) as nat),
    ensures
        calm_loop(f),
{
    assert forall|t1: Sx, env: Sx, lenv: Sx, g: Sx|
        setq_free(t1) && setq_free(env) && setq_free(lenv) implies calm(#[trigger] loop_s(f, t1, env, lenv, g), g) by {
        if f > 0 {
            let p = (f - 1) as nat;
            lemma_free_parts(t1);
            let r1 = eval_s(p, caadr_s(t1).0, lenv, g);
            assert(calm(r1, g));
            let r2 = evlis_s(p, caddr_s(t1).0, lenv, r1.g);
            assert(calm(r2, r1.g));
            if let Ok(args) = r2.res {
                lemma_free_pair(car_s(t1).0, args);
                lemma_free_append(pair_s(car_s(t1).0, args).0, env);
                let lenv2 = append_s(pair_s(car_s(t1).0, args).0, env);
                assert(calm(loop_s(p, t1, env, lenv2, r2.g), r2.g));
            }
            assert(calm(eval_s(p, cadadr_s(t1).0, lenv, r1.g), r1.g));
        }
    }
}

proof fn calm_args_step(f: nat)
    requires
        calm_eval(f),
    ensures
        calm_args(f),
{
    assert forall|c: Sx, env: Sx, g: Sx| setq_free(c) && setq_free(env) implies calm(#[trigger] eval_car_s(f, c, env, g), g) by {
        lemma_free_parts(c);
        assert(calm(eval_s(f, car_s(c).0, env, g), g));
    }
    assert forall|c: Sx, env: Sx, g: Sx| setq_free(c) && setq_free(env) implies calm(#[trigger] eval_cadr_s(f, c, env, g), g) by {
        lemma_free_parts(c);
        assert(calm(eval_s(f, cadr_s(c).0, env, g), g));
    }
    assert forall|c: Sx, env: Sx, g: Sx| setq_free(c) && setq_free(env) implies calm2(#[trigger] eval_two_s(f, c, env, g), g) by {
        let r1 = eval_car_s(f, c, env, g);
        assert(calm(r1, g));
        assert(calm(eval_cadr_s(f, c, env, r1.g), r1.g));
    }
    assert forall|op: ArithOp, c: Sx, env: Sx, g: Sx| setq_free(c) && setq_free(env) implies calm(#[trigger] arith_form_s(f, op, c, env, g), g) by {
        let r = eval_two_s(f, c, env, g);
        assert(calm2(r, g));
        if let Ok((a, b)) = r.res {
            lemma_free_misc(op, a, b);
        }
    }
}

proof fn calm_apply_step(f: nat)
    requires
        calm_eval(f),
        calm_evlis(f),
        calm_loop(f),
    ensures
        calm_apply(f),
{
    assert forall|h1: Sx, t1: Sx, head: Sx, c: Sx, env: Sx, g: Sx|
        setq_free(h1) && setq_free(t1) && setq_free(head) && setq_free(c) && setq_free(env)
        implies calm(#[trigger] apply_s(f, h1, t1, head, c, env, g), g) by {
        if let Sx::Sym(name) = h1 {
            lemma_free_parts(t1);
            lemma_free_misc(ArithOp::Plus, Sx::Nil, Sx::Nil);
            let e2 = mk_cons(cadr_s(t1).0, c);
            let env2 = mk_cons(list_s(car_s(t1).0, head), env);
            lemma_free_list(cadr_s(t1).0, c);
            lemma_free_list(car_s(t1).0, head);
            lemma_free_list(list_s(car_s(t1).0, head), env);
            assert(calm(eval_s(f, e2, env2, g), g));
            let r1 = evlis_s(f, c, env, g);
            assert(calm(r1, g));
            let r2 = evlis_s(f, c, env, r1.g);
            assert(calm(r2, r1.g));
            if let Ok(args1) = r1.res {
                if let Ok(args2) = r2.res {
                    lemma_free_pair(car_s(t1).0, args2);
                    lemma_free_append(pair_s(car_s(t1).0, args2).0, env);
                    let env3 = mk_cons(
                        list_s(Sx::Sym(args_name()), args1),
                        append_s(pair_s(car_s(t1).0, args2).0, env),
                    );
                    lemma_free_list(Sx::Sym(args_name()), args1);
                    lemma_free_list(list_s(Sx::Sym(args_name()), args1), append_s(pair_s(car_s(t1).0, args2).0, env));
                    assert(calm(eval_s(f, cadr_s(t1).0, env3, r2.g), r2.g));
                }
                lemma_free_pair(car_s(t1).0, args1);
                lemma_free_append(pair_s(car_s(t1).0, args1).0, env);
                let lenv = append_s(pair_s(car_s(t1).0, args1).0, env);
                assert(calm(loop_s(f, t1, env, lenv, r1.g), r1.g));
            }
            lemma_free_pair(car_s(t1).0, c);
            lemma_free_append(pair_s(car_s(t1).0, c).0, env);
            let env4 = mk_cons(list_s(Sx::Sym(args_name()), c), append_s(pair_s(car_s(t1).0, c).0, env));
            lemma_free_list(Sx::Sym(args_name()), c);
            lemma_free_list(list_s(Sx::Sym(args_name()), c), append_s(pair_s(car_s(t1).0, c).0, env));
            assert(calm(eval_s(f, cadr_s(t1).0, env4, g), g));
            lemma_free_assoc(h1, env);
            let e5 = mk_cons(mk_cons(assoc_s(h1, env).0, t1), c);
            lemma_free_list(assoc_s(h1, env).0, t1);
            lemma_free_list(mk_cons(assoc_s(h1, env).0, t1), c);
            assert(calm(eval_s(f, e5, env, g), g));
            assert(calm(label_s(f, t1, head, c, env, g), g));
            assert(calm(lambda_s(f, t1, c, env, g), g));
            assert(calm(loop_form_s(f, t1, c, env, g), g));
            assert(calm(macro_s(f, t1, c, env, g), g));
        }
    }
}

#[verifier::rlimit(60)]
#[verifier::spinoff_prover]
proof fn calm_form_step(f: nat)
    requires
        calm_eval(f),
        calm_evlis(f),
        calm_evcond(f),
        calm_args(f),
    ensures
        calm_form(f),
{
    assert forall|name: Seq<u8>, head: Sx, c: Sx, env: Sx, g: Sx|
        name != setq_word() && setq_free(head) && setq_free(c) && setq_free(env)
        implies calm(#[trigger] form_s(f, name, head, c, env, g), g) by {
        lemma_free_parts(c);
        let rc = eval_car_s(f, c, env, g);
        assert(calm(rc, g));
        assert(calm(eval_cadr_s(f, c, env, g), g));
        let r2 = eval_two_s(f, c, env, g);
        assert(calm2(r2, g));
        if let Ok((a, b)) = r2.res {
            lemma_free_misc(ArithOp::Plus, a, b);
            lemma_free_append(a, b);
            lemma_free_list(a, b);
        }
        lemma_free_list(head, c);
        assert(calm(evlis_s(f, c, env, g), g));
        assert(calm(evcond_s(f, c, env, g), g));
        assert(calm(arith_form_s(f, ArithOp::Plus, c, env, g), g));
        assert(calm(arith_form_s(f, ArithOp::Prod, c, env, g), g));
        assert(calm(arith_form_s(f, ArithOp::Diff, c, env, g), g));
        assert(calm(arith_form_s(f, ArithOp::Quot, c, env, g), g));
        if let Ok(v) = rc.res {
            lemma_free_parts(v);
            assert(calm(eval_s(f, v, env, rc.g), rc.g));
        }
        let rh = eval_s(f, head, env, g);
        assert(calm(rh, g));
        if let Ok(fv) = rh.res {
            lemma_free_list(fv, c);
            assert(calm(eval_s(f, mk_cons(fv, c), env, rh.g), rh.g));
        }
    }
}

proof fn lemma_calm_all(f: nat)
    ensures
        calm_eval(f),
        calm_evlis(f),
        calm_evcond(f),
        calm_loop(f),
        calm_apply(f),
        calm_form(f),
    decreases f,
{
    if f > 0 {
        lemma_calm_all((f - 1) as nat);
    }
    calm_eval_step(f);
    calm_evlis_step(f);
    calm_evcond_step(f);
    calm_loop_step(f);
    calm_args_step(f);
    calm_apply_step(f);
    calm_form_step(f);
}

/// Only SETQ changes the global environment: when neither the expression nor the
/// local environment holds the symbol SETQ, evaluation leaves the global environment
/// as it found it, and its value holds no SETQ either.
pub proof fn law_no_setq_no_change(fuel: nat, e: Sx, env: Sx, g: Sx)
    requires
        setq_free(e),
        setq_free(env),
    ensures
        eval_s(fuel, e, env, g).g == g,
        eval_s(fuel, e, env, g).res matches Ok(v) ==> setq_free(v),
{
    lemma_calm_all(fuel);
    assert(calm(eval_s(fuel, e, env, g), g));
}

} // verus!
