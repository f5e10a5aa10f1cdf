//! The global environment only grows: evaluation puts `(name value)` entries in
//! front of it and never removes or changes an entry.
use crate::eval::{
    apply_s, arith_form_s, args_name, assoc_s, eval_car_s, eval_cadr_s, eval_s, eval_two_s,
    evcond_s, evlis_s, form_s, label_s, lambda_s, loop_form_s, loop_s, macro_s, pair_s, ArithOp,
};
use crate::sexpr::{
    append_s, caadr_s, caar_s, cadadr_s, cadar_s, caddr_s, cadr_s, car_s, cdr_s, list_s, mk_cons, Sx,
};
use vstd::prelude::*;

verus! {

/// A two-element list `(name value)`.
pub open spec fn is_binding(x: Sx) -> bool {
    match x {
        Sx::Cons(_, t) => match *t {
            Sx::Cons(_, t2) => *t2 == Sx::Nil,
            _ => false,
        },
        _ => false,
    }
}

/// `g2` is `g1` with zero or more two-element lists `(name value)` put in front.
pub open spec fn extends(g2: Sx, g1: Sx) -> bool
    decreases g2,
{
    if g2 == g1 {
        true
    } else {
        match g2 {
            Sx::Cons(entry, rest) => is_binding(*entry) && extends(*rest, g1),
            _ => false,
        }
    }
}

proof fn lemma_extends_trans(a: Sx, b: Sx, c: Sx)
    requires
        extends(a, b),
        extends(b, c),
    ensures
        extends(a, c),
    decreases a,
{
    if a != b {
        if let Sx::Cons(entry, rest) = a {
            lemma_extends_trans(*rest, b, c);
        }
    }
}

pub open spec fn keeps_eval(f: nat) -> bool {
    forall|e: Sx, env: Sx, g: Sx| extends(#[trigger] eval_s(f, e, env, g).g, g)
}

pub open spec fn keeps_evlis(f: nat) -> bool {
    forall|a: Sx, env: Sx, g: Sx| extends(#[trigger] evlis_s(f, a, env, g).g, g)
}

pub open spec fn keeps_evcond(f: nat) -> bool {
    forall|a: Sx, env: Sx, g: Sx| extends(#[trigger] evcond_s(f, a, env, g).g, g)
}

pub open spec fn keeps_loop(f: nat) -> bool {
    forall|t1: Sx, env: Sx, lenv: Sx, g: Sx| extends(#[trigger] loop_s(f, t1, env, lenv, g).g, g)
}

pub open spec fn keeps_args(f: nat) -> bool {
    &&& forall|c: Sx, env: Sx, g: Sx| extends(#[trigger] eval_car_s(f, c, env, g).g, g)
    &&& forall|c: Sx, env: Sx, g: Sx| extends(#[trigger] eval_cadr_s(f, c, env, g).g, g)
    &&& forall|c: Sx, env: Sx, g: Sx| extends(#[trigger] eval_two_s(f, c, env, g).g, g)
    &&& forall|op: ArithOp, c: Sx, env: Sx, g: Sx|
        extends(#[trigger] arith_form_s(f, op, c, env, g).g, g)
}

pub open spec fn keeps_apply(f: nat) -> bool {
    forall|h1: Sx, t1: Sx, head: Sx, c: Sx, env: Sx, g: Sx|
        extends(#[trigger] apply_s(f, h1, t1, head, c, env, g).g, g)
}

pub open spec fn keeps_form(f: nat) -> bool {
    forall|name: Seq<u8>, head: Sx, c: Sx, env: Sx, g: Sx|
        extends(#[trigger] form_s(f, name, head, c, env, g).g, g)
}

proof fn keep_eval(f: nat)
    requires
        f > 0 ==> keeps_form((f - 1) as nat),
        f > 0 ==> keeps_apply((f - 1) as nat),
    ensures
        keeps_eval(f),
{
    assert forall|e: Sx, env: Sx, g: Sx| extends(#[trigger] eval_s(f, e, env, g).g, g) by {
        if f > 0 {
            let p = (f - 1) as nat;
            if let Sx::Cons(head, rest) = e {
                match *head {
                    Sx::Sym(name) => {
                        assert(extends(form_s(p, name, *head, *rest, env, g).g, g));
                    },
                    Sx::Cons(h1, t1) => {
                        assert(extends(apply_s(p, *h1, *t1, *head, *rest, env, g).g, g));
                    },
                    _ => {},
                }
            }
        }
    }
}

proof fn keep_evlis(f: nat)
    requires
        f > 0 ==> keeps_eval((f - 1) as nat),
        f > 0 ==> keeps_evlis((f - 1) as nat),
    ensures
        keeps_evlis(f),
{
    assert forall|a: Sx, env: Sx, g: Sx| extends(#[trigger] evlis_s(f, a, env, g).g, g) by {
        if f > 0 {
            let p = (f - 1) as nat;
            if let Sx::Cons(hd, tl) = a {
                let r1 = eval_s(p, *hd, env, g);
                assert(extends(r1.g, g));
                let r2 = evlis_s(p, *tl, env, r1.g);
                assert(extends(r2.g, r1.g));
                lemma_extends_trans(r2.g, r1.g, g);
            }
        }
    }
}

proof fn keep_evcond(f: nat)
    requires
        f > 0 ==> keeps_eval((f - 1) as nat),
        f > 0 ==> keeps_evcond((f - 1) as nat),
    ensures
        keeps_evcond(f),
{
    assert forall|a: Sx, env: Sx, g: Sx| extends(#[trigger] evcond_s(f, a, env, g).g, g) by {
        if f > 0 {
            let p = (f - 1) as nat;
            let r1 = eval_s(p, caar_s(a).0, env, g);
            assert(extends(r1.g, g));
            let r2 = evcond_s(p, cdr_s(a).0, env, r1.g);
            assert(extends(r2.g, r1.g));
            lemma_extends_trans(r2.g, r1.g, g);
            let r3 = eval_s(p, cadar_s(a).0, env, r1.g);
            assert(extends(r3.g, r1.g));
            lemma_extends_trans(r3.g, r1.g, g);
        }
    }
}

proof fn keep_loop(f: nat)
    requires
        f > 0 ==> keeps_eval((f - 1) as nat),
        f > 0 ==> keeps_evlis((f - 1) as nat),
        f > 0 ==> keeps_loop((f - 1) as nat),
    ensures
        keeps_loop(f),
{
    assert forall|t1: Sx, env: Sx, lenv: Sx, g: Sx| extends(#[trigger] loop_s(f, t1, env, lenv, g).g, g) by {
        if f > 0 {
            let p = (f - 1) as nat;
            let r1 = eval_s(p, caadr_s(t1).0, lenv, g);
            assert(extends(r1.g, g));
            let r2 = evlis_s(p, caddr_s(t1).0, lenv, r1.g);
            assert(extends(r2.g, r1.g));
            lemma_extends_trans(r2.g, r1.g, g);
            if let Ok(args) = r2.res {
                let lenv2 = append_s(pair_s(car_s(t1).0, args).0, env);
                let r3 = loop_s(p, t1, env, lenv2, r2.g);
                assert(extends(r3.g, r2.g));
                lemma_extends_trans(r3.g, r2.g, g);
            }
            let r4 = eval_s(p, cadadr_s(t1).0, lenv, r1.g);
            assert(extends(r4.g, r1.g));
            lemma_extends_trans(r4.g, r1.g, g);
        }
    }
}

proof fn keep_args(f: nat)
    requires
        keeps_eval(f),
    ensures
        keeps_args(f),
{
    assert forall|c: Sx, env: Sx, g: Sx| extends(#[trigger] eval_car_s(f, c, env, g).g, g) by {
        assert(extends(eval_s(f, car_s(c).0, env, g).g, g));
    }
    assert forall|c: Sx, env: Sx, g: Sx| extends(#[trigger] eval_cadr_s(f, c, env, g).g, g) by {
        assert(extends(eval_s(f, cadr_s(c).0, env, g).g, g));
    }
    assert forall|c: Sx, env: Sx, g: Sx| extends(#[trigger] eval_two_s(f, c, env, g).g, g) by {
        let r1 = eval_car_s(f, c, env, g);
        assert(extends(r1.g, g));
        let r2 = eval_cadr_s(f, c, env, r1.g);
        assert(extends(r2.g, r1.g));
        lemma_extends_trans(r2.g, r1.g, g);
    }
    assert forall|op: ArithOp, c: Sx, env: Sx, g: Sx| extends(#[trigger] arith_form_s(f, op, c, env, g).g, g) by {
        assert(extends(eval_two_s(f, c, env, g).g, g));
    }
}

proof fn keep_apply(f: nat)
    requires
        keeps_eval(f),
        keeps_evlis(f),
        keeps_loop(f),
    ensures
        keeps_apply(f),
{
    assert forall|h1: Sx, t1: Sx, head: Sx, c: Sx, env: Sx, g: Sx| extends(#[trigger] apply_s(f, h1, t1, head, c, env, g).g, g) by {
        if let Sx::Sym(name) = h1 {
            let e2 = mk_cons(cadr_s(t1).0, c);
            let env2 = mk_cons(list_s(car_s(t1).0, head), env);
            assert(extends(eval_s(f, e2, env2, g).g, g));
            let r1 = evlis_s(f, c, env, g);
            assert(extends(r1.g, g));
            let r2 = evlis_s(f, c, env, r1.g);
            assert(extends(r2.g, r1.g));
            lemma_extends_trans(r2.g, r1.g, g);
            if let Ok(args1) = r1.res {
                if let Ok(args2) = r2.res {
                    let env3 = mk_cons(
                        list_s(Sx::Sym(args_name()), args1),
                        append_s(pair_s(car_s(t1).0, args2).0, env),
                    );
                    let r3 = eval_s(f, cadr_s(t1).0, env3, r2.g);
                    assert(extends(r3.g, r2.g));
                    lemma_extends_trans(r3.g, r2.g, g);
                }
                let lenv = append_s(pair_s(car_s(t1).0, args1).0, env);
                let r4 = loop_s(f, t1, env, lenv, r1.g);
                assert(extends(r4.g, r1.g));
                lemma_extends_trans(r4.g, r1.g, g);
            }
            let env4 = mk_cons(list_s(Sx::Sym(args_name()), c), append_s(pair_s(car_s(t1).0, c).0, env));
            assert(extends(eval_s(f, cadr_s(t1).0, env4, g).g, g));
            let e5 = mk_cons(mk_cons(assoc_s(h1, env).0, t1), c);
            assert(extends(eval_s(f, e5, env, g).g, g));
            assert(extends(label_s(f, t1, head, c, env, g).g, g));
            assert(extends(lambda_s(f, t1, c, env, g).g, g));
            assert(extends(loop_form_s(f, t1, c, env, g).g, g));
            assert(extends(macro_s(f, t1, c, env, g).g, g));
        }
    }
}

proof fn keep_form(f: nat)
    requires
        keeps_eval(f),
        keeps_evlis(f),
        keeps_evcond(f),
        keeps_args(f),
    ensures
        keeps_form(f),
{
    assert forall|name: Seq<u8>, head: Sx, c: Sx, env: Sx, g: Sx| extends(#[trigger] form_s(f, name, head, c, env, g).g, g) by {
        let rc = eval_car_s(f, c, env, g);
        assert(extends(rc.g, g));
        let rd = eval_cadr_s(f, c, env, g);
        assert(extends(rd.g, g));
        assert(extends(eval_two_s(f, c, env, g).g, g));
        assert(extends(evlis_s(f, c, env, g).g, g));
        assert(extends(evcond_s(f, c, env, g).g, g));
        assert(extends(arith_form_s(f, ArithOp::Plus, c, env, g).g, g));
        assert(extends(arith_form_s(f, ArithOp::Prod, c, env, g).g, g));
        assert(extends(arith_form_s(f, ArithOp::Diff, c, env, g).g, g));
        assert(extends(arith_form_s(f, ArithOp::Quot, c, env, g).g, g));
        if let Ok(v) = rc.res {
            let r2 = eval_s(f, v, env, rc.g);
            assert(extends(r2.g, rc.g));
            lemma_extends_trans(r2.g, rc.g, g);
        }
        if let Ok(v) = rd.res {
            let g2 = mk_cons(list_s(car_s(c).0, v), rd.g);
            assert(extends(rd.g, rd.g));
            assert(extends(g2, rd.g));
            lemma_extends_trans(g2, rd.g, g);
        }
        let rh = eval_s(f, head, env, g);
        assert(extends(rh.g, g));
        if let Ok(fv) = rh.res {
            let r3 = eval_s(f, mk_cons(fv, c), env, rh.g);
            assert(extends(r3.g, rh.g));
            lemma_extends_trans(r3.g, rh.g, g);
        }
    }
}

proof fn lemma_keeps_all(f: nat)
    ensures
        keeps_eval(f),
        keeps_evlis(f),
        keeps_evcond(f),
        keeps_loop(f),
        keeps_apply(f),
        keeps_form(f),
    decreases f,
{
    if f > 0 {
        lemma_keeps_all((f - 1) as nat);
    }
    keep_eval(f);
    keep_evlis(f);
    keep_evcond(f);
    keep_loop(f);
    keep_args(f);
    keep_apply(f);
    keep_form(f);
}

/// Evaluation never removes or changes an entry of the global environment: what it
/// leaves is what it found with `(name value)` entries put in front, whether it
/// ends in a value or a fault.
pub proof fn law_global_env_only_grows(fuel: nat, e: Sx, env: Sx, g: Sx)
    ensures
        extends(eval_s(fuel, e, env, g).g, g),
{
    lemma_keeps_all(fuel);
}

} // verus!
