//! The global environment is written and never read: evaluation looks names up in
//! the local environment only, so what an expression evaluates to, and what it
//! reports, does not depend on the global environment it runs against.
use crate::eval::{
    apply_s, arith_form_s, args_name, eval_car_s, eval_cadr_s, eval_s, eval_two_s, evcond_s,
    evlis_s, form_s, label_s, lambda_s, loop_form_s, loop_s, macro_s, pair_s, ArithOp, Run, Run2,
};
use crate::sexpr::{
    append_s, caadr_s, caar_s, cadadr_s, cadar_s, caddr_s, cadr_s, car_s, cdr_s, list_s, mk_cons, Sx,
};
use vstd::prelude::*;

verus! {

/// `x1` is `g1`, and `x2` is `g2`, with the same entries put in front of each.
pub open spec fn same_top(x1: Sx, g1: Sx, x2: Sx, g2: Sx) -> bool
    decreases x1,
{
    if x1 == g1 && x2 == g2 {
        true
    } else {
        match (x1, x2) {
            (Sx::Cons(h1, t1), Sx::Cons(h2, t2)) => *h1 == *h2 && same_top(*t1, g1, *t2, g2),
            _ => false,
        }
    }
}

/// Two runs, against the global environments `g1` and `g2`, end alike.
pub open spec fn agree(r1: Run, g1: Sx, r2: Run, g2: Sx) -> bool {
    &&& r1.res == r2.res
    &&& r1.notes == r2.notes
    &&& same_top(r1.g, g1, r2.g, g2)
}

pub open spec fn agree2(r1: Run2, g1: Sx, r2: Run2, g2: Sx) -> bool {
    &&& r1.res == r2.res
    &&& r1.notes == r2.notes
    &&& same_top(r1.g, g1, r2.g, g2)
}

proof fn lemma_top_trans(a1: Sx, b1: Sx, c1: Sx, a2: Sx, b2: Sx, c2: Sx)
    requires
        same_top(a1, b1, a2, b2),
        same_top(b1, c1, b2, c2),
    ensures
        same_top(a1, c1, a2, c2),
    decreases a1,
{
    if !(a1 == b1 && a2 == b2) {
        if let (Sx::Cons(h1, t1), Sx::Cons(h2, t2)) = (a1, a2) {
            lemma_top_trans(*t1, b1, c1, *t2, b2, c2);
        }
    }
}

proof fn lemma_top_refl(g1: Sx, g2: Sx)
    ensures
        same_top(g1, g1, g2, g2),
{
}

pub open spec fn alike_eval(f: nat) -> bool {
    forall|e: Sx, env: Sx, g1: Sx, g2: Sx|
        #![trigger eval_s(f, e, env, g1), eval_s(f, e, env, g2)]
        agree(eval_s(f, e, env, g1), g1, eval_s(f, e, env, g2), g2)
}

pub open spec fn alike_evlis(f: nat) -> bool {
    forall|a: Sx, env: Sx, g1: Sx, g2: Sx|
        #![trigger evlis_s(f, a, env, g1), evlis_s(f, a, env, g2)]
        agree(evlis_s(f, a, env, g1), g1, evlis_s(f, a, env, g2), g2)
}

pub open spec fn alike_evcond(f: nat) -> bool {
    forall|a: Sx, env: Sx, g1: Sx, g2: Sx|
        #![trigger evcond_s(f, a, env, g1), evcond_s(f, a, env, g2)]
        agree(evcond_s(f, a, env, g1), g1, evcond_s(f, a, env, g2), g2)
}

pub open spec fn alike_loop(f: nat) -> bool {
    forall|t1: Sx, env: Sx, lenv: Sx, g1: Sx, g2: Sx|
        #![trigger loop_s(f, t1, env, lenv, g1), loop_s(f, t1, env, lenv, g2)]
        agree(loop_s(f, t1, env, lenv, g1), g1, loop_s(f, t1, env, lenv, g2), g2)
}

pub open spec fn alike_args(f: nat) -> bool {
    &&& forall|c: Sx, env: Sx, g1: Sx, g2: Sx|
        #![trigger eval_car_s(f, c, env, g1), eval_car_s(f, c, env, g2)]
        agree(eval_car_s(f, c, env, g1), g1, eval_car_s(f, c, env, g2), g2)
    &&& forall|c: Sx, env: Sx, g1: Sx, g2: Sx|
        #![trigger eval_cadr_s(f, c, env, g1), eval_cadr_s(f, c, env, g2)]
        agree(eval_cadr_s(f, c, env, g1), g1, eval_cadr_s(f, c, env, g2), g2)
    &&& forall|c: Sx, env: Sx, g1: Sx, g2: Sx|
        #![trigger eval_two_s(f, c, env, g1), eval_two_s(f, c, env, g2)]
        agree2(eval_two_s(f, c, env, g1), g1, eval_two_s(f, c, env, g2), g2)
    &&& forall|op: ArithOp, c: Sx, env: Sx, g1: Sx, g2: Sx|
        #![trigger arith_form_s(f, op, c, env, g1), arith_form_s(f, op, c, env, g2)]
        agree(arith_form_s(f, op, c, env, g1), g1, arith_form_s(f, op, c, env, g2), g2)
}

pub open spec fn alike_apply(f: nat) -> bool {
    forall|h1: Sx, t1: Sx, head: Sx, c: Sx, env: Sx, g1: Sx, g2: Sx|
        #![trigger apply_s(f, h1, t1, head, c, env, g1), apply_s(f, h1, t1, head, c, env, g2)]
        agree(apply_s(f, h1, t1, head, c, env, g1), g1, apply_s(f, h1, t1, head, c, env, g2), g2)
}

pub open spec fn alike_form(f: nat) -> bool {
    forall|name: Seq<u8>, head: Sx, c: Sx, env: Sx, g1: Sx, g2: Sx|
        #![trigger form_s(f, name, head, c, env, g1), form_s(f, name, head, c, env, g2)]
        agree(form_s(f, name, head, c, env, g1), g1, form_s(f, name, head, c, env, g2), g2)
}

proof fn alike_eval_step(f: nat)
    requires
        f > 0 ==> alike_form((f - 1) as nat),
        f > 0 ==> alike_apply((f - 1) as nat),
    ensures
        alike_eval(f),
{
    assert forall|e: Sx, env: Sx, g1: Sx, g2: Sx|
        agree(#[trigger] eval_s(f, e, env, g1), g1, #[trigger] eval_s(f, e, env, g2), g2) by {
        lemma_top_refl(g1, g2);
        if f > 0 {
            let p = (f - 1) as nat;
            if let Sx::Cons(head, rest) = e {
                match *head {
                    Sx::Sym(name) => {
                        assert(agree(form_s(p, name, *head, *rest, env, g1), g1, form_s(p, name, *head, *rest, env, g2), g2));
                    },
                    Sx::Cons(h1, t1) => {
                        assert(agree(apply_s(p, *h1, *t1, *head, *rest, env, g1), g1, apply_s(p, *h1, *t1, *head, *rest, env, g2), g2));
                    },
                    _ => {},
                }
            }
        }
    }
}

proof fn alike_evlis_step(f: nat)
    requires
        f > 0 ==> alike_eval((f - 1) as nat),
        f > 0 ==> alike_evlis((f - 1) as nat),
    ensures
        alike_evlis(f),
{
    assert forall|a: Sx, env: Sx, g1: Sx, g2: Sx|
        agree(#[trigger] evlis_s(f, a, env, g1), g1, #[trigger] evlis_s(f, a, env, g2), g2) by {
        lemma_top_refl(g1, g2);
        if f > 0 {
            let p = (f - 1) as nat;
            if let Sx::Cons(hd, tl) = a {
                let r1 = eval_s(p, *hd, env, g1);
                let s1 = eval_s(p, *hd, env, g2);
                assert(agree(r1, g1, s1, g2));
                let r2 = evlis_s(p, *tl, env, r1.g);
                let s2 = evlis_s(p, *tl, env, s1.g);
                assert(agree(r2, r1.g, s2, s1.g));
                lemma_top_trans(r2.g, r1.g, g1, s2.g, s1.g, g2);
            }
        }
    }
}

proof fn alike_evcond_step(f: nat)
    requires
        f > 0 ==> alike_eval((f - 1) as nat),
        f > 0 ==> alike_evcond((f - 1) as nat),
    ensures
        alike_evcond(f),
{
    assert forall|a: Sx, env: Sx, g1: Sx, g2: Sx|
        agree(#[trigger] evcond_s(f, a, env, g1), g1, #[trigger] evcond_s(f, a, env, g2), g2) by {
        lemma_top_refl(g1, g2);
        if f > 0 {
            let p = (f - 1) as nat;
            let r1 = eval_s(p, caar_s(a).0, env, g1);
            let s1 = eval_s(p, caar_s(a).0, env, g2);
            assert(agree(r1, g1, s1, g2));
            let r2 = evcond_s(p, cdr_s(a).0, env, r1.g);
            let s2 = evcond_s(p, cdr_s(a).0, env, s1.g);
            assert(agree(r2, r1.g, s2, s1.g));
            lemma_top_trans(r2.g, r1.g, g1, s2.g, s1.g, g2);
            let r3 = eval_s(p, cadar_s(a).0, env, r1.g);
            let s3 = eval_s(p, cadar_s(a).0, env, s1.g);
            assert(agree(r3, r1.g, s3, s1.g));
            lemma_top_trans(r3.g, r1.g, g1, s3.g, s1.g, g2);
        }
    }
}

proof fn alike_loop_step(f: nat)
    requires
        f > 0 ==> alike_eval((f - 1) as nat),
        f > 0 ==> alike_evlis((f - 1) as nat),
        f > 0 ==> alike_loop((f - 1) as nat),
    ensures
        alike_loop(f),
{
    assert forall|t1: Sx, env: Sx, lenv: Sx, g1: Sx, g2: Sx|
        agree(#[trigger] loop_s(f, t1, env, lenv, g1), g1, #[trigger] loop_s(f, t1, env, lenv, g2), g2) by {
        lemma_top_refl(g1, g2);
        if f > 0 {
            let p = (f - 1) as nat;
            let r1 = eval_s(p, caadr_s(t1).0, lenv, g1);
            let s1 = eval_s(p, caadr_s(t1).0, lenv, g2);
            assert(agree(r1, g1, s1, g2));
            let r2 = evlis_s(p, caddr_s(t1).0, lenv, r1.g);
            let s2 = evlis_s(p, caddr_s(t1).0, lenv, s1.g);
            assert(agree(r2, r1.g, s2, s1.g));
            lemma_top_trans(r2.g, r1.g, g1, s2.g, s1.g, g2);
            if let Ok(args) = r2.res {
                let lenv2 = append_s(pair_s(car_s(t1).0, args).0, env);
                let r3 = loop_s(p, t1, env, lenv2, r2.g);
                let s3 = loop_s(p, t1, env, lenv2, s2.g);
                assert(agree(r3, r2.g, s3, s2.g));
                lemma_top_trans(r3.g, r2.g, g1, s3.g, s2.g, g2);
            }
            let r4 = eval_s(p, cadadr_s(t1).0, lenv, r1.g);
            let s4 = eval_s(p, cadadr_s(t1).0, lenv, s1.g);
            assert(agree(r4, r1.g, s4, s1.g));
            lemma_top_trans(r4.g, r1.g, g1, s4.g, s1.g, g2);
        }
    }
}

proof fn alike_args_step(f: nat)
    requires
        alike_eval(f),
    ensures
        alike_args(f),
{
    assert forall|c: Sx, env: Sx, g1: Sx, g2: Sx|
        agree(#[trigger] eval_car_s(f, c, env, g1), g1, #[trigger] eval_car_s(f, c, env, g2), g2) by {
        assert(agree(eval_s(f, car_s(c).0, env, g1), g1, eval_s(f, car_s(c).0, env, g2), g2));
    }
    assert forall|c: Sx, env: Sx, g1: Sx, g2: Sx|
        agree(#[trigger] eval_cadr_s(f, c, env, g1), g1, #[trigger] eval_cadr_s(f, c, env, g2), g2) by {
        assert(agree(eval_s(f, cadr_s(c).0, env, g1), g1, eval_s(f, cadr_s(c).0, env, g2), g2));
    }
    assert forall|c: Sx, env: Sx, g1: Sx, g2: Sx|
        agree2(#[trigger] eval_two_s(f, c, env, g1), g1, #[trigger] eval_two_s(f, c, env, g2), g2) by {
        let r1 = eval_car_s(f, c, env, g1);
        let s1 = eval_car_s(f, c, env, g2);
        assert(agree(r1, g1, s1, g2));
        let r2 = eval_cadr_s(f, c, env, r1.g);
        let s2 = eval_cadr_s(f, c, env, s1.g);
        assert(agree(r2, r1.g, s2, s1.g));
        lemma_top_trans(r2.g, r1.g, g1, s2.g, s1.g, g2);
    }
    assert forall|op: ArithOp, c: Sx, env: Sx, g1: Sx, g2: Sx|
        agree(#[trigger] arith_form_s(f, op, c, env, g1), g1, #[trigger] arith_form_s(f, op, c, env, g2), g2) by {
        assert(agree2(eval_two_s(f, c, env, g1), g1, eval_two_s(f, c, env, g2), g2));
    }
}

proof fn alike_apply_step(f: nat)
    requires
        alike_eval(f),
        alike_evlis(f),
        alike_loop(f),
    ensures
        alike_apply(f),
{
    assert forall|h1: Sx, t1: Sx, head: Sx, c: Sx, env: Sx, g1: Sx, g2: Sx|
        agree(#[trigger] apply_s(f, h1, t1, head, c, env, g1), g1, #[trigger] apply_s(f, h1, t1, head, c, env, g2), g2) by {
        lemma_top_refl(g1, g2);
        if let Sx::Sym(name) = h1 {
            let e2 = mk_cons(cadr_s(t1).0, c);
            let env2 = mk_cons(list_s(car_s(t1).0, head), env);
            assert(agree(eval_s(f, e2, env2, g1), g1, eval_s(f, e2, env2, g2), g2));
            let r1 = evlis_s(f, c, env, g1);
            let s1 = evlis_s(f, c, env, g2);
            assert(agree(r1, g1, s1, g2));
            let r2 = evlis_s(f, c, env, r1.g);
            let s2 = evlis_s(f, c, env, s1.g);
            assert(agree(r2, r1.g, s2, s1.g));
            lemma_top_trans(r2.g, r1.g, g1, s2.g, s1.g, g2);
            if let Ok(args1) = r1.res {
                if let Ok(args2) = r2.res {
                    let env3 = mk_cons(
                        list_s(Sx::Sym(args_name()), args1),
                        append_s(pair_s(car_s(t1).0, args2).0, env),
                    );
                    let r3 = eval_s(f, cadr_s(t1).0, env3, r2.g);
                    let s3 = eval_s(f, cadr_s(t1).0, env3, s2.g);
                    assert(agree(r3, r2.g, s3, s2.g));
                    lemma_top_trans(r3.g, r2.g, g1, s3.g, s2.g, g2);
                }
                let lenv = append_s(pair_s(car_s(t1).0, args1).0, env);
                let r4 = loop_s(f, t1, env, lenv, r1.g);
                let s4 = loop_s(f, t1, env, lenv, s1.g);
                assert(agree(r4, r1.g, s4, s1.g));
                lemma_top_trans(r4.g, r1.g, g1, s4.g, s1.g, g2);
            }
            let env4 = mk_cons(list_s(Sx::Sym(args_name()), c), append_s(pair_s(car_s(t1).0, c).0, env));
            assert(agree(eval_s(f, cadr_s(t1).0, env4, g1), g1, eval_s(f, cadr_s(t1).0, env4, g2), g2));
            let e5 = mk_cons(mk_cons(crate::eval::assoc_s(h1, env).0, t1), c);
            assert(agree(eval_s(f, e5, env, g1), g1, eval_s(f, e5, env, g2), g2));
            assert(agree(label_s(f, t1, head, c, env, g1), g1, label_s(f, t1, head, c, env, g2), g2));
            assert(agree(lambda_s(f, t1, c, env, g1), g1, lambda_s(f, t1, c, env, g2), g2));
            assert(agree(loop_form_s(f, t1, c, env, g1), g1, loop_form_s(f, t1, c, env, g2), g2));
            assert(agree(macro_s(f, t1, c, env, g1), g1, macro_s(f, t1, c, env, g2), g2));
        }
    }
}

#[verifier::rlimit(60)]
#[verifier::spinoff_prover]
proof fn alike_form_step(f: nat)
    requires
        alike_eval(f),
        alike_evlis(f),
        alike_evcond(f),
        alike_args(f),
    ensures
        alike_form(f),
{
    assert forall|name: Seq<u8>, head: Sx, c: Sx, env: Sx, g1: Sx, g2: Sx|
        agree(#[trigger] form_s(f, name, head, c, env, g1), g1, #[trigger] form_s(f, name, head, c, env, g2), g2) by {
        lemma_top_refl(g1, g2);
        let rc = eval_car_s(f, c, env, g1);
        let sc = eval_car_s(f, c, env, g2);
        assert(agree(rc, g1, sc, g2));
        let rd = eval_cadr_s(f, c, env, g1);
        let sd = eval_cadr_s(f, c, env, g2);
        assert(agree(rd, g1, sd, g2));
        assert(agree2(eval_two_s(f, c, env, g1), g1, eval_two_s(f, c, env, g2), g2));
        assert(agree(evlis_s(f, c, env, g1), g1, evlis_s(f, c, env, g2), g2));
        assert(agree(evcond_s(f, c, env, g1), g1, evcond_s(f, c, env, g2), g2));
        assert(agree(arith_form_s(f, ArithOp::Plus, c, env, g1), g1, arith_form_s(f, ArithOp::Plus, c, env, g2), g2));
        assert(agree(arith_form_s(f, ArithOp::Prod, c, env, g1), g1, arith_form_s(f, ArithOp::Prod, c, env, g2), g2));
        assert(agree(arith_form_s(f, ArithOp::Diff, c, env, g1), g1, arith_form_s(f, ArithOp::Diff, c, env, g2), g2));
        assert(agree(arith_form_s(f, ArithOp::Quot, c, env, g1), g1, arith_form_s(f, ArithOp::Quot, c, env, g2), g2));
        if let Ok(v) = rc.res {
            let r2 = eval_s(f, v, env, rc.g);
            let s2 = eval_s(f, v, env, sc.g);
            assert(agree(r2, rc.g, s2, sc.g));
            lemma_top_trans(r2.g, rc.g, g1, s2.g, sc.g, g2);
        }
        if let Ok(v) = rd.res {
            let entry = list_s(car_s(c).0, v);
            assert(same_top(mk_cons(entry, rd.g), g1, mk_cons(entry, sd.g), g2));
        }
        let rh = eval_s(f, head, env, g1);
        let sh = eval_s(f, head, env, g2);
        assert(agree(rh, g1, sh, g2));
        if let Ok(fv) = rh.res {
            let r3 = eval_s(f, mk_cons(fv, c), env, rh.g);
            let s3 = eval_s(f, mk_cons(fv, c), env, sh.g);
            assert(agree(r3, rh.g, s3, sh.g));
            lemma_top_trans(r3.g, rh.g, g1, s3.g, sh.g, g2);
        }
    }
}

proof fn lemma_alike_all(f: nat)
    ensures
        alike_eval(f),
        alike_evlis(f),
        alike_evcond(f),
        alike_loop(f),
        alike_apply(f),
        alike_form(f),
    decreases f,
{
    if f > 0 {
        lemma_alike_all((f - 1) as nat);
    }
    alike_eval_step(f);
    alike_evlis_step(f);
    alike_evcond_step(f);
    alike_loop_step(f);
    alike_args_step(f);
    alike_apply_step(f);
    alike_form_step(f);
}

/// The global environment is never read: evaluating one expression in one local
/// environment against two global environments gives the same result and the same
/// diagnostics, and puts the same entries in front of each global environment.
pub proof fn law_global_env_not_read(fuel: nat, e: Sx, env: Sx, g1: Sx, g2: Sx)
    ensures
        eval_s(fuel, e, env, g1).res == eval_s(fuel, e, env, g2).res,
        eval_s(fuel, e, env, g1).notes == eval_s(fuel, e, env, g2).notes,
        same_top(eval_s(fuel, e, env, g1).g, g1, eval_s(fuel, e, env, g2).g, g2),
{
    lemma_alike_all(fuel);
    assert(agree(eval_s(fuel, e, env, g1), g1, eval_s(fuel, e, env, g2), g2));
}

} // verus!
