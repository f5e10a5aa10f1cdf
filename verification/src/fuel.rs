//! The evaluation budget: once an evaluation finishes within a budget, every larger
//! budget gives the same outcome.
use crate::eval::{
    apply_s, arith_form_s, eval_car_s, eval_cadr_s, eval_s, eval_two_s, evcond_s, evlis_s, form_s,
    label_s, lambda_s, loop_form_s, loop_s, macro_s, pair_s, assoc_s, args_name, ArithOp, Run, Run2,
};
use crate::sexpr::{
    append_s, caadr_s, caar_s, cadadr_s, cadar_s, caddr_s, cadr_s, car_s, cdr_s, list_s, mk_cons, Fault,
    Sx,
};
use vstd::prelude::*;

verus! {

/// `r2` is `r1`, unless `r1` ran out of fuel.
pub open spec fn settled(r1: Run, r2: Run) -> bool {
    r1.res != Err::<Sx, Fault>(Fault::OutOfFuel) ==> r2 == r1
}

pub open spec fn settled2(r1: Run2, r2: Run2) -> bool {
    r1.res != Err::<(Sx, Sx), Fault>(Fault::OutOfFuel) ==> r2 == r1
}

pub open spec fn mono_eval(f1: nat, f2: nat) -> bool {
    forall|e: Sx, env: Sx, g: Sx| settled(#[trigger] eval_s(f1, e, env, g), eval_s(f2, e, env, g))
}

pub open spec fn mono_evlis(f1: nat, f2: nat) -> bool {
    forall|a: Sx, env: Sx, g: Sx| settled(#[trigger] evlis_s(f1, a, env, g), evlis_s(f2, a, env, g))
}

pub open spec fn mono_evcond(f1: nat, f2: nat) -> bool {
    forall|a: Sx, env: Sx, g: Sx|
        settled(#[trigger] evcond_s(f1, a, env, g), evcond_s(f2, a, env, g))
}

pub open spec fn mono_loop(f1: nat, f2: nat) -> bool {
    forall|t1: Sx, env: Sx, lenv: Sx, g: Sx|
        settled(#[trigger] loop_s(f1, t1, env, lenv, g), loop_s(f2, t1, env, lenv, g))
}

pub open spec fn mono_car(f1: nat, f2: nat) -> bool {
    forall|c: Sx, env: Sx, g: Sx|
        settled(#[trigger] eval_car_s(f1, c, env, g), eval_car_s(f2, c, env, g))
}

pub open spec fn mono_cadr(f1: nat, f2: nat) -> bool {
    forall|c: Sx, env: Sx, g: Sx|
        settled(#[trigger] eval_cadr_s(f1, c, env, g), eval_cadr_s(f2, c, env, g))
}

pub open spec fn mono_two(f1: nat, f2: nat) -> bool {
    forall|c: Sx, env: Sx, g: Sx|
        settled2(#[trigger] eval_two_s(f1, c, env, g), eval_two_s(f2, c, env, g))
}

pub open spec fn mono_arith(f1: nat, f2: nat) -> bool {
    forall|op: ArithOp, c: Sx, env: Sx, g: Sx|
        settled(#[trigger] arith_form_s(f1, op, c, env, g), arith_form_s(f2, op, c, env, g))
}

pub open spec fn mono_label(f1: nat, f2: nat) -> bool {
    forall|t1: Sx, head: Sx, c: Sx, env: Sx, g: Sx|
        settled(#[trigger] label_s(f1, t1, head, c, env, g), label_s(f2, t1, head, c, env, g))
}

pub open spec fn mono_lambda(f1: nat, f2: nat) -> bool {
    forall|t1: Sx, c: Sx, env: Sx, g: Sx|
        settled(#[trigger] lambda_s(f1, t1, c, env, g), lambda_s(f2, t1, c, env, g))
}

pub open spec fn mono_loop_form(f1: nat, f2: nat) -> bool {
    forall|t1: Sx, c: Sx, env: Sx, g: Sx|
        settled(#[trigger] loop_form_s(f1, t1, c, env, g), loop_form_s(f2, t1, c, env, g))
}

pub open spec fn mono_macro(f1: nat, f2: nat) -> bool {
    forall|t1: Sx, c: Sx, env: Sx, g: Sx|
        settled(#[trigger] macro_s(f1, t1, c, env, g), macro_s(f2, t1, c, env, g))
}

pub open spec fn mono_apply(f1: nat, f2: nat) -> bool {
    forall|h1: Sx, t1: Sx, head: Sx, c: Sx, env: Sx, g: Sx|
        settled(
            #[trigger] apply_s(f1, h1, t1, head, c, env, g),
            apply_s(f2, h1, t1, head, c, env, g),
        )
}

pub open spec fn mono_form(f1: nat, f2: nat) -> bool {
    forall|name: Seq<u8>, head: Sx, c: Sx, env: Sx, g: Sx|
        settled(#[trigger] form_s(f1, name, head, c, env, g), form_s(f2, name, head, c, env, g))
}

proof fn step_eval(f1: nat, f2: nat)
    requires
        f1 <= f2,
        f1 > 0 ==> mono_form((f1 - 1) as nat, (f2 - 1) as nat),
        f1 > 0 ==> mono_apply((f1 - 1) as nat, (f2 - 1) as nat),
    ensures
        mono_eval(f1, f2),
{
    assert forall|e: Sx, env: Sx, g: Sx| settled(#[trigger] eval_s(f1, e, env, g), eval_s(f2, e, env, g)) by {
        if f1 > 0 {
            let f = (f1 - 1) as nat;
            let h = (f2 - 1) as nat;
            if let Sx::Cons(head, rest) = e {
                match *head {
                    Sx::Sym(name) => {
                        assert(settled(form_s(f, name, *head, *rest, env, g), form_s(h, name, *head, *rest, env, g)));
                    },
                    Sx::Cons(h1, t1) => {
                        assert(settled(apply_s(f, *h1, *t1, *head, *rest, env, g), apply_s(h, *h1, *t1, *head, *rest, env, g)));
                    },
                    _ => {},
                }
            }
        }
    }
}

proof fn step_evlis(f1: nat, f2: nat)
    requires
        f1 <= f2,
        f1 > 0 ==> mono_eval((f1 - 1) as nat, (f2 - 1) as nat),
        f1 > 0 ==> mono_evlis((f1 - 1) as nat, (f2 - 1) as nat),
    ensures
        mono_evlis(f1, f2),
{
    assert forall|a: Sx, env: Sx, g: Sx| settled(#[trigger] evlis_s(f1, a, env, g), evlis_s(f2, a, env, g)) by {
        if f1 > 0 {
            let f = (f1 - 1) as nat;
            let h = (f2 - 1) as nat;
            if let Sx::Cons(hd, tl) = a {
                let r1 = eval_s(f, *hd, env, g);
                assert(settled(r1, eval_s(h, *hd, env, g)));
                if let Ok(v) = r1.res {
                    assert(settled(evlis_s(f, *tl, env, r1.g), evlis_s(h, *tl, env, r1.g)));
                }
            }
        }
    }
}

proof fn step_evcond(f1: nat, f2: nat)
    requires
        f1 <= f2,
        f1 > 0 ==> mono_eval((f1 - 1) as nat, (f2 - 1) as nat),
        f1 > 0 ==> mono_evcond((f1 - 1) as nat, (f2 - 1) as nat),
    ensures
        mono_evcond(f1, f2),
{
    assert forall|a: Sx, env: Sx, g: Sx| settled(#[trigger] evcond_s(f1, a, env, g), evcond_s(f2, a, env, g)) by {
        if f1 > 0 {
            let f = (f1 - 1) as nat;
            let h = (f2 - 1) as nat;
            let test = caar_s(a).0;
            let r1 = eval_s(f, test, env, g);
            assert(settled(r1, eval_s(h, test, env, g)));
            let rest = cdr_s(a).0;
            let body = cadar_s(a).0;
            assert(settled(evcond_s(f, rest, env, r1.g), evcond_s(h, rest, env, r1.g)));
            assert(settled(eval_s(f, body, env, r1.g), eval_s(h, body, env, r1.g)));
        }
    }
}

proof fn step_loop(f1: nat, f2: nat)
    requires
        f1 <= f2,
        f1 > 0 ==> mono_eval((f1 - 1) as nat, (f2 - 1) as nat),
        f1 > 0 ==> mono_evlis((f1 - 1) as nat, (f2 - 1) as nat),
        f1 > 0 ==> mono_loop((f1 - 1) as nat, (f2 - 1) as nat),
    ensures
        mono_loop(f1, f2),
{
    assert forall|t1: Sx, env: Sx, lenv: Sx, g: Sx| settled(#[trigger] loop_s(f1, t1, env, lenv, g), loop_s(f2, t1, env, lenv, g)) by {
        if f1 > 0 {
            let f = (f1 - 1) as nat;
            let h = (f2 - 1) as nat;
            let test = caadr_s(t1).0;
            let r1 = eval_s(f, test, lenv, g);
            assert(settled(r1, eval_s(h, test, lenv, g)));
            let update = caddr_s(t1).0;
            let r2 = evlis_s(f, update, lenv, r1.g);
            assert(settled(r2, evlis_s(h, update, lenv, r1.g)));
            if let Ok(args) = r2.res {
                let lenv2 = append_s(pair_s(car_s(t1).0, args).0, env);
                assert(settled(loop_s(f, t1, env, lenv2, r2.g), loop_s(h, t1, env, lenv2, r2.g)));
            }
            let body = cadadr_s(t1).0;
            assert(settled(eval_s(f, body, lenv, r1.g), eval_s(h, body, lenv, r1.g)));
        }
    }
}

proof fn step_args(f1: nat, f2: nat)
    requires
        f1 <= f2,
        mono_eval(f1, f2),
    ensures
        mono_car(f1, f2),
        mono_cadr(f1, f2),
        mono_two(f1, f2),
        mono_arith(f1, f2),
{
    assert forall|c: Sx, env: Sx, g: Sx| settled(#[trigger] eval_car_s(f1, c, env, g), eval_car_s(f2, c, env, g)) by {
        let a = car_s(c).0;
        assert(settled(eval_s(f1, a, env, g), eval_s(f2, a, env, g)));
    }
    assert forall|c: Sx, env: Sx, g: Sx| settled(#[trigger] eval_cadr_s(f1, c, env, g), eval_cadr_s(f2, c, env, g)) by {
        let a = cadr_s(c).0;
        assert(settled(eval_s(f1, a, env, g), eval_s(f2, a, env, g)));
    }
    assert forall|c: Sx, env: Sx, g: Sx| settled2(#[trigger] eval_two_s(f1, c, env, g), eval_two_s(f2, c, env, g)) by {
        let r1 = eval_car_s(f1, c, env, g);
        assert(settled(r1, eval_car_s(f2, c, env, g)));
        assert(settled(eval_cadr_s(f1, c, env, r1.g), eval_cadr_s(f2, c, env, r1.g)));
    }
    assert forall|op: ArithOp, c: Sx, env: Sx, g: Sx| settled(#[trigger] arith_form_s(f1, op, c, env, g), arith_form_s(f2, op, c, env, g)) by {
        assert(settled2(eval_two_s(f1, c, env, g), eval_two_s(f2, c, env, g)));
    }
}

proof fn step_heads(f1: nat, f2: nat)
    requires
        f1 <= f2,
        mono_eval(f1, f2),
        mono_evlis(f1, f2),
        mono_loop(f1, f2),
    ensures
        mono_label(f1, f2),
        mono_lambda(f1, f2),
        mono_loop_form(f1, f2),
        mono_macro(f1, f2),
        mono_apply(f1, f2),
{
    assert forall|t1: Sx, head: Sx, c: Sx, env: Sx, g: Sx| settled(#[trigger] label_s(f1, t1, head, c, env, g), label_s(f2, t1, head, c, env, g)) by {
        let e2 = mk_cons(cadr_s(t1).0, c);
        let env2 = mk_cons(list_s(car_s(t1).0, head), env);
        assert(settled(eval_s(f1, e2, env2, g), eval_s(f2, e2, env2, g)));
    }
    assert forall|t1: Sx, c: Sx, env: Sx, g: Sx| settled(#[trigger] lambda_s(f1, t1, c, env, g), lambda_s(f2, t1, c, env, g)) by {
        let r1 = evlis_s(f1, c, env, g);
        assert(settled(r1, evlis_s(f2, c, env, g)));
        let r2 = evlis_s(f1, c, env, r1.g);
        assert(settled(r2, evlis_s(f2, c, env, r1.g)));
        if let Ok(args1) = r1.res {
            if let Ok(args2) = r2.res {
                let p = pair_s(car_s(t1).0, args2).0;
                let env2 = mk_cons(list_s(Sx::Sym(args_name()), args1), append_s(p, env));
                let body = cadr_s(t1).0;
                assert(settled(eval_s(f1, body, env2, r2.g), eval_s(f2, body, env2, r2.g)));
            }
        }
    }
    assert forall|t1: Sx, c: Sx, env: Sx, g: Sx| settled(#[trigger] loop_form_s(f1, t1, c, env, g), loop_form_s(f2, t1, c, env, g)) by {
        let r1 = evlis_s(f1, c, env, g);
        assert(settled(r1, evlis_s(f2, c, env, g)));
        if let Ok(args) = r1.res {
            let lenv = append_s(pair_s(car_s(t1).0, args).0, env);
            assert(settled(loop_s(f1, t1, env, lenv, r1.g), loop_s(f2, t1, env, lenv, r1.g)));
        }
    }
    assert forall|t1: Sx, c: Sx, env: Sx, g: Sx| settled(#[trigger] macro_s(f1, t1, c, env, g), macro_s(f2, t1, c, env, g)) by {
        let p = pair_s(car_s(t1).0, c).0;
        let env2 = mk_cons(list_s(Sx::Sym(args_name()), c), append_s(p, env));
        let body = cadr_s(t1).0;
        assert(settled(eval_s(f1, body, env2, g), eval_s(f2, body, env2, g)));
    }
    assert forall|h1: Sx, t1: Sx, head: Sx, c: Sx, env: Sx, g: Sx| settled(#[trigger] apply_s(f1, h1, t1, head, c, env, g), apply_s(f2, h1, t1, head, c, env, g)) by {
        if let Sx::Sym(name) = h1 {
            assert(settled(label_s(f1, t1, head, c, env, g), label_s(f2, t1, head, c, env, g)));
            assert(settled(lambda_s(f1, t1, c, env, g), lambda_s(f2, t1, c, env, g)));
            assert(settled(loop_form_s(f1, t1, c, env, g), loop_form_s(f2, t1, c, env, g)));
            assert(settled(macro_s(f1, t1, c, env, g), macro_s(f2, t1, c, env, g)));
            let e2 = mk_cons(mk_cons(assoc_s(h1, env).0, t1), c);
            assert(settled(eval_s(f1, e2, env, g), eval_s(f2, e2, env, g)));
        }
    }
}

proof fn step_form(f1: nat, f2: nat)
    requires
        f1 <= f2,
        mono_eval(f1, f2),
        mono_evlis(f1, f2),
        mono_evcond(f1, f2),
        mono_car(f1, f2),
        mono_cadr(f1, f2),
        mono_two(f1, f2),
        mono_arith(f1, f2),
    ensures
        mono_form(f1, f2),
{
    assert forall|name: Seq<u8>, head: Sx, c: Sx, env: Sx, g: Sx| settled(#[trigger] form_s(f1, name, head, c, env, g), form_s(f2, name, head, c, env, g)) by {
        let rc = eval_car_s(f1, c, env, g);
        assert(settled(rc, eval_car_s(f2, c, env, g)));
        assert(settled(eval_cadr_s(f1, c, env, g), eval_cadr_s(f2, c, env, g)));
        assert(settled2(eval_two_s(f1, c, env, g), eval_two_s(f2, c, env, g)));
        assert(settled(evlis_s(f1, c, env, g), evlis_s(f2, c, env, g)));
        assert(settled(evcond_s(f1, c, env, g), evcond_s(f2, c, env, g)));
        assert(settled(arith_form_s(f1, ArithOp::Plus, c, env, g), arith_form_s(f2, ArithOp::Plus, c, env, g)));
        assert(settled(arith_form_s(f1, ArithOp::Prod, c, env, g), arith_form_s(f2, ArithOp::Prod, c, env, g)));
        assert(settled(arith_form_s(f1, ArithOp::Diff, c, env, g), arith_form_s(f2, ArithOp::Diff, c, env, g)));
        assert(settled(arith_form_s(f1, ArithOp::Quot, c, env, g), arith_form_s(f2, ArithOp::Quot, c, env, g)));
        if let Ok(v) = rc.res {
            assert(settled(eval_s(f1, v, env, rc.g), eval_s(f2, v, env, rc.g)));
        }
        let rh = eval_s(f1, head, env, g);
        assert(settled(rh, eval_s(f2, head, env, g)));
        if let Ok(fv) = rh.res {
            assert(settled(eval_s(f1, mk_cons(fv, c), env, rh.g), eval_s(f2, mk_cons(fv, c), env, rh.g)));
        }
    }
}

proof fn lemma_mono_all(f1: nat, f2: nat)
    requires
        f1 <= f2,
    ensures
        mono_eval(f1, f2),
        mono_evlis(f1, f2),
        mono_evcond(f1, f2),
        mono_loop(f1, f2),
        mono_form(f1, f2),
        mono_apply(f1, f2),
    decreases f1,
{
    if f1 > 0 {
        lemma_mono_all((f1 - 1) as nat, (f2 - 1) as nat);
    }
    step_eval(f1, f2);
    step_evlis(f1, f2);
    step_evcond(f1, f2);
    step_loop(f1, f2);
    step_args(f1, f2);
    step_heads(f1, f2);
    step_form(f1, f2);
}

/// An evaluation that finishes within `f1` steps ends the same way with any larger budget.
pub proof fn law_fuel_monotone(f1: nat, f2: nat, e: Sx, env: Sx, g: Sx)
    requires
        f1 <= f2,
        eval_s(f1, e, env, g).res != Err::<Sx, Fault>(Fault::OutOfFuel),
    ensures
        eval_s(f2, e, env, g) == eval_s(f1, e, env, g),
{
    lemma_mono_all(f1, f2);
}

} // verus!
