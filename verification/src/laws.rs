//! What holds of the interpreter across its functions.
use crate::eval::{assoc_s, done, eval_s, pair_s};
use crate::printer::{print_car_s, print_cdr_s};
use crate::reader::{nil_word, parse_atom_s, parse_s, t_word};
use crate::sexpr::{append_s, car_s, cdr_s, eq_s, list_s, mk_cons, word, Fault, Note, Sx};
use crate::text::{
    all_digits, dec_s, digits_value, is_cont, is_digit, nat_digits, parse_i64_s, unsigned_part,
};
use vstd::prelude::*;

verus! {

/// The elements of a proper list, one that ends in NIL; `None` for anything else.
pub open spec fn items(e: Sx) -> Option<Seq<Sx>>
    decreases e,
{
    match e {
        Sx::Nil => Some(seq![]),
        Sx::Cons(h, t) => match items(*t) {
            Some(s) => Some(seq![*h] + s),
            None => None,
        },
        _ => None,
    }
}

/// The proper list of the given elements.
pub open spec fn from_items(s: Seq<Sx>) -> Sx
    decreases s.len(),
{
    if s.len() == 0 {
        Sx::Nil
    } else {
        mk_cons(s[0], from_items(s.drop_first()))
    }
}

/// CAR and CDR take apart what CONS builds, and report nothing.
pub proof fn law_car_cdr_of_cons(a: Sx, b: Sx)
    ensures
        car_s(mk_cons(a, b)) == (a, Seq::<Note>::empty()),
        cdr_s(mk_cons(a, b)) == (b, Seq::<Note>::empty()),
{
}

/// EQ answers T exactly for equal s-expressions; it is reflexive and symmetric.
pub proof fn law_eq_is_equality(a: Sx, b: Sx)
    ensures
        (eq_s(a, b) == Sx::T) <==> (a == b),
        (eq_s(a, b) == Sx::Nil) <==> (a != b),
        eq_s(a, a) == Sx::T,
        eq_s(a, b) == eq_s(b, a),
{
}

/// APPEND of two proper lists is the list of the elements of the first, then of the second.
pub proof fn law_append_concatenates(a: Sx, b: Sx)
    requires
        items(a) is Some,
        items(b) is Some,
    ensures
        items(append_s(a, b)) == Some(items(a).unwrap() + items(b).unwrap()),
    decreases a,
{
    match a {
        Sx::Cons(h, t) => {
            law_append_concatenates(*t, b);
            assert(seq![*h] + (items(*t).unwrap() + items(b).unwrap()) =~= (seq![*h] + items(
                *t,
            ).unwrap()) + items(b).unwrap());
        },
        _ => {
            assert(items(a).unwrap() + items(b).unwrap() =~= items(b).unwrap());
        },
    }
}

/// NIL is a unit of APPEND on proper lists.
pub proof fn law_append_nil(a: Sx, b: Sx)
    requires
        items(a) is Some,
    ensures
        append_s(Sx::Nil, b) == b,
        append_s(a, Sx::Nil) == a,
    decreases a,
{
    if let Sx::Cons(h, t) = a {
        law_append_nil(*t, b);
    }
}

/// APPEND is associative on proper lists.
pub proof fn law_append_associative(a: Sx, b: Sx, c: Sx)
    requires
        items(a) is Some,
    ensures
        append_s(append_s(a, b), c) == append_s(a, append_s(b, c)),
    decreases a,
{
    if let Sx::Cons(h, t) = a {
        law_append_associative(*t, b, c);
    }
}

/// PAIR of two proper lists of one length is the list of the pairs of their elements.
pub proof fn law_pair_zips(a: Sx, b: Sx)
    requires
        items(a) is Some,
        items(b) is Some,
        items(a).unwrap().len() == items(b).unwrap().len(),
    ensures
        pair_s(a, b) == (
            from_items(
                Seq::new(
                    items(a).unwrap().len(),
                    |i: int| list_s(items(a).unwrap()[i], items(b).unwrap()[i]),
                ),
            ),
            Seq::<Note>::empty(),
        ),
    decreases a,
{
    let sa = items(a).unwrap();
    let sb = items(b).unwrap();
    let zipped = Seq::new(sa.len(), |i: int| list_s(sa[i], sb[i]));
    match a {
        Sx::Cons(ha, ta) => match b {
            Sx::Cons(hb, tb) => {
                law_pair_zips(*ta, *tb);
                let sta = items(*ta).unwrap();
                let stb = items(*tb).unwrap();
                let rest = Seq::new(sta.len(), |i: int| list_s(sta[i], stb[i]));
                assert(zipped.drop_first() =~= rest);
                assert(zipped[0] == list_s(*ha, *hb));
            },
            _ => {},
        },
        _ => {
            assert(zipped =~= Seq::<Sx>::empty());
        },
    }
}

/// ASSOC finds the value of the first binding of a name.
pub proof fn law_assoc_first_binding(x: Sx, v: Sx, env: Sx)
    ensures
        assoc_s(x, mk_cons(list_s(x, v), env)) == (v, Seq::<Note>::empty()),
{
    assert(Seq::<Note>::empty() + Seq::<Note>::empty() =~= Seq::<Note>::empty());
}

/// ASSOC passes over a binding of another name.
pub proof fn law_assoc_other_binding(x: Sx, y: Sx, v: Sx, env: Sx)
    requires
        x != y,
    ensures
        assoc_s(x, mk_cons(list_s(y, v), env)) == assoc_s(x, env),
{
    let (r, ns) = assoc_s(x, env);
    assert(Seq::<Note>::empty() + ns =~= ns);
}

pub open spec fn quote_sym() -> Sx {
    Sx::Sym(word(seq!['Q', 'U', 'O', 'T', 'E']))
}

pub open spec fn setq_sym() -> Sx {
    Sx::Sym(word(seq!['S', 'E', 'T', 'Q']))
}

/// `(QUOTE x)` evaluates to `x`, changing nothing and reporting nothing.
pub proof fn law_quote(fuel: nat, x: Sx, env: Sx, g: Sx)
    requires
        fuel > 0,
    ensures
        eval_s(fuel, list_s(quote_sym(), x), env, g) == done(x, g, Seq::<Note>::empty()),
{
    assert(word(seq!['Q', 'U', 'O', 'T', 'E']) =~= seq![81u8, 85, 79, 84, 69]);
}

/// `(LAMBDA ...)` and `(MACRO ...)` evaluate to themselves.
pub proof fn law_lambda_is_a_value(fuel: nat, c: Sx, env: Sx, g: Sx)
    requires
        fuel > 0,
    ensures
        eval_s(fuel, mk_cons(Sx::Sym(word(seq!['L', 'A', 'M', 'B', 'D', 'A'])), c), env, g) == done(
            mk_cons(Sx::Sym(word(seq!['L', 'A', 'M', 'B', 'D', 'A'])), c),
            g,
            Seq::<Note>::empty(),
        ),
        eval_s(fuel, mk_cons(Sx::Sym(word(seq!['M', 'A', 'C', 'R', 'O'])), c), env, g) == done(
            mk_cons(Sx::Sym(word(seq!['M', 'A', 'C', 'R', 'O'])), c),
            g,
            Seq::<Note>::empty(),
        ),
{
    assert(word(seq!['L', 'A', 'M', 'B', 'D', 'A']) =~= seq![76u8, 65, 77, 66, 68, 65]);
    assert(word(seq!['M', 'A', 'C', 'R', 'O']) =~= seq![77u8, 65, 67, 82, 79]);
}

/// Numbers, T and NIL evaluate to themselves.
pub proof fn law_self_evaluating(fuel: nat, e: Sx, env: Sx, g: Sx)
    requires
        fuel > 0,
        e is Int || e is T || e is Nil,
    ensures
        eval_s(fuel, e, env, g) == done(e, g, Seq::<Note>::empty()),
{
}

/// After `(SETQ name e)` has evaluated to `v`, the name evaluates to `v` against the
/// global environment that it left, which is what the next line sees.
pub proof fn law_setq_then_lookup(fuel: nat, name: Seq<u8>, e: Sx, env: Sx, g: Sx)
    requires
        eval_s(fuel, mk_cons(setq_sym(), list_s(Sx::Sym(name), e)), env, g).res is Ok,
    ensures
        ({
            let r = eval_s(fuel, mk_cons(setq_sym(), list_s(Sx::Sym(name), e)), env, g);
            forall|f: nat|
                f > 0 ==> #[trigger] eval_s(f, Sx::Sym(name), r.g, r.g) == done(
                    r.res.unwrap(),
                    r.g,
                    Seq::<Note>::empty(),
                )
        }),
{
    assert(word(seq!['S', 'E', 'T', 'Q']) =~= seq![83u8, 69, 84, 81]);
    let r = eval_s(fuel, mk_cons(setq_sym(), list_s(Sx::Sym(name), e)), env, g);
    let v = r.res.unwrap();
    assert forall|f: nat| f > 0 implies #[trigger] eval_s(f, Sx::Sym(name), r.g, r.g) == done(
        v,
        r.g,
        Seq::<Note>::empty(),
    ) by {
        if let Sx::Cons(hd, tl) = r.g {
            assert(*hd == list_s(Sx::Sym(name), v));
            law_assoc_first_binding(Sx::Sym(name), v, *tl);
        }
    }
}

/// The decimal digits of a number read back as that number.
pub proof fn lemma_nat_digits(v: nat)
    ensures
        nat_digits(v).len() > 0,
        all_digits(nat_digits(v)),
        digits_value(nat_digits(v)) == v,
        48 <= nat_digits(v)[0] <= 57,
    decreases v,
{
    if v >= 10 {
        lemma_nat_digits(v / 10);
        let d = nat_digits(v);
        assert(d.drop_last() =~= nat_digits(v / 10));
        assert((v / 10) * 10 + v % 10 == v) by (nonlinear_arith);
        assert(d[0] == nat_digits(v / 10)[0]);
        assert(d.last() == (48 + v % 10) as u8);
        assert(digits_value(d) == digits_value(d.drop_last()) * 10 + (d.last() - 48) as nat);
    } else {
        let d = nat_digits(v);
        assert(d.drop_last() =~= Seq::<u8>::empty());
        assert(digits_value(d) == digits_value(d.drop_last()) * 10 + (d.last() - 48) as nat);
    }
}

/// Reading the decimal form of an `i64` gives the number back.
pub proof fn law_decimal_round_trip(n: i64)
    ensures
        parse_i64_s(dec_s(n)) == Some(n),
{
    let s = dec_s(n);
    if n < 0 {
        let m = (-n) as nat;
        lemma_nat_digits(m);
        assert(unsigned_part(s) =~= nat_digits(m));
    } else {
        lemma_nat_digits(n as nat);
        assert(unsigned_part(s) =~= nat_digits(n as nat));
    }
}

/// A symbol that reads back as itself: ASCII without whitespace (tab, line feed,
/// vertical tab, form feed, carriage return, space) or parentheses, not beginning
/// with a quote, and neither a number nor NIL nor T.
pub open spec fn plain_symbol(s: Seq<u8>) -> bool {
    &&& s.len() > 0
    &&& forall|i: int|
        0 <= i < s.len() ==> #[trigger] s[i] < 128 && !(9 <= s[i] <= 13) && s[i] != 32 && s[i] != 40
            && s[i] != 41
    &&& s[0] != 39
    &&& parse_i64_s(s) is None
    &&& s != nil_word()
    &&& s != t_word()
}

/// An atom whose printed form reads back as itself.
pub open spec fn readable_atom(e: Sx) -> bool {
    match e {
        Sx::Int(_) => true,
        Sx::T => true,
        Sx::Nil => true,
        Sx::Sym(s) => plain_symbol(s),
        Sx::Cons(_, _) => false,
    }
}

/// Printing an atom and reading the text gives the atom back, with nothing reported.
pub proof fn law_atom_round_trip(e: Sx)
    requires
        readable_atom(e),
    ensures
        parse_s(print_car_s(e)) == (Ok::<Sx, Fault>(e), Seq::<Note>::empty()),
{
    let s = print_car_s(e);
    match e {
        Sx::Int(n) => {
            law_decimal_round_trip(n);
            if n < 0 {
                lemma_nat_digits((-n) as nat);
                assert(s[1] == nat_digits((-n) as nat)[0]);
            } else {
                lemma_nat_digits(n as nat);
                if s.len() > 1 {
                    assert(!is_cont(s[1])) by {
                        assert(all_digits(s));
                        assert(is_digit(s[1]));
                    }
                }
            }
        },
        Sx::T => {
            assert(s =~= seq![84u8]);
            assert(t_word() =~= seq![84u8]);
        },
        Sx::Nil => {
            assert(s =~= seq![78u8, 73, 76]);
            assert(nil_word() =~= seq![78u8, 73, 76]);
            assert(parse_i64_s(s) is None) by {
                assert(unsigned_part(s) =~= s);
                assert(!is_digit(s[0]));
            }
        },
        Sx::Sym(name) => {
            assert(s[0] != 40);
        },
        _ => {},
    }
}

/// An atom that begins with a quote reads as `(QUOTE w)`, where `w` is the whole
/// rest of the atom after the quote, with nothing reported.
pub proof fn law_quote_prefix(w: Seq<u8>)
    ensures
        parse_atom_s(seq![39u8] + w) == list_s(quote_sym(), Sx::Sym(w)),
        w.len() == 0 || !is_cont(w[0]) ==> parse_s(seq![39u8] + w) == (
            Ok::<Sx, Fault>(list_s(quote_sym(), Sx::Sym(w))),
            Seq::<Note>::empty(),
        ),
{
    let s = seq![39u8] + w;
    assert(unsigned_part(s) =~= s);
    assert(!is_digit(s[0]));
    assert(parse_i64_s(s) is None);
    assert(nil_word()[0] == 78u8);
    assert(t_word()[0] == 84u8);
    assert(s != nil_word());
    assert(s != t_word());
    assert(s.subrange(1, s.len() as int) =~= w);
    assert(crate::reader::quote_word() =~= word(seq!['Q', 'U', 'O', 'T', 'E']));
}

/// A tail that is an atom other than NIL is written after ` . ` exactly as the atom
/// is written on its own, and then `)`; so the text of a dotted number tail reads
/// back as that number, sign included.
pub proof fn law_dotted_tail(x: Sx, n: i64)
    requires
        !(x is Cons),
        x != Sx::Nil,
    ensures
        print_cdr_s(x) == seq![32u8, 46, 32] + print_car_s(x) + seq![41u8],
        print_cdr_s(Sx::Int(n)) == seq![32u8, 46, 32] + print_car_s(Sx::Int(n)) + seq![41u8],
        parse_i64_s(print_car_s(Sx::Int(n))) == Some(n),
        print_cdr_s(Sx::Nil) == seq![41u8],
{
    law_decimal_round_trip(n);
    assert(word(seq![' ', '.', ' ']) =~= seq![32u8, 46, 32]);
    assert(word(seq![')']) =~= seq![41u8]);
    assert(word(seq![' ', '.', ' ', 'T', ')']) =~= seq![32u8, 46, 32] + word(seq!['T']) + seq![41u8]);
    assert(print_cdr_s(x) =~= seq![32u8, 46, 32] + print_car_s(x) + seq![41u8]);
    assert(print_cdr_s(Sx::Int(n)) =~= seq![32u8, 46, 32] + print_car_s(Sx::Int(n)) + seq![41u8]);
}

pub open spec fn eq_sym() -> Sx {
    Sx::Sym(word(seq!['E', 'Q']))
}

pub open spec fn atom_sym() -> Sx {
    Sx::Sym(word(seq!['A', 'T', 'O', 'M']))
}

/// `(EQ (QUOTE a) (QUOTE b))` is T when `a` and `b` are the same s-expression and NIL
/// when they differ (two different symbols among them), changing nothing and
/// reporting nothing.
pub proof fn law_eq_form(fuel: nat, a: Sx, b: Sx, env: Sx, g: Sx)
    requires
        fuel >= 2,
    ensures
        eval_s(fuel, mk_cons(eq_sym(), list_s(list_s(quote_sym(), a), list_s(quote_sym(), b))), env, g)
            == (done(if a == b { Sx::T } else { Sx::Nil }, g, Seq::<Note>::empty())),
{
    let f = (fuel - 1) as nat;
    let qa = list_s(quote_sym(), a);
    let qb = list_s(quote_sym(), b);
    let c = list_s(qa, qb);
    law_quote(f, a, env, g);
    law_quote(f, b, env, g);
    assert(word(seq!['E', 'Q']) =~= seq![69u8, 81]);
    assert(word(seq!['Q', 'U', 'O', 'T', 'E']) =~= seq![81u8, 85, 79, 84, 69]);
    assert(crate::eval::form_of(word(seq!['E', 'Q'])) == crate::eval::Form::Eq);
    let e = Seq::<Note>::empty();
    assert(e + e =~= e);
    assert(car_s(c) == (qa, e));
    assert(crate::sexpr::cadr_s(c) == (qb, e + e));
    assert(crate::eval::eval_car_s(f, c, env, g) == done(a, g, e));
    assert(crate::eval::eval_cadr_s(f, c, env, g) == done(b, g, e));
    let r2 = crate::eval::eval_two_s(f, c, env, g);
    assert(r2.res == Ok::<(Sx, Sx), Fault>((a, b)));
    assert(r2.g == g);
    assert(r2.notes =~= e);
    let name = word(seq!['E', 'Q']);
    assert(crate::eval::form_s(f, name, eq_sym(), c, env, g) == done(eq_s(a, b), g, e));
    assert(eval_s(fuel, mk_cons(eq_sym(), c), env, g) == crate::eval::form_s(f, name, eq_sym(), c, env, g));
}

/// `(ATOM (QUOTE x))` is NIL when `x` is NIL or a cell, and T when it is a symbol,
/// a number or T, changing nothing and reporting nothing.
pub proof fn law_atom_form(fuel: nat, x: Sx, env: Sx, g: Sx)
    requires
        fuel >= 2,
    ensures
        eval_s(fuel, list_s(atom_sym(), list_s(quote_sym(), x)), env, g) == (done(
            if x is Cons || x == Sx::Nil {
                Sx::Nil
            } else {
                Sx::T
            },
            g,
            Seq::<Note>::empty(),
        )),
{
    let f = (fuel - 1) as nat;
    let qx = list_s(quote_sym(), x);
    let c = mk_cons(qx, Sx::Nil);
    law_quote(f, x, env, g);
    assert(word(seq!['A', 'T', 'O', 'M']) =~= seq![65u8, 84, 79, 77]);
    assert(word(seq!['Q', 'U', 'O', 'T', 'E']) =~= seq![81u8, 85, 79, 84, 69]);
    assert(crate::eval::form_of(word(seq!['A', 'T', 'O', 'M'])) == crate::eval::Form::Atom);
    let e = Seq::<Note>::empty();
    assert(e + e =~= e);
    assert(car_s(c) == (qx, e));
    assert(crate::eval::eval_car_s(f, c, env, g) == done(x, g, e));
}

} // verus!
