//! The printer: s-expressions to text (UTF-8 bytes).
use crate::sexpr::{sx, word, Elem, Expr, Sx};
use crate::text::{dec_s, push_decimal};
use vstd::prelude::*;

verus! {

/// The text of an s-expression.
pub open spec fn print_car_s(e: Sx) -> Seq<u8>
    decreases e,
{
    match e {
        Sx::Sym(s) => s,
        Sx::Int(n) => dec_s(n),
        Sx::T => word(seq!['T']),
        Sx::Nil => word(seq!['N', 'I', 'L']),
        Sx::Cons(h, t) => word(seq!['(']) + print_car_s(*h) + print_cdr_s(*t),
    }
}

/// The text of the rest of a list after its first element, up to the closing
/// parenthesis; a tail that is not a list is written after ` . `.
pub open spec fn print_cdr_s(e: Sx) -> Seq<u8>
    decreases e,
{
    match e {
        Sx::Sym(s) => word(seq![' ', '.', ' ']) + s + word(seq![')']),
        Sx::Int(n) => word(seq![' ', '.', ' ']) + dec_s(n) + word(seq![')']),
        Sx::T => word(seq![' ', '.', ' ', 'T', ')']),
        Sx::Nil => word(seq![')']),
        Sx::Cons(h, t) => word(seq![' ']) + print_car_s(*h) + print_cdr_s(*t),
    }
}

fn push_word(out: &mut Vec<u8>, w: &[char])
    ensures
        final(out)@ == old(out)@ + word(w@),
{
    let mut i: usize = 0;
    while i < w.len()
        invariant
            i <= w.len(),
            out@ =~= old(out)@ + word(w@.subrange(0, i as int)),
        decreases w.len() - i,
    {
        out.push(w[i] as u8);
        i += 1;
        assert(word(w@.subrange(0, i as int)) =~= word(w@.subrange(0, i - 1)).push(w@[i - 1] as u8));
    }
    assert(w@.subrange(0, w.len() as int) =~= w@);
}

fn push_bytes(out: &mut Vec<u8>, b: &[u8])
    ensures
        final(out)@ == old(out)@ + b@,
{
    let mut i: usize = 0;
    while i < b.len()
        invariant
            i <= b.len(),
            out@ =~= old(out)@ + b@.subrange(0, i as int),
        decreases b.len() - i,
    {
        out.push(b[i]);
        i += 1;
    }
    assert(b@.subrange(0, b.len() as int) =~= b@);
}

/// Appends the text of `expr`.
pub fn write_car(expr: &Expr, out: &mut Vec<u8>)
    ensures
        final(out)@ == old(out)@ + print_car_s(sx(*expr)),
    decreases *expr, 1nat,
{
    match expr {
        Some(rc) => match &**rc {
            Elem::Symbol(symbol) => push_bytes(out, symbol.as_slice()),
            Elem::I64(number) => push_decimal(*number, out),
            Elem::T => push_word(out, &['T']),
            Elem::Node(head, tail) => {
                push_word(out, &['(']);
                write_car(head, out);
                write_cdr(tail, out);
                assert(out@ =~= old(out)@ + print_car_s(sx(*expr)));
            },
        },
        None => push_word(out, &['N', 'I', 'L']),
    }
}

/// Appends the text of the tail `expr` of a list.
pub fn write_cdr(expr: &Expr, out: &mut Vec<u8>)
    ensures
        final(out)@ == old(out)@ + print_cdr_s(sx(*expr)),
    decreases *expr, 1nat,
{
    match expr {
        Some(rc) => match &**rc {
            Elem::Symbol(symbol) => {
                push_word(out, &[' ', '.', ' ']);
                push_bytes(out, symbol.as_slice());
                push_word(out, &[')']);
                assert(out@ =~= old(out)@ + print_cdr_s(sx(*expr)));
            },
            Elem::I64(number) => {
                push_word(out, &[' ', '.', ' ']);
                push_decimal(*number, out);
                push_word(out, &[')']);
                assert(out@ =~= old(out)@ + print_cdr_s(sx(*expr)));
            },
            Elem::T => push_word(out, &[' ', '.', ' ', 'T', ')']),
            Elem::Node(head, tail) => {
                push_word(out, &[' ']);
                write_car(head, out);
                write_cdr(tail, out);
                assert(out@ =~= old(out)@ + print_cdr_s(sx(*expr)));
            },
        },
        None => push_word(out, &[')']),
    }
}

/// The text of an s-expression.
pub fn print_car(expr: &Expr) -> (res: Vec<u8>)
    ensures
        res@ == print_car_s(sx(*expr)),
{
    let mut out: Vec<u8> = Vec::new();
    write_car(expr, &mut out);
    assert(out@ =~= print_car_s(sx(*expr)));
    out
}

/// The text of the tail of a list.
pub fn print_cdr(expr: &Expr) -> (res: Vec<u8>)
    ensures
        res@ == print_cdr_s(sx(*expr)),
{
    let mut out: Vec<u8> = Vec::new();
    write_cdr(expr, &mut out);
    assert(out@ =~= print_cdr_s(sx(*expr)));
    out
}

} // verus!
