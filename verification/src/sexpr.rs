//! Cells, their mathematical model, and the list primitives of the interpreter.
use std::rc::Rc;
use vstd::prelude::*;

verus! {

/// A cell of the heap. A list is a chain of `Node`s ended by `None` (NIL).
#[derive(Debug)]
pub enum Elem {
    T,
    I64(i64),
    Symbol(Vec<u8>),
    Node(Expr, Expr),
}

/// An s-expression: `None` is NIL, anything else a shared cell.
pub type Expr = Option<Rc<Elem>>;

/// The value an s-expression denotes, with symbols as byte strings.
pub enum Sx {
    Nil,
    T,
    Int(i64),
    Sym(Seq<u8>),
    Cons(Box<Sx>, Box<Sx>),
}

/// The value that an expression denotes.
pub open spec fn sx(e: Expr) -> Sx
    decreases e,
{
    match e {
        None => Sx::Nil,
        Some(rc) => match *rc {
            Elem::T => Sx::T,
            Elem::I64(n) => Sx::Int(n),
            Elem::Symbol(s) => Sx::Sym(s@),
            Elem::Node(h, t) => Sx::Cons(Box::new(sx(h)), Box::new(sx(t))),
        },
    }
}

pub open spec fn mk_cons(a: Sx, b: Sx) -> Sx {
    Sx::Cons(Box::new(a), Box::new(b))
}

/// The two-element list `(a b)`.
pub open spec fn list_s(a: Sx, b: Sx) -> Sx {
    mk_cons(a, mk_cons(b, Sx::Nil))
}

/// The bytes of an ASCII word.
pub open spec fn word(cs: Seq<char>) -> Seq<u8> {
    cs.map_values(|c: char| c as u8)
}

/// Where the interpreter stops: the points at which the program panics, and the
/// exhaustion of the evaluation budget.
#[derive(Clone, Copy, Debug, PartialEq, Eq, Structural)]
pub enum Fault {
    /// The evaluation budget ran out before the evaluation ended.
    OutOfFuel,
    /// `i64` addition overflowed.
    AddOverflow,
    /// `i64` subtraction overflowed.
    SubOverflow,
    /// `i64` multiplication overflowed.
    MulOverflow,
    /// Division by zero.
    DivideByZero,
    /// `i64::MIN / -1`.
    DivideOverflow,
    /// A text slice out of range or off a character boundary.
    StrSlice,
    /// A character index past the end of the text.
    CharIndex,
    /// The `i32` nesting depth overflowed.
    DepthOverflow,
}

/// Compares a byte string with an ASCII word.
pub fn word_eq(name: &[u8], w: &[char]) -> (r: bool)
    ensures
        r == (name@ == word(w@)),
{
    if name.len() != w.len() {
        return false;
    }
    let mut i: usize = 0;
    while i < name.len()
        invariant
            name.len() == w.len(),
            i <= name.len(),
            forall|j: int| 0 <= j < i ==> name@[j] == word(w@)[j],
        decreases name.len() - i,
    {
        if name[i] != w[i] as u8 {
            return false;
        }
        i += 1;
    }
    assert(name@ =~= word(w@));
    true
}

/// The bytes of an ASCII word.
pub fn word_bytes(w: &[char]) -> (res: Vec<u8>)
    ensures
        res@ == word(w@),
{
    let mut res: Vec<u8> = Vec::new();
    let mut i: usize = 0;
    while i < w.len()
        invariant
            i <= w.len(),
            res@ =~= word(w@.subrange(0, i as int)),
        decreases w.len() - i,
    {
        res.push(w[i] as u8);
        i += 1;
        assert(word(w@.subrange(0, i as int)) =~= word(w@.subrange(0, i - 1)).push(w@[i - 1] as u8));
    }
    assert(w@.subrange(0, w.len() as int) =~= w@);
    res
}

/// The value of an executable result.
pub open spec fn res_sx(r: Result<Expr, Fault>) -> Result<Sx, Fault> {
    match r {
        Ok(e) => Ok(sx(e)),
        Err(f) => Err(f),
    }
}

/// A message that the interpreter reports while it reads or evaluates a line.
#[derive(Debug)]
pub enum Diagnostic {
    /// `car: Error. <x> is not a list`
    CarNotList(Expr),
    /// `cdr: Error. <x> is not a list`
    CdrNotList(Expr),
    /// `Error. <x> is not a list`
    NotAList(Expr),
    /// `Error. <x> is undefined`
    Undefined(Expr),
    /// `Error. <x> is not a number`
    NotANumber(Expr),
    /// `Error. <x> is not a function`
    NotAFunction(Expr),
    /// `Unmatched open token at <pos>`
    UnmatchedParen(usize),
}

/// The model of a diagnostic.
pub enum Note {
    CarNotList(Sx),
    CdrNotList(Sx),
    NotAList(Sx),
    Undefined(Sx),
    NotANumber(Sx),
    NotAFunction(Sx),
    UnmatchedParen(usize),
}

pub open spec fn note(d: Diagnostic) -> Note {
    match d {
        Diagnostic::CarNotList(e) => Note::CarNotList(sx(e)),
        Diagnostic::CdrNotList(e) => Note::CdrNotList(sx(e)),
        Diagnostic::NotAList(e) => Note::NotAList(sx(e)),
        Diagnostic::Undefined(e) => Note::Undefined(sx(e)),
        Diagnostic::NotANumber(e) => Note::NotANumber(sx(e)),
        Diagnostic::NotAFunction(e) => Note::NotAFunction(sx(e)),
        Diagnostic::UnmatchedParen(p) => Note::UnmatchedParen(p),
    }
}

/// The model of a log of diagnostics.
pub open spec fn notes(log: Seq<Diagnostic>) -> Seq<Note> {
    log.map_values(|d: Diagnostic| note(d))
}

/// `log` grew from `before` to `after` by exactly `ns`.
pub open spec fn logged(before: Seq<Diagnostic>, after: Seq<Diagnostic>, ns: Seq<Note>) -> bool {
    notes(after) == notes(before) + ns
}

/// Appends one diagnostic to the log.
pub fn emit(log: &mut Vec<Diagnostic>, d: Diagnostic)
    ensures
        logged(old(log)@, final(log)@, seq![note(d)]),
{
    let ghost d0 = d;
    log.push(d);
    assert(notes(log@) =~= notes(old(log)@) + seq![note(d0)]);
}

/// Calls `Rc::clone`: a new pointer to the same cell, so the value is the same.
#[verifier::external_body]
fn rc_clone(r: &Rc<Elem>) -> (res: Rc<Elem>)
    ensures
        res == *r,
{
    Rc::clone(r)
}

/// Another reference to the same expression.
pub fn clone_expr(e: &Expr) -> (res: Expr)
    ensures
        res == *e,
        sx(res) == sx(*e),
{
    match e {
        Some(r) => Some(rc_clone(r)),
        None => None,
    }
}

pub fn get_t() -> (res: Expr)
    ensures
        sx(res) == Sx::T,
{
    Some(Rc::new(Elem::T))
}

pub fn mk_symbol(name: Vec<u8>) -> (res: Expr)
    ensures
        sx(res) == Sx::Sym(name@),
{
    Some(Rc::new(Elem::Symbol(name)))
}

pub fn mk_int(n: i64) -> (res: Expr)
    ensures
        sx(res) == Sx::Int(n),
{
    Some(Rc::new(Elem::I64(n)))
}

pub open spec fn atom_s(e: Sx) -> Sx {
    match e {
        Sx::Nil => Sx::Nil,
        Sx::Cons(_, _) => Sx::Nil,
        _ => Sx::T,
    }
}

/// T for a number, a symbol or T; NIL for NIL and for a cell.
pub fn atom(expr: &Expr) -> (res: Expr)
    ensures
        sx(res) == atom_s(sx(*expr)),
{
    match expr {
        None => None,
        Some(elem) => match &**elem {
            Elem::Node(_, _) => None,
            _ => get_t(),
        },
    }
}

/// T when `a` and `b` denote the same s-expression, NIL otherwise.
pub open spec fn eq_s(a: Sx, b: Sx) -> Sx {
    if a == b {
        Sx::T
    } else {
        Sx::Nil
    }
}

/// Compares two byte strings.
pub fn bytes_equal(a: &[u8], b: &[u8]) -> (r: bool)
    ensures
        r == (a@ == b@),
{
    if a.len() != b.len() {
        return false;
    }
    let mut i: usize = 0;
    while i < a.len()
        invariant
            a.len() == b.len(),
            i <= a.len(),
            forall|j: int| 0 <= j < i ==> a@[j] == b@[j],
        decreases a.len() - i,
    {
        if a[i] != b[i] {
            return false;
        }
        i += 1;
    }
    assert(a@ =~= b@);
    true
}

/// Structural equality of two expressions, as T or NIL.
pub fn eq(a: &Expr, b: &Expr) -> (res: Expr)
    ensures
        sx(res) == eq_s(sx(*a), sx(*b)),
    decreases *a,
{
    match a {
        Some(elem_a) => match &**elem_a {
            Elem::Symbol(value_a) => match b {
                Some(elem_b) => match &**elem_b {
                    Elem::Symbol(value_b) => {
                        if bytes_equal(value_a.as_slice(), value_b.as_slice()) {
                            get_t()
                        } else {
                            None
                        }
                    },
                    _ => None,
                },
                None => None,
            },
            Elem::I64(num_a) => match b {
                Some(elem_b) => match &**elem_b {
                    Elem::I64(num_b) => {
                        if *num_a == *num_b {
                            get_t()
                        } else {
                            None
                        }
                    },
                    _ => None,
                },
                None => None,
            },
            Elem::T => match b {
                Some(elem_b) => match &**elem_b {
                    Elem::T => get_t(),
                    _ => None,
                },
                None => None,
            },
            Elem::Node(head_a, tail_a) => match b {
                Some(elem_b) => match &**elem_b {
                    Elem::Node(head_b, tail_b) => {
                        let eq_head = eq(head_a, head_b);
                        match eq_head {
                            Some(_) => eq(tail_a, tail_b),
                            None => None,
                        }
                    },
                    _ => None,
                },
                None => None,
            },
        },
        None => match b {
            None => get_t(),
            Some(_) => None,
        },
    }
}

/// A new cell with `a` as its head and `b` as its tail.
pub fn cons(a: &Expr, b: &Expr) -> (res: Expr)
    ensures
        sx(res) == mk_cons(sx(*a), sx(*b)),
{
    Some(Rc::new(Elem::Node(clone_expr(a), clone_expr(b))))
}

/// The head of a cell; NIL of NIL; NIL and a diagnostic for an atom.
pub open spec fn car_s(e: Sx) -> (Sx, Seq<Note>) {
    match e {
        Sx::Nil => (Sx::Nil, seq![]),
        Sx::Cons(h, _) => (*h, seq![]),
        _ => (Sx::Nil, seq![Note::CarNotList(e)]),
    }
}

/// The tail of a cell; NIL of NIL; NIL and a diagnostic for an atom.
pub open spec fn cdr_s(e: Sx) -> (Sx, Seq<Note>) {
    match e {
        Sx::Nil => (Sx::Nil, seq![]),
        Sx::Cons(_, t) => (*t, seq![]),
        _ => (Sx::Nil, seq![Note::CdrNotList(e)]),
    }
}

pub open spec fn cadr_s(e: Sx) -> (Sx, Seq<Note>) {
    let (a, n1) = cdr_s(e);
    let (b, n2) = car_s(a);
    (b, n1 + n2)
}

pub open spec fn caar_s(e: Sx) -> (Sx, Seq<Note>) {
    let (a, n1) = car_s(e);
    let (b, n2) = car_s(a);
    (b, n1 + n2)
}

pub open spec fn cadar_s(e: Sx) -> (Sx, Seq<Note>) {
    let (a, n1) = car_s(e);
    let (b, n2) = cadr_s(a);
    (b, n1 + n2)
}

pub open spec fn caddr_s(e: Sx) -> (Sx, Seq<Note>) {
    let (a, n1) = cdr_s(e);
    let (b, n2) = cadr_s(a);
    (b, n1 + n2)
}

pub open spec fn caadr_s(e: Sx) -> (Sx, Seq<Note>) {
    let (a, n1) = cdr_s(e);
    let (b, n2) = caar_s(a);
    (b, n1 + n2)
}

pub open spec fn cadadr_s(e: Sx) -> (Sx, Seq<Note>) {
    let (a, n1) = cdr_s(e);
    let (b, n2) = cadar_s(a);
    (b, n1 + n2)
}

pub fn car(expr: &Expr, log: &mut Vec<Diagnostic>) -> (res: Expr)
    ensures
        sx(res) == car_s(sx(*expr)).0,
        logged(old(log)@, final(log)@, car_s(sx(*expr)).1),
{
    match expr {
        None => {
            assert(notes(log@) =~= notes(log@) + seq![]);
            None
        },
        Some(elem) => match &**elem {
            Elem::Node(head, _tail) => {
                assert(notes(log@) =~= notes(log@) + seq![]);
                clone_expr(head)
            },
            _ => {
                emit(log, Diagnostic::CarNotList(clone_expr(expr)));
                None
            },
        },
    }
}

pub fn cdr(expr: &Expr, log: &mut Vec<Diagnostic>) -> (res: Expr)
    ensures
        sx(res) == cdr_s(sx(*expr)).0,
        logged(old(log)@, final(log)@, cdr_s(sx(*expr)).1),
{
    match expr {
        None => {
            assert(notes(log@) =~= notes(log@) + seq![]);
            None
        },
        Some(elem) => match &**elem {
            Elem::Node(_head, tail) => {
                assert(notes(log@) =~= notes(log@) + seq![]);
                clone_expr(tail)
            },
            _ => {
                emit(log, Diagnostic::CdrNotList(clone_expr(expr)));
                None
            },
        },
    }
}

pub fn cadr(expr: &Expr, log: &mut Vec<Diagnostic>) -> (res: Expr)
    ensures
        sx(res) == cadr_s(sx(*expr)).0,
        logged(old(log)@, final(log)@, cadr_s(sx(*expr)).1),
{
    let d = cdr(expr, log);
    let r = car(&d, log);
    assert(notes(log@) =~= notes(old(log)@) + cadr_s(sx(*expr)).1);
    r
}

pub fn caar(expr: &Expr, log: &mut Vec<Diagnostic>) -> (res: Expr)
    ensures
        sx(res) == caar_s(sx(*expr)).0,
        logged(old(log)@, final(log)@, caar_s(sx(*expr)).1),
{
    let a = car(expr, log);
    let r = car(&a, log);
    assert(notes(log@) =~= notes(old(log)@) + caar_s(sx(*expr)).1);
    r
}

pub fn cadar(expr: &Expr, log: &mut Vec<Diagnostic>) -> (res: Expr)
    ensures
        sx(res) == cadar_s(sx(*expr)).0,
        logged(old(log)@, final(log)@, cadar_s(sx(*expr)).1),
{
    let a = car(expr, log);
    let r = cadr(&a, log);
    assert(notes(log@) =~= notes(old(log)@) + cadar_s(sx(*expr)).1);
    r
}

pub fn caddr(expr: &Expr, log: &mut Vec<Diagnostic>) -> (res: Expr)
    ensures
        sx(res) == caddr_s(sx(*expr)).0,
        logged(old(log)@, final(log)@, caddr_s(sx(*expr)).1),
{
    let d = cdr(expr, log);
    let r = cadr(&d, log);
    assert(notes(log@) =~= notes(old(log)@) + caddr_s(sx(*expr)).1);
    r
}

pub fn caadr(expr: &Expr, log: &mut Vec<Diagnostic>) -> (res: Expr)
    ensures
        sx(res) == caadr_s(sx(*expr)).0,
        logged(old(log)@, final(log)@, caadr_s(sx(*expr)).1),
{
    let d = cdr(expr, log);
    let r = caar(&d, log);
    assert(notes(log@) =~= notes(old(log)@) + caadr_s(sx(*expr)).1);
    r
}

pub fn cadadr(expr: &Expr, log: &mut Vec<Diagnostic>) -> (res: Expr)
    ensures
        sx(res) == cadadr_s(sx(*expr)).0,
        logged(old(log)@, final(log)@, cadadr_s(sx(*expr)).1),
{
    let d = cdr(expr, log);
    let r = cadar(&d, log);
    assert(notes(log@) =~= notes(old(log)@) + cadadr_s(sx(*expr)).1);
    r
}

/// The two-element list `(a b)`.
pub fn list(a: &Expr, b: &Expr) -> (res: Expr)
    ensures
        sx(res) == list_s(sx(*a), sx(*b)),
{
    cons(a, &cons(b, &None))
}

/// The cells of `a` followed by `b`; an atom `a` becomes the head of one cell.
pub open spec fn append_s(a: Sx, b: Sx) -> Sx
    decreases a,
{
    match a {
        Sx::Cons(h, t) => mk_cons(*h, append_s(*t, b)),
        Sx::Nil => b,
        _ => mk_cons(a, b),
    }
}

pub fn append(a: &Expr, b: &Expr) -> (res: Expr)
    ensures
        sx(res) == append_s(sx(*a), sx(*b)),
    decreases *a,
{
    match a {
        Some(rc) => match &**rc {
            Elem::Node(head, tail) => cons(head, &append(tail, b)),
            _ => cons(a, b),
        },
        None => clone_expr(b),
    }
}

} // verus!
