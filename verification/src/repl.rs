//! One line of the read-eval-print loop, and the environment it starts from.
use crate::eval::{eval, eval_s};
use crate::printer::{print_car, print_car_s};
use crate::reader::{parse, parse_s};
use crate::sexpr::{clone_expr, notes, sx, word, word_bytes, Diagnostic, Expr, Fault, Note, Sx, res_sx};
use vstd::prelude::*;
use vstd::utf8::encode_utf8;

verus! {

/// The bindings that the interpreter starts with, as text.
pub const INITIAL_BINDINGS: [char; 236] = [
    '(', '(', 'Q', 'U', 'O', 'T', 'E', ' ', 'Q', 'U', 'O', 'T', 'E', ')', ' ', '(',
    'A', 'T', 'O', 'M', ' ', 'A', 'T', 'O', 'M', ')', ' ', '(', 'E', 'Q', ' ', 'E',
    'Q', ')', ' ', '(', 'C', 'A', 'R', ' ', 'C', 'A', 'R', ')', ' ', '(', 'C', 'D',
    'R', ' ', 'C', 'D', 'R', ')', ' ', '(', 'C', 'O', 'N', 'S', ' ', 'C', 'O', 'N',
    'S', ')', ' ', '(', 'L', 'I', 'S', 'T', ' ', 'L', 'I', 'S', 'T', ')', ' ', '(',
    'C', 'O', 'N', 'D', ' ', 'C', 'O', 'N', 'D', ')', ' ', '(', 'P', 'L', 'U', 'S',
    ' ', 'P', 'L', 'U', 'S', ')', ' ', '(', 'P', 'R', 'O', 'D', ' ', 'P', 'R', 'O',
    'D', ')', ' ', '(', 'D', 'I', 'F', 'F', ' ', 'D', 'I', 'F', 'F', ')', ' ', '(',
    'Q', 'U', 'O', 'T', ')', ' ', '(', 'Q', 'U', 'O', 'T', ')', ' ', '(', 'L', 'A',
    'M', 'B', 'D', 'A', ' ', 'L', 'A', 'M', 'B', 'D', 'A', ')', ' ', '(', 'M', 'A',
    'C', 'R', 'O', ' ', 'M', 'A', 'C', 'R', 'O', ')', ' ', '(', 'S', 'E', 'T', 'Q',
    ' ', 'S', 'E', 'T', 'Q', ')', ' ', '(', 'A', 'P', 'P', 'E', 'N', 'D', ' ', 'A',
    'P', 'P', 'E', 'N', 'D', ')', ' ', '(', 'R', 'E', 'D', 'U', 'C', 'E', ' ', 'R',
    'E', 'D', 'U', 'C', 'E', ')', ' ', '(', 'L', 'O', 'O', 'P', ' ', 'L', 'O', 'O',
    'P', ')', ' ', '(', 'N', 'I', 'L', ' ', '(', ')', ')', ')',
];

pub open spec fn initial_bindings() -> Seq<u8> {
    word(INITIAL_BINDINGS@)
}

/// Reads the initial bindings.
pub fn initial_env(log: &mut Vec<Diagnostic>) -> (res: Result<Expr, Fault>)
    ensures
        res_sx(res) == parse_s(initial_bindings()).0,
        notes(final(log)@) =~= notes(old(log)@) + parse_s(initial_bindings()).1,
{
    let text = word_bytes(&INITIAL_BINDINGS);
    parse(text.as_slice(), log)
}

/// The outcome of one line: the printed value or a fault, the global environment
/// afterwards, and the diagnostics reported.
#[verifier::ext_equal]
pub struct LineRun {
    pub res: Result<Seq<u8>, Fault>,
    pub g: Sx,
    pub notes: Seq<Note>,
}

/// Reads `text`, evaluates it with the global environment `g` as its local
/// environment too, and prints the value.
pub open spec fn eval_line_s(text: Seq<u8>, g: Sx, fuel: nat) -> LineRun {
    let (p, n1) = parse_s(text);
    match p {
        Err(f) => LineRun { res: Err(f), g, notes: n1 },
        Ok(e) => {
            let r = eval_s(fuel, e, g, g);
            match r.res {
                Err(f) => LineRun { res: Err(f), g: r.g, notes: n1 + r.notes },
                Ok(v) => LineRun { res: Ok(print_car_s(v)), g: r.g, notes: n1 + r.notes },
            }
        },
    }
}

/// The executable outcome is that of `r`.
pub open spec fn line_runs(r: LineRun, res: Result<Vec<u8>, Fault>, g: Expr) -> bool {
    &&& match res {
        Ok(out) => r.res == Ok::<Seq<u8>, Fault>(out@),
        Err(f) => r.res == Err::<Seq<u8>, Fault>(f),
    }
    &&& r.g == sx(g)
}

/// Reads, evaluates and prints one line of (uppercased) text.
pub fn eval_line(
    text: &[u8],
    global_env: &mut Expr,
    log: &mut Vec<Diagnostic>,
    fuel: u64,
) -> (res: Result<Vec<u8>, Fault>)
    ensures
        line_runs(eval_line_s(text@, sx(*old(global_env)), fuel as nat), res, *final(global_env)),
        notes(final(log)@) =~= notes(old(log)@) + eval_line_s(
            text@,
            sx(*old(global_env)),
            fuel as nat,
        ).notes,
{
    let parsed = parse(text, log)?;
    let env = clone_expr(global_env);
    let result = eval(&parsed, &env, global_env, log, fuel)?;
    Ok(print_car(&result))
}

/// What `str::to_uppercase` returns for a text; it depends on the text alone.
pub uninterp spec fn uppercase(s: Seq<char>) -> Seq<char>;

/// Calls `str::to_uppercase`; its result is named `uppercase` of the text, which
/// the Unicode case tables of std determine. Nothing more is claimed of it.
#[verifier::external_body]
fn to_uppercase(s: &str) -> (res: String)
    ensures
        res@ == uppercase(s@),
{
    s.to_uppercase()
}

/// One line of the loop: the line is uppercased, then read, evaluated in the
/// global environment, and printed.
pub fn read_eval_print(
    line: &str,
    global_env: &mut Expr,
    log: &mut Vec<Diagnostic>,
    fuel: u64,
) -> (res: Result<Vec<u8>, Fault>)
    ensures
        line_runs(
            eval_line_s(encode_utf8(uppercase(line@)), sx(*old(global_env)), fuel as nat),
            res,
            *final(global_env),
        ),
        notes(final(log)@) =~= notes(old(log)@) + eval_line_s(
            encode_utf8(uppercase(line@)),
            sx(*old(global_env)),
            fuel as nat,
        ).notes,
{
    let upper = to_uppercase(line);
    let text = upper.as_str().as_bytes();
    eval_line(text, global_env, log, fuel)
}

} // verus!
