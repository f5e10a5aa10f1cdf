//! The reader: text (UTF-8 bytes) to s-expressions.
//!
//! A parenthesized text is cut at its top level into words and bracketed groups,
//! with the positions of the parentheses found by a regular expression; each piece
//! is then read in turn. Where the cutting meets a `)` with no `(` open, the
//! pieces read so far are replaced by `NIL`.
use crate::sexpr::{
    emit, list_s, mk_cons, mk_int, mk_symbol, notes, res_sx, sx, word, word_bytes, word_eq, cons,
    get_t, list, Diagnostic, Expr, Fault, Note, Sx,
};
use crate::text::{
    check_slice, copy_range, lemma_split_from_short, lemma_views_add, lemma_views_push,
    nth_char_lead, nth_lead, parse_i64, parse_i64_s, slice_ok, split_whitespace, split_ws, views,
};
use vstd::prelude::*;

verus! {

pub open spec fn nil_word() -> Seq<u8> {
    word(seq!['N', 'I', 'L'])
}

pub open spec fn t_word() -> Seq<u8> {
    word(seq!['T'])
}

pub open spec fn quote_word() -> Seq<u8> {
    word(seq!['Q', 'U', 'O', 'T', 'E'])
}

/// The regular expression that matches one parenthesis.
pub open spec fn paren_pattern() -> Seq<char> {
    seq!['\\', '(', '|', '\\', ')']
}

/// The spans `(i, i + 1)` of the bytes `(` and `)` of `h` from index `i` on, in order.
pub open spec fn spans_from(h: Seq<u8>, i: int) -> Seq<(usize, usize)>
    decreases h.len() - i,
{
    if i >= h.len() {
        seq![]
    } else if h[i] == 40 || h[i] == 41 {
        seq![(i as usize, (i + 1) as usize)] + spans_from(h, i + 1)
    } else {
        spans_from(h, i + 1)
    }
}

pub open spec fn paren_spans(h: Seq<u8>) -> Seq<(usize, usize)> {
    spans_from(h, 0)
}

/// Calls `regex::bytes::Regex::new(pattern)` and collects `(start, end)` of each match
/// that `find_iter(haystack)` yields. The crate documents `find_iter` as yielding the
/// successive non-overlapping matches from left to right; every match of `\(|\)` is
/// one byte, `(` or `)`, so they are the spans of those bytes in order. `Regex::new`
/// accepts that pattern, so the `unwrap` does not panic. Nothing else is claimed.
#[verifier::external_body]
fn paren_matches(pattern: &str, haystack: &[u8]) -> (spans: Vec<(usize, usize)>)
    requires
        pattern@ == paren_pattern(),
    ensures
        spans@ == paren_spans(haystack@),
{
    regex::bytes::Regex::new(pattern).unwrap().find_iter(haystack).map(|m| (m.start(), m.end())).collect()
}

/// Whether a text is an atom (does not begin with `(`); its first character must be one byte.
pub open spec fn is_atom_s(s: Seq<u8>) -> Result<bool, Fault> {
    if !slice_ok(s, 0, 1) {
        Err(Fault::StrSlice)
    } else {
        Ok(s[0] != 40)
    }
}

pub fn is_atom(text: &[u8]) -> (res: Result<bool, Fault>)
    ensures
        res == is_atom_s(text@),
{
    if !check_slice(text, 0, 1) {
        return Err(Fault::StrSlice);
    }
    Ok(text[0] != 40)
}

/// Reads an atom: a number, NIL, T, `'x` (which reads as `(QUOTE x)`), or a symbol.
/// The atom is not empty and its first character is one byte (`is_atom_s` checks that).
pub open spec fn parse_atom_s(s: Seq<u8>) -> Sx {
    match parse_i64_s(s) {
        Some(n) => Sx::Int(n),
        None => if s == nil_word() {
            Sx::Nil
        } else if s == t_word() {
            Sx::T
        } else if s[0] != 39 {
            Sx::Sym(s)
        } else {
            list_s(Sx::Sym(quote_word()), Sx::Sym(s.subrange(1, s.len() as int)))
        },
    }
}

pub fn parse_atom(atom: &[u8]) -> (res: Expr)
    requires
        slice_ok(atom@, 0, 1),
    ensures
        sx(res) == parse_atom_s(atom@),
{
    let t_chars = ['T'];
    assert(t_chars@ =~= seq!['T']);
    match parse_i64(atom) {
        Some(number) => mk_int(number),
        None => {
            if word_eq(atom, &['N', 'I', 'L']) {
                None
            } else if word_eq(atom, &t_chars) {
                get_t()
            } else {
                let rest_word = copy_range(atom, 1, atom.len());
                if atom[0] != 39 {
                    let whole = copy_range(atom, 0, atom.len());
                    assert(whole@ =~= atom@);
                    mk_symbol(whole)
                } else {
                    let quote = mk_symbol(word_bytes(&['Q', 'U', 'O', 'T', 'E']));
                    list(&quote, &mk_symbol(rest_word))
                }
            }
        },
    }
}

/// The pieces of a parenthesized text, and the diagnostics reported while cutting it.
#[verifier::ext_equal]
pub struct Scan {
    pub res: Result<Seq<Seq<u8>>, Fault>,
    pub notes: Seq<Note>,
}

pub open spec fn scan_err(f: Fault) -> Scan {
    Scan { res: Err(f), notes: seq![] }
}

/// The last words, from `pos` to the end of `sub`.
pub open spec fn finish_s(sub: Seq<u8>, pos: int, toks: Seq<Seq<u8>>, ns: Seq<Note>) -> Scan {
    if !slice_ok(sub, pos, sub.len() as int) {
        Scan { res: Err(Fault::StrSlice), notes: ns }
    } else {
        Scan { res: Ok(toks + split_ws(sub.subrange(pos, sub.len() as int))), notes: ns }
    }
}

/// Cuts `sub` at the parentheses `spans[k..]`: at depth 0 the words before a
/// parenthesis are pieces, and so is each group that closes back to depth 0.
pub open spec fn scan_s(
    sub: Seq<u8>,
    spans: Seq<(usize, usize)>,
    k: int,
    pos: int,
    depth: int,
    toks: Seq<Seq<u8>>,
) -> Scan
    decreases spans.len() - k,
{
    if k < 0 || k >= spans.len() {
        finish_s(sub, pos, toks, seq![])
    } else {
        let start = spans[k].0 as int;
        let end = spans[k].1 as int;
        match nth_lead(sub, start) {
            None => scan_err(Fault::CharIndex),
            Some(c) => if depth == 0 && !slice_ok(sub, pos, start) {
                scan_err(Fault::StrSlice)
            } else {
                let toks1 = if depth == 0 {
                    toks + split_ws(sub.subrange(pos, start))
                } else {
                    toks
                };
                let pos1 = if depth == 0 {
                    start
                } else {
                    pos
                };
                if c == 40 {
                    if depth == i32::MAX {
                        scan_err(Fault::DepthOverflow)
                    } else {
                        scan_s(sub, spans, k + 1, pos1, depth + 1, toks1)
                    }
                } else if c == 41 {
                    if depth == 0 {
                        finish_s(sub, pos1, seq![nil_word()], seq![Note::UnmatchedParen(pos1 as usize)])
                    } else if depth == 1 {
                        if !slice_ok(sub, pos1, end) {
                            scan_err(Fault::StrSlice)
                        } else {
                            scan_s(sub, spans, k + 1, end, 0, toks1.push(sub.subrange(pos1, end)))
                        }
                    } else {
                        scan_s(sub, spans, k + 1, pos1, depth - 1, toks1)
                    }
                } else {
                    scan_s(sub, spans, k + 1, pos1, depth, toks1)
                }
            },
        }
    }
}

/// The pieces of the text `s`, whose first and last characters are dropped.
pub open spec fn parse_s_expr_s(s: Seq<u8>) -> Scan {
    if s.len() == 0 {
        scan_err(Fault::SubOverflow)
    } else if !slice_ok(s, 1, s.len() - 1) {
        scan_err(Fault::StrSlice)
    } else {
        let sub = s.subrange(1, s.len() - 1);
        scan_s(sub, paren_spans(sub), 0, 0, 0, seq![])
    }
}

/// The executable result is the scan's.
pub open spec fn scanned(sc: Scan, res: Result<Vec<Vec<u8>>, Fault>) -> bool {
    match res {
        Ok(t) => sc.res == Ok::<Seq<Seq<u8>>, Fault>(views(t@)),
        Err(f) => sc.res == Err::<Seq<Seq<u8>>, Fault>(f),
    }
}

fn finish_tokens(sub: &[u8], pos: usize, toks: Vec<Vec<u8>>) -> (res: Result<Vec<Vec<u8>>, Fault>)
    ensures
        scanned(finish_s(sub@, pos as int, views(toks@), seq![]), res),
{
    if !check_slice(sub, pos, sub.len()) {
        return Err(Fault::StrSlice);
    }
    let mut toks = toks;
    let ghost before = toks@;
    let mut words = split_whitespace(&sub[pos..sub.len()]);
    let ghost w = words@;
    toks.append(&mut words);
    proof {
        lemma_views_add(before, w);
    }
    Ok(toks)
}

/// Cuts a parenthesized text into the pieces between its outer parentheses.
pub fn parse_s_expr(expr: &[u8], log: &mut Vec<Diagnostic>) -> (res: Result<Vec<Vec<u8>>, Fault>)
    ensures
        scanned(parse_s_expr_s(expr@), res),
        notes(final(log)@) =~= notes(old(log)@) + parse_s_expr_s(expr@).notes,
{
    let length = expr.len();
    if length == 0 {
        return Err(Fault::SubOverflow);
    }
    if !check_slice(expr, 1, length - 1) {
        return Err(Fault::StrSlice);
    }
    let subexpr = &expr[1..length - 1];
    let pattern = "\\(|\\)";
    proof {
        reveal_strlit("\\(|\\)");
        assert(pattern@ =~= paren_pattern());
    }
    let spans = paren_matches(pattern, subexpr);
    let ghost whole = scan_s(subexpr@, spans@, 0, 0, 0, seq![]);
    let mut result: Vec<Vec<u8>> = Vec::new();
    let mut pos: usize = 0;
    let mut depth: i32 = 0;
    let mut k: usize = 0;
    assert(views(result@) =~= seq![]);
    while k < spans.len()
        invariant
            k <= spans.len(),
            0 <= depth,
            whole == scan_s(subexpr@, spans@, k as int, pos as int, depth as int, views(result@)),
            whole == parse_s_expr_s(expr@),
            notes(log@) == notes(old(log)@),
        decreases spans.len() - k,
    {
        let (start, end) = spans[k];
        let paren = match nth_char_lead(subexpr, start) {
            Some(c) => c,
            None => {
                assert(notes(log@) =~= notes(old(log)@) + seq![]);
                return Err(Fault::CharIndex);
            },
        };
        if depth == 0 {
            if !check_slice(subexpr, pos, start) {
                assert(notes(log@) =~= notes(old(log)@) + seq![]);
                return Err(Fault::StrSlice);
            }
            let ghost before = result@;
            let mut words = split_whitespace(&subexpr[pos..start]);
            let ghost w = words@;
            result.append(&mut words);
            proof {
                lemma_views_add(before, w);
            }
            pos = start;
        }
        if paren == 40 {
            if depth == i32::MAX {
                assert(notes(log@) =~= notes(old(log)@) + seq![]);
                return Err(Fault::DepthOverflow);
            }
            depth += 1;
        } else if paren == 41 {
            if depth == 0 {
                emit(log, Diagnostic::UnmatchedParen(pos));
                let mut only: Vec<Vec<u8>> = Vec::new();
                only.push(word_bytes(&['N', 'I', 'L']));
                assert(views(only@) =~= seq![nil_word()]);
                return finish_tokens(subexpr, pos, only);
            }
            depth -= 1;
            if depth == 0 {
                if !check_slice(subexpr, pos, end) {
                    assert(notes(log@) =~= notes(old(log)@) + seq![]);
                    return Err(Fault::StrSlice);
                }
                let piece = copy_range(subexpr, pos, end);
                proof {
                    lemma_views_push(result@, piece);
                }
                result.push(piece);
                pos = end;
            }
        }
        k += 1;
    }
    assert(notes(log@) =~= notes(old(log)@) + seq![]);
    finish_tokens(subexpr, pos, result)
}

/// The size that decreases as the reader descends: the length of a parenthesized
/// text, 0 for an atom.
pub open spec fn read_measure(s: Seq<u8>) -> nat {
    if is_atom_s(s) == Ok::<bool, Fault>(false) {
        s.len()
    } else {
        0
    }
}

pub open spec fn max_measure(ts: Seq<Seq<u8>>) -> nat
    decreases ts.len(),
{
    if ts.len() == 0 {
        0
    } else {
        let a = read_measure(ts[0]);
        let b = max_measure(ts.drop_first());
        if a > b {
            a
        } else {
            b
        }
    }
}

/// A piece of a text within `sub`: no longer than `sub`, or the word NIL.
pub open spec fn short_piece(t: Seq<u8>, sub: Seq<u8>) -> bool {
    t.len() <= sub.len() || t == nil_word()
}

proof fn lemma_words_short(sub: Seq<u8>, a: int, b: int)
    requires
        0 <= a <= b <= sub.len(),
    ensures
        forall|j: int|
            0 <= j < split_ws(sub.subrange(a, b)).len() ==> short_piece(
                #[trigger] split_ws(sub.subrange(a, b))[j],
                sub,
            ),
{
    lemma_split_from_short(sub.subrange(a, b), 0, 0);
}

proof fn lemma_finish_short(sub: Seq<u8>, pos: int, toks: Seq<Seq<u8>>, ns: Seq<Note>)
    requires
        forall|j: int| 0 <= j < toks.len() ==> short_piece(#[trigger] toks[j], sub),
    ensures
        finish_s(sub, pos, toks, ns).res matches Ok(ts) ==> forall|j: int|
            0 <= j < ts.len() ==> short_piece(#[trigger] ts[j], sub),
{
    if slice_ok(sub, pos, sub.len() as int) {
        lemma_words_short(sub, pos, sub.len() as int);
        let w = split_ws(sub.subrange(pos, sub.len() as int));
        let ts = toks + w;
        assert forall|j: int| 0 <= j < ts.len() implies short_piece(#[trigger] ts[j], sub) by {
            if j >= toks.len() {
                assert(ts[j] == w[j - toks.len()]);
            }
        }
    }
}

/// Every piece that a scan yields is short.
proof fn lemma_scan_short(
    sub: Seq<u8>,
    spans: Seq<(usize, usize)>,
    k: int,
    pos: int,
    depth: int,
    toks: Seq<Seq<u8>>,
)
    requires
        forall|j: int| 0 <= j < toks.len() ==> short_piece(#[trigger] toks[j], sub),
    ensures
        scan_s(sub, spans, k, pos, depth, toks).res matches Ok(ts) ==> forall|j: int|
            0 <= j < ts.len() ==> short_piece(#[trigger] ts[j], sub),
    decreases spans.len() - k,
{
    if k < 0 || k >= spans.len() {
        lemma_finish_short(sub, pos, toks, seq![]);
    } else {
        let start = spans[k].0 as int;
        let end = spans[k].1 as int;
        match nth_lead(sub, start) {
            None => {},
            Some(c) => if depth == 0 && !slice_ok(sub, pos, start) {
            } else {
                let toks1 = if depth == 0 {
                    toks + split_ws(sub.subrange(pos, start))
                } else {
                    toks
                };
                let pos1 = if depth == 0 {
                    start
                } else {
                    pos
                };
                if depth == 0 {
                    lemma_words_short(sub, pos, start);
                    let w = split_ws(sub.subrange(pos, start));
                    assert forall|j: int| 0 <= j < toks1.len() implies short_piece(
                        #[trigger] toks1[j],
                        sub,
                    ) by {
                        if j >= toks.len() {
                            assert(toks1[j] == w[j - toks.len()]);
                        }
                    }
                }
                if c == 40 {
                    if depth != i32::MAX {
                        lemma_scan_short(sub, spans, k + 1, pos1, depth + 1, toks1);
                    }
                } else if c == 41 {
                    if depth == 0 {
                        let only = seq![nil_word()];
                        assert(forall|j: int| 0 <= j < only.len() ==> short_piece(#[trigger] only[j], sub));
                        lemma_finish_short(sub, pos1, only, seq![Note::UnmatchedParen(pos1 as usize)]);
                    } else if depth == 1 {
                        if slice_ok(sub, pos1, end) {
                            let toks2 = toks1.push(sub.subrange(pos1, end));
                            assert forall|j: int| 0 <= j < toks2.len() implies short_piece(
                                #[trigger] toks2[j],
                                sub,
                            ) by {
                                if j < toks1.len() {
                                    assert(toks2[j] == toks1[j]);
                                }
                            }
                            lemma_scan_short(sub, spans, k + 1, end, 0, toks2);
                        }
                    } else {
                        lemma_scan_short(sub, spans, k + 1, pos1, depth - 1, toks1);
                    }
                } else {
                    lemma_scan_short(sub, spans, k + 1, pos1, depth, toks1);
                }
            },
        }
    }
}

proof fn lemma_max_measure_below(ts: Seq<Seq<u8>>, bound: nat)
    requires
        bound > 0,
        forall|j: int| 0 <= j < ts.len() ==> read_measure(#[trigger] ts[j]) < bound,
    ensures
        max_measure(ts) < bound,
    decreases ts.len(),
{
    if ts.len() > 0 {
        let tail = ts.drop_first();
        assert forall|j: int| 0 <= j < tail.len() implies read_measure(#[trigger] tail[j]) < bound by {
            assert(tail[j] == ts[j + 1]);
        }
        lemma_max_measure_below(tail, bound);
    }
}

/// The pieces of a parenthesized text are smaller than it.
pub proof fn lemma_pieces_smaller(s: Seq<u8>)
    requires
        is_atom_s(s) == Ok::<bool, Fault>(false),
    ensures
        parse_s_expr_s(s).res matches Ok(ts) ==> max_measure(ts) < read_measure(s),
{
    if s.len() > 0 && slice_ok(s, 1, s.len() - 1) {
        let sub = s.subrange(1, s.len() - 1);
        let empty: Seq<Seq<u8>> = seq![];
        lemma_scan_short(sub, paren_spans(sub), 0, 0, 0, empty);
        if let Ok(ts) = parse_s_expr_s(s).res {
            assert(is_atom_s(nil_word()) == Ok::<bool, Fault>(true));
            assert forall|j: int| 0 <= j < ts.len() implies read_measure(#[trigger] ts[j]) < s.len() by {
                assert(short_piece(ts[j], sub));
            }
            lemma_max_measure_below(ts, s.len());
        }
    }
}

/// Reads the text `s`: its value, and the diagnostics reported on the way.
pub open spec fn parse_s(s: Seq<u8>) -> (Result<Sx, Fault>, Seq<Note>)
    decreases read_measure(s), 0nat,
{
    match is_atom_s(s) {
        Err(f) => (Err(f), seq![]),
        Ok(true) => (Ok(parse_atom_s(s)), seq![]),
        Ok(false) => {
            let sc = parse_s_expr_s(s);
            match sc.res {
                Err(f) => (Err(f), sc.notes),
                Ok(toks) => {
                    proof {
                        lemma_pieces_smaller(s);
                    }
                    let (r, ns) = parse_list_s(toks);
                    (r, sc.notes + ns)
                },
            }
        },
    }
}

/// Reads the pieces in order into a list.
pub open spec fn parse_list_s(ts: Seq<Seq<u8>>) -> (Result<Sx, Fault>, Seq<Note>)
    decreases max_measure(ts), ts.len(),
{
    if ts.len() == 0 {
        (Ok(Sx::Nil), seq![])
    } else {
        let (h, n1) = parse_s(ts[0]);
        match h {
            Err(f) => (Err(f), n1),
            Ok(hv) => {
                let (t, n2) = parse_list_s(ts.drop_first());
                match t {
                    Err(f) => (Err(f), n1 + n2),
                    Ok(tv) => (Ok(mk_cons(hv, tv)), n1 + n2),
                }
            },
        }
    }
}

/// Reads the pieces in order into a list.
pub fn parse_list(list: Vec<Vec<u8>>, log: &mut Vec<Diagnostic>) -> (res: Result<Expr, Fault>)
    ensures
        res_sx(res) == parse_list_s(views(list@)).0,
        notes(final(log)@) =~= notes(old(log)@) + parse_list_s(views(list@)).1,
    decreases max_measure(views(list@)), list@.len(),
{
    let mut list = list;
    if list.len() == 0 {
        assert(views(list@) =~= seq![]);
        return Ok(None);
    }
    let ghost whole = views(list@);
    let next = list.remove(0);
    assert(views(list@) =~= whole.drop_first());
    assert(next@ == whole[0]);
    let h = parse(next.as_slice(), log)?;
    let t = parse_list(list, log)?;
    Ok(cons(&h, &t))
}

/// Reads one s-expression from the text `expr`.
pub fn parse(expr: &[u8], log: &mut Vec<Diagnostic>) -> (res: Result<Expr, Fault>)
    ensures
        res_sx(res) == parse_s(expr@).0,
        notes(final(log)@) =~= notes(old(log)@) + parse_s(expr@).1,
    decreases read_measure(expr@), 0nat,
{
    if is_atom(expr)? {
        Ok(parse_atom(expr))
    } else {
        let elem_list = parse_s_expr(expr, log)?;
        proof {
            lemma_pieces_smaller(expr@);
        }
        parse_list(elem_list, log)
    }
}

} // verus!
