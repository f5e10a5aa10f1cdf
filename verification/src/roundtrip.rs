//! Printing and reading back: the text that the printer writes for a readable
//! s-expression reads as that s-expression.
use crate::eval::{done, eval_s};
use crate::laws::{
    law_atom_round_trip, law_setq_then_lookup, lemma_nat_digits, plain_symbol, readable_atom, setq_sym,
};
use crate::repl::{eval_line_s, LineRun};
use crate::printer::{print_car_s, print_cdr_s};
use crate::reader::{
    finish_s, is_atom_s, nil_word, parse_atom_s, paren_spans, t_word, parse_list_s, parse_s, parse_s_expr_s, scan_err,
    scan_s, spans_from, Scan,
};
use crate::sexpr::{list_s, mk_cons, word, Fault, Note, Sx};
use crate::text::{
    dec_s, parse_i64_s, is_digit, nat_digits, nth_lead, slice_ok, split_from, split_ws, unsigned_part, ws_len,
};
use vstd::prelude::*;

verus! {

/// The same cutting as `scan_s`, walking the bytes of `sub` from index `i` rather
/// than the list of its parentheses.
pub open spec fn bscan(sub: Seq<u8>, i: int, pos: int, depth: int, toks: Seq<Seq<u8>>) -> Scan
    decreases sub.len() - i,
{
    if i < 0 || i >= sub.len() {
        finish_s(sub, pos, toks, seq![])
    } else if !(sub[i] == 40 || sub[i] == 41) {
        bscan(sub, i + 1, pos, depth, toks)
    } else {
        let start = i;
        let end = i + 1;
        match nth_lead(sub, start) {
            None => scan_err(Fault::CharIndex),
            Some(c) => if depth == 0 && !slice_ok(sub, pos, start) {
                scan_err(Fault::StrSlice)
            } else {
                let toks1 = if depth == 0 {
                    toks + split_ws(sub.subrange(pos, start))
                } else {
                    toks
                };
                let pos1 = if depth == 0 {
                    start
                } else {
                    pos
                };
                if c == 40 {
                    if depth == i32::MAX {
                        scan_err(Fault::DepthOverflow)
                    } else {
                        bscan(sub, i + 1, pos1, depth + 1, toks1)
                    }
                } else if c == 41 {
                    if depth == 0 {
                        finish_s(sub, pos1, seq![nil_word()], seq![Note::UnmatchedParen(pos1 as usize)])
                    } else if depth == 1 {
                        if !slice_ok(sub, pos1, end) {
                            scan_err(Fault::StrSlice)
                        } else {
                            bscan(sub, i + 1, end, 0, toks1.push(sub.subrange(pos1, end)))
                        }
                    } else {
                        bscan(sub, i + 1, pos1, depth - 1, toks1)
                    }
                } else {
                    bscan(sub, i + 1, pos1, depth, toks1)
                }
            },
        }
    }
}

proof fn lemma_spans_from_index(h: Seq<u8>, i: int)
    requires
        0 <= i < h.len(),
    ensures
        spans_from(h, i) == if h[i] == 40 || h[i] == 41 {
            seq![(i as usize, (i + 1) as usize)] + spans_from(h, i + 1)
        } else {
            spans_from(h, i + 1)
        },
{
}

/// Cutting along the list of parentheses is cutting along the bytes.
proof fn lemma_scan_bytes(
    sub: Seq<u8>,
    spans: Seq<(usize, usize)>,
    k: int,
    i: int,
    pos: int,
    depth: int,
    toks: Seq<Seq<u8>>,
)
    requires
        0 <= k <= spans.len(),
        0 <= i <= sub.len(),
        sub.len() <= usize::MAX,
        spans.skip(k) == spans_from(sub, i),
    ensures
        scan_s(sub, spans, k, pos, depth, toks) == bscan(sub, i, pos, depth, toks),
    decreases sub.len() - i,
{
    if i >= sub.len() {
        assert(spans.skip(k).len() == 0);
    } else if !(sub[i] == 40 || sub[i] == 41) {
        lemma_spans_from_index(sub, i);
        lemma_scan_bytes(sub, spans, k, i + 1, pos, depth, toks);
    } else {
        lemma_spans_from_index(sub, i);
        assert(spans_from(sub, i).len() > 0);
        assert(k < spans.len());
        assert(spans.skip(k)[0] == spans[k]);
        assert(spans[k] == (i as usize, (i + 1) as usize));
        assert(spans.skip(k + 1) =~= spans.skip(k).drop_first());
        assert(spans.skip(k).drop_first() =~= spans_from(sub, i + 1));
        let start = i;
        let end = i + 1;
        match nth_lead(sub, start) {
            None => {},
            Some(c) => if depth == 0 && !slice_ok(sub, pos, start) {
            } else {
                let toks1 = if depth == 0 {
                    toks + split_ws(sub.subrange(pos, start))
                } else {
                    toks
                };
                let pos1 = if depth == 0 {
                    start
                } else {
                    pos
                };
                if c == 40 {
                    if depth != i32::MAX {
                        lemma_scan_bytes(sub, spans, k + 1, i + 1, pos1, depth + 1, toks1);
                    }
                } else if c == 41 {
                    if depth == 0 {
                    } else if depth == 1 {
                        if slice_ok(sub, pos1, end) {
                            lemma_scan_bytes(sub, spans, k + 1, i + 1, end, 0, toks1.push(sub.subrange(pos1, end)));
                        }
                    } else {
                        lemma_scan_bytes(sub, spans, k + 1, i + 1, pos1, depth - 1, toks1);
                    }
                } else {
                    lemma_scan_bytes(sub, spans, k + 1, i + 1, pos1, depth, toks1);
                }
            },
        }
    }
}

/// Every byte is ASCII.
pub open spec fn ascii(s: Seq<u8>) -> bool {
    forall|i: int| 0 <= i < s.len() ==> #[trigger] s[i] < 128
}

/// An ASCII whitespace byte.
pub open spec fn is_space(b: u8) -> bool {
    (9 <= b <= 13) || b == 32
}

/// A word: non-empty ASCII without whitespace or parentheses.
pub open spec fn is_word(w: Seq<u8>) -> bool {
    &&& w.len() > 0
    &&& ascii(w)
    &&& forall|i: int| 0 <= i < w.len() ==> !is_space(#[trigger] w[i]) && w[i] != 40 && w[i] != 41
}

proof fn lemma_nth_lead_ascii(s: Seq<u8>, k: int)
    requires
        ascii(s),
        0 <= k < s.len(),
    ensures
        nth_lead(s, k) == Some(s[k]),
    decreases s.len(),
{
    assert(s[0] < 128);
    if k > 0 {
        let t = s.drop_first();
        assert(ascii(t)) by {
            assert forall|i: int| 0 <= i < t.len() implies #[trigger] t[i] < 128 by {
                assert(t[i] == s[i + 1]);
            }
        }
        lemma_nth_lead_ascii(t, k - 1);
    }
}

/// Splitting `a + b` at a space that ends `a`, scanning the part in `a`.
proof fn lemma_split_prefix(a: Seq<u8>, b: Seq<u8>, i: int, start: int)
    requires
        ascii(a + b),
        a.len() > 0,
        a.last() == 32,
        0 <= start <= i < a.len(),
    ensures
        split_from(a + b, i, start) == split_from(a, i, start) + split_from(a + b, a.len() as int, a.len() as int),
    decreases a.len() - i,
{
    let s = a + b;
    assert(s[i] == a[i]);
    assert(s[i] < 128);
    if i == a.len() - 1 {
        assert(ws_len(s, i) == 1);
        assert(ws_len(a, i) == 1);
        assert(split_from(a, i + 1, i + 1) =~= Seq::<Seq<u8>>::empty());
        if start < i {
            assert(s.subrange(start, i) =~= a.subrange(start, i));
        }
    } else if ws_len(s, i) > 0 {
        assert(ws_len(s, i) == 1 && ws_len(a, i) == 1);
        lemma_split_prefix(a, b, i + 1, i + 1);
        if start < i {
            assert(s.subrange(start, i) =~= a.subrange(start, i));
            assert(seq![a.subrange(start, i)] + (split_from(a, i + 1, i + 1) + split_from(s, a.len() as int, a.len() as int)) =~= (seq![a.subrange(start, i)] + split_from(a, i + 1, i + 1)) + split_from(s, a.len() as int, a.len() as int));
        }
    } else {
        assert(ws_len(a, i) == 0);
        lemma_split_prefix(a, b, i + 1, start);
    }
}

/// Splitting `a + b` from the start of `b` on is splitting `b`.
proof fn lemma_split_suffix(a: Seq<u8>, b: Seq<u8>, i: int, start: int)
    requires
        ascii(a + b),
        a.len() <= start <= i <= a.len() + b.len(),
    ensures
        split_from(a + b, i, start) == split_from(b, i - a.len(), start - a.len()),
    decreases a.len() + b.len() - i,
{
    let s = a + b;
    let m = a.len() as int;
    if i >= s.len() {
        if start < s.len() {
            assert(s.subrange(start, s.len() as int) =~= b.subrange(start - m, b.len() as int));
        }
    } else {
        assert(s[i] == b[i - m]);
        assert(s[i] < 128);
        if ws_len(s, i) > 0 {
            assert(ws_len(s, i) == 1 && ws_len(b, i - m) == 1);
            lemma_split_suffix(a, b, i + 1, i + 1);
            if start < i {
                assert(s.subrange(start, i) =~= b.subrange(start - m, i - m));
            }
        } else {
            assert(ws_len(b, i - m) == 0);
            lemma_split_suffix(a, b, i + 1, start);
        }
    }
}

/// The words of `a + b`, where `a` is empty or ends in a space, are those of `a`
/// and then those of `b`.
proof fn lemma_split_concat(a: Seq<u8>, b: Seq<u8>)
    requires
        ascii(a + b),
        a.len() == 0 || a.last() == 32,
    ensures
        split_ws(a + b) == split_ws(a) + split_ws(b),
{
    if a.len() == 0 {
        assert(a + b =~= b);
        assert(split_ws(a) =~= Seq::<Seq<u8>>::empty());
        assert(split_ws(b) =~= split_ws(a) + split_ws(b));
    } else {
        lemma_split_prefix(a, b, 0, 0);
        lemma_split_suffix(a, b, a.len() as int, a.len() as int);
    }
}

/// A word, followed or not by spaces, splits into itself.
proof fn lemma_split_word_from(w: Seq<u8>, s: Seq<u8>, i: int)
    requires
        is_word(w),
        s == w || s == w.push(32),
        0 <= i <= w.len(),
    ensures
        split_from(s, i, 0) == seq![w],
    decreases s.len() - i,
{
    if i < w.len() {
        assert(s[i] == w[i]);
        assert(w[i] < 128);
        assert(ws_len(s, i) == 0);
        lemma_split_word_from(w, s, i + 1);
    } else if s == w {
        assert(s.subrange(0, s.len() as int) =~= w);
    } else {
        assert(s[i] == 32);
        assert(ws_len(s, i) == 1);
        assert(s.subrange(0, i) =~= w);
        assert(split_from(s, i + 1, i + 1) =~= Seq::<Seq<u8>>::empty());
    }
}

proof fn lemma_split_word(w: Seq<u8>)
    requires
        is_word(w),
    ensures
        split_ws(w) == seq![w],
        split_ws(w.push(32)) == seq![w],
{
    lemma_split_word_from(w, w, 0);
    lemma_split_word_from(w, w.push(32), 0);
}

proof fn lemma_split_space()
    ensures
        split_ws(seq![32u8]) == Seq::<Seq<u8>>::empty(),
        split_ws(Seq::<u8>::empty()) == Seq::<Seq<u8>>::empty(),
{
    let s = seq![32u8];
    assert(ws_len(s, 0) == 1);
    assert(split_from(s, 1, 1) =~= Seq::<Seq<u8>>::empty());
}

pub open spec fn delta(b: u8) -> int {
    if b == 40 {
        1
    } else if b == 41 {
        -1
    } else {
        0
    }
}

/// The nesting depth at the end of `x`: its `(` less its `)`.
pub open spec fn dep(x: Seq<u8>) -> int
    decreases x.len(),
{
    if x.len() == 0 {
        0
    } else {
        dep(x.drop_last()) + delta(x.last())
    }
}

/// Every prefix has a depth of at least 0, and the whole a depth of 0.
pub open spec fn balanced(x: Seq<u8>) -> bool {
    &&& dep(x) == 0
    &&& forall|k: int| 0 <= k <= x.len() ==> dep(#[trigger] x.subrange(0, k)) >= 0
}

/// A parenthesized group: ASCII, `(` first and `)` last, with every proper
/// non-empty prefix at a depth of at least 1.
pub open spec fn group(x: Seq<u8>) -> bool {
    &&& x.len() >= 2
    &&& x[0] == 40
    &&& x.last() == 41
    &&& ascii(x)
    &&& dep(x) == 0
    &&& forall|k: int| 1 <= k < x.len() ==> dep(#[trigger] x.subrange(0, k)) >= 1
}

proof fn lemma_dep_concat(a: Seq<u8>, b: Seq<u8>)
    ensures
        dep(a + b) == dep(a) + dep(b),
    decreases b.len(),
{
    if b.len() == 0 {
        assert(a + b =~= a);
    } else {
        assert((a + b).drop_last() =~= a + b.drop_last());
        assert((a + b).last() == b.last());
        lemma_dep_concat(a, b.drop_last());
    }
}

proof fn lemma_dep_step(x: Seq<u8>, k: int)
    requires
        0 <= k < x.len(),
    ensures
        dep(x.subrange(0, k + 1)) == dep(x.subrange(0, k)) + delta(x[k]),
{
    assert(x.subrange(0, k + 1).drop_last() =~= x.subrange(0, k));
}

proof fn lemma_word_balanced(w: Seq<u8>)
    requires
        is_word(w),
    ensures
        balanced(w),
        forall|k: int| 0 <= k <= w.len() ==> dep(#[trigger] w.subrange(0, k)) == 0,
{
    assert forall|k: int| 0 <= k <= w.len() implies dep(#[trigger] w.subrange(0, k)) == 0 by {
        lemma_word_prefix_depth(w, k);
    }
    assert(w.subrange(0, w.len() as int) =~= w);
}

proof fn lemma_word_prefix_depth(w: Seq<u8>, k: int)
    requires
        is_word(w),
        0 <= k <= w.len(),
    ensures
        dep(w.subrange(0, k)) == 0,
    decreases k,
{
    if k > 0 {
        lemma_word_prefix_depth(w, k - 1);
        lemma_dep_step(w, k - 1);
        assert(w[k - 1] != 40 && w[k - 1] != 41);
    }
}

proof fn lemma_balanced_concat(a: Seq<u8>, b: Seq<u8>)
    requires
        balanced(a),
        balanced(b),
    ensures
        balanced(a + b),
{
    lemma_dep_concat(a, b);
    let s = a + b;
    assert forall|k: int| 0 <= k <= s.len() implies dep(#[trigger] s.subrange(0, k)) >= 0 by {
        if k <= a.len() {
            assert(s.subrange(0, k) =~= a.subrange(0, k));
        } else {
            assert(s.subrange(0, k) =~= a + b.subrange(0, k - a.len()));
            lemma_dep_concat(a, b.subrange(0, k - a.len()));
            assert(dep(b.subrange(0, k - a.len())) >= 0);
        }
    }
}

proof fn lemma_space_balanced()
    ensures
        balanced(seq![32u8]),
        is_word(seq![32u8]) == false,
{
    let s = seq![32u8];
    assert(s.drop_last() =~= Seq::<u8>::empty());
    assert(dep(Seq::<u8>::empty()) == 0);
    assert(dep(s) == dep(s.drop_last()) + delta(s.last()));
    assert forall|k: int| 0 <= k <= s.len() implies dep(#[trigger] s.subrange(0, k)) >= 0 by {
        if k == 0 {
            assert(s.subrange(0, k) =~= Seq::<u8>::empty());
        } else {
            assert(s.subrange(0, k) =~= s);
        }
    }
}

proof fn lemma_group_wrap(b: Seq<u8>)
    requires
        balanced(b),
        ascii(b),
    ensures
        group(seq![40u8] + b + seq![41u8]),
        balanced(seq![40u8] + b + seq![41u8]),
{
    let x = seq![40u8] + b + seq![41u8];
    let open = seq![40u8];
    let close = seq![41u8];
    assert(open.drop_last() =~= Seq::<u8>::empty());
    assert(close.drop_last() =~= Seq::<u8>::empty());
    assert(dep(Seq::<u8>::empty()) == 0);
    assert(dep(open) == dep(open.drop_last()) + delta(open.last()));
    assert(dep(close) == dep(close.drop_last()) + delta(close.last()));
    assert(dep(open) == 1);
    assert(dep(close) == -1);
    lemma_dep_concat(open, b);
    lemma_dep_concat(open + b, close);
    assert forall|k: int| 1 <= k < x.len() implies dep(#[trigger] x.subrange(0, k)) >= 1 by {
        assert(x.subrange(0, k) =~= open + b.subrange(0, k - 1));
        lemma_dep_concat(open, b.subrange(0, k - 1));
    }
    assert forall|i: int| 0 <= i < x.len() implies #[trigger] x[i] < 128 by {
        if 1 <= i <= b.len() {
            assert(x[i] == b[i - 1]);
        }
    }
    assert forall|k: int| 0 <= k <= x.len() implies dep(#[trigger] x.subrange(0, k)) >= 0 by {
        if k == 0 {
            assert(x.subrange(0, k) =~= Seq::<u8>::empty());
        } else if k == x.len() {
            assert(x.subrange(0, k) =~= x);
        } else {
            assert(dep(x.subrange(0, k)) >= 1);
        }
    }
}

/// No prefix of `x` is nested deeper than `m`.
pub open spec fn peak(x: Seq<u8>, m: int) -> bool {
    forall|k: int| 0 <= k <= x.len() ==> dep(#[trigger] x.subrange(0, k)) <= m
}

proof fn lemma_peak_concat(a: Seq<u8>, b: Seq<u8>, m: int)
    requires
        balanced(a),
        peak(a, m),
        peak(b, m),
    ensures
        peak(a + b, m),
{
    let s = a + b;
    assert forall|k: int| 0 <= k <= s.len() implies dep(#[trigger] s.subrange(0, k)) <= m by {
        if k <= a.len() {
            assert(s.subrange(0, k) =~= a.subrange(0, k));
        } else {
            assert(s.subrange(0, k) =~= a + b.subrange(0, k - a.len()));
            lemma_dep_concat(a, b.subrange(0, k - a.len()));
            assert(dep(b.subrange(0, k - a.len())) <= m);
        }
    }
}

proof fn lemma_peak_wrap(b: Seq<u8>, m: int)
    requires
        peak(b, m),
        m >= 0,
    ensures
        peak(seq![40u8] + b + seq![41u8], m + 1),
{
    let x = seq![40u8] + b + seq![41u8];
    let open = seq![40u8];
    assert(open.drop_last() =~= Seq::<u8>::empty());
    assert(dep(open) == dep(open.drop_last()) + delta(open.last()));
    assert forall|k: int| 0 <= k <= x.len() implies dep(#[trigger] x.subrange(0, k)) <= m + 1 by {
        if k == 0 {
            assert(x.subrange(0, k) =~= Seq::<u8>::empty());
        } else if k <= b.len() + 1 {
            assert(x.subrange(0, k) =~= open + b.subrange(0, k - 1));
            lemma_dep_concat(open, b.subrange(0, k - 1));
        } else {
            assert(x.subrange(0, k) =~= x);
            assert(x.drop_last() =~= open + b.subrange(0, b.len() as int));
            assert(b.subrange(0, b.len() as int) =~= b);
            lemma_dep_concat(open, b);
        }
    }
}

/// How deeply the lists of an s-expression nest: 0 for an atom, and for a list one
/// more than its deepest element.
pub open spec fn nest(e: Sx) -> nat
    decreases e,
{
    match e {
        Sx::Cons(h, t) => {
            let a = 1 + nest(*h);
            let b = nest(*t);
            if a >= b {
                a
            } else {
                b
            }
        },
        _ => 0,
    }
}

/// An s-expression whose printed text reads back as itself: a readable atom, or a
/// proper list of readable s-expressions.
pub open spec fn readable(e: Sx) -> bool
    decreases e,
{
    match e {
        Sx::Cons(h, t) => readable(*h) && readable_tail(*t),
        _ => readable_atom(e),
    }
}

pub open spec fn readable_tail(t: Sx) -> bool
    decreases t,
{
    match t {
        Sx::Nil => true,
        Sx::Cons(h, t2) => readable(*h) && readable_tail(*t2),
        _ => false,
    }
}

/// The text of the elements of a proper tail, each after a space.
pub open spec fn rest_text(t: Sx) -> Seq<u8>
    decreases t,
{
    match t {
        Sx::Cons(h, t2) => seq![32u8] + print_car_s(*h) + rest_text(*t2),
        _ => seq![],
    }
}

/// The texts of the elements of a proper tail.
pub open spec fn tail_pieces(t: Sx) -> Seq<Seq<u8>>
    decreases t,
{
    match t {
        Sx::Cons(h, t2) => seq![print_car_s(*h)] + tail_pieces(*t2),
        _ => seq![],
    }
}

proof fn lemma_ascii_concat(a: Seq<u8>, b: Seq<u8>)
    requires
        ascii(a),
        ascii(b),
    ensures
        ascii(a + b),
{
    assert forall|i: int| 0 <= i < (a + b).len() implies #[trigger] (a + b)[i] < 128 by {
        if i < a.len() {
            assert((a + b)[i] == a[i]);
        } else {
            assert((a + b)[i] == b[i - a.len()]);
        }
    }
}

proof fn lemma_atom_word(e: Sx)
    requires
        readable_atom(e),
    ensures
        is_word(print_car_s(e)),
{
    let s = print_car_s(e);
    match e {
        Sx::Int(n) => {
            if n < 0 {
                let m = (-n) as nat;
                lemma_nat_digits(m);
                assert forall|i: int| 0 <= i < s.len() implies (#[trigger] s[i] == 45 || is_digit(s[i])) by {
                    if i > 0 {
                        assert(s[i] == nat_digits(m)[i - 1]);
                    }
                }
            } else {
                lemma_nat_digits(n as nat);
                assert forall|i: int| 0 <= i < s.len() implies (#[trigger] s[i] == 45 || is_digit(s[i])) by {
                }
            }
            assert forall|i: int| 0 <= i < s.len() implies #[trigger] s[i] < 128 by {
                assert(s[i] == 45 || is_digit(s[i]));
            }
            assert forall|i: int| 0 <= i < s.len() implies !is_space(#[trigger] s[i]) && s[i] != 40 && s[i] != 41 by {
                assert(s[i] == 45 || is_digit(s[i]));
            }
        },
        Sx::T => {
            assert(s =~= seq![84u8]);
        },
        Sx::Nil => {
            assert(s =~= seq![78u8, 73, 76]);
        },
        Sx::Sym(name) => {
            assert forall|i: int| 0 <= i < s.len() implies #[trigger] s[i] < 128 by {
                assert(s[i] == name[i]);
            }
            assert forall|i: int| 0 <= i < s.len() implies !is_space(#[trigger] s[i]) && s[i] != 40 && s[i] != 41 by {
                assert(s[i] == name[i]);
            }
        },
        _ => {},
    }
}

proof fn lemma_print_shape(e: Sx)
    requires
        readable(e),
    ensures
        ascii(print_car_s(e)),
        balanced(print_car_s(e)),
        e is Cons ==> group(print_car_s(e)),
        !(e is Cons) ==> is_word(print_car_s(e)),
    decreases e,
{
    match e {
        Sx::Cons(h, t) => {
            lemma_print_shape(*h);
            lemma_rest_shape(*t);
            let body = print_car_s(*h) + rest_text(*t);
            lemma_balanced_concat(print_car_s(*h), rest_text(*t));
            lemma_ascii_concat(print_car_s(*h), rest_text(*t));
            lemma_group_wrap(body);
            assert(word(seq!['(']) =~= seq![40u8]);
            assert(print_car_s(e) =~= seq![40u8] + body + seq![41u8]);
        },
        _ => {
            lemma_atom_word(e);
            lemma_word_balanced(print_car_s(e));
        },
    }
}

proof fn lemma_rest_shape(t: Sx)
    requires
        readable_tail(t),
    ensures
        print_cdr_s(t) == rest_text(t) + seq![41u8],
        ascii(rest_text(t)),
        balanced(rest_text(t)),
    decreases t,
{
    match t {
        Sx::Cons(h, t2) => {
            lemma_print_shape(*h);
            lemma_rest_shape(*t2);
            lemma_space_balanced();
            lemma_balanced_concat(seq![32u8], print_car_s(*h));
            lemma_balanced_concat(seq![32u8] + print_car_s(*h), rest_text(*t2));
            lemma_ascii_concat(seq![32u8], print_car_s(*h));
            lemma_ascii_concat(seq![32u8] + print_car_s(*h), rest_text(*t2));
            assert(word(seq![' ']) =~= seq![32u8]);
            assert(print_cdr_s(t) =~= rest_text(t) + seq![41u8]);
        },
        _ => {
            assert(word(seq![')']) =~= seq![41u8]);
            assert(print_cdr_s(t) =~= rest_text(t) + seq![41u8]);
            let z = Seq::<u8>::empty();
            assert(rest_text(t) =~= z);
            assert(dep(z) == 0);
            assert forall|k: int| 0 <= k <= z.len() implies dep(#[trigger] z.subrange(0, k)) >= 0 by {
                assert(z.subrange(0, k) =~= z);
            }
        },
    }
}

proof fn lemma_print_peak(e: Sx)
    requires
        readable(e),
    ensures
        peak(print_car_s(e), nest(e) as int),
    decreases e, 1nat,
{
    lemma_print_shape(e);
    match e {
        Sx::Cons(h, t) => {
            let n = nest(e) as int;
            lemma_print_shape(*h);
            lemma_rest_shape(*t);
            lemma_print_peak(*h);
            lemma_rest_peak(*t, n - 1);
            let body = print_car_s(*h) + rest_text(*t);
            lemma_peak_concat(print_car_s(*h), rest_text(*t), n - 1);
            lemma_peak_wrap(body, n - 1);
            assert(word(seq!['(']) =~= seq![40u8]);
            assert(print_car_s(e) =~= seq![40u8] + body + seq![41u8]);
        },
        _ => {
            lemma_atom_word(e);
            lemma_word_balanced(print_car_s(e));
        },
    }
}

proof fn lemma_rest_peak(t: Sx, m: int)
    requires
        readable_tail(t),
        nest(t) <= m + 1,
        m >= 0,
    ensures
        peak(rest_text(t), m),
    decreases t, 0nat,
{
    match t {
        Sx::Cons(h2, t2) => {
            lemma_print_peak(*h2);
            lemma_print_shape(*h2);
            lemma_rest_peak(*t2, m);
            lemma_space_balanced();
            let sp = seq![32u8];
            assert forall|k: int| 0 <= k <= sp.len() implies dep(#[trigger] sp.subrange(0, k)) <= m by {
                assert(dep(sp.subrange(0, k)) >= 0);
                if k == 0 {
                    assert(sp.subrange(0, k) =~= Seq::<u8>::empty());
                } else {
                    assert(sp.subrange(0, k) =~= sp);
                }
            }
            lemma_peak_concat(print_car_s(*h2), rest_text(*t2), m);
            lemma_peak_concat(sp, print_car_s(*h2) + rest_text(*t2), m);
            assert(rest_text(t) =~= sp + (print_car_s(*h2) + rest_text(*t2)));
        },
        _ => {
            assert forall|k: int| 0 <= k <= rest_text(t).len() implies dep(#[trigger] rest_text(t).subrange(0, k)) <= m by {
                assert(rest_text(t).subrange(0, k) =~= Seq::<u8>::empty());
            }
        },
    }
}

/// Bytes that are not parentheses are passed over.
proof fn lemma_bscan_skip(
    sub: Seq<u8>,
    a: int,
    b: int,
    pos: int,
    depth: int,
    toks: Seq<Seq<u8>>,
)
    requires
        0 <= a <= b <= sub.len(),
        forall|j: int| a <= j < b ==> #[trigger] sub[j] != 40 && sub[j] != 41,
    ensures
        bscan(sub, a, pos, depth, toks) == bscan(sub, b, pos, depth, toks),
    decreases b - a,
{
    if a < b {
        assert(sub[a] != 40 && sub[a] != 41);
        lemma_bscan_skip(sub, a + 1, b, pos, depth, toks);
    }
}

/// Inside a group that starts at `o`, the cutting goes on to its closing
/// parenthesis and yields the group as one piece.
proof fn lemma_bscan_inside_group(
    sub: Seq<u8>,
    o: int,
    l: int,
    i: int,
    toks: Seq<Seq<u8>>,
)
    requires
        ascii(sub),
        0 <= o,
        l >= 2,
        o + l <= sub.len(),
        group(sub.subrange(o, o + l)),
        peak(sub.subrange(o, o + l), 2147483647),
        o < i < o + l,
    ensures
        bscan(sub, i, o, dep(sub.subrange(o, i)), toks) == bscan(
            sub,
            o + l,
            o + l,
            0,
            toks.push(sub.subrange(o, o + l)),
        ),
    decreases o + l - i,
{
    let x = sub.subrange(o, o + l);
    let d = dep(sub.subrange(o, i));
    assert(sub.subrange(o, i) =~= x.subrange(0, i - o));
    assert(d >= 1);
    assert(sub.subrange(o, i + 1) =~= x.subrange(0, i + 1 - o));
    lemma_dep_step(x, i - o);
    assert(x[i - o] == sub[i]);
    let d2 = dep(sub.subrange(o, i + 1));
    assert(d2 == d + delta(sub[i]));
    assert(x.last() == sub[o + l - 1]);
    assert(x.subrange(0, l) =~= x);
    if i + 1 < o + l {
        assert(d2 >= 1);
    }
    lemma_nth_lead_ascii(sub, i);
    assert(dep(x.subrange(0, i + 1 - o)) <= 2147483647);
    if !(sub[i] == 40 || sub[i] == 41) {
        assert(i + 1 < o + l);
        lemma_bscan_inside_group(sub, o, l, i + 1, toks);
    } else if sub[i] == 40 {
        assert(d != i32::MAX);
        assert(i + 1 < o + l);
        lemma_bscan_inside_group(sub, o, l, i + 1, toks);
    } else if d == 1 {
        assert(d2 == 0);
        assert(i + 1 == o + l);
        assert(sub[o] == x[0]);
        assert(slice_ok(sub, o, i + 1));
    } else {
        assert(i + 1 < o + l);
        lemma_bscan_inside_group(sub, o, l, i + 1, toks);
    }
}

/// At the opening parenthesis of a group, at depth 0, the words before it and then
/// the group become pieces.
proof fn lemma_bscan_group(sub: Seq<u8>, p: int, o: int, l: int, toks: Seq<Seq<u8>>)
    requires
        ascii(sub),
        0 <= p <= o,
        l >= 2,
        o + l <= sub.len(),
        group(sub.subrange(o, o + l)),
        peak(sub.subrange(o, o + l), 2147483647),
    ensures
        bscan(sub, o, p, 0, toks) == bscan(
            sub,
            o + l,
            o + l,
            0,
            (toks + split_ws(sub.subrange(p, o))).push(sub.subrange(o, o + l)),
        ),
{
    let x = sub.subrange(o, o + l);
    assert(x[0] == sub[o]);
    lemma_nth_lead_ascii(sub, o);
    assert(slice_ok(sub, p, o));
    assert(sub.subrange(o, o + 1) =~= x.subrange(0, 1));
    lemma_dep_step(x, 0);
    assert(x.subrange(0, 0) =~= Seq::<u8>::empty());
    assert(dep(sub.subrange(o, o + 1)) == 1);
    lemma_bscan_inside_group(sub, o, l, o + 1, toks + split_ws(sub.subrange(p, o)));
}

/// A trailing space adds no word.
proof fn lemma_split_trailing_space_from(x: Seq<u8>, i: int, start: int)
    requires
        ascii(x),
        0 <= start <= i <= x.len(),
    ensures
        split_from(x.push(32), i, start) == split_from(x, i, start),
    decreases x.len() - i,
{
    let s = x.push(32);
    if i == x.len() {
        assert(ws_len(s, i) == 1);
        assert(split_from(s, i + 1, i + 1) =~= Seq::<Seq<u8>>::empty());
        if start < i {
            assert(s.subrange(start, i) =~= x.subrange(start, x.len() as int));
        }
    } else {
        assert(s[i] == x[i]);
        assert(x[i] < 128);
        if ws_len(s, i) > 0 {
            lemma_split_trailing_space_from(x, i + 1, i + 1);
            if start < i {
                assert(s.subrange(start, i) =~= x.subrange(start, i));
            }
        } else {
            lemma_split_trailing_space_from(x, i + 1, start);
        }
    }
}

/// The cutting of the rest of a list, whose text `rest_text(t)` begins at byte `j`
/// of `sub`, with the words from `p` to `j` still pending.
proof fn lemma_bscan_tail(
    sub: Seq<u8>,
    j: int,
    p: int,
    toks: Seq<Seq<u8>>,
    done: Seq<Seq<u8>>,
    t: Sx,
)
    requires
        ascii(sub),
        readable_tail(t),
        nest(t) <= 2147483648,
        0 <= p <= j <= sub.len(),
        sub.subrange(j, sub.len() as int) == rest_text(t),
        forall|k: int| p <= k < j ==> #[trigger] sub[k] != 40 && sub[k] != 41,
        toks + split_ws(sub.subrange(p, j)) == done,
    ensures
        bscan(sub, j, p, 0, toks) == (Scan { res: Ok(done + tail_pieces(t)), notes: seq![] }),
    decreases t, 0nat,
{
    let pending = sub.subrange(p, j);
    assert(ascii(pending)) by {
        assert forall|k: int| 0 <= k < pending.len() implies #[trigger] pending[k] < 128 by {
            assert(pending[k] == sub[p + k]);
        }
    }
    match t {
        Sx::Cons(h2, t2) => {
            let rest = sub.subrange(j, sub.len() as int);
            let next = print_car_s(*h2) + rest_text(*t2);
            assert(rest =~= seq![32u8] + next);
            assert(sub[j] == rest[0]);
            assert(sub[j] == 32);
            lemma_bscan_skip(sub, j, j + 1, p, 0, toks);
            assert(sub.subrange(p, j + 1) =~= pending.push(32));
            lemma_split_trailing_space_from(pending, 0, 0);
            assert(sub.subrange(j + 1, sub.len() as int) =~= rest.subrange(1, rest.len() as int));
            assert(rest.subrange(1, rest.len() as int) =~= next);
            assert forall|k: int| p <= k < j + 1 implies #[trigger] sub[k] != 40 && sub[k] != 41 by {}
            lemma_bscan_pieces(sub, j + 1, p, toks, done, *h2, *t2);
            assert(done + seq![print_car_s(*h2)] + tail_pieces(*t2) =~= done + tail_pieces(t));
        },
        _ => {
            assert(rest_text(t) =~= Seq::<u8>::empty());
            assert(j == sub.len());
            assert(slice_ok(sub, p, sub.len() as int)) by {
                if p < sub.len() {
                    assert(sub[p] < 128);
                }
            }
            assert(tail_pieces(t) =~= Seq::<Seq<u8>>::empty());
            assert(done + tail_pieces(t) =~= done);
        },
    }
}

/// The cutting of the elements `h` and `t` of a list, whose text begins at byte `i`
/// of `sub`, with the words from `p` to `i` still pending.
proof fn lemma_bscan_pieces(
    sub: Seq<u8>,
    i: int,
    p: int,
    toks: Seq<Seq<u8>>,
    done: Seq<Seq<u8>>,
    h: Sx,
    t: Sx,
)
    requires
        ascii(sub),
        readable(h),
        readable_tail(t),
        nest(h) <= 2147483647,
        nest(t) <= 2147483648,
        0 <= p <= i <= sub.len(),
        sub.subrange(i, sub.len() as int) == print_car_s(h) + rest_text(t),
        forall|j: int| p <= j < i ==> #[trigger] sub[j] != 40 && sub[j] != 41,
        p == i || sub[i - 1] == 32,
        toks + split_ws(sub.subrange(p, i)) == done,
    ensures
        bscan(sub, i, p, 0, toks) == (Scan {
            res: Ok(done + seq![print_car_s(h)] + tail_pieces(t)),
            notes: seq![],
        }),
    decreases t, 1nat,
{
    let w = print_car_s(h);
    let l = w.len() as int;
    let rest = sub.subrange(i, sub.len() as int);
    lemma_print_shape(h);
    assert(rest =~= w + rest_text(t));
    assert(sub.subrange(i, i + l) =~= rest.subrange(0, l));
    assert(rest.subrange(0, l) =~= w);
    assert(sub.subrange(i + l, sub.len() as int) =~= rest.subrange(l, rest.len() as int));
    assert(rest.subrange(l, rest.len() as int) =~= rest_text(t));
    let pending = sub.subrange(p, i);
    assert(ascii(pending)) by {
        assert forall|k: int| 0 <= k < pending.len() implies #[trigger] pending[k] < 128 by {
            assert(pending[k] == sub[p + k]);
        }
    }
    if p < i {
        assert(pending.last() == sub[i - 1]);
    }
    if !(h is Cons) {
        assert forall|j: int| i <= j < i + l implies #[trigger] sub[j] != 40 && sub[j] != 41 by {
            assert(sub[j] == sub.subrange(i, i + l)[j - i]);
        }
        lemma_bscan_skip(sub, i, i + l, p, 0, toks);
        assert(sub.subrange(p, i + l) =~= pending + w);
        lemma_ascii_concat(pending, w);
        lemma_split_concat(pending, w);
        lemma_split_word(w);
        assert(toks + split_ws(sub.subrange(p, i + l)) =~= done + seq![w]);
        assert forall|j: int| p <= j < i + l implies #[trigger] sub[j] != 40 && sub[j] != 41 by {}
        lemma_bscan_tail(sub, i + l, p, toks, done + seq![w], t);
    } else {
        lemma_print_peak(h);
        lemma_bscan_group(sub, p, i, l, toks);
        let done2 = done.push(w);
        assert(sub.subrange(i + l, i + l) =~= Seq::<u8>::empty());
        lemma_split_space();
        assert(done2 + split_ws(sub.subrange(i + l, i + l)) =~= done + seq![w]);
        lemma_bscan_tail(sub, i + l, i + l, done2, done + seq![w], t);
    }
}

/// The number of cells and atoms of an s-expression.
pub open spec fn size(e: Sx) -> nat
    decreases e,
{
    match e {
        Sx::Cons(h, t) => 1 + size(*h) + size(*t),
        _ => 1,
    }
}

/// Reading the texts of the elements of a list gives the list.
proof fn lemma_read_pieces(h: Sx, t: Sx)
    requires
        readable(h),
        readable_tail(t),
        nest(h) <= 2147483647,
        nest(t) <= 2147483648,
        print_car_s(h).len() + rest_text(t).len() <= usize::MAX,
    ensures
        parse_list_s(seq![print_car_s(h)] + tail_pieces(t)) == (
            Ok::<Sx, Fault>(mk_cons(h, t)),
            Seq::<Note>::empty(),
        ),
    decreases size(h) + size(t) + 1, 0nat,
{
    let ts = seq![print_car_s(h)] + tail_pieces(t);
    law_print_read_round_trip(h);
    assert(ts[0] == print_car_s(h));
    assert(ts.drop_first() =~= tail_pieces(t));
    match t {
        Sx::Cons(h2, t2) => {
            assert(tail_pieces(t) == seq![print_car_s(*h2)] + tail_pieces(*t2));
            lemma_read_pieces(*h2, *t2);
            assert(mk_cons(*h2, *t2) == t);
            let r1 = parse_list_s(ts.drop_first());
            assert(r1 == (Ok::<Sx, Fault>(t), Seq::<Note>::empty()));
            assert(Seq::<Note>::empty() + Seq::<Note>::empty() =~= Seq::<Note>::empty());
            assert(parse_list_s(ts) == (
                Ok::<Sx, Fault>(mk_cons(h, t)),
                Seq::<Note>::empty() + Seq::<Note>::empty(),
            ));
        },
        _ => {
            assert(tail_pieces(t) =~= Seq::<Seq<u8>>::empty());
            assert(t == Sx::Nil);
            let r1 = parse_list_s(ts.drop_first());
            assert(r1 == (Ok::<Sx, Fault>(Sx::Nil), Seq::<Note>::empty()));
            assert(Seq::<Note>::empty() + Seq::<Note>::empty() =~= Seq::<Note>::empty());
            assert(parse_list_s(ts) == (
                Ok::<Sx, Fault>(mk_cons(h, t)),
                Seq::<Note>::empty() + Seq::<Note>::empty(),
            ));
        },
    }
}

/// Printing a readable s-expression and reading the text gives it back, with
/// nothing reported, as long as its lists nest no deeper than the reader counts
/// (one more than `i32::MAX`, as the outermost parentheses are not counted) and
/// the text fits in memory.
pub proof fn law_print_read_round_trip(e: Sx)
    requires
        readable(e),
        nest(e) <= 2147483648,
        print_car_s(e).len() <= usize::MAX,
    ensures
        parse_s(print_car_s(e)) == (Ok::<Sx, Fault>(e), Seq::<Note>::empty()),
    decreases size(e), 1nat,
{
    match e {
        Sx::Cons(h, t) => {
            lemma_print_shape(e);
            lemma_rest_shape(*t);
            let s = print_car_s(e);
            let sub = print_car_s(*h) + rest_text(*t);
            assert(word(seq!['(']) =~= seq![40u8]);
            assert(s =~= seq![40u8] + sub + seq![41u8]);
            assert(s.subrange(1, s.len() - 1) =~= sub);
            assert(s[1] < 128);
            assert(s[s.len() - 1] < 128);
            assert(is_atom_s(s) == Ok::<bool, Fault>(false));
            assert(ascii(sub)) by {
                assert forall|k: int| 0 <= k < sub.len() implies #[trigger] sub[k] < 128 by {
                    assert(sub[k] == s[k + 1]);
                }
            }
            let spans = paren_spans(sub);
            assert(spans.skip(0) =~= spans_from(sub, 0));
            lemma_scan_bytes(sub, spans, 0, 0, 0, 0, seq![]);
            assert(sub.subrange(0, 0) =~= Seq::<u8>::empty());
            lemma_split_space();
            assert(Seq::<Seq<u8>>::empty() + split_ws(sub.subrange(0, 0)) =~= Seq::<Seq<u8>>::empty());
            assert(sub.subrange(0, sub.len() as int) =~= sub);
            lemma_bscan_pieces(sub, 0, 0, seq![], seq![], *h, *t);
            let toks = seq![print_car_s(*h)] + tail_pieces(*t);
            assert(Seq::<Seq<u8>>::empty() + seq![print_car_s(*h)] + tail_pieces(*t) =~= toks);
            assert(parse_s_expr_s(s).res == Ok::<Seq<Seq<u8>>, Fault>(toks));
            lemma_read_pieces(*h, *t);
            assert(Seq::<Note>::empty() + Seq::<Note>::empty() =~= Seq::<Note>::empty());
        },
        _ => {
            law_atom_round_trip(e);
        },
    }
}

/// An atom as the printer writes it: a word that does not begin with a quote and,
/// where it reads as a number, is that number's decimal form.
pub open spec fn atom_token(s: Seq<u8>) -> bool {
    &&& is_word(s)
    &&& s[0] != 39
    &&& (parse_i64_s(s) matches Some(n) ==> s == dec_s(n))
}

/// Where the element of the list text `b` that is read from `i` on ends, `d` being
/// the depth at `i`: at the first space at depth 0, or at the end of `b`.
pub open spec fn item_end(b: Seq<u8>, i: int, d: int) -> int
    decreases b.len() - i,
{
    if i < 0 || i >= b.len() {
        b.len() as int
    } else if d == 0 && b[i] == 32 {
        i
    } else {
        item_end(b, i + 1, d + delta(b[i]))
    }
}

pub proof fn lemma_item_end(b: Seq<u8>, i: int, d: int)
    requires
        0 <= i,
    ensures
        i <= item_end(b, i, d) <= b.len() || (i > b.len() && item_end(b, i, d) == b.len()),
        item_end(b, i, d) < b.len() ==> b[item_end(b, i, d)] == 32,
    decreases b.len() - i,
{
    if i < b.len() && !(d == 0 && b[i] == 32) {
        lemma_item_end(b, i + 1, d + delta(b[i]));
    }
}

/// A canonical text: an atom as the printer writes it, or `(`, the canonical texts
/// of one or more elements separated by single spaces, and `)`.
pub open spec fn canonical(s: Seq<u8>) -> bool
    decreases s.len(), 0nat,
{
    if atom_token(s) {
        true
    } else if s.len() >= 2 && s[0] == 40 && s.last() == 41 {
        canonical_items(s.subrange(1, s.len() - 1))
    } else {
        false
    }
}

/// One or more canonical texts separated by single spaces.
pub open spec fn canonical_items(b: Seq<u8>) -> bool
    decreases b.len(), 1nat,
{
    if b.len() == 0 {
        false
    } else {
        let k = item_end(b, 0, 0);
        proof {
            lemma_item_end(b, 0, 0);
        }
        if k == 0 || !canonical(b.subrange(0, k)) {
            false
        } else if k == b.len() {
            true
        } else {
            canonical_items(b.subrange(k + 1, b.len() as int))
        }
    }
}

/// The s-expression that a canonical text stands for.
spec fn tree(s: Seq<u8>) -> Sx
    decreases s.len(), 0nat,
{
    if atom_token(s) {
        parse_atom_s(s)
    } else if s.len() >= 2 {
        tree_items(s.subrange(1, s.len() - 1))
    } else {
        Sx::Nil
    }
}

spec fn tree_items(b: Seq<u8>) -> Sx
    decreases b.len(), 1nat,
{
    if b.len() == 0 {
        Sx::Nil
    } else {
        let k = item_end(b, 0, 0);
        proof {
            lemma_item_end(b, 0, 0);
        }
        let rest = if k == b.len() {
            Sx::Nil
        } else {
            tree_items(b.subrange(k + 1, b.len() as int))
        };
        mk_cons(tree(b.subrange(0, k)), rest)
    }
}

proof fn lemma_tree(s: Seq<u8>)
    requires
        canonical(s),
    ensures
        readable(tree(s)),
        print_car_s(tree(s)) == s,
    decreases s.len(), 0nat,
{
    if atom_token(s) {
        match parse_i64_s(s) {
            Some(n) => {},
            None => {
                if s == nil_word() {
                } else if s == t_word() {
                } else {
                    assert(plain_symbol(s)) by {
                        assert forall|i: int| 0 <= i < s.len() implies #[trigger] s[i] < 128 && !(9 <= s[i] <= 13)
                            && s[i] != 32 && s[i] != 40 && s[i] != 41 by {
                            assert(!is_space(s[i]));
                        }
                    }
                }
            },
        }
    } else {
        let body = s.subrange(1, s.len() - 1);
        lemma_tree_items(body);
        let e = tree_items(body);
        if let Sx::Cons(h, t) = e {
            lemma_rest_shape(*t);
            let pr = print_car_s(*h) + rest_text(*t);
            assert(rest_text(e) =~= seq![32u8] + pr);
            assert((seq![32u8] + body).drop_first() =~= body);
            assert((seq![32u8] + pr).drop_first() =~= pr);
            assert(body =~= pr);
            assert(word(seq!['(']) =~= seq![40u8]);
            assert(s =~= seq![40u8] + body + seq![41u8]);
        }
    }
}

proof fn lemma_tree_items(b: Seq<u8>)
    requires
        canonical_items(b),
    ensures
        tree_items(b) is Cons,
        readable_tail(tree_items(b)),
        rest_text(tree_items(b)) == seq![32u8] + b,
    decreases b.len(), 1nat,
{
    let k = item_end(b, 0, 0);
    lemma_item_end(b, 0, 0);
    let b0 = b.subrange(0, k);
    lemma_tree(b0);
    if k == b.len() {
        assert(b0 =~= b);
        assert(readable_tail(Sx::Nil));
        assert(tree_items(b) == mk_cons(tree(b0), Sx::Nil));
        assert(rest_text(Sx::Nil) =~= Seq::<u8>::empty());
        assert(rest_text(tree_items(b)) =~= seq![32u8] + b);
    } else {
        let b1 = b.subrange(k + 1, b.len() as int);
        lemma_tree_items(b1);
        assert(tree_items(b) == mk_cons(tree(b0), tree_items(b1)));
        assert(b =~= b0 + seq![32u8] + b1);
        assert(rest_text(tree_items(b)) =~= seq![32u8] + b);
    }
}

proof fn lemma_peak_prefix(a: Seq<u8>, b: Seq<u8>, m: int)
    requires
        peak(a + b, m),
    ensures
        peak(a, m),
{
    assert forall|k: int| 0 <= k <= a.len() implies dep(#[trigger] a.subrange(0, k)) <= m by {
        assert((a + b).subrange(0, k) =~= a.subrange(0, k));
    }
}

proof fn lemma_peak_suffix(a: Seq<u8>, b: Seq<u8>, m: int)
    requires
        peak(a + b, m),
        dep(a) == 0,
    ensures
        peak(b, m),
{
    assert forall|k: int| 0 <= k <= b.len() implies dep(#[trigger] b.subrange(0, k)) <= m by {
        assert((a + b).subrange(0, a.len() + k) =~= a + b.subrange(0, k));
        lemma_dep_concat(a, b.subrange(0, k));
    }
}

proof fn lemma_peak_unwrap(x: Seq<u8>, m: int)
    requires
        peak(seq![40u8] + x, m),
    ensures
        peak(x, m - 1),
{
    let open = seq![40u8];
    assert(open.drop_last() =~= Seq::<u8>::empty());
    assert(dep(open) == dep(open.drop_last()) + delta(open.last()));
    assert forall|k: int| 0 <= k <= x.len() implies dep(#[trigger] x.subrange(0, k)) <= m - 1 by {
        assert((open + x).subrange(0, k + 1) =~= open + x.subrange(0, k));
        lemma_dep_concat(open, x.subrange(0, k));
    }
}

/// The lists of a readable s-expression nest no deeper than its text.
proof fn lemma_peak_nest(e: Sx, m: int)
    requires
        readable(e),
        peak(print_car_s(e), m),
    ensures
        nest(e) <= m,
    decreases e, 1nat,
{
    let x = print_car_s(e);
    assert(x.subrange(0, 0) =~= Seq::<u8>::empty());
    match e {
        Sx::Cons(h, t) => {
            lemma_print_shape(*h);
            lemma_rest_shape(*t);
            let ph = print_car_s(*h);
            let rt = rest_text(*t);
            assert(word(seq!['(']) =~= seq![40u8]);
            assert(x =~= seq![40u8] + (ph + rt) + seq![41u8]);
            lemma_peak_prefix(seq![40u8] + (ph + rt), seq![41u8], m);
            lemma_peak_unwrap(ph + rt, m);
            lemma_peak_prefix(ph, rt, m - 1);
            lemma_peak_suffix(ph, rt, m - 1);
            lemma_peak_nest(*h, m - 1);
            lemma_rest_peak_nest(*t, m - 1);
        },
        _ => {},
    }
}

proof fn lemma_rest_peak_nest(t: Sx, m: int)
    requires
        readable_tail(t),
        peak(rest_text(t), m),
    ensures
        nest(t) <= m + 1,
    decreases t, 0nat,
{
    let x = rest_text(t);
    assert(x.subrange(0, 0) =~= Seq::<u8>::empty());
    if let Sx::Cons(h2, t2) = t {
        lemma_print_shape(*h2);
        let sp = seq![32u8];
        lemma_space_balanced();
        let ph = print_car_s(*h2);
        let rt = rest_text(*t2);
        assert(x =~= sp + (ph + rt));
        lemma_peak_suffix(sp, ph + rt, m);
        lemma_peak_prefix(ph, rt, m);
        lemma_peak_suffix(ph, rt, m);
        lemma_peak_nest(*h2, m);
        lemma_rest_peak_nest(*t2, m);
    }
}

/// Reading a canonical text and printing what was read gives the text back, with
/// nothing reported, as long as the text nests no deeper than the reader counts and
/// fits in memory.
pub proof fn law_read_print_canonical(s: Seq<u8>)
    requires
        canonical(s),
        peak(s, 2147483648),
        s.len() <= usize::MAX,
    ensures
        parse_s(s).1 == Seq::<Note>::empty(),
        parse_s(s).0 matches Ok(v) && print_car_s(v) == s,
{
    lemma_tree(s);
    let e = tree(s);
    lemma_peak_nest(e, 2147483648);
    law_print_read_round_trip(e);
}

/// The line `(SETQ name e)` and then the line `name`: once the first prints a value,
/// the second prints the same text, with nothing reported.
pub proof fn law_setq_line_then_name_line(fuel: nat, name: Seq<u8>, e: Sx, g: Sx)
    requires
        plain_symbol(name),
        readable(e),
        nest(e) <= 2147483647,
        print_car_s(mk_cons(setq_sym(), list_s(Sx::Sym(name), e))).len() <= usize::MAX,
        eval_line_s(print_car_s(mk_cons(setq_sym(), list_s(Sx::Sym(name), e))), g, fuel).res is Ok,
    ensures
        ({
            let first = eval_line_s(print_car_s(mk_cons(setq_sym(), list_s(Sx::Sym(name), e))), g, fuel);
            forall|f: nat|
                f > 0 ==> #[trigger] eval_line_s(print_car_s(Sx::Sym(name)), first.g, f) == (LineRun {
                    res: first.res,
                    g: first.g,
                    notes: Seq::<Note>::empty(),
                })
        }),
{
    let form = mk_cons(setq_sym(), list_s(Sx::Sym(name), e));
    let setq_word = word(seq!['S', 'E', 'T', 'Q']);
    assert(setq_word =~= seq![83u8, 69, 84, 81]);
    assert(plain_symbol(setq_word)) by {
        assert(unsigned_part(setq_word) =~= setq_word);
        assert(!is_digit(setq_word[0]));
        assert(nil_word() =~= seq![78u8, 73, 76]);
        assert(t_word() =~= seq![84u8]);
    }
    assert(readable(Sx::Sym(name)));
    assert(readable_tail(Sx::Nil));
    assert(readable_tail(mk_cons(e, Sx::Nil)));
    assert(readable_tail(list_s(Sx::Sym(name), e)));
    assert(readable(setq_sym()));
    assert(readable(form));
    assert(nest(Sx::Nil) == 0);
    assert(nest(Sx::Sym(name)) == 0);
    assert(nest(setq_sym()) == 0);
    assert(nest(mk_cons(e, Sx::Nil)) == 1 + nest(e));
    assert(nest(list_s(Sx::Sym(name), e)) == 1 + nest(e));
    assert(nest(form) == 1 + nest(e));
    law_print_read_round_trip(form);
    let r = eval_s(fuel, form, g, g);
    assert(r.res is Ok);
    law_setq_then_lookup(fuel, name, e, g, g);
    let first = eval_line_s(print_car_s(form), g, fuel);
    assert(first.g == r.g);
    law_atom_round_trip(Sx::Sym(name));
    assert forall|f: nat| f > 0 implies #[trigger] eval_line_s(print_car_s(Sx::Sym(name)), first.g, f) == (LineRun {
        res: first.res,
        g: first.g,
        notes: Seq::<Note>::empty(),
    }) by {
        assert(eval_s(f, Sx::Sym(name), r.g, r.g) == done(r.res.unwrap(), r.g, Seq::<Note>::empty()));
        assert(Seq::<Note>::empty() + Seq::<Note>::empty() =~= Seq::<Note>::empty());
    }
}

} // verus!
