//! Text as UTF-8 bytes: character boundaries, whitespace splitting, and decimal
//! numbers.
use vstd::prelude::*;

verus! {

/// A byte that continues a multi-byte UTF-8 character.
pub open spec fn is_cont(b: u8) -> bool {
    0x80 <= b < 0xC0
}

/// `i` is a character boundary of `s`: its start, its end, or a byte that begins a character.
pub open spec fn boundary(s: Seq<u8>, i: int) -> bool {
    i == 0 || i == s.len() || (0 < i < s.len() && !is_cont(s[i]))
}

/// Slicing `s[a..b]` of a text is defined (it panics otherwise).
pub open spec fn slice_ok(s: Seq<u8>, a: int, b: int) -> bool {
    &&& 0 <= a <= b <= s.len()
    &&& boundary(s, a)
    &&& boundary(s, b)
}

pub fn is_boundary(s: &[u8], i: usize) -> (r: bool)
    ensures
        r == boundary(s@, i as int),
{
    i == 0 || i == s.len() || (i < s.len() && !(0x80 <= s[i] && s[i] < 0xC0))
}

pub fn check_slice(s: &[u8], a: usize, b: usize) -> (r: bool)
    ensures
        r == slice_ok(s@, a as int, b as int),
{
    a <= b && b <= s.len() && is_boundary(s, a) && is_boundary(s, b)
}

/// A copy of `s[a..b]`.
pub fn copy_range(s: &[u8], a: usize, b: usize) -> (res: Vec<u8>)
    requires
        a <= b <= s.len(),
    ensures
        res@ == s@.subrange(a as int, b as int),
{
    let mut res: Vec<u8> = Vec::new();
    let mut i = a;
    while i < b
        invariant
            a <= i <= b <= s.len(),
            res@ =~= s@.subrange(a as int, i as int),
        decreases b - i,
    {
        res.push(s[i]);
        i += 1;
    }
    res
}

/// The first byte of the `k`-th character of `s` (counting from 0), if `s` has
/// that many characters: the character that `chars().nth(k)` yields begins with it.
pub open spec fn nth_lead(s: Seq<u8>, k: int) -> Option<u8>
    decreases s.len(),
{
    if s.len() == 0 {
        None
    } else if is_cont(s[0]) {
        nth_lead(s.drop_first(), k)
    } else if k == 0 {
        Some(s[0])
    } else {
        nth_lead(s.drop_first(), k - 1)
    }
}

pub fn nth_char_lead(s: &[u8], k: usize) -> (res: Option<u8>)
    ensures
        res == nth_lead(s@, k as int),
{
    let mut i: usize = 0;
    let mut left = k;
    assert(s@.skip(0) =~= s@);
    while i < s.len()
        invariant
            i <= s.len(),
            left <= k,
            nth_lead(s@, k as int) == nth_lead(s@.skip(i as int), left as int),
        decreases s.len() - i,
    {
        assert(s@.skip(i as int).drop_first() =~= s@.skip(i + 1));
        if 0x80 <= s[i] && s[i] < 0xC0 {
        } else if left == 0 {
            return Some(s[i]);
        } else {
            left -= 1;
        }
        i += 1;
    }
    None
}

/// The length of the whitespace character that begins at byte `i` of `s`, or 0:
/// the characters with the Unicode White_Space property, encoded in UTF-8.
pub open spec fn ws_len(s: Seq<u8>, i: int) -> int {
    let b = s[i];
    if (9 <= b <= 13) || b == 32 {
        1
    } else if b == 0xC2 && i + 1 < s.len() && (s[i + 1] == 0x85 || s[i + 1] == 0xA0) {
        2
    } else if b == 0xE1 && i + 2 < s.len() && s[i + 1] == 0x9A && s[i + 2] == 0x80 {
        3
    } else if b == 0xE2 && i + 2 < s.len() && s[i + 1] == 0x80 && ((0x80 <= s[i + 2] <= 0x8A)
        || s[i + 2] == 0xA8 || s[i + 2] == 0xA9 || s[i + 2] == 0xAF) {
        3
    } else if b == 0xE2 && i + 2 < s.len() && s[i + 1] == 0x81 && s[i + 2] == 0x9F {
        3
    } else if b == 0xE3 && i + 2 < s.len() && s[i + 1] == 0x80 && s[i + 2] == 0x80 {
        3
    } else {
        0
    }
}

pub fn whitespace_len(s: &[u8], i: usize) -> (w: usize)
    requires
        i < s.len(),
    ensures
        w == ws_len(s@, i as int),
{
    let b = s[i];
    let n = s.len();
    if (9 <= b && b <= 13) || b == 32 {
        1
    } else if b == 0xC2 && n - i > 1 && (s[i + 1] == 0x85 || s[i + 1] == 0xA0) {
        2
    } else if b == 0xE1 && n - i > 2 && s[i + 1] == 0x9A && s[i + 2] == 0x80 {
        3
    } else if b == 0xE2 && n - i > 2 && s[i + 1] == 0x80 && ((0x80 <= s[i + 2] && s[i + 2]
        <= 0x8A) || s[i + 2] == 0xA8 || s[i + 2] == 0xA9 || s[i + 2] == 0xAF) {
        3
    } else if b == 0xE2 && n - i > 2 && s[i + 1] == 0x81 && s[i + 2] == 0x9F {
        3
    } else if b == 0xE3 && n - i > 2 && s[i + 1] == 0x80 && s[i + 2] == 0x80 {
        3
    } else {
        0
    }
}

/// The non-empty runs of non-whitespace in `s[start..]`, scanning from byte `i`.
pub open spec fn split_from(s: Seq<u8>, i: int, start: int) -> Seq<Seq<u8>>
    decreases s.len() - i,
{
    if i >= s.len() {
        if start < s.len() {
            seq![s.subrange(start, s.len() as int)]
        } else {
            seq![]
        }
    } else if ws_len(s, i) > 0 {
        let next = i + ws_len(s, i);
        let rest = split_from(s, next, next);
        if start < i {
            seq![s.subrange(start, i)] + rest
        } else {
            rest
        }
    } else {
        split_from(s, i + 1, start)
    }
}

/// The words of `s`: its maximal runs of non-whitespace characters, in order.
pub open spec fn split_ws(s: Seq<u8>) -> Seq<Seq<u8>> {
    split_from(s, 0, 0)
}

/// The byte strings of a vector of byte vectors.
pub open spec fn views(v: Seq<Vec<u8>>) -> Seq<Seq<u8>> {
    v.map_values(|t: Vec<u8>| t@)
}

pub proof fn lemma_views_push(v: Seq<Vec<u8>>, t: Vec<u8>)
    ensures
        views(v.push(t)) == views(v).push(t@),
{
    assert(views(v.push(t)) =~= views(v).push(t@));
}

pub proof fn lemma_views_add(a: Seq<Vec<u8>>, b: Seq<Vec<u8>>)
    ensures
        views(a + b) == views(a) + views(b),
{
    assert(views(a + b) =~= views(a) + views(b));
}

/// Splits `s` into its words.
pub fn split_whitespace(s: &[u8]) -> (res: Vec<Vec<u8>>)
    ensures
        views(res@) == split_ws(s@),
{
    let mut toks: Vec<Vec<u8>> = Vec::new();
    let mut i: usize = 0;
    let mut start: usize = 0;
    while i < s.len()
        invariant
            start <= i <= s.len(),
            split_ws(s@) == views(toks@) + split_from(s@, i as int, start as int),
        decreases s.len() - i,
    {
        let w = whitespace_len(s, i);
        if w > 0 {
            if start < i {
                let t = copy_range(s, start, i);
                proof {
                    lemma_views_push(toks@, t);
                    assert(views(toks@.push(t)) + split_from(s@, (i + w) as int, (i + w) as int)
                        =~= views(toks@) + (seq![s@.subrange(start as int, i as int)]
                        + split_from(s@, (i + w) as int, (i + w) as int)));
                }
                toks.push(t);
            }
            i = i + w;
            start = i;
        } else {
            i = i + 1;
        }
    }
    if start < s.len() {
        let t = copy_range(s, start, s.len());
        proof {
            lemma_views_push(toks@, t);
        }
        toks.push(t);
    } else {
        assert(views(toks@) + seq![] =~= views(toks@));
    }
    toks
}

/// Every word of `split_from(s, i, start)` is no longer than `s`.
pub proof fn lemma_split_from_short(s: Seq<u8>, i: int, start: int)
    requires
        0 <= start <= i <= s.len(),
    ensures
        forall|j: int|
            0 <= j < split_from(s, i, start).len() ==> #[trigger] split_from(s, i, start)[j].len()
                <= s.len(),
    decreases s.len() - i,
{
    let r = split_from(s, i, start);
    if i >= s.len() {
        assert forall|j: int| 0 <= j < r.len() implies #[trigger] r[j].len() <= s.len() by {
            assert(r[j] == s.subrange(start, s.len() as int));
        }
    } else if ws_len(s, i) > 0 {
        let next = i + ws_len(s, i);
        lemma_split_from_short(s, next, next);
        let rest = split_from(s, next, next);
        assert forall|j: int| 0 <= j < r.len() implies #[trigger] r[j].len() <= s.len() by {
            if start < i {
                assert(r == seq![s.subrange(start, i)] + rest);
                if j > 0 {
                    assert(r[j] == rest[j - 1]);
                }
            } else {
                assert(r == rest);
            }
        }
    } else {
        lemma_split_from_short(s, i + 1, start);
        assert(r == split_from(s, i + 1, start));
    }
}

pub open spec fn is_digit(b: u8) -> bool {
    48 <= b <= 57
}

/// The value of a string of decimal digits.
pub open spec fn digits_value(s: Seq<u8>) -> nat
    decreases s.len(),
{
    if s.len() == 0 {
        0
    } else {
        digits_value(s.drop_last()) * 10 + (s.last() - 48) as nat
    }
}

/// The digits part of a numeral: `s` without a leading `+` or `-`.
pub open spec fn unsigned_part(s: Seq<u8>) -> Seq<u8> {
    if s.len() > 0 && (s[0] == 45 || s[0] == 43) {
        s.drop_first()
    } else {
        s
    }
}

pub open spec fn all_digits(ds: Seq<u8>) -> bool {
    forall|i: int| 0 <= i < ds.len() ==> is_digit(#[trigger] ds[i])
}

/// What `str::parse::<i64>` gives: an optional sign, then one or more decimal
/// digits, whose value fits in `i64`.
pub open spec fn parse_i64_s(s: Seq<u8>) -> Option<i64> {
    let ds = unsigned_part(s);
    if ds.len() == 0 || !all_digits(ds) {
        None
    } else {
        let v: int = if s[0] == 45 {
            -digits_value(ds)
        } else {
            digits_value(ds) as int
        };
        if i64::MIN <= v <= i64::MAX {
            Some(v as i64)
        } else {
            None
        }
    }
}

proof fn lemma_digits_value_grows(s: Seq<u8>, k: int)
    requires
        0 <= k <= s.len(),
        all_digits(s),
    ensures
        digits_value(s.subrange(0, k)) <= digits_value(s),
    decreases s.len() - k,
{
    if k < s.len() {
        lemma_digits_value_grows(s, k + 1);
        let p = s.subrange(0, k + 1);
        assert(p.drop_last() =~= s.subrange(0, k));
    } else {
        assert(s.subrange(0, k) =~= s);
    }
}

/// Parses a decimal `i64` as `str::parse::<i64>` does.
pub fn parse_i64(s: &[u8]) -> (res: Option<i64>)
    ensures
        res == parse_i64_s(s@),
{
    let n = s.len();
    let neg = n > 0 && s[0] == 45;
    let first: usize = if n > 0 && (s[0] == 45 || s[0] == 43) {
        1
    } else {
        0
    };
    let ghost ds = unsigned_part(s@);
    assert(ds =~= s@.subrange(first as int, n as int));
    if first == n {
        return None;
    }
    let mut acc: u64 = 0;
    let mut i = first;
    while i < n
        invariant
            first <= i <= n == s.len(),
            first < n,
            ds == s@.subrange(first as int, n as int),
            ds == unsigned_part(s@),
            neg == (s@.len() > 0 && s@[0] == 45),
            forall|j: int| 0 <= j < i - first ==> is_digit(#[trigger] ds[j]),
            acc == digits_value(ds.subrange(0, i - first)),
            acc <= 9223372036854775808u64,
        decreases n - i,
    {
        let b = s[i];
        if !(48 <= b && b <= 57) {
            assert(!is_digit(ds[i - first]));
            assert(!all_digits(ds));
            return None;
        }
        let d = (b - 48) as u64;
        assert(ds.subrange(0, i + 1 - first).drop_last() =~= ds.subrange(0, i - first));
        if acc > 922337203685477580u64 || (acc == 922337203685477580u64 && d > 8) {
            proof {
                let v = digits_value(ds.subrange(0, i + 1 - first));
                assert(v > 9223372036854775808) by (nonlinear_arith)
                    requires
                        v == acc * 10 + d,
                        acc > 922337203685477580 || (acc == 922337203685477580 && d > 8),
                ;
                if all_digits(ds) {
                    lemma_digits_value_grows(ds, i + 1 - first);
                }
            }
            return None;
        }
        acc = acc * 10 + d;
        i += 1;
    }
    assert(ds.subrange(0, n - first) =~= ds);
    if neg {
        if acc == 9223372036854775808u64 {
            Some(i64::MIN)
        } else {
            Some(-(acc as i64))
        }
    } else if acc <= 9223372036854775807u64 {
        Some(acc as i64)
    } else {
        None
    }
}

/// The decimal digits of `v`.
pub open spec fn nat_digits(v: nat) -> Seq<u8>
    decreases v,
{
    if v < 10 {
        seq![(48 + v) as u8]
    } else {
        nat_digits(v / 10).push((48 + v % 10) as u8)
    }
}

/// The decimal form of `n`, with a leading `-` when it is negative.
pub open spec fn dec_s(n: i64) -> Seq<u8> {
    if n < 0 {
        seq![45u8] + nat_digits((-n) as nat)
    } else {
        nat_digits(n as nat)
    }
}

fn push_digits(v: u64, out: &mut Vec<u8>)
    ensures
        final(out)@ == old(out)@ + nat_digits(v as nat),
    decreases v,
{
    if v >= 10 {
        push_digits(v / 10, out);
    }
    out.push((48 + v % 10) as u8);
    assert(nat_digits(v as nat) == if v < 10 {
        seq![(48 + v) as u8]
    } else {
        nat_digits((v / 10) as nat).push((48 + v % 10) as u8)
    });
}

/// Appends the decimal form of `n`.
pub fn push_decimal(n: i64, out: &mut Vec<u8>)
    ensures
        final(out)@ == old(out)@ + dec_s(n),
{
    if n < 0 {
        out.push(45u8);
        let m: u64 = if n == i64::MIN {
            9223372036854775808u64
        } else {
            (-n) as u64
        };
        push_digits(m, out);
    } else {
        push_digits(n as u64, out);
    }
}

} // verus!
