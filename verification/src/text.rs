//! Text helpers the renderer is specified with: decimal rendering of row and
//! column numbers, styled cell sequences, and substring search with
//! highlight splitting.

use vstd::prelude::*;
use vstd::string::StrSliceExecFns;
use vstd::string::StringExecFns;
use crate::style::{Cell, Style, mk_cell};

verus! {

/// `t` rendered one cell per character, all in style `st`.
pub open spec fn styled(t: Seq<char>, st: Style) -> Seq<Cell> {
    Seq::new(t.len(), |i: int| mk_cell(t[i], st))
}

/// The characters of `s`, as an owned vector.
pub fn chars_of(s: &str) -> (r: Vec<char>)
    ensures
        r@ == s@,
{
    let n = s.unicode_len();
    let mut r: Vec<char> = Vec::new();
    let mut i: usize = 0;
    while i < n
        invariant
            i <= n,
            n == s@.len(),
            r@ == s@.take(i as int),
        decreases n - i,
    {
        r.push(s.get_char(i));
        proof {
            assert(r@ =~= s@.take(i + 1));
        }
        i = i + 1;
    }
    proof {
        assert(s@.take(n as int) =~= s@);
    }
    r
}

/// The characters of `s` in style `st`, as grid cells.
pub fn styled_cells(s: &str, st: Style) -> (r: Vec<Cell>)
    ensures
        r@ == styled(s@, st),
{
    let n = s.unicode_len();
    let mut r: Vec<Cell> = Vec::new();
    proof {
        assert(r@ =~= styled(s@.take(0), st));
    }
    let mut i: usize = 0;
    while i < n
        invariant
            i <= n,
            n == s@.len(),
            r@ == styled(s@.take(i as int), st),
        decreases n - i,
    {
        r.push(Cell { ch: s.get_char(i), style: st });
        proof {
            assert(r@ =~= styled(s@.take(i + 1), st));
        }
        i = i + 1;
    }
    proof {
        assert(s@.take(n as int) =~= s@);
    }
    r
}

/// The character for one decimal digit.
pub open spec fn digit_char(d: int) -> char {
    if d == 0 {
        '0'
    } else if d == 1 {
        '1'
    } else if d == 2 {
        '2'
    } else if d == 3 {
        '3'
    } else if d == 4 {
        '4'
    } else if d == 5 {
        '5'
    } else if d == 6 {
        '6'
    } else if d == 7 {
        '7'
    } else if d == 8 {
        '8'
    } else {
        '9'
    }
}

/// The decimal rendering of `n`, most significant digit first, no leading
/// zeros (except for zero itself).
pub open spec fn dec_of(n: nat) -> Seq<char>
    decreases n,
{
    if n < 10 {
        seq![digit_char(n as int)]
    } else {
        dec_of(n / 10) + seq![digit_char((n % 10) as int)]
    }
}

fn digit_str(d: u64) -> (r: &'static str)
    requires
        d < 10,
    ensures
        r@ == seq![digit_char(d as int)],
{
    proof {
        reveal_strlit("0");
        reveal_strlit("1");
        reveal_strlit("2");
        reveal_strlit("3");
        reveal_strlit("4");
        reveal_strlit("5");
        reveal_strlit("6");
        reveal_strlit("7");
        reveal_strlit("8");
        reveal_strlit("9");
    }
    let r = if d == 0 {
        "0"
    } else if d == 1 {
        "1"
    } else if d == 2 {
        "2"
    } else if d == 3 {
        "3"
    } else if d == 4 {
        "4"
    } else if d == 5 {
        "5"
    } else if d == 6 {
        "6"
    } else if d == 7 {
        "7"
    } else if d == 8 {
        "8"
    } else {
        "9"
    };
    proof {
        assert(r@ =~= seq![digit_char(d as int)]);
    }
    r
}

/// The decimal rendering of `n` as a string.
pub fn u64_dec(n: u64) -> (r: String)
    ensures
        r@ == dec_of(n as nat),
    decreases n,
{
    if n < 10 {
        String::from_str(digit_str(n))
    } else {
        let mut s = u64_dec(n / 10);
        s.append(digit_str(n % 10));
        proof {
            assert(s@ =~= dec_of(n as nat));
        }
        s
    }
}

pub open spec fn pow10(k: nat) -> int
    decreases k,
{
    if k == 0 {
        1
    } else {
        10 * pow10((k - 1) as nat)
    }
}

proof fn lemma_dec_of_len(n: nat, k: nat)
    requires
        k >= 1,
        n < pow10(k),
    ensures
        1 <= dec_of(n).len() <= k,
    decreases k,
{
    if n < 10 {
    } else {
        assert(pow10(k) == 10 * pow10((k - 1) as nat));
        assert(n / 10 < pow10((k - 1) as nat)) by (nonlinear_arith)
            requires
                n >= 10,
                pow10(k) == 10 * pow10((k - 1) as nat),
                n < pow10(k),
        ;
        lemma_dec_of_len(n / 10, (k - 1) as nat);
    }
}

/// No 64-bit number has more than twenty decimal digits.
pub proof fn lemma_dec_of_len_u64(n: u64)
    ensures
        1 <= dec_of(n as nat).len() <= 20,
{
    assert(pow10(20) > u64::MAX) by {
        reveal_with_fuel(pow10, 21);
    }
    lemma_dec_of_len(n as nat, 20);
}

/// The characters of a cell sequence, styles forgotten.
pub open spec fn cell_chars(s: Seq<Cell>) -> Seq<char> {
    Seq::new(s.len(), |i: int| s[i].ch)
}

/// A plain styling keeps the characters exactly.
pub proof fn lemma_styled_chars(t: Seq<char>, st: Style)
    ensures
        cell_chars(styled(t, st)) == t,
{
    assert(cell_chars(styled(t, st)) =~= t);
}

/// `p` occurs in `t` at position `i`.
pub open spec fn match_at(t: Seq<char>, p: Seq<char>, i: int) -> bool {
    0 <= i && i + p.len() <= t.len() && t.subrange(i, i + p.len() as int) == p
}

/// The position of the leftmost occurrence of `p` in `t`, if any.
pub open spec fn first_match(t: Seq<char>, p: Seq<char>) -> Option<int>
    decreases t.len(),
{
    if p.len() > t.len() {
        None
    } else if t.take(p.len() as int) == p {
        Some(0)
    } else if t.len() == 0 {
        None
    } else {
        match first_match(t.skip(1), p) {
            Some(i) => Some(i + 1),
            None => None,
        }
    }
}

/// `t` contains `p` as a contiguous substring.
pub open spec fn contains_seq(t: Seq<char>, p: Seq<char>) -> bool {
    first_match(t, p) is Some
}

/// Occurrences shift with a prefix cut.
pub proof fn lemma_match_at_shift(t: Seq<char>, p: Seq<char>, k: int, j: int)
    requires
        0 <= k <= t.len(),
        0 <= j,
    ensures
        match_at(t.skip(k), p, j) <==> match_at(t, p, k + j),
{
    if j + p.len() <= t.len() - k {
        assert(t.skip(k).subrange(j, j + p.len() as int) =~= t.subrange(
            k + j,
            k + j + p.len() as int,
        ));
    }
}

/// `first_match` really is the leftmost occurrence.
pub proof fn lemma_first_match(t: Seq<char>, p: Seq<char>)
    ensures
        match first_match(t, p) {
            Some(i) => match_at(t, p, i) && (forall|j: int| 0 <= j < i ==> !match_at(t, p, j)),
            None => forall|j: int| !match_at(t, p, j),
        },
    decreases t.len(),
{
    if p.len() > t.len() {
    } else if t.take(p.len() as int) == p {
        assert(t.take(p.len() as int) == t.subrange(0, p.len() as int));
        assert(match_at(t, p, 0));
    } else if t.len() == 0 {
        assert(t.take(p.len() as int) =~= p);
    } else {
        assert(!match_at(t, p, 0)) by {
            assert(t.take(p.len() as int) == t.subrange(0, p.len() as int));
        }
        lemma_first_match(t.skip(1), p);
        match first_match(t.skip(1), p) {
            Some(i) => {
                lemma_match_at_shift(t, p, 1, i);
                assert forall|j: int| 0 <= j < i + 1 implies !match_at(t, p, j) by {
                    if j >= 1 {
                        lemma_match_at_shift(t, p, 1, j - 1);
                    }
                }
            },
            None => {
                assert forall|j: int| !match_at(t, p, j) by {
                    if j >= 1 {
                        lemma_match_at_shift(t, p, 1, j - 1);
                    }
                }
            },
        }
    }
}

/// A leftmost occurrence determines `first_match`.
pub proof fn lemma_first_match_unique(t: Seq<char>, p: Seq<char>, i: int)
    requires
        match_at(t, p, i),
        forall|j: int| 0 <= j < i ==> !match_at(t, p, j),
    ensures
        first_match(t, p) == Some(i),
{
    lemma_first_match(t, p);
    match first_match(t, p) {
        Some(i2) => {
            if i2 < i {
                assert(!match_at(t, p, i2));
            } else if i < i2 {
                assert(!match_at(t, p, i));
            }
        },
        None => {
            assert(!match_at(t, p, i));
        },
    }
}

/// No occurrence at all determines `first_match`.
pub proof fn lemma_first_match_none(t: Seq<char>, p: Seq<char>)
    requires
        forall|j: int| !match_at(t, p, j),
    ensures
        first_match(t, p) is None,
{
    lemma_first_match(t, p);
    if let Some(i) = first_match(t, p) {
        assert(!match_at(t, p, i));
    }
}

/// The highlighted rendering of `t`: plain spans in `base` interleaved with
/// every (leftmost, non-overlapping) occurrence of `p` in `hl`, exactly as
/// splitting on `p` and re-joining with highlighted copies of `p` gives it.
pub open spec fn hl_cells(t: Seq<char>, p: Seq<char>, base: Style, hl: Style) -> Seq<Cell>
    decreases t.len(),
{
    if p.len() == 0 {
        styled(t, base)
    } else {
        match first_match(t, p) {
            None => styled(t, base),
            Some(i) => {
                if 0 <= i && i + p.len() <= t.len() {
                    styled(t.take(i), base) + styled(p, hl) + hl_cells(
                        t.skip(i + p.len() as int),
                        p,
                        base,
                        hl,
                    )
                } else {
                    styled(t, base)
                }
            },
        }
    }
}

/// Does `p` occur at position `i` of `t`?
fn is_match_at(t: &Vec<char>, p: &Vec<char>, i: usize) -> (r: bool)
    requires
        i + p@.len() <= t@.len(),
    ensures
        r == match_at(t@, p@, i as int),
{
    let m = p.len();
    let tn = t.len();
    let mut j: usize = 0;
    while j < m
        invariant
            j <= m,
            m == p@.len(),
            tn == t@.len(),
            i + m <= t@.len(),
            forall|k: int| 0 <= k < j ==> t@[i + k] == p@[k],
        decreases m - j,
    {
        if t[i + j] != p[j] {
            proof {
                assert(t@.subrange(i as int, i + m as int)[j as int] == t@[i + j]);
            }
            return false;
        }
        j = j + 1;
    }
    proof {
        assert(t@.subrange(i as int, i + m as int) =~= p@);
    }
    true
}

/// The leftmost occurrence of `p` in `t` at or after `from`.
fn find_from(t: &Vec<char>, p: &Vec<char>, from: usize) -> (r: Option<usize>)
    requires
        from <= t@.len(),
        p@.len() >= 1,
    ensures
        match r {
            Some(i) => from <= i && match_at(t@, p@, i as int) && (forall|j: int|
                from <= j < i ==> !match_at(t@, p@, j)),
            None => forall|j: int| from <= j ==> !match_at(t@, p@, j),
        },
{
    let n = t.len();
    let m = p.len();
    if m > n {
        return None;
    }
    let mut i: usize = from;
    while i <= n - m
        invariant
            from <= i,
            i <= n + 1,
            m >= 1,
            m <= n,
            n == t@.len(),
            m == p@.len(),
            forall|j: int| from <= j < i ==> !match_at(t@, p@, j),
        decreases n - i,
    {
        if is_match_at(t, p, i) {
            return Some(i);
        }
        i = i + 1;
    }
    None
}

/// Does `t` contain `p`?
pub fn contains_chars(t: &Vec<char>, p: &Vec<char>) -> (r: bool)
    ensures
        r == contains_seq(t@, p@),
{
    if p.len() == 0 {
        proof {
            assert(t@.take(p@.len() as int) =~= p@);
        }
        return true;
    }
    match find_from(t, p, 0) {
        Some(i) => {
            proof {
                lemma_first_match_unique(t@, p@, i as int);
            }
            true
        },
        None => {
            proof {
                lemma_first_match_none(t@, p@);
            }
            false
        },
    }
}

/// Append the characters `t[from..to]` to `out`, styled `st`.
fn push_styled_range(out: &mut Vec<Cell>, t: &Vec<char>, from: usize, to: usize, st: Style)
    requires
        from <= to <= t@.len(),
    ensures
        final(out)@ == old(out)@ + styled(t@.subrange(from as int, to as int), st),
{
    let ghost o0 = out@;
    let mut k: usize = from;
    while k < to
        invariant
            from <= k <= to,
            to <= t@.len(),
            out@ == o0 + styled(t@.subrange(from as int, k as int), st),
        decreases to - k,
    {
        out.push(Cell { ch: t[k], style: st });
        proof {
            assert(styled(t@.subrange(from as int, k + 1), st) =~= styled(
                t@.subrange(from as int, k as int),
                st,
            ).push(mk_cell(t@[k as int], st)));
            assert(out@ =~= o0 + styled(t@.subrange(from as int, k + 1), st));
        }
        k = k + 1;
    }
    proof {
        assert(out@ =~= o0 + styled(t@.subrange(from as int, to as int), st));
    }
}

/// Append all of `p` to `out`, styled `st`.
fn push_styled_all(out: &mut Vec<Cell>, p: &Vec<char>, st: Style)
    ensures
        final(out)@ == old(out)@ + styled(p@, st),
{
    let ghost o0 = out@;
    let mut k: usize = 0;
    let n = p.len();
    while k < n
        invariant
            k <= n,
            n == p@.len(),
            out@ == o0 + styled(p@.subrange(0, k as int), st),
        decreases n - k,
    {
        out.push(Cell { ch: p[k], style: st });
        proof {
            assert(styled(p@.subrange(0, k + 1), st) =~= styled(
                p@.subrange(0, k as int),
                st,
            ).push(mk_cell(p@[k as int], st)));
            assert(out@ =~= o0 + styled(p@.subrange(0, k + 1), st));
        }
        k = k + 1;
    }
    proof {
        assert(out@ =~= o0 + styled(p@, st));
    }
}

/// Render `t` with every occurrence of `p` highlighted, as `hl_cells` says.
pub fn highlight_cells(t: &Vec<char>, p: &Vec<char>, base: Style, hl: Style) -> (r: Vec<Cell>)
    requires
        p@.len() >= 1,
    ensures
        r@ == hl_cells(t@, p@, base, hl),
{
    let mut out: Vec<Cell> = Vec::new();
    let mut pos: usize = 0;
    let m = p.len();
    let tn = t.len();
    proof {
        assert(t@.skip(0) =~= t@);
        assert(out@ + hl_cells(t@.skip(0), p@, base, hl) =~= hl_cells(t@, p@, base, hl));
    }
    loop
        invariant
            pos <= t@.len(),
            tn == t@.len(),
            m == p@.len(),
            m >= 1,
            out@ + hl_cells(t@.skip(pos as int), p@, base, hl) == hl_cells(t@, p@, base, hl),
        decreases t@.len() - pos,
    {
        let ghost rest = t@.skip(pos as int);
        match find_from(t, p, pos) {
            None => {
                proof {
                    assert forall|j: int| !match_at(rest, p@, j) by {
                        if 0 <= j {
                            lemma_match_at_shift(t@, p@, pos as int, j);
                        }
                    }
                    lemma_first_match_none(rest, p@);
                    assert(hl_cells(rest, p@, base, hl) == styled(rest, base));
                    assert(rest =~= t@.subrange(pos as int, t@.len() as int));
                }
                let n = t.len();
                push_styled_range(&mut out, t, pos, n, base);
                return out;
            },
            Some(i) => {
                proof {
                    lemma_match_at_shift(t@, p@, pos as int, i - pos);
                    assert forall|j: int| 0 <= j < i - pos implies !match_at(rest, p@, j) by {
                        lemma_match_at_shift(t@, p@, pos as int, j);
                    }
                    lemma_first_match_unique(rest, p@, i - pos);
                    assert(hl_cells(rest, p@, base, hl) == styled(rest.take(i - pos), base) + styled(
                        p@,
                        hl,
                    ) + hl_cells(rest.skip(i - pos + m), p@, base, hl));
                    assert(rest.take(i - pos) =~= t@.subrange(pos as int, i as int));
                    assert(rest.skip(i - pos + m) =~= t@.skip(i + m as int));
                }
                push_styled_range(&mut out, t, pos, i, base);
                push_styled_all(&mut out, p, hl);
                pos = i + m;
                proof {
                    assert(out@ + hl_cells(t@.skip(pos as int), p@, base, hl)
                        =~= hl_cells(t@, p@, base, hl));
                }
            },
        }
    }
}

/// Law: the highlighted rendering keeps the text's characters exactly, and
/// some cell carries the highlight style iff the text contains the target.
pub proof fn lemma_highlight_cells(t: Seq<char>, p: Seq<char>, base: Style, hl: Style)
    requires
        p.len() >= 1,
        base != hl,
    ensures
        cell_chars(hl_cells(t, p, base, hl)) == t,
        (exists|k: int|
            0 <= k < hl_cells(t, p, base, hl).len() && hl_cells(t, p, base, hl)[k].style == hl)
            <==> contains_seq(t, p),
        forall|k: int|
            0 <= k < hl_cells(t, p, base, hl).len() ==> (#[trigger] hl_cells(t, p, base, hl)[k].style
                == base || hl_cells(t, p, base, hl)[k].style == hl),
    decreases t.len(),
{
    lemma_first_match(t, p);
    let r = hl_cells(t, p, base, hl);
    match first_match(t, p) {
        None => {
            assert(cell_chars(styled(t, base)) =~= t);
            assert forall|k: int| 0 <= k < r.len() implies r[k].style == base by {
                assert(r[k] == mk_cell(t[k], base));
            }
        },
        Some(i) => {
            let m = p.len() as int;
            let a = styled(t.take(i), base);
            let b = styled(p, hl);
            let c = hl_cells(t.skip(i + m), p, base, hl);
            lemma_highlight_cells(t.skip(i + m), p, base, hl);
            assert(r == a + b + c);
            assert forall|k: int| 0 <= k < r.len() implies r[k].ch == t[k] by {
                if k < i {
                    assert(r[k] == a[k]);
                    assert(a[k] == mk_cell(t.take(i)[k], base));
                } else if k < i + m {
                    assert(r[k] == b[k - i]);
                    assert(b[k - i] == mk_cell(p[k - i], hl));
                    assert(t.subrange(i, i + m) == p);
                    assert(t.subrange(i, i + m)[k - i] == t[k]);
                } else {
                    assert(r[k] == c[k - i - m]);
                    assert(cell_chars(c)[k - i - m] == c[k - i - m].ch);
                    assert(cell_chars(c) == t.skip(i + m));
                    assert(t.skip(i + m)[k - i - m] == t[k]);
                }
            }
            assert(cell_chars(r) =~= t);
            assert(r[i] == b[0]);
            assert(b[0] == mk_cell(p[0], hl));
            assert(r[i].style == hl);
            assert forall|k: int| 0 <= k < r.len() implies (r[k].style == base || r[k].style == hl) by {
                if k < i {
                    assert(r[k] == a[k]);
                    assert(a[k] == mk_cell(t.take(i)[k], base));
                } else if k < i + m {
                    assert(r[k] == b[k - i]);
                    assert(b[k - i] == mk_cell(p[k - i], hl));
                } else {
                    assert(r[k] == c[k - i - m]);
                }
            }
        },
    }
}

} // verus!
