//! Byte-string utilities.
//!
//! Control streams are processed as ASCII byte strings. Each helper here
//! has an exact specification over `Seq<u8>`, so the parser's contracts
//! can speak of trimming, case folding and substring search precisely.

use vstd::prelude::*;

verus! {

/// ASCII whitespace, the bytes `str::trim` removes from ASCII text.
pub open spec fn is_space(b: u8) -> bool {
    b == 32 || b == 9 || b == 10 || b == 11 || b == 12 || b == 13
}

/// End of the run of whitespace starting at `i`.
pub open spec fn ws_run_end(s: Seq<u8>, i: int) -> int
    recommends
        0 <= i <= s.len(),
    decreases s.len() - i when 0 <= i <= s.len()
{
    if i < s.len() && is_space(s[i]) {
        ws_run_end(s, i + 1)
    } else {
        i
    }
}

/// Length of `s` once trailing whitespace is dropped.
pub open spec fn trim_end_idx(s: Seq<u8>) -> int
    decreases s.len(),
{
    if s.len() > 0 && is_space(s.last()) {
        trim_end_idx(s.drop_last())
    } else {
        s.len() as int
    }
}

/// `s` with leading and trailing whitespace removed.
pub open spec fn trim_seq(s: Seq<u8>) -> Seq<u8> {
    let a = ws_run_end(s, 0);
    let b = trim_end_idx(s);
    if a <= b {
        s.subrange(a, b)
    } else {
        Seq::empty()
    }
}

/// ASCII upper-casing of one byte.
pub open spec fn upper_byte(b: u8) -> u8 {
    if 97 <= b && b <= 122 {
        (b - 32) as u8
    } else {
        b
    }
}

/// ASCII upper-casing of a byte string.
pub open spec fn upper_seq(s: Seq<u8>) -> Seq<u8> {
    Seq::new(s.len(), |i: int| upper_byte(s[i]))
}

/// `n` occurs in `h` at position `i`.
pub open spec fn contains_at(h: Seq<u8>, n: Seq<u8>, i: int) -> bool {
    0 <= i && i + n.len() <= h.len() && h.subrange(i, i + n.len()) == n
}

/// `n` occurs somewhere in `h`.
pub open spec fn contains_seq(h: Seq<u8>, n: Seq<u8>) -> bool {
    exists|i: int| contains_at(h, n, i)
}

/// `h` begins with `p`.
pub open spec fn starts_with_seq(h: Seq<u8>, p: Seq<u8>) -> bool {
    p.len() <= h.len() && h.subrange(0, p.len() as int) == p
}

/// First position at or after `i` holding byte `x`, or the length.
pub open spec fn byte_pos(s: Seq<u8>, x: u8, i: int) -> int
    recommends
        0 <= i <= s.len(),
    decreases s.len() - i when 0 <= i <= s.len()
{
    if i < s.len() && s[i] != x {
        byte_pos(s, x, i + 1)
    } else {
        i
    }
}

pub proof fn lemma_trim_end_idx_bounds(s: Seq<u8>)
    ensures
        0 <= trim_end_idx(s) <= s.len(),
    decreases s.len(),
{
    if s.len() > 0 && is_space(s.last()) {
        lemma_trim_end_idx_bounds(s.drop_last());
    }
}

pub proof fn lemma_ws_run_end_bounds(s: Seq<u8>, i: int)
    requires
        0 <= i <= s.len(),
    ensures
        i <= ws_run_end(s, i) <= s.len(),
        ws_run_end(s, i) < s.len() ==> !is_space(s[ws_run_end(s, i)]),
        forall|k: int| i <= k < ws_run_end(s, i) ==> is_space(#[trigger] s[k]),
    decreases s.len() - i,
{
    if i < s.len() && is_space(s[i]) {
        lemma_ws_run_end_bounds(s, i + 1);
    }
}

proof fn lemma_ws_run_end_from_scan(s: Seq<u8>, a: int, i: int)
    requires
        0 <= a <= i <= s.len(),
        forall|k: int| a <= k < i ==> is_space(#[trigger] s[k]),
        i == s.len() || !is_space(s[i]),
    ensures
        ws_run_end(s, a) == i,
    decreases i - a,
{
    if a < i {
        lemma_ws_run_end_from_scan(s, a + 1, i);
    }
}

pub proof fn lemma_byte_pos_bounds(s: Seq<u8>, x: u8, i: int)
    requires
        0 <= i <= s.len(),
    ensures
        i <= byte_pos(s, x, i) <= s.len(),
        byte_pos(s, x, i) < s.len() ==> s[byte_pos(s, x, i)] == x,
        forall|k: int| i <= k < byte_pos(s, x, i) ==> #[trigger] s[k] != x,
    decreases s.len() - i,
{
    if i < s.len() && s[i] != x {
        lemma_byte_pos_bounds(s, x, i + 1);
    }
}

proof fn lemma_byte_pos_from_scan(s: Seq<u8>, x: u8, a: int, i: int)
    requires
        0 <= a <= i <= s.len(),
        forall|k: int| a <= k < i ==> #[trigger] s[k] != x,
        i == s.len() || s[i] == x,
    ensures
        byte_pos(s, x, a) == i,
    decreases i - a,
{
    if a < i {
        lemma_byte_pos_from_scan(s, x, a + 1, i);
    }
}

/// A copy of `s[a..b]`.
pub fn subrange_vec(s: &[u8], a: usize, b: usize) -> (r: Vec<u8>)
    requires
        a <= b <= s@.len(),
    ensures
        r@ == s@.subrange(a as int, b as int),
{
    let mut r: Vec<u8> = Vec::new();
    let mut k = a;
    while k < b
        invariant
            a <= k <= b <= s@.len(),
            r@ == s@.subrange(a as int, k as int),
        decreases b - k,
    {
        r.push(s[k]);
        proof {
            assert(s@.subrange(a as int, k + 1) =~= s@.subrange(a as int, k as int).push(
                s@[k as int],
            ));
        }
        k = k + 1;
    }
    r
}

/// Byte-string equality.
pub fn bytes_eq(a: &[u8], b: &[u8]) -> (r: bool)
    ensures
        r == (a@ == b@),
{
    if a.len() != b.len() {
        return false;
    }
    let n = a.len();
    let mut k: usize = 0;
    while k < n
        invariant
            k <= n == a@.len() && n == b@.len(),
            forall|j: int| 0 <= j < k ==> a@[j] == b@[j],
        decreases n - k,
    {
        if a[k] != b[k] {
            return false;
        }
        k = k + 1;
    }
    proof {
        assert(a@ =~= b@);
    }
    true
}

/// `s` with leading and trailing ASCII whitespace removed.
pub fn trim(s: &[u8]) -> (r: Vec<u8>)
    ensures
        r@ == trim_seq(s@),
{
    let n = s.len();
    let mut i: usize = 0;
    while i < n && (s[i] == 32 || s[i] == 9 || s[i] == 10 || s[i] == 11 || s[i] == 12 || s[i]
        == 13)
        invariant
            i <= n == s@.len(),
            forall|k: int| 0 <= k < i ==> is_space(#[trigger] s@[k]),
        decreases n - i,
    {
        i = i + 1;
    }
    proof {
        lemma_ws_run_end_from_scan(s@, 0, i as int);
    }
    let mut j: usize = n;
    proof {
        assert(s@.take(n as int) =~= s@);
        lemma_trim_end_idx_bounds(s@.take(n as int));
    }
    while j > 0 && (s[j - 1] == 32 || s[j - 1] == 9 || s[j - 1] == 10 || s[j - 1] == 11 || s[j - 1]
        == 12 || s[j - 1] == 13)
        invariant
            j <= n == s@.len(),
            trim_end_idx(s@) == trim_end_idx(s@.take(j as int)),
            trim_end_idx(s@.take(j as int)) <= j,
        decreases j,
    {
        proof {
            assert(s@.take(j as int).drop_last() =~= s@.take(j - 1));
            assert(s@.take(j as int).last() == s@[j - 1]);
            lemma_trim_end_idx_bounds(s@.take(j - 1));
        }
        j = j - 1;
    }
    proof {
        if j > 0 {
            assert(s@.take(j as int).last() == s@[j - 1]);
        }
        assert(trim_end_idx(s@.take(j as int)) == j);
    }
    if i >= j {
        proof {
            if ws_run_end(s@, 0) <= trim_end_idx(s@) {
                assert(s@.subrange(ws_run_end(s@, 0), trim_end_idx(s@)) =~= Seq::empty());
            }
        }
        return Vec::new();
    }
    subrange_vec(s, i, j)
}

/// ASCII upper-casing.
pub fn to_upper(s: &[u8]) -> (r: Vec<u8>)
    ensures
        r@ == upper_seq(s@),
{
    let n = s.len();
    let mut r: Vec<u8> = Vec::new();
    let mut k: usize = 0;
    while k < n
        invariant
            k <= n == s@.len(),
            r@.len() == k,
            forall|j: int| 0 <= j < k ==> r@[j] == upper_byte(#[trigger] s@[j]),
        decreases n - k,
    {
        let b = s[k];
        if b >= 97 && b <= 122 {
            r.push(b - 32);
        } else {
            r.push(b);
        }
        k = k + 1;
    }
    proof {
        assert(r@ =~= upper_seq(s@));
    }
    r
}

/// Does `h` begin with `p`?
pub fn starts_with(h: &[u8], p: &[u8]) -> (r: bool)
    ensures
        r == starts_with_seq(h@, p@),
{
    if p.len() > h.len() {
        return false;
    }
    let n = p.len();
    let mut k: usize = 0;
    while k < n
        invariant
            k <= n == p@.len() <= h@.len(),
            forall|j: int| 0 <= j < k ==> h@[j] == p@[j],
        decreases n - k,
    {
        if h[k] != p[k] {
            proof {
                assert(h@.subrange(0, p@.len() as int)[k as int] == h@[k as int]);
            }
            return false;
        }
        k = k + 1;
    }
    proof {
        assert(h@.subrange(0, p@.len() as int) =~= p@);
    }
    true
}

/// Does `n` occur anywhere in `h`?
pub fn contains(h: &[u8], n: &[u8]) -> (r: bool)
    ensures
        r == contains_seq(h@, n@),
{
    if n.len() > h.len() {
        return false;
    }
    if n.len() == 0 {
        proof {
            assert(contains_at(h@, n@, 0)) by {
                assert(h@.subrange(0, 0) =~= n@);
            }
        }
        return true;
    }
    let hl = h.len();
    let last = h.len() - n.len();
    let mut i: usize = 0;
    while i <= last
        invariant
            i <= last + 1,
            hl == h@.len(),
            last == h@.len() - n@.len(),
            1 <= n@.len() <= h@.len(),
            forall|k: int| 0 <= k < i ==> !contains_at(h@, n@, k),
        decreases last + 1 - i,
    {
        let m = n.len();
        let mut k: usize = 0;
        let mut hit = true;
        while k < m
            invariant
                k <= m == n@.len(),
                hl == h@.len(),
                i + m <= h@.len(),
                hit ==> forall|j: int| 0 <= j < k ==> h@[i + j] == n@[j],
                !hit ==> !contains_at(h@, n@, i as int),
            decreases m - k,
        {
            if h[i + k] != n[k] {
                proof {
                    assert(h@.subrange(i as int, i + n@.len())[k as int] == h@[i + k]);
                }
                hit = false;
                k = m;
            } else {
                k = k + 1;
            }
        }
        if hit {
            proof {
                assert(h@.subrange(i as int, i + n@.len()) =~= n@);
                assert(contains_at(h@, n@, i as int));
            }
            return true;
        }
        i = i + 1;
    }
    proof {
        assert forall|k: int| !contains_at(h@, n@, k) by {
            if 0 <= k && k + n@.len() <= h@.len() {
                assert(k < i);
            }
        }
    }
    false
}

/// First position of `x` in `s` at or after `from`, or `s.len()`.
pub fn find_byte(s: &[u8], x: u8, from: usize) -> (r: usize)
    requires
        from <= s@.len(),
    ensures
        r == byte_pos(s@, x, from as int),
        from <= r <= s@.len(),
{
    let n = s.len();
    let mut i = from;
    while i < n && s[i] != x
        invariant
            from <= i <= n == s@.len(),
            forall|k: int| from <= k < i ==> #[trigger] s@[k] != x,
        decreases n - i,
    {
        i = i + 1;
    }
    proof {
        lemma_byte_pos_from_scan(s@, x, from as int, i as int);
    }
    i
}

} // verus!

verus! {

/// End of the run of non-whitespace starting at `i`.
pub open spec fn nonws_run_end(s: Seq<u8>, i: int) -> int
    recommends
        0 <= i <= s.len(),
    decreases s.len() - i when 0 <= i <= s.len()
{
    if i < s.len() && !is_space(s[i]) {
        nonws_run_end(s, i + 1)
    } else {
        i
    }
}

pub proof fn lemma_nonws_run_end_bounds(s: Seq<u8>, i: int)
    requires
        0 <= i <= s.len(),
    ensures
        i <= nonws_run_end(s, i) <= s.len(),
        nonws_run_end(s, i) < s.len() ==> is_space(s[nonws_run_end(s, i)]),
        forall|k: int| i <= k < nonws_run_end(s, i) ==> !is_space(#[trigger] s[k]),
    decreases s.len() - i,
{
    if i < s.len() && !is_space(s[i]) {
        lemma_nonws_run_end_bounds(s, i + 1);
    }
}

proof fn lemma_nonws_run_end_from_scan(s: Seq<u8>, a: int, i: int)
    requires
        0 <= a <= i <= s.len(),
        forall|k: int| a <= k < i ==> !is_space(#[trigger] s[k]),
        i == s.len() || is_space(s[i]),
    ensures
        nonws_run_end(s, a) == i,
    decreases i - a,
{
    if a < i {
        lemma_nonws_run_end_from_scan(s, a + 1, i);
    }
}

pub proof fn lemma_ws_run_end_shift(s: Seq<u8>, i: int, j: int)
    requires
        0 <= i <= j <= s.len(),
    ensures
        ws_run_end(s.skip(i), j - i) == ws_run_end(s, j) - i,
    decreases s.len() - j,
{
    assert(s.skip(i).len() == s.len() - i);
    if j < s.len() && is_space(s[j]) {
        assert(s.skip(i)[j - i] == s[j]);
        lemma_ws_run_end_shift(s, i, j + 1);
    } else {
        if j < s.len() {
            assert(s.skip(i)[j - i] == s[j]);
        }
    }
}

pub proof fn lemma_nonws_run_end_shift(s: Seq<u8>, i: int, j: int)
    requires
        0 <= i <= j <= s.len(),
    ensures
        nonws_run_end(s.skip(i), j - i) == nonws_run_end(s, j) - i,
    decreases s.len() - j,
{
    assert(s.skip(i).len() == s.len() - i);
    if j < s.len() && !is_space(s[j]) {
        assert(s.skip(i)[j - i] == s[j]);
        lemma_nonws_run_end_shift(s, i, j + 1);
    } else {
        if j < s.len() {
            assert(s.skip(i)[j - i] == s[j]);
        }
    }
}

pub proof fn lemma_byte_pos_shift(s: Seq<u8>, x: u8, i: int, j: int)
    requires
        0 <= i <= j <= s.len(),
    ensures
        byte_pos(s.skip(i), x, j - i) == byte_pos(s, x, j) - i,
    decreases s.len() - j,
{
    assert(s.skip(i).len() == s.len() - i);
    if j < s.len() && s[j] != x {
        assert(s.skip(i)[j - i] == s[j]);
        lemma_byte_pos_shift(s, x, i, j + 1);
    } else {
        if j < s.len() {
            assert(s.skip(i)[j - i] == s[j]);
        }
    }
}

/// `s` without any occurrence of `x` or `y`.
pub open spec fn strip2_seq(s: Seq<u8>, x: u8, y: u8) -> Seq<u8> {
    s.filter(|b: u8| b != x && b != y)
}

pub fn strip2(s: &[u8], x: u8, y: u8) -> (r: Vec<u8>)
    ensures
        r@ == strip2_seq(s@, x, y),
{
    let n = s.len();
    let mut r: Vec<u8> = Vec::new();
    let mut i: usize = 0;
    proof {
        assert(s@.take(0) =~= Seq::<u8>::empty());
        reveal(Seq::filter);
    }
    while i < n
        invariant
            i <= n == s@.len(),
            r@ == strip2_seq(s@.take(i as int), x, y),
        decreases n - i,
    {
        proof {
            reveal(Seq::filter);
            assert(s@.take(i + 1).drop_last() =~= s@.take(i as int));
            assert(s@.take(i + 1).last() == s@[i as int]);
        }
        let b = s[i];
        if b != x && b != y {
            r.push(b);
        }
        i = i + 1;
    }
    proof {
        assert(s@.take(n as int) =~= s@);
    }
    r
}

/// `s` with every `x` replaced by `y`.
pub open spec fn replace_seq(s: Seq<u8>, x: u8, y: u8) -> Seq<u8> {
    Seq::new(s.len(), |i: int| if s[i] == x { y } else { s[i] })
}

pub fn replace_byte(s: &[u8], x: u8, y: u8) -> (r: Vec<u8>)
    ensures
        r@ == replace_seq(s@, x, y),
{
    let n = s.len();
    let mut r: Vec<u8> = Vec::new();
    let mut i: usize = 0;
    while i < n
        invariant
            i <= n == s@.len(),
            r@.len() == i,
            forall|j: int| 0 <= j < i ==> r@[j] == (if s@[j] == x { y } else { #[trigger] s@[j] }),
        decreases n - i,
    {
        let b = s[i];
        if b == x {
            r.push(y);
        } else {
            r.push(b);
        }
        i = i + 1;
    }
    proof {
        assert(r@ =~= replace_seq(s@, x, y));
    }
    r
}

/// Split at every occurrence of `x`; empty pieces are kept, as with
/// `str::split`.
pub open spec fn split_byte_seq(s: Seq<u8>, x: u8) -> Seq<Seq<u8>>
    decreases s.len() via split_byte_seq_dec
{
    let p = byte_pos(s, x, 0);
    if p == s.len() {
        seq![s]
    } else {
        seq![s.take(p)] + split_byte_seq(s.skip(p + 1), x)
    }
}

#[via_fn]
proof fn split_byte_seq_dec(s: Seq<u8>, x: u8) {
    lemma_byte_pos_bounds(s, x, 0);
}

pub fn split_byte_vec(s: &[u8], x: u8) -> (r: Vec<Vec<u8>>)
    ensures
        r.deep_view() == split_byte_seq(s@, x),
{
    let n = s.len();
    let mut r: Vec<Vec<u8>> = Vec::new();
    let mut start: usize = 0;
    proof {
        assert(s@.skip(0) =~= s@);
        assert(r.deep_view() =~~= Seq::<Seq<u8>>::empty());
        assert(r.deep_view() + split_byte_seq(s@.skip(0), x) =~~= split_byte_seq(s@, x));
    }
    loop
        invariant
            start <= n == s@.len(),
            split_byte_seq(s@, x) == r.deep_view() + split_byte_seq(s@.skip(start as int), x),
        decreases n - start,
    {
        let ghost old_dv = r.deep_view();
        let ghost tail = s@.skip(start as int);
        let p = find_byte(s, x, start);
        proof {
            lemma_byte_pos_shift(s@, x, start as int, start as int);
            assert(byte_pos(tail, x, 0) == p - start);
            assert(tail.take(p - start) =~= s@.subrange(start as int, p as int));
        }
        let piece = subrange_vec(s, start, p);
        r.push(piece);
        proof {
            assert(r.deep_view() =~~= old_dv.push(s@.subrange(start as int, p as int)));
        }
        if p == n {
            proof {
                assert(tail =~= s@.subrange(start as int, p as int));
                assert(split_byte_seq(tail, x) =~= seq![s@.subrange(start as int, p as int)]);
                assert(r.deep_view() =~~= old_dv + split_byte_seq(tail, x));
            }
            return r;
        }
        proof {
            assert(tail.skip(p - start + 1) =~= s@.skip(p + 1));
            assert(split_byte_seq(tail, x) == seq![s@.subrange(start as int, p as int)]
                + split_byte_seq(s@.skip(p + 1), x));
            assert(old_dv.push(s@.subrange(start as int, p as int)) + split_byte_seq(
                s@.skip(p + 1),
                x,
            ) =~= old_dv + split_byte_seq(tail, x));
        }
        start = p + 1;
    }
}

/// Split into maximal whitespace-free words, as `str::split_whitespace`.
pub open spec fn split_ws_seq(s: Seq<u8>) -> Seq<Seq<u8>>
    decreases s.len() via split_ws_seq_dec
{
    let a = ws_run_end(s, 0);
    if a == s.len() {
        Seq::empty()
    } else {
        let b = nonws_run_end(s, a);
        seq![s.subrange(a, b)] + split_ws_seq(s.skip(b))
    }
}

#[via_fn]
proof fn split_ws_seq_dec(s: Seq<u8>) {
    lemma_ws_run_end_bounds(s, 0);
    let a = ws_run_end(s, 0);
    if a < s.len() {
        assert(!is_space(s[a]));
        assert(nonws_run_end(s, a) == nonws_run_end(s, a + 1));
        lemma_nonws_run_end_bounds(s, a + 1);
    }
}

pub fn split_ws_vec(s: &[u8]) -> (r: Vec<Vec<u8>>)
    ensures
        r.deep_view() == split_ws_seq(s@),
{
    let n = s.len();
    let mut r: Vec<Vec<u8>> = Vec::new();
    let mut i: usize = 0;
    proof {
        assert(s@.skip(0) =~= s@);
        assert(r.deep_view() =~~= Seq::<Seq<u8>>::empty());
        assert(r.deep_view() + split_ws_seq(s@.skip(0)) =~~= split_ws_seq(s@));
    }
    loop
        invariant
            i <= n == s@.len(),
            split_ws_seq(s@) == r.deep_view() + split_ws_seq(s@.skip(i as int)),
        decreases n - i,
    {
        let ghost old_dv = r.deep_view();
        let ghost tail = s@.skip(i as int);
        // skip whitespace
        let mut a = i;
        while a < n && (s[a] == 32 || s[a] == 9 || s[a] == 10 || s[a] == 11 || s[a] == 12 || s[a]
            == 13)
            invariant
                i <= a <= n == s@.len(),
                forall|k: int| i <= k < a ==> is_space(#[trigger] s@[k]),
            decreases n - a,
        {
            a = a + 1;
        }
        proof {
            lemma_ws_run_end_shift(s@, i as int, a as int);
            assert forall|k: int| 0 <= k < a - i implies is_space(#[trigger] s@.skip(i as int)[k])
                by {
                assert(s@.skip(i as int)[k] == s@[i + k]);
            }
            if a < n {
                assert(s@.skip(i as int)[a - i] == s@[a as int]);
            }
            lemma_ws_run_end_from_scan(s@.skip(i as int), 0, a - i);
            assert(ws_run_end(s@.skip(i as int), 0) == a - i);
        }
        if a == n {
            proof {
                assert(split_ws_seq(tail) =~= Seq::<Seq<u8>>::empty());
                assert(old_dv + split_ws_seq(tail) =~= old_dv);
            }
            return r;
        }
        // take the word
        let mut b = a;
        while b < n && !(s[b] == 32 || s[b] == 9 || s[b] == 10 || s[b] == 11 || s[b] == 12 || s[b]
            == 13)
            invariant
                a <= b <= n == s@.len(),
                forall|k: int| a <= k < b ==> !is_space(#[trigger] s@[k]),
            decreases n - b,
        {
            b = b + 1;
        }
        proof {
            lemma_nonws_run_end_shift(s@, i as int, b as int);
            assert forall|k: int| a - i <= k < b - i implies !is_space(
                #[trigger] s@.skip(i as int)[k],
            ) by {
                assert(s@.skip(i as int)[k] == s@[i + k]);
            }
            if b < n {
                assert(s@.skip(i as int)[b - i] == s@[b as int]);
            }
            lemma_nonws_run_end_from_scan(s@.skip(i as int), a - i, b - i);
            assert(nonws_run_end(tail, a - i) == b - i);
            assert(tail.subrange(a - i, b - i) =~= s@.subrange(a as int, b as int));
            assert(tail.skip(b - i) =~= s@.skip(b as int));
        }
        let word = subrange_vec(s, a, b);
        r.push(word);
        proof {
            assert(r.deep_view() =~~= old_dv.push(s@.subrange(a as int, b as int)));
            assert(split_ws_seq(tail) == seq![s@.subrange(a as int, b as int)] + split_ws_seq(
                s@.skip(b as int),
            ));
            assert(old_dv.push(s@.subrange(a as int, b as int)) + split_ws_seq(s@.skip(b as int))
                =~= old_dv + split_ws_seq(tail));
        }
        i = b;
    }
}

} // verus!
