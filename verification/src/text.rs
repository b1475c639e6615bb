//! Byte-level text utilities shared by the type and signature parsers:
//! ASCII whitespace trimming, decimal numerals, and small search helpers,
//! each with an exact specification.

use vstd::prelude::*;

verus! {

/// ASCII whitespace, the separator the grammar treats as insignificant.
pub open spec fn is_ws(b: u8) -> bool {
    b == 32 || b == 9 || b == 10 || b == 12 || b == 13
}

/// ASCII decimal digit.
pub open spec fn is_digit(b: u8) -> bool {
    48 <= b <= 57
}

/// The input with its leading whitespace removed.
pub open spec fn spec_trim_start(s: Seq<u8>) -> Seq<u8>
    decreases s.len(),
{
    if s.len() > 0 && is_ws(s[0]) {
        spec_trim_start(s.drop_first())
    } else {
        s
    }
}

/// The input with its trailing whitespace removed.
pub open spec fn spec_trim_end(s: Seq<u8>) -> Seq<u8>
    decreases s.len(),
{
    if s.len() > 0 && is_ws(s[s.len() - 1]) {
        spec_trim_end(s.drop_last())
    } else {
        s
    }
}

/// The input with whitespace removed from both ends.
pub open spec fn spec_trim(s: Seq<u8>) -> Seq<u8> {
    spec_trim_end(spec_trim_start(s))
}

proof fn lemma_trim_start_subrange(s: Seq<u8>, i: int)
    requires
        0 <= i <= s.len(),
        forall|j: int| 0 <= j < i ==> is_ws(s[j]),
        i == s.len() || !is_ws(s[i]),
    ensures
        spec_trim_start(s) == s.subrange(i, s.len() as int),
    decreases i,
{
    if i == 0 {
        assert(spec_trim_start(s) =~= s.subrange(0, s.len() as int));
    } else {
        let t = s.drop_first();
        assert(forall|j: int| 0 <= j < i - 1 ==> is_ws(t[j]));
        lemma_trim_start_subrange(t, i - 1);
        assert(t.subrange(i - 1, t.len() as int) =~= s.subrange(i, s.len() as int));
    }
}

proof fn lemma_trim_end_subrange(s: Seq<u8>, i: int)
    requires
        0 <= i <= s.len(),
        forall|j: int| i <= j < s.len() ==> is_ws(s[j]),
        i == 0 || !is_ws(s[i - 1]),
    ensures
        spec_trim_end(s) == s.subrange(0, i),
    decreases s.len() - i,
{
    if i == s.len() {
        assert(spec_trim_end(s) =~= s.subrange(0, i));
    } else {
        let t = s.drop_last();
        assert(forall|j: int| i <= j < t.len() ==> is_ws(t[j]));
        lemma_trim_end_subrange(t, i);
        assert(t.subrange(0, i) =~= s.subrange(0, i));
    }
}

/// Trimming never lengthens the text.
pub proof fn lemma_trim_len(s: Seq<u8>)
    ensures
        spec_trim(s).len() <= s.len(),
{
    lemma_trim_start_len(s);
    lemma_trim_end_len(spec_trim_start(s));
}

proof fn lemma_trim_start_len(s: Seq<u8>)
    ensures
        spec_trim_start(s).len() <= s.len(),
    decreases s.len(),
{
    if s.len() > 0 && is_ws(s[0]) {
        lemma_trim_start_len(s.drop_first());
    }
}

proof fn lemma_trim_end_len(s: Seq<u8>)
    ensures
        spec_trim_end(s).len() <= s.len(),
    decreases s.len(),
{
    if s.len() > 0 && is_ws(s[s.len() - 1]) {
        lemma_trim_end_len(s.drop_last());
    }
}

/// A string free of whitespace at both ends trims to itself.
pub proof fn lemma_trim_id(s: Seq<u8>)
    requires
        s.len() == 0 || (!is_ws(s[0]) && !is_ws(s[s.len() - 1])),
    ensures
        spec_trim(s) == s,
{
    assert(spec_trim_start(s) == s);
    assert(spec_trim_end(s) == s);
}

/// The position of the last occurrence of `c` in `s`, if any.
pub open spec fn spec_rfind(s: Seq<u8>, c: u8) -> Option<int>
    decreases s.len(),
{
    if s.len() == 0 {
        None
    } else if s[s.len() - 1] == c {
        Some(s.len() - 1)
    } else {
        spec_rfind(s.drop_last(), c)
    }
}

/// What `spec_rfind` finds is the last occurrence; when it finds
/// nothing, there is none.
pub proof fn lemma_rfind_character(s: Seq<u8>, c: u8)
    ensures
        match spec_rfind(s, c) {
            Some(p) => 0 <= p < s.len() && s[p] == c && (forall|j: int|
                p < j < s.len() ==> s[j] != c),
            None => forall|j: int| 0 <= j < s.len() ==> s[j] != c,
        },
    decreases s.len(),
{
    if s.len() > 0 && s[s.len() - 1] != c {
        lemma_rfind_character(s.drop_last(), c);
        assert(forall|j: int| 0 <= j < s.len() - 1 ==> s[j] == s.drop_last()[j]);
    }
}

/// Any position that is a last occurrence is the one `spec_rfind` finds.
pub proof fn lemma_rfind_unique(s: Seq<u8>, c: u8, p: int)
    requires
        0 <= p < s.len(),
        s[p] == c,
        forall|j: int| p < j < s.len() ==> s[j] != c,
    ensures
        spec_rfind(s, c) == Some(p),
{
    lemma_rfind_character(s, c);
    match spec_rfind(s, c) {
        Some(q) => {
            if q < p {
                assert(s[p] != c);
            }
            if q > p {
                assert(s[q] != c);
            }
        },
        None => {
            assert(s[p] != c);
        },
    }
}

/// Whether `b` is ASCII whitespace.
pub fn ws_byte(b: u8) -> (r: bool)
    ensures
        r == is_ws(b),
{
    b == 32 || b == 9 || b == 10 || b == 12 || b == 13
}

/// The bounds of the whitespace-trimmed middle of `s`: trimming `s`
/// leaves exactly `s[lo..hi]`.
pub fn trim_bounds(s: &[u8]) -> (r: (usize, usize))
    ensures
        r.0 <= r.1 <= s@.len(),
        spec_trim(s@) == s@.subrange(r.0 as int, r.1 as int),
{
    let n = s.len();
    let mut lo: usize = 0;
    while lo < n && ws_byte(s[lo])
        invariant
            0 <= lo <= n,
            n == s@.len(),
            forall|j: int| 0 <= j < lo ==> is_ws(s@[j]),
        decreases n - lo,
    {
        lo = lo + 1;
    }
    proof {
        lemma_trim_start_subrange(s@, lo as int);
    }
    if lo == n {
        proof {
            assert(spec_trim_start(s@) =~= Seq::<u8>::empty());
            assert(spec_trim(s@) =~= s@.subrange(lo as int, lo as int));
        }
        return (lo, lo);
    }
    let mut hi: usize = n;
    while hi > lo && ws_byte(s[hi - 1])
        invariant
            lo <= hi <= n,
            n == s@.len(),
            forall|j: int| hi <= j < n ==> is_ws(s@[j]),
        decreases hi,
    {
        hi = hi - 1;
    }
    proof {
        let st = spec_trim_start(s@);
        assert(st == s@.subrange(lo as int, n as int));
        assert(forall|j: int| hi - lo <= j < st.len() ==> is_ws(st[j]));
        assert(hi > lo ==> st[hi - lo - 1] == s@[hi - 1]);
        assert(hi == lo || !is_ws(st[hi - lo - 1]));
        lemma_trim_end_subrange(st, hi - lo);
        assert(st.subrange(0, hi - lo) =~= s@.subrange(lo as int, hi as int));
    }
    (lo, hi)
}

/// The bound of the leading whitespace of `s[lo..hi]`: trimming the
/// start of that window leaves exactly `s[r..hi]`.
pub fn trim_start_bound(s: &[u8], lo: usize, hi: usize) -> (r: usize)
    requires
        lo <= hi <= s@.len(),
    ensures
        lo <= r <= hi,
        spec_trim_start(s@.subrange(lo as int, hi as int)) == s@.subrange(r as int, hi as int),
{
    let ghost w = s@.subrange(lo as int, hi as int);
    let mut i: usize = lo;
    while i < hi && ws_byte(s[i])
        invariant
            lo <= i <= hi,
            hi <= s@.len(),
            w == s@.subrange(lo as int, hi as int),
            forall|j: int| 0 <= j < i - lo ==> is_ws(w[j]),
        decreases hi - i,
    {
        i = i + 1;
    }
    proof {
        assert(i < hi ==> !is_ws(w[i - lo]));
        lemma_trim_start_subrange(w, i - lo);
        assert(w.subrange(i - lo, w.len() as int) =~= s@.subrange(i as int, hi as int));
    }
    i
}

/// The bounds of the whitespace-trimmed middle of `s[lo..hi]`.
pub fn trim_range(s: &[u8], lo: usize, hi: usize) -> (r: (usize, usize))
    requires
        lo <= hi <= s@.len(),
    ensures
        lo <= r.0 <= r.1 <= hi,
        spec_trim(s@.subrange(lo as int, hi as int)) == s@.subrange(r.0 as int, r.1 as int),
{
    let w = copy_range(s, lo, hi);
    let (a, b) = trim_bounds(w.as_slice());
    proof {
        assert(w@.subrange(a as int, b as int) =~= s@.subrange(lo + a, lo + b));
    }
    (lo + a, lo + b)
}

/// Copies `s[lo..hi]` into a fresh vector.
pub fn copy_range(s: &[u8], lo: usize, hi: usize) -> (v: Vec<u8>)
    requires
        lo <= hi <= s@.len(),
    ensures
        v@ == s@.subrange(lo as int, hi as int),
{
    let mut v: Vec<u8> = Vec::new();
    let mut i: usize = lo;
    while i < hi
        invariant
            lo <= i <= hi <= s@.len(),
            v@ == s@.subrange(lo as int, i as int),
        decreases hi - i,
    {
        v.push(s[i]);
        proof {
            assert(v@ =~= s@.subrange(lo as int, i + 1 as int));
        }
        i = i + 1;
    }
    v
}

/// The number a digit string denotes, most significant digit first.
pub open spec fn dec_val(s: Seq<u8>) -> nat
    decreases s.len(),
{
    if s.len() == 0 {
        0
    } else {
        dec_val(s.drop_last()) * 10 + ((s[s.len() - 1] - 48) as nat)
    }
}

/// The canonical decimal numeral of `n`: no sign, no leading zero.
pub open spec fn spec_dec(n: nat) -> Seq<u8>
    decreases n,
{
    if n < 10 {
        seq![(48 + n) as u8]
    } else {
        spec_dec(n / 10).push((48 + n % 10) as u8)
    }
}

/// What parsing a byte string as a machine-word number yields: the
/// denoted value if the string is all digits, nonempty, and the value
/// fits in `usize`; otherwise nothing.
pub open spec fn spec_parse_usize(s: Seq<u8>) -> Option<usize> {
    if s.len() > 0 && (forall|j: int| 0 <= j < s.len() ==> is_digit(s[j])) && dec_val(s)
        <= usize::MAX {
        Some(dec_val(s) as usize)
    } else {
        None
    }
}

/// Every canonical numeral consists of digits alone.
pub proof fn lemma_dec_digits(n: nat)
    ensures
        spec_dec(n).len() > 0,
        forall|j: int| 0 <= j < spec_dec(n).len() ==> is_digit(spec_dec(n)[j]),
    decreases n,
{
    if n >= 10 {
        lemma_dec_digits(n / 10);
    }
}

/// The canonical numeral of `n` denotes `n` again.
pub proof fn lemma_dec_val_of_dec(n: nat)
    ensures
        dec_val(spec_dec(n)) == n,
    decreases n,
{
    if n < 10 {
        let s = spec_dec(n);
        assert(s.drop_last() =~= Seq::<u8>::empty());
        assert(s[s.len() - 1] == (48 + n) as u8);
        assert(((48 + n) as u8 - 48) as nat == n);
        assert(dec_val(s) == dec_val(Seq::<u8>::empty()) * 10 + n);
    } else {
        lemma_dec_val_of_dec(n / 10);
        let s = spec_dec(n);
        assert(s == spec_dec(n / 10).push((48 + n % 10) as u8));
        assert(s.drop_last() =~= spec_dec(n / 10));
        assert(s[s.len() - 1] == (48 + n % 10) as u8);
        assert(((48 + n % 10) as u8 - 48) as nat == n % 10);
        assert(dec_val(s) == (n / 10) * 10 + n % 10);
        vstd::arithmetic::div_mod::lemma_fundamental_div_mod(n as int, 10);
        assert((n / 10) * 10 + n % 10 == n);
    }
}

/// So for any machine-word `n`, the numeral parses back to `n`.
pub proof fn lemma_parse_of_dec(n: usize)
    ensures
        spec_parse_usize(spec_dec(n as nat)) == Some(n),
{
    lemma_dec_digits(n as nat);
    lemma_dec_val_of_dec(n as nat);
}

/// A longer digit string never denotes a smaller number.
proof fn lemma_dec_val_prefix_le(s: Seq<u8>, i: int)
    requires
        0 <= i <= s.len(),
        forall|j: int| 0 <= j < s.len() ==> is_digit(s[j]),
    ensures
        dec_val(s.subrange(0, i)) <= dec_val(s),
    decreases s.len() - i,
{
    if i < s.len() {
        lemma_dec_val_prefix_le(s, i + 1);
        let a = s.subrange(0, i);
        let b = s.subrange(0, i + 1);
        assert(b.drop_last() =~= a);
        assert(dec_val(b) == dec_val(a) * 10 + (s[i] - 48));
    } else {
        assert(s.subrange(0, i) =~= s);
    }
}

/// Parses a byte string as a decimal `usize`, exactly as
/// `spec_parse_usize` says.
pub fn parse_usize(s: &[u8]) -> (r: Option<usize>)
    ensures
        r == spec_parse_usize(s@),
{
    if s.len() == 0 {
        return None;
    }
    let mut acc: usize = 0;
    let mut i: usize = 0;
    while i < s.len()
        invariant
            0 <= i <= s@.len(),
            s@.len() > 0,
            forall|j: int| 0 <= j < i ==> is_digit(s@[j]),
            acc == dec_val(s@.subrange(0, i as int)),
        decreases s@.len() - i,
    {
        let b = s[i];
        if b < 48 || b > 57 {
            return None;
        }
        let d = (b - 48) as usize;
        proof {
            assert(s@.subrange(0, i + 1 as int).drop_last() =~= s@.subrange(0, i as int));
        }
        let shifted = acc.checked_mul(10);
        let next = match shifted {
            Some(m) => m.checked_add(d),
            None => None,
        };
        match next {
            Some(v) => {
                acc = v;
            },
            None => {
                proof {
                    assert(dec_val(s@.subrange(0, i + 1 as int)) > usize::MAX);
                    if forall|j: int| 0 <= j < s@.len() ==> is_digit(s@[j]) {
                        lemma_dec_val_prefix_le(s@, i + 1);
                    }
                }
                return None;
            },
        }
        i = i + 1;
    }
    proof {
        assert(s@.subrange(0, s@.len() as int) =~= s@);
    }
    Some(acc)
}

/// Renders `n` as its canonical decimal numeral.
pub fn format_usize(n: usize) -> (v: Vec<u8>)
    ensures
        v@ == spec_dec(n as nat),
    decreases n,
{
    if n < 10 {
        let mut v: Vec<u8> = Vec::new();
        v.push(48 + (n as u8));
        proof {
            assert(v@ =~= spec_dec(n as nat));
        }
        v
    } else {
        let mut v = format_usize(n / 10);
        v.push(48 + ((n % 10) as u8));
        v
    }
}

/// Whether `c` occurs in `s[lo..hi]`.
pub fn range_contains(s: &[u8], lo: usize, hi: usize, c: u8) -> (r: bool)
    requires
        lo <= hi <= s@.len(),
    ensures
        r == s@.subrange(lo as int, hi as int).contains(c),
{
    let mut i: usize = lo;
    let ghost w = s@.subrange(lo as int, hi as int);
    while i < hi
        invariant
            lo <= i <= hi <= s@.len(),
            w == s@.subrange(lo as int, hi as int),
            forall|j: int| 0 <= j < i - lo ==> w[j] != c,
        decreases hi - i,
    {
        if s[i] == c {
            assert(w[i - lo] == c);
            return true;
        }
        i = i + 1;
    }
    false
}

/// The position of the last occurrence of `c` in `s[lo..hi]`, if any;
/// the position counts from `lo`, so it indexes `s` itself.
pub fn range_rfind(s: &[u8], lo: usize, hi: usize, c: u8) -> (r: Option<usize>)
    requires
        lo <= hi <= s@.len(),
    ensures
        match r {
            Some(p) => lo <= p < hi && s@[p as int] == c && (forall|j: int|
                p < j < hi ==> s@[j] != c),
            None => forall|j: int| lo <= j < hi ==> s@[j] != c,
        },
{
    let mut i: usize = hi;
    while i > lo
        invariant
            lo <= i <= hi <= s@.len(),
            forall|j: int| i <= j < hi ==> s@[j] != c,
        decreases i,
    {
        i = i - 1;
        if s[i] == c {
            return Some(i);
        }
    }
    None
}

/// The position of the first occurrence of `c` in `s`, if any.
pub open spec fn spec_find(s: Seq<u8>, c: u8) -> Option<int>
    decreases s.len(),
{
    if s.len() == 0 {
        None
    } else if s[0] == c {
        Some(0int)
    } else {
        match spec_find(s.drop_first(), c) {
            None => None,
            Some(p) => Some(p + 1),
        }
    }
}

/// What `spec_find` finds is the first occurrence; when it finds
/// nothing, there is none.
pub proof fn lemma_find_character(s: Seq<u8>, c: u8)
    ensures
        match spec_find(s, c) {
            Some(p) => 0 <= p < s.len() && s[p] == c && (forall|j: int| 0 <= j < p ==> s[j] != c),
            None => forall|j: int| 0 <= j < s.len() ==> s[j] != c,
        },
    decreases s.len(),
{
    if s.len() > 0 && s[0] != c {
        lemma_find_character(s.drop_first(), c);
        assert(forall|j: int| 1 <= j < s.len() ==> s[j] == s.drop_first()[j - 1]);
    }
}

/// Any position that is a first occurrence is the one `spec_find` finds.
pub proof fn lemma_find_unique(s: Seq<u8>, c: u8, p: int)
    requires
        0 <= p < s.len(),
        s[p] == c,
        forall|j: int| 0 <= j < p ==> s[j] != c,
    ensures
        spec_find(s, c) == Some(p),
{
    lemma_find_character(s, c);
    match spec_find(s, c) {
        Some(q) => {
            if q < p {
                assert(s[q] != c);
            }
            if q > p {
                assert(s[p] != c);
            }
        },
        None => {
            assert(s[p] != c);
        },
    }
}

/// The position of the first occurrence of `c` in `s[lo..hi]`, if any;
/// the position counts from `lo`, so it indexes `s` itself.
pub fn range_find(s: &[u8], lo: usize, hi: usize, c: u8) -> (r: Option<usize>)
    requires
        lo <= hi <= s@.len(),
    ensures
        match r {
            Some(p) => lo <= p < hi && s@[p as int] == c && (forall|j: int|
                lo <= j < p ==> s@[j] != c),
            None => forall|j: int| lo <= j < hi ==> s@[j] != c,
        },
{
    let mut i: usize = lo;
    while i < hi
        invariant
            lo <= i <= hi <= s@.len(),
            forall|j: int| lo <= j < i ==> s@[j] != c,
        decreases hi - i,
    {
        if s[i] == c {
            return Some(i);
        }
        i = i + 1;
    }
    None
}

/// Whether `p` is a suffix of `s`.
pub fn ends_with(s: &[u8], p: &[u8]) -> (r: bool)
    ensures
        r == p@.is_suffix_of(s@),
{
    if p.len() > s.len() {
        return false;
    }
    let n = s.len();
    let off = n - p.len();
    let mut i: usize = 0;
    while i < p.len()
        invariant
            0 <= i <= p@.len() <= s@.len(),
            n == s@.len(),
            off == s@.len() - p@.len(),
            forall|j: int| 0 <= j < i ==> s@[off + j] == p@[j],
        decreases p@.len() - i,
    {
        proof {
            assert(off + i < n);
        }
        if s[off + i] != p[i] {
            assert(!p@.is_suffix_of(s@)) by {
                if p@.is_suffix_of(s@) {
                    assert(s@.subrange(off as int, s@.len() as int)[i as int] == p@[i as int]);
                }
            }
            return false;
        }
        i = i + 1;
    }
    assert(p@ =~= s@.subrange(off as int, s@.len() as int));
    true
}

/// Whether `p` is a prefix of `s`.
pub fn starts_with(s: &[u8], p: &[u8]) -> (r: bool)
    ensures
        r == p@.is_prefix_of(s@),
{
    if p.len() > s.len() {
        return false;
    }
    let mut i: usize = 0;
    while i < p.len()
        invariant
            0 <= i <= p@.len() <= s@.len(),
            forall|j: int| 0 <= j < i ==> s@[j] == p@[j],
        decreases p@.len() - i,
    {
        if s[i] != p[i] {
            assert(!p@.is_prefix_of(s@));
            return false;
        }
        i = i + 1;
    }
    assert(p@ =~= s@.subrange(0, p@.len() as int));
    true
}

/// Whether the two byte strings are equal.
pub fn bytes_eq(s: &[u8], p: &[u8]) -> (r: bool)
    ensures
        r == (s@ == p@),
{
    if s.len() != p.len() {
        proof {
            assert(s@.len() != p@.len());
        }
        return false;
    }
    let r = starts_with(s, p);
    proof {
        if p@.is_prefix_of(s@) {
            assert(s@ =~= p@);
        }
    }
    r
}

} // verus!
