//! Character-level helpers: Unicode whitespace, trimming, ASCII case folding
//! and decimal rendering of integers.
use vstd::prelude::*;
use vstd::string::StringExecFns;
use vstd::string::StrSliceExecFns;

verus! {

broadcast use vstd::string::group_string_axioms;

/// The Unicode `White_Space` property, the set that `char::is_whitespace`
/// (and so `str::trim`) uses.
pub open spec fn is_ws(c: char) -> bool {
    let u = c as u32;
    ||| 0x09 <= u <= 0x0d
    ||| u == 0x20
    ||| u == 0x85
    ||| u == 0xa0
    ||| u == 0x1680
    ||| 0x2000 <= u <= 0x200a
    ||| u == 0x2028
    ||| u == 0x2029
    ||| u == 0x202f
    ||| u == 0x205f
    ||| u == 0x3000
}

/// The first index at or after `i` and before `hi` that holds no whitespace, or `hi`.
pub open spec fn ws_fwd(s: Seq<char>, i: int, hi: int) -> int
    decreases hi - i,
{
    if i < hi && is_ws(s[i]) {
        ws_fwd(s, i + 1, hi)
    } else {
        i
    }
}

/// The end of `s[lo..j]` once the whitespace at its end is dropped.
pub open spec fn ws_back(s: Seq<char>, lo: int, j: int) -> int
    decreases j - lo,
{
    if lo < j && is_ws(s[j - 1]) {
        ws_back(s, lo, j - 1)
    } else {
        j
    }
}

/// The bounds of `s[lo..hi]` with leading and trailing whitespace removed.
pub open spec fn trim_range(s: Seq<char>, lo: int, hi: int) -> (int, int) {
    let a = ws_fwd(s, lo, hi);
    (a, ws_back(s, a, hi))
}

/// `s` with leading and trailing whitespace removed, as `str::trim` does.
pub open spec fn trim(s: Seq<char>) -> Seq<char> {
    let (a, b) = trim_range(s, 0, s.len() as int);
    s.subrange(a, b)
}

/// The first index at or after `i` and before `hi` that holds `c`, or `hi`.
pub open spec fn index_of(s: Seq<char>, c: char, i: int, hi: int) -> int
    decreases hi - i,
{
    if i < hi && s[i] != c {
        index_of(s, c, i + 1, hi)
    } else {
        i
    }
}

pub proof fn lemma_ws_fwd_bounds(s: Seq<char>, i: int, hi: int)
    requires
        i <= hi,
    ensures
        i <= ws_fwd(s, i, hi) <= hi,
        forall|k: int| i <= k < ws_fwd(s, i, hi) ==> is_ws(#[trigger] s[k]),
        ws_fwd(s, i, hi) < hi ==> !is_ws(s[ws_fwd(s, i, hi)]),
    decreases hi - i,
{
    if i < hi && is_ws(s[i]) {
        lemma_ws_fwd_bounds(s, i + 1, hi);
    }
}

pub proof fn lemma_ws_back_bounds(s: Seq<char>, lo: int, j: int)
    requires
        lo <= j,
    ensures
        lo <= ws_back(s, lo, j) <= j,
        lo < ws_back(s, lo, j) ==> !is_ws(s[ws_back(s, lo, j) - 1]),
    decreases j - lo,
{
    if lo < j && is_ws(s[j - 1]) {
        lemma_ws_back_bounds(s, lo, j - 1);
    }
}

pub proof fn lemma_index_of_bounds(s: Seq<char>, c: char, i: int, hi: int)
    requires
        i <= hi,
    ensures
        i <= index_of(s, c, i, hi) <= hi,
        forall|k: int| i <= k < index_of(s, c, i, hi) ==> #[trigger] s[k] != c,
        index_of(s, c, i, hi) < hi ==> s[index_of(s, c, i, hi)] == c,
    decreases hi - i,
{
    if i < hi && s[i] != c {
        lemma_index_of_bounds(s, c, i + 1, hi);
    }
}

/// `ws_fwd` reads only `s[i..hi]`: two sequences that agree below `m` give
/// the same answer for `hi <= m`.
pub proof fn lemma_ws_fwd_agree(s: Seq<char>, t: Seq<char>, m: int, i: int, hi: int)
    requires
        0 <= i,
        hi <= m <= s.len(),
        m <= t.len(),
        forall|k: int| 0 <= k < m ==> s[k] == t[k],
    ensures
        ws_fwd(s, i, hi) == ws_fwd(t, i, hi),
    decreases hi - i,
{
    if i < hi {
        lemma_ws_fwd_agree(s, t, m, i + 1, hi);
    }
}

/// `ws_back` reads only `s[lo..j]`.
pub proof fn lemma_ws_back_agree(s: Seq<char>, t: Seq<char>, m: int, lo: int, j: int)
    requires
        0 <= lo,
        j <= m <= s.len(),
        m <= t.len(),
        forall|k: int| 0 <= k < m ==> s[k] == t[k],
    ensures
        ws_back(s, lo, j) == ws_back(t, lo, j),
    decreases j - lo,
{
    if lo < j {
        lemma_ws_back_agree(s, t, m, lo, j - 1);
    }
}

/// `index_of` reads only `s[i..hi]`.
pub proof fn lemma_index_of_agree(s: Seq<char>, t: Seq<char>, m: int, c: char, i: int, hi: int)
    requires
        0 <= i,
        hi <= m <= s.len(),
        m <= t.len(),
        forall|k: int| 0 <= k < m ==> s[k] == t[k],
    ensures
        index_of(s, c, i, hi) == index_of(t, c, i, hi),
    decreases hi - i,
{
    if i < hi {
        lemma_index_of_agree(s, t, m, c, i + 1, hi);
    }
}

/// Whether `c` is Unicode whitespace.
pub fn is_whitespace(c: char) -> (r: bool)
    ensures
        r == is_ws(c),
{
    let u = c as u32;
    (0x09 <= u && u <= 0x0d) || u == 0x20 || u == 0x85 || u == 0xa0 || u == 0x1680 || (0x2000
        <= u && u <= 0x200a) || u == 0x2028 || u == 0x2029 || u == 0x202f || u == 0x205f || u
        == 0x3000
}

/// The characters of a string slice, in order.
pub fn chars_of(s: &str) -> (v: Vec<char>)
    ensures
        v@ == s@,
{
    let mut v: Vec<char> = Vec::new();
    for c in it: s.chars()
        invariant
            v@ == it.seq().take(it.index() as int),
    {
        v.push(c);
    }
    v
}

/// `ws_fwd` over a vector of characters.
pub fn skip_ws_forward(v: &Vec<char>, lo: usize, hi: usize) -> (r: usize)
    requires
        lo <= hi <= v@.len(),
    ensures
        r == ws_fwd(v@, lo as int, hi as int),
{
    let mut i = lo;
    while i < hi && is_whitespace(v[i])
        invariant
            lo <= i <= hi <= v@.len(),
            ws_fwd(v@, lo as int, hi as int) == ws_fwd(v@, i as int, hi as int),
        decreases hi - i,
    {
        i = i + 1;
    }
    i
}

/// `ws_back` over a vector of characters.
pub fn skip_ws_backward(v: &Vec<char>, lo: usize, hi: usize) -> (r: usize)
    requires
        lo <= hi <= v@.len(),
    ensures
        r == ws_back(v@, lo as int, hi as int),
{
    let mut j = hi;
    while lo < j && is_whitespace(v[j - 1])
        invariant
            lo <= j <= hi <= v@.len(),
            ws_back(v@, lo as int, hi as int) == ws_back(v@, lo as int, j as int),
        decreases j - lo,
    {
        j = j - 1;
    }
    j
}

/// `index_of` over a vector of characters.
pub fn find_char(v: &Vec<char>, c: char, lo: usize, hi: usize) -> (r: usize)
    requires
        lo <= hi <= v@.len(),
    ensures
        r == index_of(v@, c, lo as int, hi as int),
{
    let mut i = lo;
    while i < hi && v[i] != c
        invariant
            lo <= i <= hi <= v@.len(),
            index_of(v@, c, lo as int, hi as int) == index_of(v@, c, i as int, hi as int),
        decreases hi - i,
    {
        i = i + 1;
    }
    i
}

/// Whether `v[lo..hi]` equals `w`.
pub fn range_equals(v: &Vec<char>, lo: usize, hi: usize, w: &Vec<char>) -> (r: bool)
    requires
        lo <= hi <= v@.len(),
    ensures
        r == (v@.subrange(lo as int, hi as int) == w@),
{
    if hi - lo != w.len() {
        return false;
    }
    let mut k: usize = 0;
    while k < w.len()
        invariant
            lo <= hi <= v@.len(),
            hi - lo == w@.len(),
            k <= w@.len(),
            forall|m: int| 0 <= m < k ==> v@[lo + m] == w@[m],
        decreases w@.len() - k,
    {
        if v[lo + k] != w[k] {
            assert(v@.subrange(lo as int, hi as int)[k as int] != w@[k as int]);
            return false;
        }
        k = k + 1;
    }
    assert(v@.subrange(lo as int, hi as int) =~= w@);
    true
}

/// A copy of `s[from..to]`, counted in characters.
pub fn substring(s: &str, from: usize, to: usize) -> (r: String)
    requires
        from <= to <= s@.len(),
    ensures
        r@ == s@.subrange(from as int, to as int),
{
    s.substring_char(from, to).to_string()
}

/// `s` with leading and trailing Unicode whitespace removed.
pub fn trim_str(s: &str) -> (r: String)
    ensures
        r@ == trim(s@),
{
    let v = chars_of(s);
    let a = skip_ws_forward(&v, 0, v.len());
    proof {
        lemma_ws_fwd_bounds(v@, 0, v@.len() as int);
    }
    let b = skip_ws_backward(&v, a, v.len());
    proof {
        lemma_ws_back_bounds(v@, a as int, v@.len() as int);
    }
    substring(s, a, b)
}

/// The number of characters of `s`.
pub fn char_count(s: &str) -> (n: usize)
    ensures
        n == s@.len(),
{
    chars_of(s).len()
}

// ---------------------------------------------------------------------------
// ASCII case folding
/// The ASCII lower-case form of `c`: `A`..`Z` map to `a`..`z`, all else is kept.
pub open spec fn ascii_lower(c: char) -> char {
    if 'A' <= c <= 'Z' {
        ((c as u32) + 32) as char
    } else {
        c
    }
}

/// Whether `a` and `b` are equal when ASCII letters are compared without case,
/// as `str::eq_ignore_ascii_case` decides.
pub open spec fn eq_ignore_ascii_case(a: Seq<char>, b: Seq<char>) -> bool {
    &&& a.len() == b.len()
    &&& forall|i: int| 0 <= i < a.len() ==> ascii_lower(#[trigger] a[i]) == ascii_lower(b[i])
}

/// `ascii_lower` on one character.
pub fn to_ascii_lower(c: char) -> (r: char)
    ensures
        r == ascii_lower(c),
{
    if 'A' <= c && c <= 'Z' {
        let u = (c as u32) + 32;
        assert(0x61 <= u <= 0x7a);
        char_from_ascii_letter(u)
    } else {
        c
    }
}

fn char_from_ascii_letter(u: u32) -> (r: char)
    requires
        0x61 <= u <= 0x7a,
    ensures
        r == u as char,
{
    let b = u as u8;
    b as char
}

/// Whether `a` and `b` are equal ignoring ASCII case.
pub fn equals_ignore_ascii_case(a: &str, b: &str) -> (r: bool)
    ensures
        r == eq_ignore_ascii_case(a@, b@),
{
    let va = chars_of(a);
    let vb = chars_of(b);
    if va.len() != vb.len() {
        return false;
    }
    let mut i: usize = 0;
    while i < va.len()
        invariant
            va@ == a@,
            vb@ == b@,
            va@.len() == vb@.len(),
            i <= va@.len(),
            forall|k: int| 0 <= k < i ==> ascii_lower(#[trigger] va@[k]) == ascii_lower(vb@[k]),
        decreases va@.len() - i,
    {
        if to_ascii_lower(va[i]) != to_ascii_lower(vb[i]) {
            return false;
        }
        i = i + 1;
    }
    true
}

// ---------------------------------------------------------------------------
// Decimal rendering
/// The character of a decimal digit.
pub open spec fn digit_char(d: int) -> char {
    if d == 0 {
        '0'
    } else if d == 1 {
        '1'
    } else if d == 2 {
        '2'
    } else if d == 3 {
        '3'
    } else if d == 4 {
        '4'
    } else if d == 5 {
        '5'
    } else if d == 6 {
        '6'
    } else if d == 7 {
        '7'
    } else if d == 8 {
        '8'
    } else {
        '9'
    }
}

/// The decimal notation of `n`, without sign or leading zeros.
pub open spec fn decimal(n: nat) -> Seq<char>
    decreases n,
{
    if n < 10 {
        seq![digit_char(n as int)]
    } else {
        decimal(n / 10).push(digit_char((n % 10) as int))
    }
}

pub proof fn lemma_decimal_len(n: nat)
    ensures
        decimal(n).len() >= 1,
        n >= 10 ==> decimal(n).len() >= 2,
    decreases n,
{
    if n >= 10 {
        lemma_decimal_len(n / 10);
    }
}

proof fn lemma_digit_char_injective(x: int, y: int)
    requires
        0 <= x < 10,
        0 <= y < 10,
        digit_char(x) == digit_char(y),
    ensures
        x == y,
{
}

/// Distinct numbers have distinct decimal notations.
pub proof fn lemma_decimal_injective(a: nat, b: nat)
    requires
        decimal(a) == decimal(b),
    ensures
        a == b,
    decreases a,
{
    lemma_decimal_len(a);
    lemma_decimal_len(b);
    if a < 10 && b < 10 {
        assert(decimal(a) == seq![digit_char(a as int)]);
        assert(decimal(b) == seq![digit_char(b as int)]);
        assert(decimal(a)[0] == digit_char(a as int));
        assert(decimal(b)[0] == digit_char(b as int));
        lemma_digit_char_injective(a as int, b as int);
    } else if a >= 10 && b >= 10 {
        let da = decimal(a);
        let db = decimal(b);
        assert(da.last() == db.last());
        assert(da.drop_last() =~= decimal(a / 10));
        assert(db.drop_last() =~= decimal(b / 10));
        lemma_digit_char_injective((a % 10) as int, (b % 10) as int);
        lemma_decimal_injective(a / 10, b / 10);
    } else {
        assert(decimal(a).len() != decimal(b).len());
    }
}

pub fn digit_str(d: u64) -> (r: &'static str)
    requires
        d < 10,
    ensures
        r@ == seq![digit_char(d as int)],
{
    proof {
        reveal_strlit("0");
        reveal_strlit("1");
        reveal_strlit("2");
        reveal_strlit("3");
        reveal_strlit("4");
        reveal_strlit("5");
        reveal_strlit("6");
        reveal_strlit("7");
        reveal_strlit("8");
        reveal_strlit("9");
    }
    if d == 0 {
        "0"
    } else if d == 1 {
        "1"
    } else if d == 2 {
        "2"
    } else if d == 3 {
        "3"
    } else if d == 4 {
        "4"
    } else if d == 5 {
        "5"
    } else if d == 6 {
        "6"
    } else if d == 7 {
        "7"
    } else if d == 8 {
        "8"
    } else {
        "9"
    }
}

/// The decimal notation of `n`, as `u64::to_string` writes it.
pub fn decimal_string(n: u64) -> (s: String)
    ensures
        s@ == decimal(n as nat),
    decreases n,
{
    if n < 10 {
        digit_str(n).to_string()
    } else {
        let mut s = decimal_string(n / 10);
        s.append(digit_str(n % 10));
        s
    }
}

} // verus!
