//! Character-level text utilities with specifications.
//!
//! Text is handled as sequences of `char`. Every pattern searched for by the
//! parsers is ASCII, so positions counted in characters select exactly the
//! same substrings as the byte positions that `str` methods report.

use vstd::prelude::*;

verus! {

/// `p` occurs in `s` starting at index `i`.
pub open spec fn match_at(s: Seq<char>, p: Seq<char>, i: int) -> bool {
    &&& 0 <= i
    &&& i + p.len() <= s.len()
    &&& forall|j: int| 0 <= j < p.len() ==> #[trigger] s[i + j] == p[j]
}

/// The first index `i` with `lo <= i` and `i + p.len() <= hi` where `p` occurs
/// in `s`; this is what `s[lo..hi].find(p)` reports, shifted by `lo`.
pub open spec fn find_in(s: Seq<char>, p: Seq<char>, lo: int, hi: int) -> Option<int>
    decreases hi - lo,
{
    if lo < 0 || lo + p.len() > hi || hi > s.len() {
        None
    } else if match_at(s, p, lo) {
        Some(lo)
    } else {
        find_in(s, p, lo + 1, hi)
    }
}

/// `s.find(p)`.
pub open spec fn find(s: Seq<char>, p: Seq<char>) -> Option<int> {
    find_in(s, p, 0, s.len() as int)
}

/// The last index `i <= start` where `p` occurs in `s`.
pub open spec fn rfind_from(s: Seq<char>, p: Seq<char>, start: int) -> Option<int>
    decreases start + 1,
{
    if start < 0 {
        None
    } else if match_at(s, p, start) {
        Some(start)
    } else {
        rfind_from(s, p, start - 1)
    }
}

/// `s.rfind(p)`.
pub open spec fn rfind(s: Seq<char>, p: Seq<char>) -> Option<int> {
    rfind_from(s, p, s.len() - p.len())
}

/// `s.contains(p)`.
pub open spec fn contains(s: Seq<char>, p: Seq<char>) -> bool {
    find(s, p) is Some
}

/// `s.starts_with(p)`.
pub open spec fn starts_with(s: Seq<char>, p: Seq<char>) -> bool {
    match_at(s, p, 0)
}

/// `s.ends_with(p)`.
pub open spec fn ends_with(s: Seq<char>, p: Seq<char>) -> bool {
    p.len() <= s.len() && match_at(s, p, s.len() - p.len())
}

/// Unicode `White_Space`, the property that `char::is_whitespace` tests.
pub open spec fn is_ws(c: char) -> bool {
    ||| ('\u{9}' <= c && c <= '\u{d}')
    ||| c == ' '
    ||| c == '\u{85}'
    ||| c == '\u{a0}'
    ||| c == '\u{1680}'
    ||| ('\u{2000}' <= c && c <= '\u{200a}')
    ||| c == '\u{2028}'
    ||| c == '\u{2029}'
    ||| c == '\u{202f}'
    ||| c == '\u{205f}'
    ||| c == '\u{3000}'
}

/// `s.trim_start()`.
pub open spec fn trim_start(s: Seq<char>) -> Seq<char>
    decreases s.len(),
{
    if s.len() > 0 && is_ws(s[0]) {
        trim_start(s.drop_first())
    } else {
        s
    }
}

/// `s.trim_end()`.
pub open spec fn trim_end(s: Seq<char>) -> Seq<char>
    decreases s.len(),
{
    if s.len() > 0 && is_ws(s.last()) {
        trim_end(s.drop_last())
    } else {
        s
    }
}

/// `s.trim()`.
pub open spec fn trim(s: Seq<char>) -> Seq<char> {
    trim_end(trim_start(s))
}

/// `s.trim_matches(c)`.
pub open spec fn trim_matches(s: Seq<char>, c: char) -> Seq<char> {
    trim_end_matches_char(trim_start_matches_char(s, c), c)
}

pub open spec fn trim_start_matches_char(s: Seq<char>, c: char) -> Seq<char>
    decreases s.len(),
{
    if s.len() > 0 && s[0] == c {
        trim_start_matches_char(s.drop_first(), c)
    } else {
        s
    }
}

pub open spec fn trim_end_matches_char(s: Seq<char>, c: char) -> Seq<char>
    decreases s.len(),
{
    if s.len() > 0 && s.last() == c {
        trim_end_matches_char(s.drop_last(), c)
    } else {
        s
    }
}

/// An exec position equals a spec position.
pub open spec fn same_pos(r: Option<usize>, o: Option<int>) -> bool {
    match r {
        Some(i) => o == Some(i as int),
        None => o is None,
    }
}

/// End of the run of non-whitespace characters that starts at `i`.
pub open spec fn token_end(s: Seq<char>, i: int) -> int
    decreases s.len() - i,
{
    if i < 0 || i >= s.len() || is_ws(s[i]) {
        i
    } else {
        token_end(s, i + 1)
    }
}

pub proof fn lemma_token_end(s: Seq<char>, i: int)
    requires
        0 <= i <= s.len(),
    ensures
        i <= token_end(s, i) <= s.len(),
        forall|k: int| i <= k < token_end(s, i) ==> !is_ws(#[trigger] s[k]),
        token_end(s, i) < s.len() ==> is_ws(s[token_end(s, i)]),
    decreases s.len() - i,
{
    if i < s.len() && !is_ws(s[i]) {
        lemma_token_end(s, i + 1);
    }
}

/// The whitespace-separated tokens of `s` from index `i` on.
pub open spec fn tokens_from(s: Seq<char>, i: int) -> Seq<Seq<char>>
    decreases s.len() - i,
{
    if i < 0 || i >= s.len() {
        seq![]
    } else if is_ws(s[i]) {
        tokens_from(s, i + 1)
    } else {
        let e = token_end(s, i + 1);
        proof {
            lemma_token_end(s, i + 1);
        }
        seq![s.subrange(i, e)] + tokens_from(s, e)
    }
}

/// `s.split_whitespace()`.
pub open spec fn split_ws(s: Seq<char>) -> Seq<Seq<char>> {
    tokens_from(s, 0)
}

/// The views of a sequence of character vectors.
pub open spec fn views(v: Seq<Vec<char>>) -> Seq<Seq<char>> {
    v.map_values(|t: Vec<char>| t@)
}

/// First index at or after `from` holding `c`.
pub open spec fn char_index(s: Seq<char>, c: char, from: int) -> Option<int>
    decreases s.len() - from,
{
    if from < 0 || from >= s.len() {
        None
    } else if s[from] == c {
        Some(from)
    } else {
        char_index(s, c, from + 1)
    }
}

/// Whether `c` occurs in `s`.
pub open spec fn has_char(s: Seq<char>, c: char) -> bool {
    char_index(s, c, 0) is Some
}

/// `s.split(c).collect()[0]`.
pub open spec fn first_segment(s: Seq<char>, c: char) -> Seq<char> {
    match char_index(s, c, 0) {
        Some(i) => s.take(i),
        None => s,
    }
}

/// `s.split(c).collect()[1]`, for an `s` that holds `c`.
pub open spec fn second_segment(s: Seq<char>, c: char) -> Seq<char> {
    match char_index(s, c, 0) {
        Some(i) => match char_index(s, c, i + 1) {
            Some(j) => s.subrange(i + 1, j),
            None => s.subrange(i + 1, s.len() as int),
        },
        None => seq![],
    }
}

pub proof fn lemma_trim_start_at(s: Seq<char>, a: int)
    requires
        0 <= a <= s.len(),
        forall|k: int| 0 <= k < a ==> is_ws(#[trigger] s[k]),
        a == s.len() || !is_ws(s[a]),
    ensures
        trim_start(s) == s.subrange(a, s.len() as int),
    decreases a,
{
    if a == 0 {
        assert(s.subrange(0, s.len() as int) =~= s);
    } else {
        let t = s.drop_first();
        assert forall|k: int| 0 <= k < a - 1 implies is_ws(#[trigger] t[k]) by {
            assert(t[k] == s[k + 1]);
        }
        lemma_trim_start_at(t, a - 1);
        assert(t.subrange(a - 1, t.len() as int) =~= s.subrange(a, s.len() as int));
    }
}

pub proof fn lemma_trim_end_at(s: Seq<char>, b: int)
    requires
        0 <= b <= s.len(),
        forall|k: int| b <= k < s.len() ==> is_ws(#[trigger] s[k]),
        b == 0 || !is_ws(s[b - 1]),
    ensures
        trim_end(s) == s.subrange(0, b),
    decreases s.len() - b,
{
    if b == s.len() {
        assert(s.subrange(0, b) =~= s);
    } else {
        let t = s.drop_last();
        lemma_trim_end_at(t, b);
        assert(t.subrange(0, b) =~= s.subrange(0, b));
    }
}

pub proof fn lemma_trim_start_matches_at(s: Seq<char>, c: char, a: int)
    requires
        0 <= a <= s.len(),
        forall|k: int| 0 <= k < a ==> #[trigger] s[k] == c,
        a == s.len() || s[a] != c,
    ensures
        trim_start_matches_char(s, c) == s.subrange(a, s.len() as int),
    decreases a,
{
    if a == 0 {
        assert(s.subrange(0, s.len() as int) =~= s);
    } else {
        let t = s.drop_first();
        assert forall|k: int| 0 <= k < a - 1 implies #[trigger] t[k] == c by {
            assert(t[k] == s[k + 1]);
        }
        lemma_trim_start_matches_at(t, c, a - 1);
        assert(t.subrange(a - 1, t.len() as int) =~= s.subrange(a, s.len() as int));
    }
}

pub proof fn lemma_trim_end_matches_at(s: Seq<char>, c: char, b: int)
    requires
        0 <= b <= s.len(),
        forall|k: int| b <= k < s.len() ==> #[trigger] s[k] == c,
        b == 0 || s[b - 1] != c,
    ensures
        trim_end_matches_char(s, c) == s.subrange(0, b),
    decreases s.len() - b,
{
    if b == s.len() {
        assert(s.subrange(0, b) =~= s);
    } else {
        let t = s.drop_last();
        lemma_trim_end_matches_at(t, c, b);
        assert(t.subrange(0, b) =~= s.subrange(0, b));
    }
}

/// `c.is_whitespace()`.
pub fn is_whitespace(c: char) -> (r: bool)
    ensures
        r == is_ws(c),
{
    ('\u{9}' <= c && c <= '\u{d}') || c == ' ' || c == '\u{85}' || c == '\u{a0}' || c
        == '\u{1680}' || ('\u{2000}' <= c && c <= '\u{200a}') || c == '\u{2028}' || c
        == '\u{2029}' || c == '\u{202f}' || c == '\u{205f}' || c == '\u{3000}'
}

/// `s[lo..hi].trim()`, as a range of `s`.
pub fn trim_range(s: &Vec<char>, lo: usize, hi: usize) -> (r: (usize, usize))
    requires
        lo <= hi <= s@.len(),
    ensures
        lo <= r.0 <= r.1 <= hi,
        s@.subrange(r.0 as int, r.1 as int) == trim(s@.subrange(lo as int, hi as int)),
{
    let ghost sub = s@.subrange(lo as int, hi as int);
    let mut a = lo;
    while a < hi && is_whitespace(s[a])
        invariant
            lo <= a <= hi <= s@.len(),
            forall|k: int| lo <= k < a ==> is_ws(#[trigger] s@[k]),
        decreases hi - a,
    {
        a = a + 1;
    }
    proof {
        assert forall|k: int| 0 <= k < a - lo implies is_ws(#[trigger] sub[k]) by {
            assert(sub[k] == s@[lo + k]);
        }
        lemma_trim_start_at(sub, a - lo);
        assert(sub.subrange(a - lo, sub.len() as int) =~= s@.subrange(a as int, hi as int));
    }
    let mut b = hi;
    while b > a && is_whitespace(s[b - 1])
        invariant
            lo <= a <= b <= hi <= s@.len(),
            forall|k: int| b <= k < hi ==> is_ws(#[trigger] s@[k]),
        decreases b,
    {
        b = b - 1;
    }
    proof {
        let t = s@.subrange(a as int, hi as int);
        assert forall|k: int| b - a <= k < t.len() implies is_ws(#[trigger] t[k]) by {
            assert(t[k] == s@[a + k]);
        }
        lemma_trim_end_at(t, b - a);
        assert(t.subrange(0, b - a) =~= s@.subrange(a as int, b as int));
    }
    (a, b)
}

/// `v.trim()`.
pub fn trim_vec(v: &Vec<char>) -> (r: Vec<char>)
    ensures
        r@ == trim(v@),
{
    let (a, b) = trim_range(v, 0, v.len());
    proof {
        assert(v@.subrange(0, v@.len() as int) =~= v@);
    }
    vec_range(v, a, b)
}

/// `v.trim_matches(c)`.
pub fn trim_matches_vec(v: &Vec<char>, c: char) -> (r: Vec<char>)
    ensures
        r@ == trim_matches(v@, c),
{
    let n = v.len();
    let mut a: usize = 0;
    while a < n && v[a] == c
        invariant
            n == v@.len(),
            a <= n,
            forall|k: int| 0 <= k < a ==> #[trigger] v@[k] == c,
        decreases n - a,
    {
        a = a + 1;
    }
    proof {
        lemma_trim_start_matches_at(v@, c, a as int);
    }
    let mut b = n;
    while b > a && v[b - 1] == c
        invariant
            n == v@.len(),
            a <= b <= n,
            forall|k: int| b <= k < n ==> #[trigger] v@[k] == c,
        decreases b,
    {
        b = b - 1;
    }
    proof {
        let t = v@.subrange(a as int, n as int);
        assert forall|k: int| b - a <= k < t.len() implies #[trigger] t[k] == c by {
            assert(t[k] == v@[a + k]);
        }
        lemma_trim_end_matches_at(t, c, b - a);
        assert(t.subrange(0, b - a) =~= v@.subrange(a as int, b as int));
    }
    vec_range(v, a, b)
}

/// `s.split_whitespace().collect()`.
pub fn split_ws_vec(s: &Vec<char>) -> (r: Vec<Vec<char>>)
    ensures
        views(r@) == split_ws(s@),
{
    let n = s.len();
    let mut r: Vec<Vec<char>> = Vec::new();
    let mut i: usize = 0;
    while i < n
        invariant
            n == s@.len(),
            i <= n,
            split_ws(s@) == views(r@) + tokens_from(s@, i as int),
        decreases n - i,
    {
        if is_whitespace(s[i]) {
            i = i + 1;
        } else {
            let mut e = i + 1;
            while e < n && !is_whitespace(s[e])
                invariant
                    n == s@.len(),
                    i < e <= n,
                    token_end(s@, i as int + 1) == token_end(s@, e as int),
                decreases n - e,
            {
                e = e + 1;
            }
            let tok = vec_range(s, i, e);
            let ghost old_r = r@;
            r.push(tok);
            proof {
                assert(views(r@) =~= views(old_r) + seq![s@.subrange(i as int, e as int)]);
            }
            i = e;
        }
    }
    proof {
        assert(views(r@) + tokens_from(s@, n as int) =~= views(r@));
    }
    r
}

/// `s.find(c)`, from index `from` on.
pub fn char_index_vec(s: &Vec<char>, c: char, from: usize) -> (r: Option<usize>)
    ensures
        same_pos(r, char_index(s@, c, from as int)),
{
    let n = s.len();
    let mut i = from;
    while i < n
        invariant
            n == s@.len(),
            from <= i,
            char_index(s@, c, from as int) == char_index(s@, c, i as int),
        decreases n - i,
    {
        if s[i] == c {
            return Some(i);
        }
        i = i + 1;
    }
    None
}

/// `s.split(c).collect()` keeping the first two parts; `None` when `c` does not occur.
pub fn two_segments(s: &Vec<char>, c: char) -> (r: Option<(Vec<char>, Vec<char>)>)
    ensures
        r is Some == has_char(s@, c),
        r matches Some(p) ==> p.0@ == first_segment(s@, c) && p.1@ == second_segment(s@, c),
{
    let n = s.len();
    match char_index_vec(s, c, 0) {
        None => None,
        Some(i) => {
            proof {
                lemma_char_index_bounds(s@, c, 0);
            }
            let key = vec_range(s, 0, i);
            let end = match char_index_vec(s, c, i + 1) {
                Some(j) => j,
                None => n,
            };
            proof {
                lemma_char_index_bounds(s@, c, i as int + 1);
            }
            let value = vec_range(s, i + 1, end);
            proof {
                assert(key@ =~= s@.take(i as int));
            }
            Some((key, value))
        },
    }
}

pub proof fn lemma_char_index_bounds(s: Seq<char>, c: char, from: int)
    ensures
        char_index(s, c, from) matches Some(i) ==> from <= i < s.len() && s[i] == c,
    decreases s.len() - from,
{
    if 0 <= from < s.len() && s[from] != c {
        lemma_char_index_bounds(s, c, from + 1);
    }
}

pub proof fn lemma_find_in(s: Seq<char>, p: Seq<char>, lo: int, hi: int)
    ensures
        find_in(s, p, lo, hi) matches Some(i) ==> lo <= i && i + p.len() <= hi && hi <= s.len() && match_at(s, p, i),
        find_in(s, p, lo, hi) matches Some(i) ==> forall|j: int| lo <= j < i ==> !match_at(s, p, j),
        find_in(s, p, lo, hi) is None && 0 <= lo && hi <= s.len() ==> forall|j: int| lo <= j && j + p.len() <= hi ==> !match_at(s, p, j),
    decreases hi - lo,
{
    if lo < 0 || lo + p.len() > hi || hi > s.len() {
    } else if match_at(s, p, lo) {
    } else {
        lemma_find_in(s, p, lo + 1, hi);
    }
}

pub proof fn lemma_rfind_from(s: Seq<char>, p: Seq<char>, start: int)
    ensures
        rfind_from(s, p, start) matches Some(i) ==> 0 <= i <= start && i + p.len() <= s.len() && match_at(s, p, i),
    decreases start + 1,
{
    if start >= 0 && !match_at(s, p, start) {
        lemma_rfind_from(s, p, start - 1);
    }
}

pub proof fn lemma_rfind(s: Seq<char>, p: Seq<char>)
    ensures
        rfind(s, p) matches Some(i) ==> 0 <= i && i + p.len() <= s.len() && match_at(s, p, i),
{
    lemma_rfind_from(s, p, s.len() - p.len());
}

/// The view of an optional character vector.
pub open spec fn opt_seq(o: Option<Vec<char>>) -> Option<Seq<char>> {
    match o {
        Some(v) => Some(v@),
        None => None,
    }
}

pub proof fn lemma_trim_start_len(s: Seq<char>)
    ensures
        trim_start(s).len() <= s.len(),
        trim_start(s) == s.skip(s.len() - trim_start(s).len()),
    decreases s.len(),
{
    if s.len() > 0 && is_ws(s[0]) {
        lemma_trim_start_len(s.drop_first());
        assert(s.drop_first().skip(s.drop_first().len() - trim_start(s.drop_first()).len()) =~= s.skip(
            s.len() - trim_start(s).len(),
        ));
    } else {
        assert(s.skip(0) =~= s);
    }
}

/// `s[..]` up to its first whitespace or `]`, as an index (or `s.len()`).
pub open spec fn ws_or_bracket(s: Seq<char>, from: int) -> int
    decreases s.len() - from,
{
    if from < 0 || from >= s.len() || is_ws(s[from]) || s[from] == ']' {
        from
    } else {
        ws_or_bracket(s, from + 1)
    }
}

pub proof fn lemma_ws_or_bracket(s: Seq<char>, from: int)
    requires
        0 <= from <= s.len(),
    ensures
        from <= ws_or_bracket(s, from) <= s.len(),
    decreases s.len() - from,
{
    if from < s.len() && !is_ws(s[from]) && s[from] != ']' {
        lemma_ws_or_bracket(s, from + 1);
    }
}

/// `trim_start` drops exactly the leading whitespace.
pub proof fn lemma_trim_start_at_any(s: Seq<char>, a: int)
    requires
        0 <= a <= s.len(),
        forall|k: int| 0 <= k < a ==> is_ws(#[trigger] s[k]),
        a == s.len() || !is_ws(s[a]),
    ensures
        trim_start(s) == s.subrange(a, s.len() as int),
{
    lemma_trim_start_at(s, a);
}

/// The first index at or after `from` that does not hold whitespace.
pub fn first_non_ws(v: &Vec<char>, from: usize) -> (r: usize)
    requires
        from <= v@.len(),
    ensures
        from <= r <= v@.len(),
        forall|k: int| from <= k < r ==> is_ws(#[trigger] v@[k]),
        r == v@.len() || !is_ws(v@[r as int]),
{
    let n = v.len();
    let mut i = from;
    while i < n && is_whitespace(v[i])
        invariant
            n == v@.len(),
            from <= i <= n,
            forall|k: int| from <= k < i ==> is_ws(#[trigger] v@[k]),
        decreases n - i,
    {
        i = i + 1;
    }
    i
}

/// The decimal digit for `d < 10`.
pub open spec fn digit_char(d: int) -> char {
    if d == 0 {
        '0'
    } else if d == 1 {
        '1'
    } else if d == 2 {
        '2'
    } else if d == 3 {
        '3'
    } else if d == 4 {
        '4'
    } else if d == 5 {
        '5'
    } else if d == 6 {
        '6'
    } else if d == 7 {
        '7'
    } else if d == 8 {
        '8'
    } else {
        '9'
    }
}

/// The decimal representation of `n` (`n.to_string()`).
pub open spec fn decimal(n: nat) -> Seq<char>
    decreases n,
{
    if n < 10 {
        seq![digit_char(n as int)]
    } else {
        decimal(n / 10).push(digit_char((n % 10) as int))
    }
}

fn digit_exec(d: u128) -> (r: char)
    requires
        d < 10,
    ensures
        r == digit_char(d as int),
{
    if d == 0 {
        '0'
    } else if d == 1 {
        '1'
    } else if d == 2 {
        '2'
    } else if d == 3 {
        '3'
    } else if d == 4 {
        '4'
    } else if d == 5 {
        '5'
    } else if d == 6 {
        '6'
    } else if d == 7 {
        '7'
    } else if d == 8 {
        '8'
    } else {
        '9'
    }
}

fn decimal_vec(n: u128) -> (r: Vec<char>)
    ensures
        r@ == decimal(n as nat),
    decreases n,
{
    if n < 10 {
        let mut v: Vec<char> = Vec::new();
        v.push(digit_exec(n));
        proof {
            assert(v@ =~= seq![digit_char(n as int)]);
        }
        v
    } else {
        let mut v = decimal_vec(n / 10);
        v.push(digit_exec(n % 10));
        v
    }
}

/// `n.to_string()`.
pub fn decimal_string(n: u128) -> (r: String)
    ensures
        r@ == decimal(n as nat),
{
    string_of(&decimal_vec(n))
}

/// The characters of `s` as a vector.
pub fn chars_of(s: &str) -> (r: Vec<char>)
    ensures
        r@ == s@,
{
    let mut v: Vec<char> = Vec::new();
    for c in it: s.chars()
        invariant
            v@ == it.seq().take(it.index() as int),
    {
        v.push(c);
        proof {
            assert(it.seq().take(it.index() as int + 1) =~= v@);
        }
    }
    v
}


/// `String::push` appends `c` to `s`.
#[verifier::external_body]
pub(crate) fn push_char(s: &mut String, c: char)
    ensures
        final(s)@ == old(s)@.push(c),
{
    s.push(c);
}

/// The string `a` followed by `b`.
pub fn concat_str(a: &str, b: &str) -> (r: String)
    ensures
        r@ == a@ + b@,
{
    let mut v = chars_of(a);
    let w = chars_of(b);
    let mut i: usize = 0;
    while i < w.len()
        invariant
            i <= w@.len(),
            v@ == a@ + w@.take(i as int),
        decreases w.len() - i,
    {
        v.push(w[i]);
        i = i + 1;
        proof {
            assert(v@ =~= a@ + w@.take(i as int));
        }
    }
    proof {
        assert(w@.take(w@.len() as int) =~= w@);
    }
    string_of(&v)
}

/// A `String` holding the characters of `v` between `lo` and `hi`.
pub fn string_of_range(v: &Vec<char>, lo: usize, hi: usize) -> (r: String)
    requires
        lo <= hi <= v@.len(),
    ensures
        r@ == v@.subrange(lo as int, hi as int),
{
    let mut r = String::new();
    let mut i = lo;
    while i < hi
        invariant
            lo <= i <= hi <= v@.len(),
            r@ == v@.subrange(lo as int, i as int),
        decreases hi - i,
    {
        push_char(&mut r, v[i]);
        i = i + 1;
        proof {
            assert(r@ =~= v@.subrange(lo as int, i as int));
        }
    }
    r
}

/// A `String` holding the characters of `v`.
pub fn string_of(v: &Vec<char>) -> (r: String)
    ensures
        r@ == v@,
{
    let r = string_of_range(v, 0, v.len());
    proof {
        assert(v@.subrange(0, v@.len() as int) =~= v@);
    }
    r
}

/// A vector holding the characters of `v` between `lo` and `hi`.
pub fn vec_range(v: &Vec<char>, lo: usize, hi: usize) -> (r: Vec<char>)
    requires
        lo <= hi <= v@.len(),
    ensures
        r@ == v@.subrange(lo as int, hi as int),
{
    let mut r: Vec<char> = Vec::new();
    let mut i = lo;
    while i < hi
        invariant
            lo <= i <= hi <= v@.len(),
            r@ == v@.subrange(lo as int, i as int),
        decreases hi - i,
    {
        r.push(v[i]);
        i = i + 1;
        proof {
            assert(r@ =~= v@.subrange(lo as int, i as int));
        }
    }
    r
}

/// Character equality of two sequences.
pub fn chars_eq(a: &Vec<char>, b: &Vec<char>) -> (r: bool)
    ensures
        r == (a@ == b@),
{
    if a.len() != b.len() {
        return false;
    }
    let mut i: usize = 0;
    while i < a.len()
        invariant
            a@.len() == b@.len(),
            i <= a@.len(),
            forall|j: int| 0 <= j < i ==> a@[j] == b@[j],
        decreases a.len() - i,
    {
        if a[i] != b[i] {
            return false;
        }
        i = i + 1;
    }
    proof {
        assert(a@ =~= b@);
    }
    true
}

/// Whether the characters of `s` equal those of `t`.
pub fn str_is(s: &str, t: &str) -> (r: bool)
    ensures
        r == (s@ == t@),
{
    chars_eq(&chars_of(s), &chars_of(t))
}

/// Whether `s` ends with `p`.
pub fn ends_with_str(s: &str, p: &str) -> (r: bool)
    ensures
        r == ends_with(s@, p@),
{
    let sv = chars_of(s);
    let pv = chars_of(p);
    if pv.len() > sv.len() {
        return false;
    }
    matches_at(&sv, &pv, sv.len() - pv.len())
}

/// Whether `s` starts with `p`.
pub fn starts_with_str(s: &str, p: &str) -> (r: bool)
    ensures
        r == starts_with(s@, p@),
{
    let sv = chars_of(s);
    let pv = chars_of(p);
    matches_at(&sv, &pv, 0)
}

/// Whether `p` occurs in `s` at index `i`.
pub fn matches_at(s: &Vec<char>, p: &Vec<char>, i: usize) -> (r: bool)
    ensures
        r == match_at(s@, p@, i as int),
{
    if i > s.len() || p.len() > s.len() - i {
        return false;
    }
    let n = s.len();
    let mut j: usize = 0;
    while j < p.len()
        invariant
            n == s@.len(),
            i + p@.len() <= s@.len(),
            j <= p@.len(),
            forall|k: int| 0 <= k < j ==> #[trigger] s@[i + k] == p@[k],
        decreases p.len() - j,
    {
        assert(i + j < s@.len());
        if s[i + j] != p[j] {
            return false;
        }
        j = j + 1;
    }
    true
}

/// `s[lo..hi].find(p)`, shifted by `lo`.
pub fn find_in_vec(s: &Vec<char>, p: &Vec<char>, lo: usize, hi: usize) -> (r: Option<usize>)
    requires
        lo <= hi <= s@.len(),
    ensures
        same_pos(r, find_in(s@, p@, lo as int, hi as int)),
{
    let mut i = lo;
    while i <= hi && p.len() <= hi - i
        invariant
            lo <= i,
            hi <= s@.len(),
            find_in(s@, p@, lo as int, hi as int) == find_in(s@, p@, i as int, hi as int),
        decreases hi + 1 - i,
    {
        if matches_at(s, p, i) {
            return Some(i);
        }
        i = i + 1;
    }
    None
}

/// `s[lo..hi].find(pat)`, shifted by `lo`.
pub fn find_str_in(s: &Vec<char>, pat: &str, lo: usize, hi: usize) -> (r: Option<usize>)
    requires
        lo <= hi <= s@.len(),
    ensures
        same_pos(r, find_in(s@, pat@, lo as int, hi as int)),
{
    let p = chars_of(pat);
    find_in_vec(s, &p, lo, hi)
}

/// `s.rfind(p)`.
pub fn rfind_vec(s: &Vec<char>, p: &Vec<char>) -> (r: Option<usize>)
    ensures
        same_pos(r, rfind(s@, p@)),
{
    if p.len() > s.len() {
        return None;
    }
    let mut i = s.len() - p.len();
    loop
        invariant
            i + p@.len() <= s@.len(),
            rfind(s@, p@) == rfind_from(s@, p@, i as int),
        decreases i,
    {
        if matches_at(s, p, i) {
            return Some(i);
        }
        if i == 0 {
            proof {
                assert(rfind_from(s@, p@, -1) is None);
            }
            return None;
        }
        i = i - 1;
    }
}

/// `s.rfind(pat)`.
pub fn rfind_str(s: &Vec<char>, pat: &str) -> (r: Option<usize>)
    ensures
        same_pos(r, rfind(s@, pat@)),
{
    let p = chars_of(pat);
    rfind_vec(s, &p)
}

/// Whether `c` is an ASCII digit.
pub open spec fn is_digit(c: char) -> bool {
    '0' <= c && c <= '9'
}

/// Whether `s` is a nonempty run of ASCII digits.
pub open spec fn all_digits(s: Seq<char>) -> bool {
    s.len() > 0 && forall|i: int| 0 <= i < s.len() ==> is_digit(#[trigger] s[i])
}

/// The number that the ASCII digits `s` write in decimal.
pub open spec fn digits_value(s: Seq<char>) -> nat
    decreases s.len(),
{
    if s.len() == 0 {
        0
    } else {
        digits_value(s.drop_last()) * 10 + ((s.last() as u32) - ('0' as u32)) as nat
    }
}

/// The digits of an unsigned decimal: `s` without one leading `+`.
pub open spec fn unsigned_digits(s: Seq<char>) -> Seq<char> {
    if s.len() > 0 && s[0] == '+' {
        s.skip(1)
    } else {
        s
    }
}

/// `s.parse::<T>()` for an unsigned integer type whose largest value is
/// `max`: one optional `+`, then one or more ASCII digits, of value at most
/// `max`.
pub open spec fn parse_unsigned(s: Seq<char>, max: nat) -> Option<nat> {
    let d = unsigned_digits(s);
    if all_digits(d) && digits_value(d) <= max {
        Some(digits_value(d))
    } else {
        None
    }
}

proof fn lemma_digits_value_grows(s: Seq<char>, i: int, j: int)
    requires
        0 <= i <= j <= s.len(),
        forall|k: int| 0 <= k < s.len() ==> is_digit(#[trigger] s[k]),
    ensures
        digits_value(s.take(i)) <= digits_value(s.take(j)),
    decreases j - i,
{
    if i < j {
        lemma_digits_value_grows(s, i, j - 1);
        assert(s.take(j).drop_last() =~= s.take(j - 1));
    }
}

/// `s.parse::<u64>()`: `None` where Rust reports an error.
pub fn parse_u64(s: &str) -> (r: Option<u64>)
    ensures
        r matches Some(v) ==> parse_unsigned(s@, u64::MAX as nat) == Some(v as nat),
        r is None ==> parse_unsigned(s@, u64::MAX as nat) is None,
{
    let v = chars_of(s);
    let n = v.len();
    let start: usize = if n > 0 && v[0] == '+' { 1 } else { 0 };
    let ghost d = unsigned_digits(s@);
    proof {
        assert(d =~= v@.skip(start as int));
    }
    if start >= n {
        return None;
    }
    let mut acc: u64 = 0;
    let mut i: usize = start;
    proof {
        assert(d.take(0) =~= Seq::<char>::empty());
    }
    while i < n
        invariant
            d == v@.skip(start as int),
            d == unsigned_digits(s@),
            d.len() == n - start,
            start <= i <= n,
            n == v@.len(),
            forall|k: int| 0 <= k < i - start ==> is_digit(#[trigger] d[k]),
            acc as nat == digits_value(d.take(i - start)),
        decreases n - i,
    {
        let c = v[i];
        if c < '0' || c > '9' {
            proof {
                assert(d[i - start] == c);
                assert(!is_digit(d[i - start]));
            }
            return None;
        }
        let dv = ((c as u32) - ('0' as u32)) as u64;
        proof {
            assert(d.take(i - start + 1).drop_last() =~= d.take(i - start));
            assert(d.take(i - start + 1).last() == c);
        }
        let ghost val = digits_value(d.take(i - start + 1));
        let next = match acc.checked_mul(10) {
            Some(m) => m.checked_add(dv),
            None => None,
        };
        match next {
            Some(a) => {
                acc = a;
            },
            None => {
                proof {
                    assert(val > u64::MAX);
                    if all_digits(d) {
                        lemma_digits_value_grows(d, i - start + 1, d.len() as int);
                        assert(d.take(d.len() as int) =~= d);
                    }
                }
                return None;
            },
        }
        i = i + 1;
    }
    proof {
        assert(d.take(n - start) =~= d);
    }
    Some(acc)
}

/// `s[i..].replace(p, r)` for a nonempty `p`: the matches of `p` from `i`
/// on, taken left to right without overlap, each become `r`.
pub open spec fn replace_from(s: Seq<char>, p: Seq<char>, r: Seq<char>, i: nat) -> Seq<char>
    decreases s.len() - i,
{
    if i >= s.len() || p.len() == 0 {
        s.skip(i as int)
    } else if match_at(s, p, i as int) {
        r + replace_from(s, p, r, i + p.len())
    } else {
        seq![s[i as int]] + replace_from(s, p, r, i + 1)
    }
}

/// `s.replace(p, r)` for a nonempty `p`.
pub open spec fn replace_all(s: Seq<char>, p: Seq<char>, r: Seq<char>) -> Seq<char> {
    replace_from(s, p, r, 0)
}

/// `s.replace(p, r)`, for a nonempty `p`.
pub fn replace_all_vec(s: &Vec<char>, p: &Vec<char>, r: &Vec<char>) -> (out: Vec<char>)
    requires
        p@.len() > 0,
    ensures
        out@ == replace_all(s@, p@, r@),
{
    let n = s.len();
    let mut out: Vec<char> = Vec::new();
    let mut i: usize = 0;
    while i < n
        invariant
            n == s@.len(),
            p@.len() > 0,
            i <= n,
            out@ + replace_from(s@, p@, r@, i as nat) == replace_all(s@, p@, r@),
        decreases n - i,
    {
        let ghost before = out@;
        if matches_at(s, p, i) {
            let mut k: usize = 0;
            while k < r.len()
                invariant
                    k <= r@.len(),
                    out@ == before + r@.take(k as int),
                decreases r.len() - k,
            {
                out.push(r[k]);
                k = k + 1;
                proof {
                    assert(out@ =~= before + r@.take(k as int));
                }
            }
            proof {
                assert(r@.take(r@.len() as int) =~= r@);
                assert(before + (r@ + replace_from(s@, p@, r@, (i + p@.len()) as nat))
                    =~= out@ + replace_from(s@, p@, r@, (i + p@.len()) as nat));
            }
            i = i + p.len();
        } else {
            out.push(s[i]);
            proof {
                assert(before + (seq![s@[i as int]] + replace_from(s@, p@, r@, (i + 1) as nat))
                    =~= out@ + replace_from(s@, p@, r@, (i + 1) as nat));
            }
            i = i + 1;
        }
    }
    proof {
        assert(out@ + replace_from(s@, p@, r@, i as nat) =~= out@);
    }
    out
}

/// `s.trim_end_matches(p)`: `s` with every trailing copy of a nonempty `p`
/// removed.
pub open spec fn strip_all_suffix(s: Seq<char>, p: Seq<char>) -> Seq<char>
    decreases s.len(),
{
    if p.len() > 0 && ends_with(s, p) {
        strip_all_suffix(s.take(s.len() - p.len()), p)
    } else {
        s
    }
}

/// `s.trim_end_matches(p)`.
pub fn strip_all_suffix_str(s: &str, p: &str) -> (r: String)
    ensures
        r@ == strip_all_suffix(s@, p@),
{
    let v = chars_of(s);
    let pv = chars_of(p);
    let n = v.len();
    let m = pv.len();
    let mut end: usize = n;
    proof {
        assert(v@.take(n as int) =~= v@);
    }
    if m == 0 {
        return string_of(&v);
    }
    while m <= end && matches_at(&v, &pv, end - m)
        invariant
            n == v@.len(),
            m == pv@.len(),
            m > 0,
            end <= n,
            pv@ == p@,
            strip_all_suffix(s@, p@) == strip_all_suffix(v@.take(end as int), p@),
        decreases end,
    {
        proof {
            let t = v@.take(end as int);
            assert forall|j: int| 0 <= j < m implies #[trigger] t[(t.len() - m) + j] == pv@[j] by {
                assert(t[(end - m) + j] == v@[(end - m) + j]);
            }
            assert(ends_with(t, p@));
            assert(t.take(t.len() - m) =~= v@.take(end - m));
        }
        end = end - m;
    }
    proof {
        let t = v@.take(end as int);
        if ends_with(t, p@) {
            assert forall|j: int| 0 <= j < m implies #[trigger] v@[(end - m) + j] == pv@[j] by {
                assert(t[(t.len() - m) + j] == pv@[j]);
            }
            assert(match_at(v@, pv@, end - m));
        }
        assert(v@.subrange(0, end as int) =~= t);
    }
    string_of_range(&v, 0, end)
}

/// `s.parse::<u32>()`: `None` where Rust reports an error.
pub fn parse_u32(s: &str) -> (r: Option<u32>)
    ensures
        r matches Some(v) ==> parse_unsigned(s@, u32::MAX as nat) == Some(v as nat),
        r is None ==> parse_unsigned(s@, u32::MAX as nat) is None,
{
    match parse_u64(s) {
        Some(v) => if v <= u32::MAX as u64 {
            Some(v as u32)
        } else {
            None
        },
        None => None,
    }
}

proof fn lemma_digit_char_value(d: int)
    requires
        0 <= d < 10,
    ensures
        (digit_char(d) as u32) - ('0' as u32) == d,
        is_digit(digit_char(d)),
{
}

/// The decimal representation of `n` is a run of digits of value `n`.
proof fn lemma_decimal_digits(n: nat)
    ensures
        all_digits(decimal(n)),
        digits_value(decimal(n)) == n,
    decreases n,
{
    if n < 10 {
        let d = decimal(n);
        lemma_digit_char_value(n as int);
        assert(d.drop_last() =~= Seq::<char>::empty());
        assert(d.last() == digit_char(n as int));
        assert(is_digit(d[0]));
        assert(digits_value(d) == digits_value(d.drop_last()) * 10 + ((d.last() as u32) - ('0' as u32)) as nat);
    } else {
        lemma_decimal_digits(n / 10);
        let d = decimal(n);
        let c = digit_char((n % 10) as int);
        lemma_digit_char_value((n % 10) as int);
        assert(d.drop_last() =~= decimal(n / 10));
        assert(d.last() == c);
        assert((c as u32) - ('0' as u32) == n % 10);
        assert forall|i: int| 0 <= i < d.len() implies is_digit(#[trigger] d[i]) by {
            if i < d.len() - 1 {
                assert(d[i] == decimal(n / 10)[i]);
            }
        }
        assert((n / 10) * 10 + n % 10 == n) by (nonlinear_arith);
    }
}

/// Reading back a number written in decimal: parsing the decimal text of
/// `n` (`n.to_string()`) as an unsigned integer type whose largest value is
/// at least `n` gives `n`.
pub proof fn law_parse_decimal(n: nat, max: nat)
    requires
        n <= max,
    ensures
        parse_unsigned(decimal(n), max) == Some(n),
{
    lemma_decimal_digits(n);
    let d = decimal(n);
    assert(d[0] != '+');
    assert(unsigned_digits(d) == d);
}

/// `s.replace(p, r)` leaves `s` as it is where `p` does not occur in it.
pub proof fn law_replace_absent(s: Seq<char>, p: Seq<char>, r: Seq<char>)
    requires
        p.len() > 0,
        forall|i: int| 0 <= i <= s.len() ==> !match_at(s, p, i),
    ensures
        replace_all(s, p, r) == s,
{
    lemma_replace_from_absent(s, p, r, 0);
    assert(s.skip(0) =~= s);
}

proof fn lemma_replace_from_absent(s: Seq<char>, p: Seq<char>, r: Seq<char>, i: nat)
    requires
        p.len() > 0,
        forall|j: int| 0 <= j <= s.len() ==> !match_at(s, p, j),
    ensures
        replace_from(s, p, r, i) == s.skip(i as int),
    decreases s.len() - i,
{
    if i < s.len() {
        lemma_replace_from_absent(s, p, r, i + 1);
        assert(seq![s[i as int]] + s.skip(i as int + 1) =~= s.skip(i as int));
    }
}

} // verus!
