//! Character-level string operations with exact specifications.
//!
//! Object keys and paths are handled as sequences of characters. Each
//! executable function here is tied to a short spec function that says what
//! the corresponding `str` method of the standard library computes.

use vstd::prelude::*;

verus! {

// ---------------------------------------------------------------------------
// Specifications
// ---------------------------------------------------------------------------

/// `s` with every leading `c` removed (as `str::trim_start_matches(c)`).
pub open spec fn trim_start(s: Seq<char>, c: char) -> Seq<char>
    decreases s.len(),
{
    if s.len() > 0 && s[0] == c {
        trim_start(s.drop_first(), c)
    } else {
        s
    }
}

/// `s` with every trailing `c` removed (as `str::trim_end_matches(c)`).
pub open spec fn trim_end(s: Seq<char>, c: char) -> Seq<char>
    decreases s.len(),
{
    if s.len() > 0 && s.last() == c {
        trim_end(s.drop_last(), c)
    } else {
        s
    }
}

/// `s` with `c` removed at both ends (as `str::trim_matches(c)`).
pub open spec fn trim_both(s: Seq<char>, c: char) -> Seq<char> {
    trim_end(trim_start(s, c), c)
}

/// The index of the last `c` in `s`, or -1 when there is none
/// (as `str::rfind(c)`).
pub open spec fn last_index_of(s: Seq<char>, c: char) -> int
    decreases s.len(),
{
    if s.len() == 0 {
        -1
    } else if s.last() == c {
        s.len() - 1
    } else {
        last_index_of(s.drop_last(), c)
    }
}

/// What follows the last `c` in `s`; all of `s` when it holds no `c`.
pub open spec fn after_last(s: Seq<char>, c: char) -> Seq<char> {
    s.skip(last_index_of(s, c) + 1)
}

/// `s` ends with `suffix` (as `str::ends_with`).
pub open spec fn ends_with(s: Seq<char>, suffix: Seq<char>) -> bool {
    suffix.len() <= s.len() && s.subrange(s.len() - suffix.len(), s.len() as int) == suffix
}

/// `pat` occurs in `s` at position `i`.
pub open spec fn matches_at(s: Seq<char>, pat: Seq<char>, i: int) -> bool {
    0 <= i && i + pat.len() <= s.len() && s.subrange(i, i + pat.len()) == pat
}

/// The first position at or after `i` where `pat` occurs in `s`.
pub open spec fn find_from(s: Seq<char>, pat: Seq<char>, i: int) -> Option<int>
    decreases s.len() + 1 - i,
{
    if i < 0 || i + pat.len() > s.len() {
        None
    } else if matches_at(s, pat, i) {
        Some(i)
    } else {
        find_from(s, pat, i + 1)
    }
}

/// `s` with its first occurrence of `pat` replaced by `to`
/// (as `str::replacen(pat, to, 1)`).
pub open spec fn replace_first(s: Seq<char>, pat: Seq<char>, to: Seq<char>) -> Seq<char> {
    match find_from(s, pat, 0) {
        Some(i) => s.take(i) + to + s.skip(i + pat.len()),
        None => s,
    }
}

/// The lower-case hexadecimal digit for a value below 16.
pub open spec fn hex_digit(n: int) -> char {
    seq!['0', '1', '2', '3', '4', '5', '6', '7', '8', '9', 'a', 'b', 'c', 'd', 'e', 'f'][n]
}

/// Two lower-case hexadecimal digits per byte, high half first
/// (the output of `{:x}` on a byte array).
pub open spec fn hex_lower(bytes: Seq<u8>) -> Seq<char> {
    Seq::new(
        2 * bytes.len(),
        |i: int|
            if i % 2 == 0 {
                hex_digit(bytes[i / 2] as int / 16)
            } else {
                hex_digit(bytes[i / 2] as int % 16)
            },
    )
}

// ---------------------------------------------------------------------------
// Lemmas
// ---------------------------------------------------------------------------

/// Skipping a run of leading `c` does not change `trim_start`.
pub proof fn lemma_trim_start_skip(s: Seq<char>, c: char, k: int)
    requires
        0 <= k <= s.len(),
        forall|j: int| 0 <= j < k ==> s[j] == c,
    ensures
        trim_start(s, c) == trim_start(s.skip(k), c),
    decreases k,
{
    if k > 0 {
        assert(s.drop_first().skip(k - 1) =~= s.skip(k));
        lemma_trim_start_skip(s.drop_first(), c, k - 1);
    } else {
        assert(s.skip(0) =~= s);
    }
}

/// Dropping a run of trailing `c` does not change `trim_end`.
pub proof fn lemma_trim_end_take(s: Seq<char>, c: char, k: int)
    requires
        0 <= k <= s.len(),
        forall|j: int| k <= j < s.len() ==> s[j] == c,
    ensures
        trim_end(s, c) == trim_end(s.take(k), c),
    decreases s.len() - k,
{
    if k < s.len() {
        assert(s.drop_last().take(k) =~= s.take(k));
        lemma_trim_end_take(s.drop_last(), c, k);
    } else {
        assert(s.take(k) =~= s);
    }
}

/// Dropping a tail free of `c` does not change `last_index_of`.
pub proof fn lemma_last_index_take(s: Seq<char>, c: char, k: int)
    requires
        0 <= k <= s.len(),
        forall|j: int| k <= j < s.len() ==> s[j] != c,
    ensures
        last_index_of(s, c) == last_index_of(s.take(k), c),
    decreases s.len() - k,
{
    if k < s.len() {
        assert(s.drop_last().take(k) =~= s.take(k));
        lemma_last_index_take(s.drop_last(), c, k);
    } else {
        assert(s.take(k) =~= s);
    }
}

/// `last_index_of` is -1 or the position of a `c`, and no `c` follows it.
pub proof fn lemma_last_index_bounds(s: Seq<char>, c: char)
    ensures
        -1 <= last_index_of(s, c) < s.len(),
        last_index_of(s, c) >= 0 ==> s[last_index_of(s, c)] == c,
        forall|j: int| last_index_of(s, c) < j < s.len() ==> s[j] != c,
    decreases s.len(),
{
    if s.len() > 0 && s.last() != c {
        lemma_last_index_bounds(s.drop_last(), c);
        assert forall|j: int| last_index_of(s, c) < j < s.len() implies s[j] != c by {
            if j < s.len() - 1 {
                assert(s.drop_last()[j] == s[j]);
            }
        }
    }
}

/// What follows the last `c` holds no `c`.
pub proof fn lemma_after_last_has_no(s: Seq<char>, c: char)
    ensures
        forall|j: int| 0 <= j < after_last(s, c).len() ==> after_last(s, c)[j] != c,
{
    lemma_last_index_bounds(s, c);
    let k = last_index_of(s, c) + 1;
    assert forall|j: int| 0 <= j < after_last(s, c).len() implies after_last(s, c)[j] != c by {
        assert(after_last(s, c)[j] == s[k + j]);
    }
}

/// The result of `trim_start` does not begin with `c`, and is a suffix of `s`.
pub proof fn lemma_trim_start_shape(s: Seq<char>, c: char)
    ensures
        trim_start(s, c).len() == 0 || trim_start(s, c)[0] != c,
        trim_start(s, c).len() <= s.len(),
        trim_start(s, c) == s.skip(s.len() - trim_start(s, c).len()),
    decreases s.len(),
{
    if s.len() > 0 && s[0] == c {
        lemma_trim_start_shape(s.drop_first(), c);
        let t = trim_start(s.drop_first(), c);
        assert(s.drop_first().skip(s.drop_first().len() - t.len()) =~= s.skip(s.len() - t.len()));
    } else {
        assert(s.skip(0) =~= s);
    }
}

/// `trim_start` removes nothing but `c`.
pub proof fn lemma_trim_start_drops_only(s: Seq<char>, c: char)
    ensures
        trim_start(s, c).len() <= s.len(),
        forall|i: int| 0 <= i < s.len() - trim_start(s, c).len() ==> s[i] == c,
    decreases s.len(),
{
    if s.len() > 0 && s[0] == c {
        lemma_trim_start_drops_only(s.drop_first(), c);
        assert forall|i: int| 0 <= i < s.len() - trim_start(s, c).len() implies s[i] == c by {
            if i > 0 {
                assert(s[i] == s.drop_first()[i - 1]);
            }
        }
    }
}

/// The value of a lower-case hexadecimal digit.
pub open spec fn hex_value(c: char) -> int {
    if (c as int) <= 0x39 {
        c as int - 0x30
    } else {
        c as int - 0x57
    }
}

/// The digit for `n` is `0`-`9` then `a`-`f`.
pub proof fn lemma_hex_digit(n: int)
    requires
        0 <= n < 16,
    ensures
        hex_digit(n) as int == if n < 10 {
            0x30 + n
        } else {
            0x57 + n
        },
{
    let t = seq!['0', '1', '2', '3', '4', '5', '6', '7', '8', '9', 'a', 'b', 'c', 'd', 'e', 'f'];
    assert(hex_digit(n) == t[n]);
    if n == 0 { assert(t[0] == '0'); } else if n == 1 { assert(t[1] == '1'); } else if n == 2 { assert(t[2] == '2'); }
    else if n == 3 { assert(t[3] == '3'); } else if n == 4 { assert(t[4] == '4'); } else if n == 5 { assert(t[5] == '5'); }
    else if n == 6 { assert(t[6] == '6'); } else if n == 7 { assert(t[7] == '7'); } else if n == 8 { assert(t[8] == '8'); }
    else if n == 9 { assert(t[9] == '9'); } else if n == 10 { assert(t[10] == 'a'); } else if n == 11 { assert(t[11] == 'b'); }
    else if n == 12 { assert(t[12] == 'c'); } else if n == 13 { assert(t[13] == 'd'); } else if n == 14 { assert(t[14] == 'e'); }
    else { assert(t[15] == 'f'); }
}

/// Hex encoding loses nothing: two lower-case digits per byte, the first
/// worth sixteen times its value, which read back give the byte.
pub proof fn law_hex_lower_decodes(bytes: Seq<u8>)
    ensures
        hex_lower(bytes).len() == 2 * bytes.len(),
        forall|i: int|
            0 <= i < bytes.len() ==> hex_value(#[trigger] hex_lower(bytes)[2 * i]) * 16 + hex_value(
                hex_lower(bytes)[2 * i + 1],
            ) == bytes[i] as int,
        forall|j: int|
            0 <= j < hex_lower(bytes).len() ==> {
                let c = #[trigger] hex_lower(bytes)[j] as int;
                (0x30 <= c <= 0x39) || (0x61 <= c <= 0x66)
            },
{
    let h = hex_lower(bytes);
    assert forall|i: int| 0 <= i < bytes.len() implies hex_value(#[trigger] h[2 * i]) * 16 + hex_value(
        h[2 * i + 1],
    ) == bytes[i] as int by {
        assert((2 * i) / 2 == i && (2 * i) % 2 == 0);
        assert((2 * i + 1) / 2 == i && (2 * i + 1) % 2 == 1);
        lemma_hex_digit(bytes[i] as int / 16);
        lemma_hex_digit(bytes[i] as int % 16);
    }
    assert forall|j: int| 0 <= j < h.len() implies {
        let c = #[trigger] h[j] as int;
        (0x30 <= c <= 0x39) || (0x61 <= c <= 0x66)
    } by {
        lemma_hex_digit(bytes[j / 2] as int / 16);
        lemma_hex_digit(bytes[j / 2] as int % 16);
    }
}

/// Trimming leading `c` twice is the same as trimming once.
pub proof fn lemma_trim_start_idempotent(s: Seq<char>, c: char)
    ensures
        trim_start(trim_start(s, c), c) == trim_start(s, c),
{
    lemma_trim_start_shape(s, c);
}

/// A pattern found at the start is replaced there.
pub proof fn lemma_replace_first_prefix(s: Seq<char>, pat: Seq<char>, to: Seq<char>)
    requires
        pat.len() <= s.len(),
        s.take(pat.len() as int) == pat,
    ensures
        replace_first(s, pat, to) == to + s.skip(pat.len() as int),
{
    assert(s.subrange(0, pat.len() as int) =~= s.take(pat.len() as int));
    assert(matches_at(s, pat, 0));
    assert(s.take(0) + to =~= to);
}

// ---------------------------------------------------------------------------
// Executable functions
// ---------------------------------------------------------------------------

/// Appends one character through `String::push`.
#[verifier::external_body]
pub(crate) fn push_char(s: &mut String, c: char)
    ensures
        final(s)@ == old(s)@.push(c),
{
    s.push(c)
}

/// The characters of `s`, in order.
pub fn chars_of(s: &str) -> (v: Vec<char>)
    ensures
        v@ == s@,
{
    let mut v: Vec<char> = Vec::new();
    for c in it: s.chars()
        invariant
            v@ == it.seq().take(it.index() as int),
    {
        v.push(c);
    }
    v
}

/// The string made of `v[from..to]`.
pub fn string_of_range(v: &Vec<char>, from: usize, to: usize) -> (r: String)
    requires
        from <= to <= v@.len(),
    ensures
        r@ == v@.subrange(from as int, to as int),
{
    let mut r = String::new();
    let mut i = from;
    while i < to
        invariant
            from <= i <= to <= v@.len(),
            r@ == v@.subrange(from as int, i as int),
        decreases to - i,
    {
        push_char(&mut r, v[i]);
        assert(v@.subrange(from as int, i + 1) =~= v@.subrange(from as int, i as int).push(v@[i as int]));
        i = i + 1;
    }
    r
}

/// A fresh string equal to `s`.
pub fn owned(s: &str) -> (r: String)
    ensures
        r@ == s@,
{
    s.to_owned()
}

/// `a + b` as a new string.
pub fn concat2(a: &str, b: &str) -> (r: String)
    ensures
        r@ == a@ + b@,
{
    let mut r = owned(a);
    r.append(b);
    r
}

/// `a + b + c` as a new string.
pub fn concat3(a: &str, b: &str, c: &str) -> (r: String)
    ensures
        r@ == a@ + b@ + c@,
{
    let mut r = owned(a);
    r.append(b);
    r.append(c);
    r
}

/// Character-wise equality of two strings.
pub fn str_eq(a: &str, b: &str) -> (r: bool)
    ensures
        r == (a@ == b@),
{
    let va = chars_of(a);
    let vb = chars_of(b);
    if va.len() != vb.len() {
        return false;
    }
    let mut i: usize = 0;
    while i < va.len()
        invariant
            va@ == a@,
            vb@ == b@,
            va@.len() == vb@.len(),
            i <= va@.len(),
            forall|j: int| 0 <= j < i ==> va@[j] == vb@[j],
        decreases va@.len() - i,
    {
        if va[i] != vb[i] {
            return false;
        }
        i = i + 1;
    }
    assert(va@ =~= vb@);
    true
}

/// `s` without its leading `c` (as `str::trim_start_matches(c)`).
pub fn trim_start_char(s: &str, c: char) -> (r: String)
    ensures
        r@ == trim_start(s@, c),
{
    let v = chars_of(s);
    let n = v.len();
    let mut i: usize = 0;
    while i < n && v[i] == c
        invariant
            v@ == s@,
            n == v@.len(),
            i <= n,
            forall|j: int| 0 <= j < i ==> v@[j] == c,
        decreases n - i,
    {
        i = i + 1;
    }
    proof {
        lemma_trim_start_skip(s@, c, i as int);
        assert(s@.skip(i as int) =~= v@.subrange(i as int, n as int));
    }
    string_of_range(&v, i, n)
}

/// `s` without `c` at either end (as `str::trim_matches(c)`).
pub fn trim_char(s: &str, c: char) -> (r: String)
    ensures
        r@ == trim_both(s@, c),
{
    let front = trim_start_char(s, c);
    let v = chars_of(front.as_str());
    let mut k: usize = v.len();
    while k > 0 && v[k - 1] == c
        invariant
            v@ == front@,
            k <= v@.len(),
            forall|j: int| k <= j < v@.len() ==> v@[j] == c,
        decreases k,
    {
        k = k - 1;
    }
    proof {
        lemma_trim_end_take(v@, c, k as int);
        assert(v@.take(k as int) =~= v@.subrange(0, k as int));
    }
    string_of_range(&v, 0, k)
}

/// Everything after the last `c` in `s`, or all of `s` when it holds none.
pub fn after_last_char(s: &str, c: char) -> (r: String)
    ensures
        r@ == after_last(s@, c),
{
    let v = chars_of(s);
    let n = v.len();
    let mut k: usize = n;
    while k > 0 && v[k - 1] != c
        invariant
            v@ == s@,
            n == v@.len(),
            k <= n,
            forall|j: int| k <= j < n ==> v@[j] != c,
        decreases k,
    {
        k = k - 1;
    }
    proof {
        lemma_last_index_take(v@, c, k as int);
        let t = v@.take(k as int);
        if k > 0 {
            assert(t.last() == c);
        } else {
            assert(t.len() == 0);
        }
        assert(s@.skip(k as int) =~= v@.subrange(k as int, n as int));
    }
    string_of_range(&v, k, n)
}

/// Whether `s` ends with `suffix` (as `str::ends_with`).
pub fn ends_with_str(s: &str, suffix: &str) -> (r: bool)
    ensures
        r == ends_with(s@, suffix@),
{
    let v = chars_of(s);
    let p = chars_of(suffix);
    if p.len() > v.len() {
        return false;
    }
    let n = v.len();
    let off = v.len() - p.len();
    let mut j: usize = 0;
    while j < p.len()
        invariant
            n == v@.len(),
            v@ == s@,
            p@ == suffix@,
            p@.len() <= v@.len(),
            off == v@.len() - p@.len(),
            j <= p@.len(),
            forall|t: int| 0 <= t < j ==> v@[off + t] == p@[t],
        decreases p@.len() - j,
    {
        if v[off + j] != p[j] {
            assert(s@.subrange(off as int, v@.len() as int)[j as int] == v@[off + j]);
            return false;
        }
        j = j + 1;
    }
    assert(s@.subrange(off as int, v@.len() as int) =~= suffix@);
    true
}

/// Whether `p` occurs in `v` at position `i`.
fn matches_at_exec(v: &Vec<char>, p: &Vec<char>, i: usize) -> (r: bool)
    requires
        i + p@.len() <= v@.len(),
    ensures
        r == matches_at(v@, p@, i as int),
{
    let n = v.len();
    let mut j: usize = 0;
    while j < p.len()
        invariant
            n == v@.len(),
            i + p@.len() <= v@.len(),
            j <= p@.len(),
            forall|t: int| 0 <= t < j ==> v@[i + t] == p@[t],
        decreases p@.len() - j,
    {
        if v[i + j] != p[j] {
            assert(v@.subrange(i as int, i + p@.len())[j as int] == v@[i + j]);
            return false;
        }
        j = j + 1;
    }
    assert(v@.subrange(i as int, i + p@.len()) =~= p@);
    true
}

/// `s` with its first occurrence of `pat` replaced by `to`
/// (as `str::replacen(pat, to, 1)`).
pub fn replace_first_str(s: &str, pat: &str, to: &str) -> (r: String)
    ensures
        r@ == replace_first(s@, pat@, to@),
{
    let v = chars_of(s);
    let p = chars_of(pat);
    let n = v.len();
    let m = p.len();
    if m > n {
        proof {
            assert(s@.subrange(0, n as int) =~= s@);
        }
        return string_of_range(&v, 0, n);
    }
    let last = n - m;
    let mut i: usize = 0;
    loop
        invariant
            v@ == s@,
            p@ == pat@,
            n == v@.len(),
            m == p@.len(),
            m <= n,
            last == n - m,
            i <= last,
            find_from(s@, pat@, 0) == find_from(s@, pat@, i as int),
        decreases last - i,
    {
        if matches_at_exec(&v, &p, i) {
            let mut r = string_of_range(&v, 0, i);
            r.append(to);
            let tail = string_of_range(&v, i + m, n);
            r.append(tail.as_str());
            proof {
                assert(s@.take(i as int) =~= v@.subrange(0, i as int));
                assert(s@.skip(i + m) =~= v@.subrange(i + m, n as int));
            }
            return r;
        }
        if i == last {
            proof {
                assert(find_from(s@, pat@, i + 1) == None::<int>);
                assert(s@.subrange(0, n as int) =~= s@);
            }
            return string_of_range(&v, 0, n);
        }
        i = i + 1;
    }
}

/// The lower-case hexadecimal digit for `n < 16`.
fn hex_digit_exec(n: u8) -> (c: char)
    requires
        n < 16,
    ensures
        c == hex_digit(n as int),
{
    let digits: [char; 16] = ['0', '1', '2', '3', '4', '5', '6', '7', '8', '9', 'a', 'b', 'c', 'd', 'e', 'f'];
    let c = digits[n as usize];
    assert(digits@ =~= seq!['0', '1', '2', '3', '4', '5', '6', '7', '8', '9', 'a', 'b', 'c', 'd', 'e', 'f']);
    c
}

/// Two lower-case hexadecimal digits per byte, high half first.
pub fn hex_lower_string(bytes: &[u8]) -> (r: String)
    ensures
        r@ == hex_lower(bytes@),
{
    let mut r = String::new();
    let mut i: usize = 0;
    while i < bytes.len()
        invariant
            i <= bytes@.len(),
            r@ =~= hex_lower(bytes@.take(i as int)),
        decreases bytes@.len() - i,
    {
        let b = bytes[i];
        push_char(&mut r, hex_digit_exec(b / 16));
        push_char(&mut r, hex_digit_exec(b % 16));
        proof {
            let prev = hex_lower(bytes@.take(i as int));
            let next = hex_lower(bytes@.take(i + 1));
            assert forall|k: int| 0 <= k < next.len() implies next[k] == prev.push(
                hex_digit(b as int / 16),
            ).push(hex_digit(b as int % 16))[k] by {
                if k < 2 * i {
                    assert(k / 2 < i);
                    assert(bytes@.take(i + 1)[k / 2] == bytes@.take(i as int)[k / 2]);
                } else if k == 2 * i {
                    assert(k / 2 == i);
                } else {
                    assert(k / 2 == i);
                    assert(k % 2 == 1);
                }
            }
            assert(next =~= prev.push(hex_digit(b as int / 16)).push(hex_digit(b as int % 16)));
        }
        i = i + 1;
    }
    assert(bytes@.take(bytes@.len() as int) =~= bytes@);
    r
}

} // verus!
