//! The canonical form of WebDAV URL paths: the form in which a parsed path
//! is written back out, which parsing leaves unchanged.

use vstd::prelude::*;

verus! {

/// A character code written as itself in a URL path: a letter, a digit,
/// `-`, `_`, `.` or `~`.
pub open spec fn unreserved_code(n: int) -> bool {
    (0x61 <= n <= 0x7a) || (0x41 <= n <= 0x5a) || (0x30 <= n <= 0x39) || n == 0x2d || n == 0x5f
        || n == 0x2e || n == 0x7e
}

/// The value of an upper-case hexadecimal digit, or -1.
pub open spec fn hex_upper_value(c: char) -> int {
    let n = c as int;
    if 0x30 <= n <= 0x39 {
        n - 0x30
    } else if 0x41 <= n <= 0x46 {
        n - 0x41 + 10
    } else {
        -1
    }
}

/// A byte that a path segment may hold and that is written escaped: neither
/// NUL, nor `/`, nor a character written as itself.
pub open spec fn escaped_byte_ok(b: int) -> bool {
    0 < b < 256 && b != 0x2f && !unreserved_code(b)
}

/// `s[i]` starts an escape `%HH` with upper-case hex digits of such a byte.
pub open spec fn escape_at(s: Seq<char>, i: int) -> bool {
    &&& i + 2 < s.len()
    &&& hex_upper_value(s[i + 1]) >= 0
    &&& hex_upper_value(s[i + 2]) >= 0
    &&& escaped_byte_ok(hex_upper_value(s[i + 1]) * 16 + hex_upper_value(s[i + 2]))
}

/// A segment `.` or `..` starts at `j` (it runs to the end or to a `/`).
pub open spec fn dot_segment_at(s: Seq<char>, j: int) -> bool {
    ||| (j < s.len() && s[j] == '.' && (j + 1 == s.len() || s[j + 1] == '/'))
    ||| (j + 1 < s.len() && s[j] == '.' && s[j + 1] == '.' && (j + 2 == s.len() || s[j + 2] == '/'))
}

/// `s` is a URL path in canonical form: it begins with `/`, holds only
/// characters written as themselves, `/` and well-formed escapes of bytes
/// that must be escaped, and has no empty, `.` or `..` segment (a single
/// trailing `/` marks a collection).
pub open spec fn canonical_url(s: Seq<char>) -> bool {
    &&& s.len() > 0
    &&& s[0] == '/'
    &&& forall|i: int| 0 <= i < s.len() ==> unreserved_code(#[trigger] s[i] as int) || s[i] == '/' || s[i] == '%'
    &&& forall|i: int| 0 <= i < s.len() && #[trigger] s[i] == '%' ==> escape_at(s, i)
    &&& forall|i: int| 0 <= i < s.len() - 1 && #[trigger] s[i] == '/' ==> s[i + 1] != '/'
    &&& forall|i: int| 0 <= i < s.len() && #[trigger] s[i] == '/' ==> !dot_segment_at(s, i + 1)
}

/// `u` can stand as one segment of a canonical path.
pub open spec fn canonical_segment(u: Seq<char>) -> bool {
    &&& u.len() > 0
    &&& forall|i: int| 0 <= i < u.len() ==> #[trigger] u[i] != '/'
    &&& canonical_url(seq!['/'] + u)
}

/// A canonical path without escapes: letters, digits, `-`, `_`, `.`, `~`
/// and `/` only.
pub open spec fn plain_url(s: Seq<char>) -> bool {
    canonical_url(s) && forall|i: int| 0 <= i < s.len() ==> #[trigger] s[i] != '%'
}

/// A canonical segment without escapes.
pub open spec fn plain_segment(u: Seq<char>) -> bool {
    canonical_segment(u) && forall|i: int| 0 <= i < u.len() ==> #[trigger] u[i] != '%'
}

/// How a path is displayed: without a trailing `/`, except for the root.
pub open spec fn display_form(s: Seq<char>) -> Seq<char> {
    if s.len() > 1 && s.last() == '/' {
        s.drop_last()
    } else {
        s
    }
}

/// A plain path put under a plain segment is plain.
pub proof fn lemma_plain_under_segment(u: Seq<char>, p: Seq<char>)
    requires
        plain_segment(u),
        plain_url(p),
    ensures
        plain_url(seq!['/'] + u + p),
{
    lemma_canonical_under_segment(u, p);
    let s = seq!['/'] + u + p;
    assert forall|i: int| 0 <= i < s.len() implies #[trigger] s[i] != '%' by {
        if i == 0 {
        } else if i < u.len() + 1 {
            assert(s[i] == u[i - 1]);
        } else {
            assert(s[i] == p[i - u.len() - 1]);
        }
    }
}

/// A canonical path put under a canonical segment is canonical.
pub proof fn lemma_canonical_under_segment(u: Seq<char>, p: Seq<char>)
    requires
        canonical_segment(u),
        canonical_url(p),
    ensures
        canonical_url(seq!['/'] + u + p),
{
    let a = seq!['/'] + u;
    let s = a + p;
    let n = a.len() as int;
    assert(a[n - 1] == u[u.len() - 1]);
    assert forall|i: int| 0 <= i < s.len() implies unreserved_code(#[trigger] s[i] as int) || s[i] == '/'
        || s[i] == '%' by {
        if i < n {
            assert(s[i] == a[i]);
        } else {
            assert(s[i] == p[i - n]);
        }
    }
    assert forall|i: int| 0 <= i < s.len() && #[trigger] s[i] == '%' implies escape_at(s, i) by {
        if i < n {
            assert(s[i] == a[i]);
            assert(escape_at(a, i));
            assert(s[i + 1] == a[i + 1]);
            assert(s[i + 2] == a[i + 2]);
        } else {
            assert(s[i] == p[i - n]);
            assert(escape_at(p, i - n));
            assert(s[i + 1] == p[i - n + 1]);
            assert(s[i + 2] == p[i - n + 2]);
        }
    }
    assert forall|i: int| 0 <= i < s.len() - 1 && #[trigger] s[i] == '/' implies s[i + 1] != '/' by {
        if i < n - 1 {
            assert(s[i] == a[i]);
            assert(s[i + 1] == a[i + 1]);
        } else if i == n - 1 {
            assert(s[i] == a[n - 1]);
            assert(a[n - 1] == u[u.len() - 1]);
        } else {
            assert(s[i] == p[i - n]);
            assert(s[i + 1] == p[i - n + 1]);
        }
    }
    assert forall|i: int| 0 <= i < s.len() && #[trigger] s[i] == '/' implies !dot_segment_at(s, i + 1) by {
        if i < n {
            assert(s[i] == a[i]);
            if i > 0 {
                assert(a[i] == u[i - 1]);
            }
            assert(i == 0);
            assert(!dot_segment_at(a, 1));
            assert(s[1] == a[1]);
            if n > 2 {
                assert(s[2] == a[2]);
                assert(a[2] == u[1]);
            }
            if n > 3 {
                assert(s[3] == a[3]);
                assert(a[3] == u[2]);
            }
            if n == 2 {
                assert(s[2] == p[0]);
            }
            if n == 3 {
                assert(s[3] == p[0]);
            }
        } else {
            assert(s[i] == p[i - n]);
            assert(!dot_segment_at(p, i - n + 1));
            if i + 1 < s.len() {
                assert(s[i + 1] == p[i - n + 1]);
            }
            if i + 2 < s.len() {
                assert(s[i + 2] == p[i - n + 2]);
            }
            if i + 3 < s.len() {
                assert(s[i + 3] == p[i - n + 3]);
            }
        }
    }
}

} // verus!
