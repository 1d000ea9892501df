//! Each user sees only the part of the shared filesystem under their name.

use vstd::prelude::*;

use crate::bindings::{dav_path_accepts, dav_path_normal_url, dav_path_parse, ParsedDavPath};
use crate::davurl::{
    canonical_segment, canonical_url, display_form, lemma_canonical_under_segment, lemma_plain_under_segment,
    plain_segment, plain_url,
};
use crate::minio::keys::{law_scoped_urls_are_disjoint, object_name, scoped_url, scoped_url_of};
use crate::text::trim_start;
use crate::minio::FsErrorKind;
use crate::text::concat3;

verus! {

/// A filesystem seen through the directory of one user.
#[derive(Clone)]
pub struct UserScopedFs<F> {
    inner: F,
    user: String,
}

impl<F> UserScopedFs<F> {
    /// The filesystem the user's paths are mapped into.
    pub closed spec fn spec_inner(&self) -> F {
        self.inner
    }

    /// The user whose directory this is.
    pub closed spec fn spec_user(&self) -> Seq<char> {
        self.user@
    }

    /// `inner` seen through the directory of `user`.
    pub fn new(inner: F, user: String) -> (fs: Self)
        ensures
            fs.spec_inner() == inner,
            fs.spec_user() == user@,
    {
        UserScopedFs { inner, user }
    }

    /// The filesystem the user's paths are mapped into.
    pub fn inner(&self) -> (r: &F)
        ensures
            *r == self.spec_inner(),
    {
        &self.inner
    }

    /// The user whose directory this is.
    pub fn user(&self) -> (r: &str)
        ensures
            r@ == self.spec_user(),
    {
        self.user.as_str()
    }

    /// The path in the shared filesystem for the URL path `path_url` of this
    /// user: `/`, the user name, then the path, as parsed. A result that does
    /// not parse as a WebDAV path is a general failure. When the user name is
    /// one canonical segment and `path_url` is canonical (as the URL form of a
    /// parsed path is), the result is exactly `/`, the user name, then the path.
    pub fn scoped_path(&self, path_url: &str) -> (r: Result<ParsedDavPath, FsErrorKind>)
        ensures
            r is Ok <==> dav_path_accepts(scoped_url(self.spec_user(), path_url@)),
            r is Err ==> r == Err::<ParsedDavPath, FsErrorKind>(FsErrorKind::GeneralFailure),
            r matches Ok(q) ==> q.url_view() == dav_path_normal_url(scoped_url(self.spec_user(), path_url@)),
            canonical_segment(self.spec_user()) && canonical_url(path_url@) ==> (r matches Ok(q)
                && q.url_view() == scoped_url(self.spec_user(), path_url@)),
            plain_segment(self.spec_user()) && plain_url(path_url@) ==> (r matches Ok(q)
                && q.display_view() == display_form(scoped_url(self.spec_user(), path_url@))),
    {
        let scoped = scoped_url_of(self.user.as_str(), path_url);
        proof {
            if canonical_segment(self.spec_user()) && canonical_url(path_url@) {
                lemma_canonical_under_segment(self.spec_user(), path_url@);
            }
            if plain_segment(self.spec_user()) && plain_url(path_url@) {
                lemma_plain_under_segment(self.spec_user(), path_url@);
            }
        }
        match dav_path_parse(scoped.as_str()) {
            Some(p) => Ok(p),
            None => Err(FsErrorKind::GeneralFailure),
        }
    }
}

/// Users are kept apart: for two different users whose names are single
/// canonical segments, the parsed scoped paths of canonical URL paths never
/// coincide, and each lies inside its own user's directory `/user/`.
pub proof fn law_scoped_paths_are_isolated(
    q1: ParsedDavPath,
    u1: Seq<char>,
    p1: Seq<char>,
    q2: ParsedDavPath,
    u2: Seq<char>,
    p2: Seq<char>,
)
    requires
        canonical_segment(u1),
        canonical_segment(u2),
        u1 != u2,
        canonical_url(p1),
        canonical_url(p2),
        q1.url_view() == scoped_url(u1, p1),
        q2.url_view() == scoped_url(u2, p2),
    ensures
        q1.url_view() != q2.url_view(),
        q1.url_view().take(u1.len() as int + 2) == seq!['/'] + u1 + seq!['/'],
        q2.url_view().take(u2.len() as int + 2) == seq!['/'] + u2 + seq!['/'],
{
    law_scoped_urls_are_disjoint(u1, p1, u2, p2);
    assert(q1.url_view().take(u1.len() as int + 2) =~= seq!['/'] + u1 + seq!['/']);
    assert(q2.url_view().take(u2.len() as int + 2) =~= seq!['/'] + u2 + seq!['/']);
}

/// The object key that the shared filesystem derives from `user`'s URL path
/// `path`: the displayed scoped path without its leading slashes.
pub open spec fn store_key(user: Seq<char>, path: Seq<char>) -> Seq<char> {
    object_name(display_form(scoped_url(user, path)))
}

/// `key` is the directory `user` itself or lies inside it.
pub open spec fn in_user_dir(key: Seq<char>, user: Seq<char>) -> bool {
    key == user || (user.len() < key.len() && key.take(user.len() as int + 1) == user + seq!['/'])
}

/// The key of a plain path under a plain user name: the user name, followed
/// by the path less a trailing slash.
proof fn lemma_store_key_shape(u: Seq<char>, p: Seq<char>)
    requires
        plain_segment(u),
        plain_url(p),
    ensures
        store_key(u, p) == u || (store_key(u, p).len() > u.len() && store_key(u, p)[u.len() as int] == '/'),
        store_key(u, p).len() >= u.len(),
        store_key(u, p).take(u.len() as int) == u,
{
    let s = scoped_url(u, p);
    let d = display_form(s);
    let t = if p.len() > 1 && p.last() == '/' {
        p.drop_last()
    } else if p.len() == 1 {
        Seq::<char>::empty()
    } else {
        p
    };
    assert(s =~= seq!['/'] + u + p);
    if p.last() == '/' {
        assert(d =~= seq!['/'] + u + t);
    } else {
        assert(d =~= seq!['/'] + u + t);
    }
    assert(d[0] == '/');
    assert(d.drop_first() =~= u + t);
    assert(d.drop_first()[0] == u[0]);
    assert(trim_start(d.drop_first(), '/') == d.drop_first());
    assert(trim_start(d, '/') == trim_start(d.drop_first(), '/'));
    assert((u + t).take(u.len() as int) =~= u);
    if t.len() > 0 {
        assert((u + t)[u.len() as int] == t[0]);
        assert(t[0] == p[0]);
    } else {
        assert(u + t =~= u);
    }
}

/// Users are kept apart in the store: for two different users whose names
/// are plain segments, the object key of every plain path of the first lies
/// in the first user's directory, and no object key of the second does.
pub proof fn law_store_keys_are_isolated(u1: Seq<char>, p1: Seq<char>, u2: Seq<char>, p2: Seq<char>)
    requires
        plain_segment(u1),
        plain_segment(u2),
        u1 != u2,
        plain_url(p1),
        plain_url(p2),
    ensures
        in_user_dir(store_key(u1, p1), u1),
        !in_user_dir(store_key(u2, p2), u1),
{
    lemma_store_key_shape(u1, p1);
    lemma_store_key_shape(u2, p2);
    let k1 = store_key(u1, p1);
    let k2 = store_key(u2, p2);
    if k1 != u1 {
        assert(k1.take(u1.len() as int + 1) =~= k1.take(u1.len() as int).push(k1[u1.len() as int]));
        assert(k1.take(u1.len() as int + 1) =~= u1 + seq!['/']);
    }
    assert(k2.take(u2.len() as int) =~= u2);
    if k2 == u1 {
        if k2 == u2 {
        } else {
            assert(u1[u2.len() as int] == '/');
        }
    }
    if u1.len() < k2.len() && k2.take(u1.len() as int + 1) == u1 + seq!['/'] {
        assert(k2[u1.len() as int] == '/') by {
            assert(k2.take(u1.len() as int + 1)[u1.len() as int] == '/');
        }
        if u1.len() < u2.len() {
            assert(k2[u1.len() as int] == u2[u1.len() as int]);
        } else if u1.len() > u2.len() {
            assert(k2[u2.len() as int] == k2.take(u1.len() as int + 1)[u2.len() as int]);
            assert(k2.take(u1.len() as int + 1)[u2.len() as int] == u1[u2.len() as int]);
            if k2 == u2 {
            } else {
            }
        } else {
            assert forall|i: int| 0 <= i < u1.len() implies u1[i] == u2[i] by {
                assert(k2.take(u1.len() as int + 1)[i] == u1[i]);
                assert(k2.take(u2.len() as int)[i] == u2[i]);
            }
            assert(u1 =~= u2);
        }
    }
}

/// The request target that puts a request into the directory of `user`:
/// the scoped path, followed by the query when there is one.
pub open spec fn scoped_target(user: Seq<char>, path: Seq<char>, query: Option<Seq<char>>) -> Seq<char> {
    match query {
        Some(q) => scoped_url(user, path) + seq!['?'] + q,
        None => scoped_url(user, path),
    }
}

/// The request target for `user`'s request to `path` with `query`.
pub fn scoped_request_target(user: &str, path: &str, query: Option<&str>) -> (r: String)
    ensures
        r@ == scoped_target(user@, path@, match query {
            Some(q) => Some(q@),
            None => None,
        }),
{
    let base = scoped_url_of(user, path);
    match query {
        Some(q) => {
            let r = concat3(base.as_str(), "?", q);
            proof {
                reveal_strlit("?");
            }
            r
        },
        None => base,
    }
}

} // verus!
