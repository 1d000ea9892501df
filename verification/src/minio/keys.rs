//! How WebDAV paths become object keys, and which keys a listing hides.

use vstd::prelude::*;

use super::KEEP_FILE_NAME;
use crate::text::{
    lemma_trim_start_drops_only,
    concat2, concat3, ends_with, ends_with_str, lemma_replace_first_prefix, lemma_trim_start_idempotent,
    lemma_trim_start_shape, owned, replace_first, replace_first_str, str_eq, trim_start, trim_start_char,
};

verus! {

/// The object key for a path as it is displayed: the path without its
/// leading slashes.
pub open spec fn object_name(path: Seq<char>) -> Seq<char> {
    trim_start(path, '/')
}

/// The key of the marker object that makes `name` a directory.
pub open spec fn keep_key(name: Seq<char>) -> Seq<char> {
    if name.len() == 0 {
        KEEP_FILE_NAME@
    } else {
        name + seq!['/'] + KEEP_FILE_NAME@
    }
}

/// The prefix under which the children of directory `name` are listed.
pub open spec fn listing_prefix(name: Seq<char>) -> Seq<char> {
    if name.len() == 0 {
        name
    } else {
        name + seq!['/']
    }
}

/// `key` names a directory marker object.
pub open spec fn is_keep_key(key: Seq<char>) -> bool {
    key == KEEP_FILE_NAME@ || ends_with(key, seq!['/'] + KEEP_FILE_NAME@)
}

/// `key` names the listed directory itself rather than one of its children.
pub open spec fn is_listing_self(key: Seq<char>, prefix: Seq<char>) -> bool {
    key == prefix || key == prefix + seq!['/']
}

/// The `bucket/key` form that names the source of a server-side copy.
pub open spec fn copy_source(bucket: Seq<char>, key: Seq<char>) -> Seq<char> {
    bucket + seq!['/'] + key
}

/// The path seen by the shared filesystem for `user`'s URL path `path`.
pub open spec fn scoped_url(user: Seq<char>, path: Seq<char>) -> Seq<char> {
    seq!['/'] + user + path
}

/// The object key for a displayed path (leading slashes removed).
pub fn get_path(path: &str) -> (name: String)
    ensures
        name@ == object_name(path@),
{
    trim_start_char(path, '/')
}

/// The key of the directory removed for a displayed path; the key is
/// trimmed of leading slashes a second time, which changes nothing.
pub fn remove_dir_name(path: &str) -> (name: String)
    ensures
        name@ == object_name(path@),
{
    let once = get_path(path);
    let twice = trim_start_char(once.as_str(), '/');
    proof {
        law_object_name_idempotent(path@);
    }
    twice
}

/// The key of the directory marker for `name`.
pub fn keep_path(name: &str) -> (key: String)
    ensures
        key@ == keep_key(name@),
{
    if name.is_empty() {
        owned(KEEP_FILE_NAME)
    } else {
        let key = concat3(name, "/", KEEP_FILE_NAME);
        proof {
            reveal_strlit("/");
        }
        key
    }
}

/// The prefix under which the children of `name` are listed.
pub fn listing_prefix_of(name: &str) -> (prefix: String)
    ensures
        prefix@ == listing_prefix(name@),
{
    if name.is_empty() {
        owned(name)
    } else {
        let prefix = concat2(name, "/");
        proof {
            reveal_strlit("/");
        }
        prefix
    }
}

/// Whether `key` is a directory marker.
pub fn is_keep_object(key: &str) -> (r: bool)
    ensures
        r == is_keep_key(key@),
{
    if str_eq(key, KEEP_FILE_NAME) {
        return true;
    }
    let suffix = concat2("/", KEEP_FILE_NAME);
    proof {
        reveal_strlit("/");
        assert(suffix@ =~= seq!['/'] + KEEP_FILE_NAME@);
    }
    ends_with_str(key, suffix.as_str())
}

/// Whether `key` is the listed directory `prefix` itself.
pub fn is_listing_self_key(key: &str, prefix: &str) -> (r: bool)
    ensures
        r == is_listing_self(key@, prefix@),
{
    if str_eq(key, prefix) {
        return true;
    }
    let with_slash = concat2(prefix, "/");
    proof {
        reveal_strlit("/");
        assert(with_slash@ =~= prefix@ + seq!['/']);
    }
    str_eq(key, with_slash.as_str())
}

/// The source argument of a server-side copy of `key` within `bucket`.
pub fn copy_source_of(bucket: &str, key: &str) -> (r: String)
    ensures
        r@ == copy_source(bucket@, key@),
{
    let r = concat3(bucket, "/", key);
    proof {
        reveal_strlit("/");
    }
    r
}

/// The key that `key` takes when the tree at `from` moves to `to`: the first
/// occurrence of `from` in `key` is replaced by `to`.
pub fn renamed_key(key: &str, from: &str, to: &str) -> (r: String)
    ensures
        r@ == replace_first(key@, from@, to@),
{
    replace_first_str(key, from, to)
}

/// The path that `user`'s URL path `path` has in the shared filesystem.
pub fn scoped_url_of(user: &str, path: &str) -> (r: String)
    ensures
        r@ == scoped_url(user@, path@),
{
    let r = concat3("/", user, path);
    proof {
        reveal_strlit("/");
    }
    r
}

// ---------------------------------------------------------------------------
// Laws
// ---------------------------------------------------------------------------

/// An object key derived from a path never begins with a slash.
pub proof fn law_object_name_has_no_leading_slash(path: Seq<char>)
    ensures
        object_name(path).len() == 0 || object_name(path)[0] != '/',
{
    lemma_trim_start_shape(path, '/');
}

/// An object key is the path with its leading slashes removed and nothing
/// else: the path is a run of slashes followed by the key.
pub proof fn law_object_name_strips_only_leading_slashes(path: Seq<char>)
    ensures
        object_name(path).len() <= path.len(),
        path.skip(path.len() - object_name(path).len()) == object_name(path),
        forall|i: int| 0 <= i < path.len() - object_name(path).len() ==> path[i] == '/',
{
    lemma_trim_start_shape(path, '/');
    lemma_trim_start_drops_only(path, '/');
}

/// A key is a directory marker exactly when it is `.mindavkeep` or ends with
/// `/.mindavkeep`.
pub proof fn law_keep_key_recognised(key: Seq<char>)
    ensures
        is_keep_key(key) <==> (key == seq!['.', 'm', 'i', 'n', 'd', 'a', 'v', 'k', 'e', 'e', 'p'] || (key.len()
            >= 12 && key.skip(key.len() - 12) == seq!['/', '.', 'm', 'i', 'n', 'd', 'a', 'v', 'k', 'e', 'e', 'p'])),
{
    reveal_strlit(".mindavkeep");
    assert(KEEP_FILE_NAME@ =~= seq!['.', 'm', 'i', 'n', 'd', 'a', 'v', 'k', 'e', 'e', 'p']);
    let suffix = seq!['/'] + KEEP_FILE_NAME@;
    assert(suffix =~= seq!['/', '.', 'm', 'i', 'n', 'd', 'a', 'v', 'k', 'e', 'e', 'p']);
    if key.len() >= 12 {
        assert(key.subrange(key.len() - 12, key.len() as int) =~= key.skip(key.len() - 12));
    }
}

/// Deriving the object key twice gives the same key as deriving it once, so
/// the second trim made when removing a directory changes nothing.
pub proof fn law_object_name_idempotent(path: Seq<char>)
    ensures
        object_name(object_name(path)) == object_name(path),
{
    lemma_trim_start_idempotent(path, '/');
}

/// The marker object of every directory is one that listings hide.
pub proof fn law_keep_key_is_hidden(name: Seq<char>)
    ensures
        is_keep_key(keep_key(name)),
{
    if name.len() > 0 {
        let k = keep_key(name);
        let suffix = seq!['/'] + KEEP_FILE_NAME@;
        assert(k =~= name + suffix);
        assert(k.subrange(k.len() - suffix.len(), k.len() as int) =~= suffix);
    }
}

/// The children of a directory are listed under its whole name followed by
/// a slash; the root's children under the empty prefix.
pub proof fn law_listing_prefix_is_whole_name(name: Seq<char>)
    ensures
        name.len() == 0 ==> listing_prefix(name).len() == 0,
        name.len() > 0 ==> listing_prefix(name).len() == name.len() + 1 && listing_prefix(name).take(
            name.len() as int,
        ) == name && listing_prefix(name)[name.len() as int] == '/',
{
    if name.len() > 0 {
        assert(listing_prefix(name).take(name.len() as int) =~= name);
    }
}

/// The marker of a directory is its whole name, a slash and `.mindavkeep`;
/// the root's marker is `.mindavkeep` itself.
pub proof fn law_keep_key_extends_name(name: Seq<char>)
    ensures
        name.len() == 0 ==> keep_key(name) == seq!['.', 'm', 'i', 'n', 'd', 'a', 'v', 'k', 'e', 'e', 'p'],
        name.len() > 0 ==> keep_key(name).len() == name.len() + 12 && keep_key(name).take(name.len() as int)
            == name && keep_key(name).skip(name.len() as int) == seq![
            '/',
            '.',
            'm',
            'i',
            'n',
            'd',
            'a',
            'v',
            'k',
            'e',
            'e',
            'p',
        ],
{
    reveal_strlit(".mindavkeep");
    assert(KEEP_FILE_NAME@ =~= seq!['.', 'm', 'i', 'n', 'd', 'a', 'v', 'k', 'e', 'e', 'p']);
    if name.len() > 0 {
        let k = keep_key(name);
        assert(k.take(name.len() as int) =~= name);
        assert(k.skip(name.len() as int) =~= seq!['/', '.', 'm', 'i', 'n', 'd', 'a', 'v', 'k', 'e', 'e', 'p']);
    }
}

/// A copy names its source by the bucket, a slash and the whole key.
pub proof fn law_copy_source_keeps_whole_key(bucket: Seq<char>, key: Seq<char>)
    ensures
        copy_source(bucket, key).len() == bucket.len() + key.len() + 1,
        copy_source(bucket, key).take(bucket.len() as int) == bucket,
        copy_source(bucket, key)[bucket.len() as int] == '/',
        copy_source(bucket, key).skip(bucket.len() as int + 1) == key,
{
    let s = copy_source(bucket, key);
    assert(s.take(bucket.len() as int) =~= bucket);
    assert(s.skip(bucket.len() as int + 1) =~= key);
}

/// Moving a tree re-roots every key under it: a key that begins with `from`
/// becomes `to` followed by the rest of the key.
pub proof fn law_renamed_key_reroots(key: Seq<char>, from: Seq<char>, to: Seq<char>)
    requires
        from.len() <= key.len(),
        key.take(from.len() as int) == from,
    ensures
        replace_first(key, from, to) == to + key.skip(from.len() as int),
{
    lemma_replace_first_prefix(key, from, to);
}

/// Users whose names hold no slash see disjoint parts of the shared
/// filesystem: no path of one user maps into the directory of another.
pub proof fn law_scoped_urls_are_disjoint(u1: Seq<char>, p1: Seq<char>, u2: Seq<char>, p2: Seq<char>)
    requires
        u1 != u2,
        forall|i: int| 0 <= i < u1.len() ==> u1[i] != '/',
        forall|i: int| 0 <= i < u2.len() ==> u2[i] != '/',
        p1.len() > 0 && p1[0] == '/',
        p2.len() > 0 && p2[0] == '/',
    ensures
        scoped_url(u1, p1) != scoped_url(u2, p2),
{
    let a = scoped_url(u1, p1);
    let b = scoped_url(u2, p2);
    if a == b {
        if u1.len() == u2.len() {
            assert forall|i: int| 0 <= i < u1.len() implies u1[i] == u2[i] by {
                assert(a[i + 1] == u1[i]);
                assert(b[i + 1] == u2[i]);
            }
            assert(u1 =~= u2);
        } else if u1.len() < u2.len() {
            assert(a[u1.len() as int + 1] == '/');
            assert(b[u1.len() as int + 1] == u2[u1.len() as int]);
        } else {
            assert(b[u2.len() as int + 1] == '/');
            assert(a[u2.len() as int + 1] == u1[u2.len() as int]);
        }
    }
}

} // verus!
