//! Paged listings of the store, driven one page at a time.
//!
//! The store returns a listing in pages. Each listing here is a state machine:
//! `next_request` says which page to ask for (or that the listing is over),
//! and `on_page` / `on_error` take what the store answered.

use std::time::SystemTime;

use vstd::prelude::*;

use super::dir::MinioDirEntry;
use super::fileinfo::{reported_size, stamp_or};
use super::FsErrorKind;
use super::keys::{is_keep_key, is_keep_object, is_listing_self, is_listing_self_key, listing_prefix, listing_prefix_of};
use crate::text::owned;

verus! {

/// One object of a listing page, as plain values.
#[derive(Debug)]
pub struct ObjectSummary {
    pub key: Option<String>,
    pub size: Option<i64>,
    pub last_modified: Option<SystemTime>,
}

/// One page of a listing.
#[derive(Debug)]
pub struct ListPage {
    /// The sub-directories found (only when a delimiter was given).
    pub common_prefixes: Vec<Option<String>>,
    pub contents: Vec<ObjectSummary>,
    pub is_truncated: Option<bool>,
    pub next_continuation_token: Option<String>,
}

/// The page to ask the store for next.
#[derive(Debug)]
pub struct ListRequest {
    pub prefix: String,
    pub delimiter: Option<String>,
    pub continuation_token: Option<String>,
}

/// The view of an optional string.
pub open spec fn opt_view(s: Option<String>) -> Option<Seq<char>> {
    match s {
        Some(t) => Some(t@),
        None => None,
    }
}

/// The key of a listed object, or the empty key when the store gave none.
pub open spec fn key_or_empty(o: ObjectSummary) -> Seq<char> {
    match o.key {
        Some(k) => k@,
        None => Seq::empty(),
    }
}

/// Whether the store said there are more pages.
pub open spec fn more_pages(page: ListPage) -> bool {
    page.is_truncated == Some(true)
}

fn clone_opt_string(s: &Option<String>) -> (r: Option<String>)
    ensures
        r == *s,
{
    match s {
        Some(t) => Some(t.clone()),
        None => None,
    }
}

// ---------------------------------------------------------------------------
// Listing every object under a prefix
// ---------------------------------------------------------------------------

/// Collects every object whose key begins with a prefix, page by page.
#[derive(Debug)]
pub struct ObjectListing {
    prefix: String,
    objects: Vec<ObjectSummary>,
    token: Option<String>,
    done: bool,
}

/// The abstract state of an object listing.
pub struct ObjectListingView {
    pub prefix: Seq<char>,
    pub objects: Seq<ObjectSummary>,
    pub token: Option<Seq<char>>,
    pub done: bool,
}

impl View for ObjectListing {
    type V = ObjectListingView;

    closed spec fn view(&self) -> ObjectListingView {
        ObjectListingView {
            prefix: self.prefix@,
            objects: self.objects@,
            token: opt_view(self.token),
            done: self.done,
        }
    }
}

/// The state of an object listing after the store answered with `page`.
pub open spec fn objects_after_page(v: ObjectListingView, page: ListPage) -> ObjectListingView {
    ObjectListingView {
        prefix: v.prefix,
        objects: v.objects + page.contents@,
        token: if more_pages(page) {
            opt_view(page.next_continuation_token)
        } else {
            v.token
        },
        done: !more_pages(page),
    }
}

/// The state of an object listing after every page of `pages` was taken in order.
pub open spec fn objects_after_pages(v: ObjectListingView, pages: Seq<ListPage>) -> ObjectListingView
    decreases pages.len(),
{
    if pages.len() == 0 {
        v
    } else {
        objects_after_page(objects_after_pages(v, pages.drop_last()), pages.last())
    }
}

/// The objects of every page, in order.
pub open spec fn all_contents(pages: Seq<ListPage>) -> Seq<ObjectSummary>
    decreases pages.len(),
{
    if pages.len() == 0 {
        Seq::empty()
    } else {
        all_contents(pages.drop_last()) + pages.last().contents@
    }
}

impl ObjectListing {
    /// A listing of every object whose key begins with `prefix`.
    pub fn new(prefix: String) -> (l: ObjectListing)
        ensures
            l@ == (ObjectListingView { prefix: prefix@, objects: Seq::empty(), token: None, done: false }),
    {
        ObjectListing { prefix, objects: Vec::new(), token: None, done: false }
    }

    /// The page to ask for next, or `None` once the listing is over.
    pub fn next_request(&self) -> (r: Option<ListRequest>)
        ensures
            self@.done ==> r is None,
            !self@.done ==> (r matches Some(q) && q.prefix@ == self@.prefix && q.delimiter is None
                && opt_view(q.continuation_token) == self@.token),
    {
        if self.done {
            None
        } else {
            Some(
                ListRequest {
                    prefix: self.prefix.clone(),
                    delimiter: None,
                    continuation_token: clone_opt_string(&self.token),
                },
            )
        }
    }

    /// Takes a page: its objects are kept, and the listing goes on only while
    /// the store reports more pages, from the token it gave.
    pub fn on_page(&mut self, page: ListPage)
        ensures
            final(self)@ == objects_after_page(old(self)@, page),
    {
        let ListPage { common_prefixes: _, contents, is_truncated, next_continuation_token } = page;
        let mut contents = contents;
        self.objects.append(&mut contents);
        let more = match is_truncated {
            Some(b) => b,
            None => false,
        };
        if more {
            self.token = next_continuation_token;
        }
        self.done = !more;
    }

    /// A failed request ends the listing with what was collected so far.
    pub fn on_error(&mut self)
        ensures
            final(self)@ == (ObjectListingView { done: true, ..old(self)@ }),
    {
        self.done = true;
    }

    /// Whether the listing is over.
    pub fn is_done(&self) -> (b: bool)
        ensures
            b == self@.done,
    {
        self.done
    }

    /// The objects collected.
    pub fn into_objects(self) -> (objects: Vec<ObjectSummary>)
        ensures
            objects@ == self@.objects,
    {
        self.objects
    }
}

/// Taking pages one after another collects the objects of all of them, in
/// the order the store returned them.
pub proof fn law_listing_collects_all_pages(v: ObjectListingView, pages: Seq<ListPage>)
    ensures
        objects_after_pages(v, pages).objects == v.objects + all_contents(pages),
        objects_after_pages(v, pages).prefix == v.prefix,
    decreases pages.len(),
{
    if pages.len() == 0 {
        assert(v.objects + Seq::<ObjectSummary>::empty() =~= v.objects);
    } else {
        law_listing_collects_all_pages(v, pages.drop_last());
        assert(v.objects + all_contents(pages.drop_last()) + pages.last().contents@ =~= v.objects
            + all_contents(pages));
    }
}

// ---------------------------------------------------------------------------
// Listing the children of a directory
// ---------------------------------------------------------------------------

/// What an entry of a directory listing holds.
pub struct EntryModel {
    pub key: Seq<char>,
    pub size: u64,
    pub last_modified: SystemTime,
    pub is_dir: bool,
}

/// `e` is the entry that `m` describes.
pub open spec fn entry_fits(e: MinioDirEntry, m: EntryModel) -> bool {
    &&& e.key@ == m.key
    &&& e.size == m.size
    &&& e.is_dir == m.is_dir
    &&& e.last_modified == m.last_modified
}

/// The sub-directory entries for the common prefixes of a page, stamped
/// with the time of the listing.
pub open spec fn prefix_entries(prefixes: Seq<Option<String>>, now: SystemTime) -> Seq<EntryModel>
    decreases prefixes.len(),
{
    if prefixes.len() == 0 {
        Seq::empty()
    } else {
        prefix_entries(prefixes.drop_last(), now) + match prefixes.last() {
            Some(k) => seq![EntryModel { key: k@, size: 0, last_modified: now, is_dir: true }],
            None => Seq::empty(),
        }
    }
}

/// The file entry for an object, or none when the object is a directory
/// marker or the listed directory itself; an object without a time is
/// stamped with the time of the listing.
pub open spec fn object_entry(o: ObjectSummary, prefix: Seq<char>, now: SystemTime) -> Seq<EntryModel> {
    let k = key_or_empty(o);
    if is_keep_key(k) || is_listing_self(k, prefix) {
        Seq::empty()
    } else {
        seq![
            EntryModel {
                key: k,
                size: reported_size(o.size),
                last_modified: stamp_or(o.last_modified, now),
                is_dir: false,
            },
        ]
    }
}

/// The file entries for the objects of a page.
pub open spec fn object_entries(objects: Seq<ObjectSummary>, prefix: Seq<char>, now: SystemTime) -> Seq<
    EntryModel,
>
    decreases objects.len(),
{
    if objects.len() == 0 {
        Seq::empty()
    } else {
        object_entries(objects.drop_last(), prefix, now) + object_entry(objects.last(), prefix, now)
    }
}

/// The entries a page contributes: sub-directories first, then files.
pub open spec fn page_entries(page: ListPage, prefix: Seq<char>, now: SystemTime) -> Seq<EntryModel> {
    prefix_entries(page.common_prefixes@, now) + object_entries(page.contents@, prefix, now)
}

/// Collects the children of a directory, page by page.
#[derive(Debug)]
pub struct DirListing {
    prefix: String,
    entries: Vec<MinioDirEntry>,
    token: Option<String>,
    done: bool,
}

/// The abstract state of a directory listing.
pub struct DirListingView {
    pub prefix: Seq<char>,
    pub entries: Seq<MinioDirEntry>,
    pub token: Option<Seq<char>>,
    pub done: bool,
}

impl View for DirListing {
    type V = DirListingView;

    closed spec fn view(&self) -> DirListingView {
        DirListingView {
            prefix: self.prefix@,
            entries: self.entries@,
            token: opt_view(self.token),
            done: self.done,
        }
    }
}

/// `entries` extends `old` by entries that fit `models`, in order.
pub open spec fn extends_with(entries: Seq<MinioDirEntry>, old: Seq<MinioDirEntry>, models: Seq<EntryModel>) -> bool {
    &&& entries.len() == old.len() + models.len()
    &&& entries.subrange(0, old.len() as int) == old
    &&& forall|i: int| 0 <= i < models.len() ==> entry_fits(#[trigger] entries[old.len() + i], models[i])
}

impl DirListing {
    /// A listing of the children of the directory `name`.
    pub fn new(name: &str) -> (l: DirListing)
        ensures
            l@ == (DirListingView {
                prefix: listing_prefix(name@),
                entries: Seq::empty(),
                token: None,
                done: false,
            }),
    {
        DirListing { prefix: listing_prefix_of(name), entries: Vec::new(), token: None, done: false }
    }

    /// The page to ask for next, or `None` once the listing is over. Pages are
    /// asked for with `/` as delimiter, so that sub-directories come back as
    /// common prefixes.
    pub fn next_request(&self) -> (r: Option<ListRequest>)
        ensures
            self@.done ==> r is None,
            !self@.done ==> (r matches Some(q) && q.prefix@ == self@.prefix && opt_view(q.delimiter)
                == Some(seq!['/']) && opt_view(q.continuation_token) == self@.token),
    {
        if self.done {
            None
        } else {
            let d = owned("/");
            proof {
                reveal_strlit("/");
            }
            Some(
                ListRequest {
                    prefix: self.prefix.clone(),
                    delimiter: Some(d),
                    continuation_token: clone_opt_string(&self.token),
                },
            )
        }
    }

    fn push_prefixes(&mut self, prefixes: &Vec<Option<String>>, now: SystemTime)
        ensures
            extends_with(final(self).entries@, old(self).entries@, prefix_entries(prefixes@, now)),
            final(self).prefix == old(self).prefix,
            final(self).token == old(self).token,
            final(self).done == old(self).done,
    {
        let ghost start = self.entries@;
        let mut i: usize = 0;
        assert(prefix_entries(prefixes@.take(0), now) =~= Seq::<EntryModel>::empty());
        assert(self.entries@.subrange(0, start.len() as int) =~= start);
        while i < prefixes.len()
            invariant
                i <= prefixes@.len(),
                extends_with(self.entries@, start, prefix_entries(prefixes@.take(i as int), now)),
                self.prefix == old(self).prefix,
                self.token == old(self).token,
                self.done == old(self).done,
                start == old(self).entries@,
            decreases prefixes@.len() - i,
        {
            let ghost before = self.entries@;
            proof {
                assert(prefixes@.take(i + 1).drop_last() =~= prefixes@.take(i as int));
            }
            match &prefixes[i] {
                Some(k) => {
                    self.entries.push(
                        MinioDirEntry { key: k.clone(), size: 0, last_modified: now, is_dir: true },
                    );
                },
                None => {},
            }
            proof {
                let models = prefix_entries(prefixes@.take(i + 1), now);
                assert(self.entries@.subrange(0, start.len() as int) =~= start) by {
                    assert(before.subrange(0, start.len() as int) =~= start);
                }
                assert forall|j: int| 0 <= j < models.len() implies entry_fits(
                    #[trigger] self.entries@[start.len() + j],
                    models[j],
                ) by {
                    if j < prefix_entries(prefixes@.take(i as int), now).len() {
                        assert(self.entries@[start.len() + j] == before[start.len() + j]);
                    }
                }
            }
            i = i + 1;
        }
        assert(prefixes@.take(prefixes@.len() as int) =~= prefixes@);
    }

    fn push_objects(&mut self, objects: &Vec<ObjectSummary>, now: SystemTime)
        ensures
            extends_with(final(self).entries@, old(self).entries@, object_entries(objects@, old(self).prefix@, now)),
            final(self).prefix == old(self).prefix,
            final(self).token == old(self).token,
            final(self).done == old(self).done,
    {
        let ghost start = self.entries@;
        let mut i: usize = 0;
        assert(object_entries(objects@.take(0), self.prefix@, now) =~= Seq::<EntryModel>::empty());
        assert(self.entries@.subrange(0, start.len() as int) =~= start);
        while i < objects.len()
            invariant
                i <= objects@.len(),
                extends_with(self.entries@, start, object_entries(objects@.take(i as int), self.prefix@, now)),
                self.prefix == old(self).prefix,
                self.token == old(self).token,
                self.done == old(self).done,
                start == old(self).entries@,
            decreases objects@.len() - i,
        {
            let ghost before = self.entries@;
            proof {
                assert(objects@.take(i + 1).drop_last() =~= objects@.take(i as int));
            }
            let o = &objects[i];
            let k = match &o.key {
                Some(k) => k.clone(),
                None => String::new(),
            };
            if !is_keep_object(k.as_str()) && !is_listing_self_key(k.as_str(), self.prefix.as_str()) {
                let size: u64 = match o.size {
                    Some(n) => n as u64,
                    None => 0,
                };
                let last_modified = match o.last_modified {
                    Some(t) => t,
                    None => now,
                };
                self.entries.push(MinioDirEntry { key: k, size, last_modified, is_dir: false });
            }
            proof {
                let models = object_entries(objects@.take(i + 1), self.prefix@, now);
                assert(self.entries@.subrange(0, start.len() as int) =~= start) by {
                    assert(before.subrange(0, start.len() as int) =~= start);
                }
                assert forall|j: int| 0 <= j < models.len() implies entry_fits(
                    #[trigger] self.entries@[start.len() + j],
                    models[j],
                ) by {
                    if j < object_entries(objects@.take(i as int), self.prefix@, now).len() {
                        assert(self.entries@[start.len() + j] == before[start.len() + j]);
                    }
                }
            }
            i = i + 1;
        }
        assert(objects@.take(objects@.len() as int) =~= objects@);
    }

    /// Takes a page, answered at time `now`: its sub-directories and then its
    /// objects become entries, skipping directory markers and the listed
    /// directory itself (entries without a time are stamped `now`); the listing
    /// goes on only while the store reports more pages, from the token it gave.
    pub fn on_page(&mut self, page: ListPage, now: SystemTime)
        ensures
            extends_with(final(self)@.entries, old(self)@.entries, page_entries(page, old(self)@.prefix, now)),
            final(self)@.prefix == old(self)@.prefix,
            final(self)@.done == !more_pages(page),
            final(self)@.token == if more_pages(page) {
                opt_view(page.next_continuation_token)
            } else {
                old(self)@.token
            },
    {
        let ghost e0 = self.entries@;
        self.push_prefixes(&page.common_prefixes, now);
        let ghost e1 = self.entries@;
        self.push_objects(&page.contents, now);
        proof {
            law_entries_accumulate(
                e0,
                e1,
                self.entries@,
                prefix_entries(page.common_prefixes@, now),
                object_entries(page.contents@, self.prefix@, now),
            );
        }
        let more = match page.is_truncated {
            Some(b) => b,
            None => false,
        };
        if more {
            self.token = page.next_continuation_token;
        }
        self.done = !more;
    }

    /// A failed request ends the listing with what was collected so far.
    pub fn on_error(&mut self)
        ensures
            final(self)@ == (DirListingView { done: true, ..old(self)@ }),
    {
        self.done = true;
    }

    /// Whether the listing is over.
    pub fn is_done(&self) -> (b: bool)
        ensures
            b == self@.done,
    {
        self.done
    }

    /// The answer of reading the directory: the entries collected, in order.
    /// Reading a directory never fails, also when a listing request failed or
    /// the directory does not exist (its listing is then empty).
    pub fn finish(self) -> (r: Result<Vec<MinioDirEntry>, FsErrorKind>)
        ensures
            r matches Ok(entries) && entries@ == self@.entries,
    {
        Ok(self.entries)
    }

    /// The entries collected.
    pub fn into_entries(self) -> (entries: Vec<MinioDirEntry>)
        ensures
            entries@ == self@.entries,
    {
        self.entries
    }
}

/// Entries gathered over successive pages line up with the pages' models,
/// in order: a listing taken page by page yields the entries of every page.
pub proof fn law_entries_accumulate(
    e0: Seq<MinioDirEntry>,
    e1: Seq<MinioDirEntry>,
    e2: Seq<MinioDirEntry>,
    m1: Seq<EntryModel>,
    m2: Seq<EntryModel>,
)
    requires
        extends_with(e1, e0, m1),
        extends_with(e2, e1, m2),
    ensures
        extends_with(e2, e0, m1 + m2),
{
    assert(e2.subrange(0, e0.len() as int) =~= e0) by {
        assert(e2.subrange(0, e0.len() as int) =~= e1.subrange(0, e0.len() as int));
    }
    assert forall|i: int| 0 <= i < (m1 + m2).len() implies entry_fits(#[trigger] e2[e0.len() + i], (m1 + m2)[i]) by {
        if i < m1.len() {
            assert(e2[e0.len() + i] == e1[e0.len() + i]);
        } else {
            assert(e2[e1.len() + (i - m1.len())] == e2[e0.len() + i]);
        }
    }
}

/// No file entry of a listing is a directory marker or the listed directory
/// itself, and every file entry comes from an object of the page.
pub proof fn law_listing_hides_markers_and_self(objects: Seq<ObjectSummary>, prefix: Seq<char>, now: SystemTime)
    ensures
        forall|i: int|
            0 <= i < object_entries(objects, prefix, now).len() ==> {
                let m = #[trigger] object_entries(objects, prefix, now)[i];
                &&& !m.is_dir
                &&& !is_keep_key(m.key)
                &&& !is_listing_self(m.key, prefix)
            },
    decreases objects.len(),
{
    if objects.len() > 0 {
        law_listing_hides_markers_and_self(objects.drop_last(), prefix, now);
        let head = object_entries(objects.drop_last(), prefix, now);
        assert forall|i: int| 0 <= i < object_entries(objects, prefix, now).len() implies {
            let m = #[trigger] object_entries(objects, prefix, now)[i];
            &&& !m.is_dir
            &&& !is_keep_key(m.key)
            &&& !is_listing_self(m.key, prefix)
        } by {
            if i < head.len() {
                assert(object_entries(objects, prefix, now)[i] == head[i]);
            }
        }
    }
}

/// The key of a listed object.
pub open spec fn object_key() -> spec_fn(ObjectSummary) -> Seq<char> {
    |o: ObjectSummary| key_or_empty(o)
}

/// The key of an entry.
pub open spec fn model_key() -> spec_fn(EntryModel) -> Seq<char> {
    |m: EntryModel| m.key
}

/// A key that a listing of `prefix` shows: neither a directory marker nor the
/// listed directory itself.
pub open spec fn shown_in(prefix: Seq<char>) -> spec_fn(Seq<char>) -> bool {
    |k: Seq<char>| !is_keep_key(k) && !is_listing_self(k, prefix)
}

/// A listing is complete and in order: the keys of its file entries are
/// exactly the keys of the page's objects that are neither directory markers
/// nor the listed directory, whatever their sizes; and each entry is a file
/// with the reported size of an object of that key.
pub proof fn law_listing_shows_every_object(objects: Seq<ObjectSummary>, prefix: Seq<char>, now: SystemTime)
    ensures
        object_entries(objects, prefix, now).map_values(model_key()) == objects.map_values(object_key()).filter(
            shown_in(prefix),
        ),
        forall|j: int|
            0 <= j < object_entries(objects, prefix, now).len() ==> {
                let m = #[trigger] object_entries(objects, prefix, now)[j];
                &&& !m.is_dir
                &&& exists|i: int|
                    0 <= i < objects.len() && key_or_empty(#[trigger] objects[i]) == m.key && m.size
                        == reported_size(objects[i].size)
            },
    decreases objects.len(),
{
    broadcast use Seq::lemma_filter_push, Seq::lemma_push_map_commute;

    if objects.len() == 0 {
        assert(objects.map_values(object_key()) =~= Seq::<Seq<char>>::empty());
        assert(Seq::<Seq<char>>::empty().filter(shown_in(prefix)) =~= Seq::<Seq<char>>::empty()) by {
            reveal(Seq::filter);
        }
        assert(object_entries(objects, prefix, now).map_values(model_key()) =~= Seq::<Seq<char>>::empty());
    } else {
        let init = objects.drop_last();
        let last = objects.last();
        law_listing_shows_every_object(init, prefix, now);
        assert(init.push(last) =~= objects);
        let head = object_entries(init, prefix, now);
        let all = object_entries(objects, prefix, now);
        assert(objects.map_values(object_key()) =~= init.map_values(object_key()).push(key_or_empty(last)));
        if shown_in(prefix)(key_or_empty(last)) {
            let m = object_entry(last, prefix, now)[0];
            assert(all =~= head.push(m));
            assert(all.map_values(model_key()) =~= head.map_values(model_key()).push(m.key));
        } else {
            assert(all =~= head);
        }
        assert forall|j: int| 0 <= j < all.len() implies {
            let m = #[trigger] all[j];
            &&& !m.is_dir
            &&& exists|i: int|
                0 <= i < objects.len() && key_or_empty(#[trigger] objects[i]) == m.key && m.size == reported_size(
                    objects[i].size,
                )
        } by {
            if j < head.len() {
                assert(all[j] == head[j]);
                let i = choose|i: int|
                    0 <= i < init.len() && key_or_empty(#[trigger] init[i]) == head[j].key && head[j].size
                        == reported_size(init[i].size);
                assert(objects[i] == init[i]);
            } else {
                assert(objects[objects.len() - 1] == last);
            }
        }
    }
}

/// Whether a common prefix was given.
pub open spec fn prefix_given() -> spec_fn(Option<String>) -> bool {
    |o: Option<String>| o is Some
}

/// The view of a given common prefix.
pub open spec fn prefix_view() -> spec_fn(Option<String>) -> Seq<char> {
    |o: Option<String>| o->0@
}

/// Every sub-directory the store reports becomes an entry, in order: the
/// keys of the directory entries are exactly the common prefixes given, and
/// each entry is a directory of size 0 stamped with the time of the listing.
pub proof fn law_listing_shows_every_subdirectory(prefixes: Seq<Option<String>>, now: SystemTime)
    ensures
        prefix_entries(prefixes, now).map_values(model_key()) == prefixes.filter(prefix_given()).map_values(
            prefix_view(),
        ),
        forall|j: int|
            0 <= j < prefix_entries(prefixes, now).len() ==> (#[trigger] prefix_entries(prefixes, now)[j]).is_dir
                && prefix_entries(prefixes, now)[j].size == 0 && prefix_entries(prefixes, now)[j].last_modified
                == now,
    decreases prefixes.len(),
{
    broadcast use Seq::lemma_filter_push, Seq::lemma_push_map_commute;

    if prefixes.len() == 0 {
        assert(prefixes.filter(prefix_given()) =~= Seq::<Option<String>>::empty()) by {
            reveal(Seq::filter);
        }
        assert(prefix_entries(prefixes, now).map_values(model_key()) =~= Seq::<Seq<char>>::empty());
        assert(prefixes.filter(prefix_given()).map_values(prefix_view()) =~= Seq::<Seq<char>>::empty());
    } else {
        let init = prefixes.drop_last();
        let last = prefixes.last();
        law_listing_shows_every_subdirectory(init, now);
        assert(init.push(last) =~= prefixes);
        let head = prefix_entries(init, now);
        let all = prefix_entries(prefixes, now);
        match last {
            Some(k) => {
                let m = EntryModel { key: k@, size: 0, last_modified: now, is_dir: true };
                assert(all =~= head.push(m));
                assert(all.map_values(model_key()) =~= head.map_values(model_key()).push(k@));
                assert(prefixes.filter(prefix_given()) =~= init.filter(prefix_given()).push(last));
                assert(prefixes.filter(prefix_given()).map_values(prefix_view()) =~= init.filter(
                    prefix_given(),
                ).map_values(prefix_view()).push(k@));
            },
            None => {
                assert(all =~= head);
                assert(prefixes.filter(prefix_given()) =~= init.filter(prefix_given()));
            },
        }
        assert forall|j: int| 0 <= j < all.len() implies (#[trigger] all[j]).is_dir && all[j].size == 0
            && all[j].last_modified == now by {
            if j < head.len() {
                assert(all[j] == head[j]);
            }
        }
    }
}

/// Every entry made from a common prefix is a directory of size 0.
pub proof fn law_prefix_entries_are_dirs(prefixes: Seq<Option<String>>, now: SystemTime)
    ensures
        forall|i: int|
            0 <= i < prefix_entries(prefixes, now).len() ==> (#[trigger] prefix_entries(prefixes, now)[i]).is_dir
                && prefix_entries(prefixes, now)[i].size == 0,
    decreases prefixes.len(),
{
    if prefixes.len() > 0 {
        law_prefix_entries_are_dirs(prefixes.drop_last(), now);
        let head = prefix_entries(prefixes.drop_last(), now);
        assert forall|i: int| 0 <= i < prefix_entries(prefixes, now).len() implies (
        #[trigger] prefix_entries(prefixes, now)[i]).is_dir && prefix_entries(prefixes, now)[i].size == 0 by {
            if i < head.len() {
                assert(prefix_entries(prefixes, now)[i] == head[i]);
            }
        }
    }
}

} // verus!
