//! The site tree: an in-memory directory of pages and resources, with
//! path-based insertion, and the build walk that turns the tree into a
//! list of file operations.

use vstd::prelude::*;

use crate::component::page::{Page, PageComponent};
use crate::location::{Fragment, InternalPath};
use crate::render::common_text::{ct_initial, renders, run_out};
use crate::render::{Context, Html, Markdown, Renderer, Text};

verus! {

/// Why inserting at a path into a directory failed.
#[derive(Debug, Clone, Copy, PartialEq, Eq)]
pub enum InsertPathError {
    /// The empty path names the directory itself, which cannot be
    /// replaced.
    EmptyPath,
    /// An ancestor of the path already exists and is not a directory.
    NonDirEntry,
    /// The path is already occupied.
    AlreadyExists,
}

/// One entry of a directory: a page to render, a nested directory, or an
/// opaque resource copied verbatim.
#[derive(Debug)]
pub enum Entry {
    /// A page to be rendered.
    Page(Page),
    /// A directory with more entries.
    Directory(Directory),
    /// An external resource, copied as it is.
    Resource,
}

/// A directory of the site: named entries, kept in insertion order.
#[derive(Debug)]
pub struct Directory {
    /// The entries, each under its name.
    pub entries: Vec<(Fragment, Entry)>,
}

/// A site: a root directory.
#[derive(Debug)]
pub struct Site {
    /// The root directory.
    pub root: Directory,
}

/// The mathematical shape of an entry: names reduced to their characters.
pub enum EntryModel {
    /// A page.
    Page(Page),
    /// A directory.
    Directory(DirModel),
    /// A resource.
    Resource,
}

/// The mathematical shape of a directory: the named entries in order.
pub struct DirModel {
    /// Key and entry, in insertion order.
    pub entries: Seq<(Seq<char>, EntryModel)>,
}

impl Entry {
    /// The entry's mathematical shape.
    pub open spec fn model(self) -> EntryModel
        decreases self,
    {
        match self {
            Entry::Page(p) => EntryModel::Page(p),
            Entry::Directory(d) => EntryModel::Directory(
                DirModel { entries: entries_model(d.entries@) },
            ),
            Entry::Resource => EntryModel::Resource,
        }
    }

    /// Every page below the entry passed validation.
    pub open spec fn wf(self) -> bool
        decreases self,
    {
        match self {
            Entry::Page(p) => p.wf(),
            Entry::Directory(d) => forall|i: int|
                0 <= i < d.entries@.len() ==> (#[trigger] d.entries@[i]).1.wf(),
            Entry::Resource => true,
        }
    }

    /// Deep well-formedness: the entry and everything below it.
    pub open spec fn deep_wf(self) -> bool
        decreases self,
    {
        match self {
            Entry::Page(p) => p.wf(),
            Entry::Directory(d) => forall|i: int|
                0 <= i < d.entries@.len() ==> (#[trigger] d.entries@[i]).1.deep_wf(),
            Entry::Resource => true,
        }
    }

    /// Whether the entry is a page.
    pub fn is_page(&self) -> (r: bool)
        ensures
            r == (self matches Entry::Page(_)),
    {
        match self {
            Entry::Page(_) => true,
            _ => false,
        }
    }

    /// Whether the entry is a directory.
    pub fn is_directory(&self) -> (r: bool)
        ensures
            r == (self matches Entry::Directory(_)),
    {
        match self {
            Entry::Directory(_) => true,
            _ => false,
        }
    }

    /// Whether the entry is a resource.
    pub fn is_resource(&self) -> (r: bool)
        ensures
            r == (self matches Entry::Resource),
    {
        match self {
            Entry::Resource => true,
            _ => false,
        }
    }
}

/// The mathematical shape of a directory's entry list.
pub open spec fn entries_model(entries: Seq<(Fragment, Entry)>) -> Seq<(Seq<char>, EntryModel)>
    decreases entries,
{
    if entries.len() == 0 {
        Seq::empty()
    } else {
        entries_model(entries.drop_last()) + seq![
            (entries.last().0@, entries.last().1.model()),
        ]
    }
}

/// The entry list's model matches it pointwise.
pub proof fn lemma_entries_model(entries: Seq<(Fragment, Entry)>)
    ensures
        entries_model(entries).len() == entries.len(),
        forall|i: int| 0 <= i < entries.len() ==> #[trigger] entries_model(entries)[i] == (
            entries[i].0@,
            entries[i].1.model(),
        ),
    decreases entries.len(),
{
    if entries.len() > 0 {
        lemma_entries_model(entries.drop_last());
        assert forall|i: int| 0 <= i < entries.len() implies #[trigger] entries_model(entries)[i]
            == (entries[i].0@, entries[i].1.model()) by {
            if i < entries.len() - 1 {
                assert(entries.drop_last()[i] == entries[i]);
            }
        }
    }
}

impl Directory {
    /// The directory's mathematical shape.
    pub open spec fn model(self) -> DirModel {
        DirModel { entries: entries_model(self.entries@) }
    }

    /// Every page below the directory passed validation.
    pub open spec fn deep_wf(self) -> bool {
        forall|i: int| 0 <= i < self.entries@.len() ==> (#[trigger] self.entries@[i]).1.deep_wf()
    }

    /// An empty directory.
    pub fn new() -> (r: Directory)
        ensures
            r.model().entries == Seq::<(Seq<char>, EntryModel)>::empty(),
    {
        Directory { entries: Vec::new() }
    }
}

impl Default for Directory {
    /// The default directory is empty.
    fn default() -> (r: Directory)
        ensures
            r.model().entries == Seq::<(Seq<char>, EntryModel)>::empty(),
    {
        Directory::new()
    }
}

impl Site {
    /// A site with an empty root.
    pub fn new() -> (r: Site)
        ensures
            r.root.model().entries == Seq::<(Seq<char>, EntryModel)>::empty(),
    {
        Site { root: Directory::new() }
    }
}

impl Default for Site {
    /// The default site has an empty root.
    fn default() -> (r: Site)
        ensures
            r.root.model().entries == Seq::<(Seq<char>, EntryModel)>::empty(),
    {
        Site::new()
    }
}

/// The first position of `key` among the model entries, or `-1`.
pub open spec fn model_find(entries: Seq<(Seq<char>, EntryModel)>, key: Seq<char>) -> int
    decreases entries.len(),
{
    if entries.len() == 0 {
        -1
    } else if entries[0].0 == key {
        0
    } else {
        let r = model_find(entries.skip(1), key);
        if r < 0 {
            -1
        } else {
            r + 1
        }
    }
}

/// A scan that stops at the first hit computes `model_find`.
pub proof fn lemma_model_find(entries: Seq<(Seq<char>, EntryModel)>, key: Seq<char>, k: int)
    requires
        0 <= k <= entries.len(),
        forall|j: int| 0 <= j < k ==> (#[trigger] entries[j]).0 != key,
        k == entries.len() || entries[k].0 == key,
    ensures
        model_find(entries, key) == if k == entries.len() {
            -1int
        } else {
            k
        },
    decreases k,
{
    if entries.len() > 0 && k > 0 {
        lemma_model_find(entries.skip(1), key, k - 1);
    }
}

/// The outcome of inserting `entry` at `path` below the directory `d`:
/// the empty path is refused; missing intermediate directories are
/// created; an existing intermediate entry that is not a directory
/// refuses the insertion; an occupied final position refuses it. A new
/// entry goes at the end of its directory's order.
pub open spec fn model_insert(
    d: DirModel,
    path: Seq<Seq<char>>,
    entry: EntryModel,
) -> Result<DirModel, InsertPathError>
    decreases path.len(),
{
    if path.len() == 0 {
        Err(InsertPathError::EmptyPath)
    } else {
        let idx = model_find(d.entries, path[0]);
        if path.len() == 1 {
            if idx >= 0 {
                Err(InsertPathError::AlreadyExists)
            } else {
                Ok(DirModel { entries: d.entries.push((path[0], entry)) })
            }
        } else {
            if idx < 0 {
                match model_insert(DirModel { entries: Seq::empty() }, path.skip(1), entry) {
                    Ok(sub) => Ok(
                        DirModel {
                            entries: d.entries.push((path[0], EntryModel::Directory(sub))),
                        },
                    ),
                    Err(e) => Err(e),
                }
            } else {
                match d.entries[idx].1 {
                    EntryModel::Directory(sub) => match model_insert(sub, path.skip(1), entry) {
                        Ok(sub2) => Ok(
                            DirModel {
                                entries: d.entries.update(
                                    idx,
                                    (path[0], EntryModel::Directory(sub2)),
                                ),
                            },
                        ),
                        Err(e) => Err(e),
                    },
                    _ => Err(InsertPathError::NonDirEntry),
                }
            }
        }
    }
}

/// What a path names below a directory: the directory itself for the
/// empty path, otherwise the entry the segments lead to through
/// directories.
pub open spec fn model_lookup(d: DirModel, path: Seq<Seq<char>>) -> Option<EntryModel>
    decreases path.len(),
{
    if path.len() == 0 {
        Some(EntryModel::Directory(d))
    } else {
        let idx = model_find(d.entries, path[0]);
        if idx < 0 {
            None
        } else if path.len() == 1 {
            Some(d.entries[idx].1)
        } else {
            match d.entries[idx].1 {
                EntryModel::Directory(sub) => model_lookup(sub, path.skip(1)),
                _ => None,
            }
        }
    }
}

/// Finds the position of `key` in the entry list.
fn find_entry(entries: &Vec<(Fragment, Entry)>, key: &Fragment) -> (r: Option<usize>)
    ensures
        r matches Some(i) ==> i < entries@.len() && model_find(entries_model(entries@), key@)
            == i as int,
        r is None ==> model_find(entries_model(entries@), key@) == -1,
{
    proof {
        lemma_entries_model(entries@);
    }
    let mut i: usize = 0;
    while i < entries.len()
        invariant
            0 <= i <= entries.len(),
            entries_model(entries@).len() == entries@.len(),
            forall|j: int| 0 <= j < entries@.len() ==> #[trigger] entries_model(entries@)[j] == (
                entries@[j].0@,
                entries@[j].1.model(),
            ),
            forall|j: int| 0 <= j < i ==> (#[trigger] entries_model(entries@)[j]).0 != key@,
        decreases entries.len() - i,
    {
        if entries[i].0.same_as(key) {
            proof {
                lemma_model_find(entries_model(entries@), key@, i as int);
            }
            return Some(i);
        }
        i += 1;
    }
    proof {
        lemma_model_find(entries_model(entries@), key@, entries@.len() as int);
    }
    None
}

impl Directory {
    /// The entry under the given name, if any.
    pub fn get(&self, key: &Fragment) -> (r: Option<&Entry>)
        ensures
            r is Some <==> model_find(self.model().entries, key@) >= 0,
            r matches Some(e) ==> e.model() == self.model().entries[model_find(
                self.model().entries,
                key@,
            )].1,
    {
        proof {
            lemma_entries_model(self.entries@);
        }
        match find_entry(&self.entries, key) {
            Some(i) => Some(&self.entries[i].1),
            None => None,
        }
    }

    /// The entry the path leads to, if any: the directory itself for the
    /// root path, otherwise the entry reached by walking the segments
    /// through directories.
    pub fn get_path(&self, path: &InternalPath) -> (r: Option<&Entry>)
        ensures
            r is Some <==> (path@.len() > 0 && model_lookup(self.model(), path@) is Some),
            r matches Some(e) ==> model_lookup(self.model(), path@) == Some(e.model()),
    {
        if path.len() == 0 {
            return None;
        }
        proof {
            assert(path@.skip(0) =~= path@);
        }
        self.get_path_from(path, 0)
    }

    /// Walks the path's segments from position `i`.
    fn get_path_from(&self, path: &InternalPath, i: usize) -> (r: Option<&Entry>)
        requires
            i < path@.len(),
        ensures
            r is Some <==> model_lookup(self.model(), path@.skip(i as int)) is Some,
            r matches Some(e) ==> model_lookup(self.model(), path@.skip(i as int)) == Some(
                e.model(),
            ),
        decreases path@.len() - i,
    {
        let ghost rest = path@.skip(i as int);
        proof {
            lemma_entries_model(self.entries@);
            assert(rest[0] == path@[i as int]);
        }
        let frag = path.fragment(i);
        match find_entry(&self.entries, frag) {
            None => None,
            Some(j) => {
                if i == path.len() - 1 {
                    proof {
                        assert(rest.len() == 1);
                    }
                    Some(&self.entries[j].1)
                } else {
                    match &self.entries[j].1 {
                        Entry::Directory(sub) => {
                            proof {
                                assert(rest.skip(1) =~= path@.skip(i + 1));
                                assert(self.model().entries[j as int].1 == self.entries@[
                                    j as int
                                ].1.model());
                            }
                            sub.get_path_from(path, i + 1)
                        },
                        _ => None,
                    }
                }
            },
        }
    }
}

/// A key freshly pushed at the end is found there.
pub proof fn lemma_model_find_push(
    entries: Seq<(Seq<char>, EntryModel)>,
    key: Seq<char>,
    e: EntryModel,
)
    requires
        model_find(entries, key) == -1,
    ensures
        model_find(entries.push((key, e)), key) == entries.len(),
    decreases entries.len(),
{
    if entries.len() == 0 {
        assert(entries.push((key, e))[0].0 == key);
    } else {
        assert(entries.push((key, e))[0] == entries[0]);
        lemma_model_find_push(entries.skip(1), key, e);
        assert(entries.push((key, e)).skip(1) =~= entries.skip(1).push((key, e)));
    }
}

/// Finding a key looks only at the keys: entry lists with equal keys in
/// equal positions are searched alike.
pub proof fn lemma_model_find_keys(
    a: Seq<(Seq<char>, EntryModel)>,
    b: Seq<(Seq<char>, EntryModel)>,
    key: Seq<char>,
)
    requires
        a.len() == b.len(),
        forall|i: int| 0 <= i < a.len() ==> (#[trigger] a[i]).0 == b[i].0,
    ensures
        model_find(a, key) == model_find(b, key),
    decreases a.len(),
{
    if a.len() > 0 {
        lemma_model_find_keys(a.skip(1), b.skip(1), key);
        assert(forall|i: int| 0 <= i < a.skip(1).len() ==> (#[trigger] a.skip(1)[i]).0 == b.skip(
            1,
        )[i].0) by {
            assert(forall|i: int| 0 <= i < a.skip(1).len() ==> a.skip(1)[i] == a[i + 1]
                && b.skip(1)[i] == b[i + 1]);
        }
    }
}

/// A successful find is in bounds and lands on the key.
pub proof fn lemma_model_find_hit(entries: Seq<(Seq<char>, EntryModel)>, key: Seq<char>)
    requires
        model_find(entries, key) >= 0,
    ensures
        0 <= model_find(entries, key) < entries.len(),
        entries[model_find(entries, key)].0 == key,
    decreases entries.len(),
{
    if entries.len() > 0 && entries[0].0 != key {
        lemma_model_find_hit(entries.skip(1), key);
    }
}

/// Inserting at a non-empty path never reports the empty-path error.
pub proof fn lemma_insert_nonempty(d: DirModel, path: Seq<Seq<char>>, e: EntryModel)
    requires
        path.len() > 0,
    ensures
        model_insert(d, path, e) != Err::<DirModel, InsertPathError>(InsertPathError::EmptyPath),
    decreases path.len(),
{
    if path.len() > 1 {
        let idx = model_find(d.entries, path[0]);
        if idx < 0 {
            lemma_insert_nonempty(DirModel { entries: Seq::empty() }, path.skip(1), e);
        } else {
            match d.entries[idx].1 {
                EntryModel::Directory(sub) => {
                    lemma_insert_nonempty(sub, path.skip(1), e);
                },
                _ => {},
            }
        }
    }
}

/// Inserting a second time at a path that a first insertion filled is
/// refused: the second call reports that the path already exists, whatever
/// the two entries are.
pub proof fn lemma_insert_twice(
    d: DirModel,
    path: Seq<Seq<char>>,
    e1: EntryModel,
    e2: EntryModel,
)
    requires
        model_insert(d, path, e1) is Ok,
    ensures
        model_insert(model_insert(d, path, e1)->Ok_0, path, e2) == Err::<
            DirModel,
            InsertPathError,
        >(InsertPathError::AlreadyExists),
    decreases path.len(),
{
    let d2 = model_insert(d, path, e1)->Ok_0;
    let idx = model_find(d.entries, path[0]);
    if path.len() == 1 {
        assert(idx < 0);
        lemma_model_find_push(d.entries, path[0], e1);
        assert(model_find(d2.entries, path[0]) == d.entries.len());
    } else {
        if idx < 0 {
            let sub = model_insert(DirModel { entries: Seq::empty() }, path.skip(1), e1)->Ok_0;
            lemma_model_find_push(d.entries, path[0], EntryModel::Directory(sub));
            assert(model_find(d2.entries, path[0]) == d.entries.len());
            assert(d2.entries[d.entries.len() as int].1 == EntryModel::Directory(sub));
            lemma_insert_twice(DirModel { entries: Seq::empty() }, path.skip(1), e1, e2);
        } else {
            lemma_model_find_hit(d.entries, path[0]);
            let sub = d.entries[idx].1->Directory_0;
            let sub2 = model_insert(sub, path.skip(1), e1)->Ok_0;
            assert(d2.entries == d.entries.update(
                idx,
                (path[0], EntryModel::Directory(sub2)),
            ));
            assert(d2.entries.len() == d.entries.len());
            assert(forall|q: int| 0 <= q < d2.entries.len() ==> (#[trigger] d2.entries[q]).0
                == d.entries[q].0);
            lemma_model_find_keys(d2.entries, d.entries, path[0]);
            assert(model_find(d2.entries, path[0]) == idx);
            assert(d2.entries[idx].1 == EntryModel::Directory(sub2));
            lemma_insert_twice(sub, path.skip(1), e1, e2);
        }
    }
}

/// What a successful insertion puts in place: the entry itself stands at
/// the full path, and every proper prefix of the path leads to a
/// directory.
pub proof fn lemma_insert_then_lookup(d: DirModel, path: Seq<Seq<char>>, e: EntryModel)
    requires
        model_insert(d, path, e) is Ok,
    ensures
        model_lookup(model_insert(d, path, e)->Ok_0, path) == Some(e),
        forall|k: int| 1 <= k < path.len() ==> (#[trigger] model_lookup(
            model_insert(d, path, e)->Ok_0,
            path.take(k),
        )) matches Some(EntryModel::Directory(_)),
    decreases path.len(),
{
    let res = model_insert(d, path, e)->Ok_0;
    let idx = model_find(d.entries, path[0]);
    if path.len() == 1 {
        lemma_model_find_push(d.entries, path[0], e);
        assert(path.skip(1) =~= Seq::<Seq<char>>::empty());
    } else {
        let rest = path.skip(1);
        if idx < 0 {
            let sub = model_insert(DirModel { entries: Seq::empty() }, rest, e)->Ok_0;
            lemma_model_find_push(d.entries, path[0], EntryModel::Directory(sub));
            lemma_insert_then_lookup(DirModel { entries: Seq::empty() }, rest, e);
            assert(model_find(res.entries, path[0]) == d.entries.len());
            assert(res.entries[d.entries.len() as int].1 == EntryModel::Directory(sub));
            assert(model_lookup(res, path) == model_lookup(sub, rest));
            assert forall|k: int| 1 <= k < path.len() implies (#[trigger] model_lookup(
                res,
                path.take(k),
            )) matches Some(EntryModel::Directory(_)) by {
                assert(path.take(k)[0] == path[0]);
                if k == 1 {
                    assert(model_lookup(res, path.take(k)) == Some(
                        EntryModel::Directory(sub),
                    ));
                } else {
                    assert(path.take(k).skip(1) =~= rest.take(k - 1));
                    assert(model_lookup(res, path.take(k)) == model_lookup(
                        sub,
                        rest.take(k - 1),
                    ));
                }
            }
        } else {
            lemma_model_find_hit(d.entries, path[0]);
            let sub0 = d.entries[idx].1->Directory_0;
            let sub2 = model_insert(sub0, rest, e)->Ok_0;
            lemma_insert_then_lookup(sub0, rest, e);
            assert(res.entries == d.entries.update(
                idx,
                (path[0], EntryModel::Directory(sub2)),
            ));
            assert(res.entries.len() == d.entries.len());
            assert(forall|q: int| 0 <= q < res.entries.len() ==> (#[trigger] res.entries[q]).0
                == d.entries[q].0);
            lemma_model_find_keys(res.entries, d.entries, path[0]);
            assert(model_find(res.entries, path[0]) == idx);
            assert(res.entries[idx].1 == EntryModel::Directory(sub2));
            assert(model_lookup(res, path) == model_lookup(sub2, rest));
            assert forall|k: int| 1 <= k < path.len() implies (#[trigger] model_lookup(
                res,
                path.take(k),
            )) matches Some(EntryModel::Directory(_)) by {
                assert(path.take(k)[0] == path[0]);
                if k == 1 {
                    assert(model_lookup(res, path.take(k)) == Some(
                        EntryModel::Directory(sub2),
                    ));
                } else {
                    assert(path.take(k).skip(1) =~= rest.take(k - 1));
                    assert(model_lookup(res, path.take(k)) == model_lookup(
                        sub2,
                        rest.take(k - 1),
                    ));
                }
            }
        }
    }
}

/// Builds the chain of fresh directories holding `entry` at the end of
/// the path's remaining segments.
fn build_chain(path: &InternalPath, i: usize, entry: Entry) -> (r: Directory)
    requires
        i < path@.len(),
    ensures
        model_insert(
            DirModel { entries: Seq::empty() },
            path@.skip(i as int),
            entry.model(),
        ) == Ok::<DirModel, InsertPathError>(r.model()),
    decreases path@.len() - i,
{
    let ghost rest = path@.skip(i as int);
    proof {
        assert(rest[0] == path@[i as int]);
    }
    let frag = path.fragment(i).clone();
    if i == path.len() - 1 {
        let mut d = Directory::new();
        let ghost m0 = d.model().entries;
        d.entries.push((frag, entry));
        proof {
            lemma_entries_model(d.entries@);
            assert(rest.len() == 1);
            assert(d.model().entries =~= Seq::<(Seq<char>, EntryModel)>::empty().push(
                (path@[i as int], entry.model()),
            ));
        }
        d
    } else {
        let ghost em = entry.model();
        let sub = build_chain(path, i + 1, entry);
        let mut d = Directory::new();
        d.entries.push((frag, Entry::Directory(sub)));
        proof {
            lemma_entries_model(d.entries@);
            assert(rest.skip(1) =~= path@.skip(i + 1));
            assert(d.model().entries =~= Seq::<(Seq<char>, EntryModel)>::empty().push(
                (
                    path@[i as int],
                    EntryModel::Directory(
                        model_insert(
                            DirModel { entries: Seq::empty() },
                            path@.skip(i + 1),
                            em,
                        )->Ok_0,
                    ),
                ),
            ));
        }
        d
    }
}

impl Directory {
    /// Inserts `entry` at the remaining segments of `path`, from
    /// position `i` on.
    fn insert_at(&mut self, path: &InternalPath, i: usize, entry: Entry) -> (r: Result<
        (),
        InsertPathError,
    >)
        requires
            i < path@.len(),
        ensures
            r matches Ok(_) ==> (model_insert(
                old(self).model(),
                path@.skip(i as int),
                entry.model(),
            ) matches Ok(m) && final(self).model() == m),
            r matches Err(e) ==> model_insert(
                old(self).model(),
                path@.skip(i as int),
                entry.model(),
            ) == Err::<DirModel, InsertPathError>(e) && final(self).model() == old(self).model(),
        decreases path@.len() - i,
    {
        let ghost rest = path@.skip(i as int);
        let ghost m0 = self.model().entries;
        proof {
            assert(rest[0] == path@[i as int]);
            lemma_entries_model(self.entries@);
        }
        let frag = path.fragment(i);
        let found = find_entry(&self.entries, frag);
        if i == path.len() - 1 {
            proof {
                assert(rest.len() == 1);
            }
            match found {
                Some(_) => Err(InsertPathError::AlreadyExists),
                None => {
                    self.entries.push((frag.clone(), entry));
                    proof {
                        lemma_entries_model(self.entries@);
                        assert(self.model().entries =~= m0.push((path@[i as int], entry.model())));
                    }
                    Ok(())
                },
            }
        } else {
            match found {
                None => {
                    let ghost em = entry.model();
                    let sub = build_chain(path, i + 1, entry);
                    self.entries.push((frag.clone(), Entry::Directory(sub)));
                    proof {
                        lemma_entries_model(self.entries@);
                        assert(rest.skip(1) =~= path@.skip(i + 1));
                        assert(self.model().entries =~= m0.push(
                            (
                                path@[i as int],
                                EntryModel::Directory(
                                    model_insert(
                                        DirModel { entries: Seq::empty() },
                                        path@.skip(i + 1),
                                        em,
                                    )->Ok_0,
                                ),
                            ),
                        ));
                    }
                    Ok(())
                },
                Some(j) => {
                    let ghost pair0 = self.entries@[j as int];
                    let (key, sub_entry) = self.entries.remove(j);
                    match sub_entry {
                        Entry::Directory(mut d2) => {
                            let ghost sub0 = d2.model();
                            proof {
                                lemma_model_find_hit(m0, path@[i as int]);
                                assert(m0[j as int].1 == EntryModel::Directory(sub0));
                                assert(m0[j as int].0 == path@[i as int]);
                                assert(rest.skip(1) =~= path@.skip(i + 1));
                            }
                            let res = d2.insert_at(path, i + 1, entry);
                            self.entries.insert(j, (key, Entry::Directory(d2)));
                            proof {
                                lemma_entries_model(self.entries@);
                                assert(self.entries@.len() == old(self).entries@.len());
                                assert forall|q: int| 0 <= q < self.entries@.len()
                                    implies #[trigger] self.model().entries[q] == (if q == j {
                                    (pair0.0@, (Entry::Directory(d2)).model())
                                } else {
                                    m0[q]
                                }) by {
                                    if q < j {
                                        assert(self.entries@[q] == old(self).entries@[q]);
                                    } else if q > j {
                                        assert(self.entries@[q] == old(self).entries@[q]);
                                    } else {
                                        assert(self.entries@[q] == (pair0.0, Entry::Directory(
                                            d2,
                                        )));
                                    }
                                }
                                match res {
                                    Ok(_) => {
                                        assert(self.model().entries =~= m0.update(
                                            j as int,
                                            (
                                                path@[i as int],
                                                EntryModel::Directory(
                                                    model_insert(
                                                        sub0,
                                                        path@.skip(i + 1),
                                                        entry.model(),
                                                    )->Ok_0,
                                                ),
                                            ),
                                        ));
                                    },
                                    Err(_) => {
                                        assert(self.model().entries =~= m0);
                                    },
                                }
                            }
                            res
                        },
                        other => {
                            self.entries.insert(j, (key, other));
                            proof {
                                lemma_entries_model(self.entries@);
                                assert(m0[j as int].1 == pair0.1.model());
                                assert(!(m0[j as int].1 is Directory));
                                assert forall|q: int| 0 <= q < self.entries@.len()
                                    implies #[trigger] self.model().entries[q] == m0[q] by {
                                    assert(self.entries@[q] == old(self).entries@[q]);
                                }
                                assert(self.model().entries =~= m0);
                            }
                            Err(InsertPathError::NonDirEntry)
                        },
                    }
                },
            }
        }
    }

    /// Inserts `entry` at `path`. The empty path is refused; missing
    /// intermediate directories are created; an existing intermediate
    /// entry that is not a directory refuses the insertion, as does an
    /// occupied final position. On failure the directory is unchanged.
    pub fn try_insert_path(&mut self, path: &InternalPath, entry: Entry) -> (r: Result<
        (),
        InsertPathError,
    >)
        ensures
            r is Ok <==> model_insert(old(self).model(), path@, entry.model()) is Ok,
            r matches Ok(_) ==> (model_insert(old(self).model(), path@, entry.model()) matches Ok(
                m,
            ) && final(self).model() == m),
            r matches Err(e) ==> model_insert(old(self).model(), path@, entry.model()) == Err::<
                DirModel,
                InsertPathError,
            >(e) && final(self).model() == old(self).model(),
            path@.len() == 0 <==> r == Err::<(), InsertPathError>(InsertPathError::EmptyPath),
    {
        if path.len() == 0 {
            return Err(InsertPathError::EmptyPath);
        }
        proof {
            assert(path@.skip(0) =~= path@);
        }
        let r = self.insert_at(path, 0, entry);
        proof {
            lemma_insert_nonempty(old(self).model(), path@, entry.model());
        }
        r
    }

    /// Inserts `entry` at `path`, which must be free; the panicking
    /// convenience counterpart of [`Directory::try_insert_path`].
    pub fn insert_path(&mut self, path: &InternalPath, entry: Entry)
        requires
            model_insert(old(self).model(), path@, entry.model()) is Ok,
        ensures
            final(self).model() == model_insert(
                old(self).model(),
                path@,
                entry.model(),
            )->Ok_0,
    {
        let r = self.try_insert_path(path, entry);
        match r {
            Ok(_) => (),
            Err(_) => vstd::pervasive::unreached(),
        }
    }
}

/// The output format a site is built into.
#[derive(Debug, Clone, Copy, PartialEq, Eq)]
pub enum OutputFormat {
    /// HTML documents.
    Html,
    /// Markdown, indenting nested scopes by the given number of spaces.
    Markdown {
        /// Spaces per indentation step.
        indent_size: u32,
    },
    /// Plain text, indenting nested scopes by the given number of spaces.
    Text {
        /// Spaces per indentation step.
        indent_size: u32,
    },
}

/// The characters a page renders to in the given format, at the given
/// path. The textual formats start from a fresh normalizer.
pub open spec fn page_output(f: OutputFormat, p: Page, path: Seq<Seq<char>>) -> Seq<char> {
    match f {
        OutputFormat::Html => p.html_out(path, 0),
        OutputFormat::Markdown { indent_size } => run_out(
            ct_initial(indent_size),
            p.md_events(path, 0),
        ),
        OutputFormat::Text { indent_size } => run_out(
            ct_initial(indent_size),
            p.text_events(path),
        ),
    }
}

/// Renders one page to a string in the given format, starting from a
/// fresh format state.
pub fn render_page(format: &OutputFormat, p: &Page, path: &InternalPath) -> (r: String)
    requires
        p.wf(),
    ensures
        r@ == page_output(*format, *p, path@),
{
    match format {
        OutputFormat::Html => {
            let mut rd = Renderer::new(Html);
            p.render_html(&mut rd, Context::new(path, PageComponent));
            let out = rd.into_output();
            proof {
                assert(out@ =~= page_output(*format, *p, path@));
            }
            out
        },
        OutputFormat::Markdown { indent_size } => {
            let mut rd = Renderer::new(Markdown::new(*indent_size));
            p.render_markdown(&mut rd, Context::new(path, PageComponent));
            let out = rd.into_output();
            proof {
                assert(out@ =~= page_output(*format, *p, path@));
            }
            out
        },
        OutputFormat::Text { indent_size } => {
            let mut rd = Renderer::new(Text::new(*indent_size));
            p.render_text(&mut rd, Context::new(path, PageComponent));
            let out = rd.into_output();
            proof {
                assert(out@ =~= page_output(*format, *p, path@));
            }
            out
        },
    }
}

/// One file-system operation of a build, in depth-first order.
#[derive(Debug)]
pub enum BuildOp {
    /// Create the directory at the path (parents included; idempotent).
    MakeDir(InternalPath),
    /// Write the rendered characters into the file at the path.
    WriteFile(InternalPath, String),
    /// Copy the resource at the path from the resource tree, verbatim.
    CopyResource(InternalPath),
}

/// The mathematical shape of a build operation.
pub enum OpModel {
    /// A directory to create.
    MakeDir(Seq<Seq<char>>),
    /// A file to write, with its contents.
    WriteFile(Seq<Seq<char>>, Seq<char>),
    /// A resource to copy.
    CopyResource(Seq<Seq<char>>),
}

impl BuildOp {
    /// The operation's mathematical shape.
    pub open spec fn model(self) -> OpModel {
        match self {
            BuildOp::MakeDir(p) => OpModel::MakeDir(p@),
            BuildOp::WriteFile(p, s) => OpModel::WriteFile(p@, s@),
            BuildOp::CopyResource(p) => OpModel::CopyResource(p@),
        }
    }
}

/// The mathematical shape of an operation list.
pub open spec fn ops_model(ops: Seq<BuildOp>) -> Seq<OpModel>
    decreases ops,
{
    if ops.len() == 0 {
        Seq::empty()
    } else {
        ops_model(ops.drop_last()) + seq![ops.last().model()]
    }
}

/// The operation list's model matches it pointwise.
pub proof fn lemma_ops_model(ops: Seq<BuildOp>)
    ensures
        ops_model(ops).len() == ops.len(),
        forall|i: int| 0 <= i < ops.len() ==> #[trigger] ops_model(ops)[i] == ops[i].model(),
    decreases ops.len(),
{
    if ops.len() > 0 {
        lemma_ops_model(ops.drop_last());
        assert forall|i: int| 0 <= i < ops.len() implies #[trigger] ops_model(ops)[i]
            == ops[i].model() by {
            if i < ops.len() - 1 {
                assert(ops.drop_last()[i] == ops[i]);
            }
        }
    }
}

/// The operations that build a directory at `at`: create it, then walk
/// its entries in order, each under `at` plus its name.
pub open spec fn plan_model(d: DirModel, at: Seq<Seq<char>>, f: OutputFormat) -> Seq<OpModel>
    decreases d,
{
    seq![OpModel::MakeDir(at)] + entries_plan(d.entries, at, f)
}

/// The operations of a directory's entries, in order.
pub open spec fn entries_plan(
    entries: Seq<(Seq<char>, EntryModel)>,
    at: Seq<Seq<char>>,
    f: OutputFormat,
) -> Seq<OpModel>
    decreases entries,
{
    if entries.len() == 0 {
        Seq::empty()
    } else {
        entries_plan(entries.drop_last(), at, f) + entry_plan(
            entries.last().1,
            at.push(entries.last().0),
            f,
        )
    }
}

/// The operations of one entry at its path: a page is rendered and
/// written, a resource is copied, a directory is built recursively.
pub open spec fn entry_plan(e: EntryModel, at: Seq<Seq<char>>, f: OutputFormat) -> Seq<OpModel>
    decreases e,
{
    match e {
        EntryModel::Page(p) => seq![OpModel::WriteFile(at, page_output(f, p, at))],
        EntryModel::Resource => seq![OpModel::CopyResource(at)],
        EntryModel::Directory(d) => plan_model(d, at, f),
    }
}

/// Appends the operations that build `d` at the path `at`.
fn build_dir(d: &Directory, at: &InternalPath, format: &OutputFormat, ops: &mut Vec<BuildOp>)
    requires
        d.deep_wf(),
    ensures
        ops_model(final(ops)@) == ops_model(old(ops)@) + plan_model(d.model(), at@, *format),
    decreases *d,
{
    let ghost m0 = ops_model(old(ops)@);
    let ghost dm = d.model();
    proof {
        lemma_ops_model(ops@);
        lemma_entries_model(d.entries@);
    }
    ops.push(BuildOp::MakeDir(at.clone()));
    proof {
        lemma_ops_model(ops@);
        assert(ops_model(ops@) =~= m0 + seq![OpModel::MakeDir(at@)]);
        assert(dm.entries.take(0) =~= Seq::<(Seq<char>, EntryModel)>::empty());
        assert(m0 + (seq![OpModel::MakeDir(at@)] + entries_plan(dm.entries.take(0), at@,
            *format)) =~= ops_model(ops@));
    }
    let mut i: usize = 0;
    while i < d.entries.len()
        invariant
            0 <= i <= d.entries.len(),
            dm == d.model(),
            dm.entries.len() == d.entries@.len(),
            forall|j: int| 0 <= j < d.entries@.len() ==> #[trigger] dm.entries[j] == (
                d.entries@[j].0@,
                d.entries@[j].1.model(),
            ),
            d.deep_wf(),
            ops_model(ops@) == m0 + (seq![OpModel::MakeDir(at@)] + entries_plan(
                dm.entries.take(i as int),
                at@,
                *format,
            )),
            m0 == ops_model(old(ops)@),
        decreases d.entries.len() - i,
    {
        let ghost base = seq![OpModel::MakeDir(at@)] + entries_plan(
            dm.entries.take(i as int),
            at@,
            *format,
        );
        proof {
            lemma_ops_model(ops@);
        }
        let pair = &d.entries[i];
        let child_path = at.clone().append(pair.0.clone());
        proof {
            assert(child_path@ == at@.push(dm.entries[i as int].0));
            assert(d.entries@[i as int].1.deep_wf());
        }
        match &pair.1 {
            Entry::Page(p) => {
                let content = render_page(format, p, &child_path);
                ops.push(BuildOp::WriteFile(child_path, content));
                proof {
                    lemma_ops_model(ops@);
                }
            },
            Entry::Resource => {
                ops.push(BuildOp::CopyResource(child_path));
                proof {
                    lemma_ops_model(ops@);
                }
            },
            Entry::Directory(sub) => {
                proof {
                    assert(decreases_to!(*d => d.entries));
                    assert(decreases_to!(d.entries => d.entries@));
                    assert(decreases_to!(d.entries@ => d.entries@[i as int]));
                    assert(decreases_to!(d.entries@[i as int] => d.entries@[i as int].1));
                    assert(d.entries@[i as int].1 == Entry::Directory(*sub));
                    assert(decreases_to!(d.entries@[i as int].1
                        => d.entries@[i as int].1->Directory_0));
                    assert(forall|q: int| 0 <= q < sub.entries@.len()
                        ==> (#[trigger] sub.entries@[q]).1.deep_wf());
                }
                build_dir(sub, &child_path, format, ops);
            },
        }
        proof {
            assert(ops_model(ops@) =~= m0 + base + entry_plan(
                dm.entries[i as int].1,
                at@.push(dm.entries[i as int].0),
                *format,
            ));
            assert(dm.entries.take(i + 1).drop_last() =~= dm.entries.take(i as int));
            assert(dm.entries.take(i + 1).last() == dm.entries[i as int]);
            assert(seq![OpModel::MakeDir(at@)] + entries_plan(dm.entries.take(i + 1), at@,
                *format) =~= base + entry_plan(dm.entries[i as int].1, at@.push(
                dm.entries[i as int].0,
            ), *format));
            assert(ops_model(ops@) =~= m0 + (seq![OpModel::MakeDir(at@)] + entries_plan(
                dm.entries.take(i + 1),
                at@,
                *format,
            )));
        }
        i += 1;
    }
    proof {
        assert(dm.entries.take(dm.entries.len() as int) =~= dm.entries);
    }
}

impl Site {
    /// The pages of the site are well formed.
    pub open spec fn wf(self) -> bool {
        self.root.deep_wf()
    }

    /// The list of file operations that builds the site in the given
    /// format: a depth-first walk of the tree that creates each directory
    /// before its contents, renders each page at its own path, and copies
    /// each resource, all in the directories' insertion order.
    pub fn build_plan(&self, format: &OutputFormat) -> (r: Vec<BuildOp>)
        requires
            self.wf(),
        ensures
            ops_model(r@) == plan_model(
                self.root.model(),
                Seq::<Seq<char>>::empty(),
                *format,
            ),
    {
        let mut ops: Vec<BuildOp> = Vec::new();
        let root_path = InternalPath::root();
        proof {
            lemma_ops_model(ops@);
            assert(ops_model(ops@) =~= Seq::<OpModel>::empty());
        }
        build_dir(&self.root, &root_path, format, &mut ops);
        proof {
            assert(ops_model(ops@) =~= plan_model(
                self.root.model(),
                Seq::<Seq<char>>::empty(),
                *format,
            ));
        }
        ops
    }
}

impl Entry {
    /// A borrowed view of the entry.
    pub fn by_ref(&self) -> (r: &Entry)
        ensures
            r == self,
    {
        self
    }

    /// The page held by the entry, if it is one.
    pub fn as_page(&self) -> (r: Option<&Page>)
        ensures
            r is Some <==> self is Page,
            r matches Some(q) ==> self matches Entry::Page(p) && q == p,
    {
        match self {
            Entry::Page(p) => Some(p),
            _ => None,
        }
    }

    /// The directory held by the entry, if it is one.
    pub fn as_directory(&self) -> (r: Option<&Directory>)
        ensures
            r is Some <==> self is Directory,
            r matches Some(q) ==> self matches Entry::Directory(d) && q == d,
    {
        match self {
            Entry::Directory(d) => Some(d),
            _ => None,
        }
    }
}

impl Directory {
    /// The number of entries directly in this directory.
    pub fn len(&self) -> (r: usize)
        ensures
            r == self.model().entries.len(),
    {
        proof {
            lemma_entries_model(self.entries@);
        }
        self.entries.len()
    }
}

impl Site {
    /// The entry the path leads to below the root, if any.
    pub fn get(&self, path: &InternalPath) -> (r: Option<&Entry>)
        ensures
            r is Some <==> (path@.len() > 0 && model_lookup(self.root.model(), path@) is Some),
            r matches Some(e) ==> model_lookup(self.root.model(), path@) == Some(e.model()),
    {
        self.root.get_path(path)
    }
}

impl Entry {
    /// Confirms at run time that every page below the entry is well
    /// formed.
    pub fn check_wf(&self) -> (r: bool)
        ensures
            r == self.deep_wf(),
        decreases *self,
    {
        match self {
            Entry::Page(p) => p.check_wf(),
            Entry::Resource => true,
            Entry::Directory(d) => {
                let v = &d.entries;
                let mut i: usize = 0;
                while i < v.len()
                    invariant
                        0 <= i <= v@.len(),
                        *self == Entry::Directory(Directory { entries: *v }),
                        forall|j: int| 0 <= j < i ==> (#[trigger] v@[j]).1.deep_wf(),
                    decreases v@.len() - i,
                {
                    proof {
                        assert(decreases_to!(*self => self->Directory_0));
                        assert(decreases_to!(self->Directory_0 => self->Directory_0.entries));
                        assert(decreases_to!(*v => v@));
                        assert(decreases_to!(v@ => v@[i as int]));
                        assert(decreases_to!(v@[i as int] => v@[i as int].1));
                    }
                    if !v[i].1.check_wf() {
                        return false;
                    }
                    i += 1;
                }
                true
            },
        }
    }
}

impl Site {
    /// Confirms at run time that every page of the site is well formed;
    /// sites assembled from validated values always are.
    pub fn check_wf(&self) -> (r: bool)
        ensures
            r == self.wf(),
    {
        let v = &self.root.entries;
        let mut i: usize = 0;
        while i < v.len()
            invariant
                0 <= i <= v@.len(),
                *v == self.root.entries,
                forall|j: int| 0 <= j < i ==> (#[trigger] v@[j]).1.deep_wf(),
            decreases v@.len() - i,
        {
            if !v[i].1.check_wf() {
                return false;
            }
            i += 1;
        }
        true
    }
}

impl InsertPathError {
    /// Why the insertion was refused, in words.
    pub open spec fn message_view(self) -> Seq<char> {
        match self {
            InsertPathError::EmptyPath => "cannot insert at empty path"@,
            InsertPathError::NonDirEntry => "cannot create directory at non-directory entry"@,
            InsertPathError::AlreadyExists => "path already exists"@,
        }
    }

    /// Why the insertion was refused, in words.
    pub fn message(&self) -> (r: String)
        ensures
            r@ == self.message_view(),
    {
        match self {
            InsertPathError::EmptyPath => "cannot insert at empty path".to_owned(),
            InsertPathError::NonDirEntry =>
                "cannot create directory at non-directory entry".to_owned(),
            InsertPathError::AlreadyExists => "path already exists".to_owned(),
        }
    }
}

} // verus!
