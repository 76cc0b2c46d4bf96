//! The note index: every tracked note, keyed by its path, grouped by the
//! first directory below the watched root.

use itertools::Itertools;
use vstd::prelude::*;
use vstd::utf8::encode_utf8;

use crate::notes::{index_entry, score, File};
use crate::paths::{get_top_parent, grouping, is_note, is_note_path, rel_path, relative_path};

verus! {

/// The notes of `s` keyed by path; a later note with the same path wins.
pub open spec fn notes_map(s: Seq<File>) -> Map<Seq<char>, File>
    decreases s.len(),
{
    if s.len() == 0 {
        Map::empty()
    } else {
        notes_map(s.drop_last()).insert(s.last().path@, s.last())
    }
}

/// No two notes of `s` share a path.
pub open spec fn distinct_paths(s: Seq<File>) -> bool {
    forall|i: int, j: int| 0 <= i < s.len() && 0 <= j < s.len() && i != j ==> s[i].path@ != s[j].path@
}

/// The index after offering it `f`: a file outside the root, or one that is
/// not a note (its name does not end in `.md`), is not taken; a new path is
/// added; a known path is replaced only by a strictly newer note.
pub open spec fn upsert_map(m: Map<Seq<char>, File>, root: Seq<char>, f: File) -> Map<
    Seq<char>,
    File,
> {
    if rel_path(root, f.path@) is None || !is_note_path(f.path@) {
        m
    } else if m.contains_key(f.path@) && f.modified <= m[f.path@].modified {
        m
    } else {
        m.insert(f.path@, f)
    }
}

/// The index built from `fs`, offered one after the other.
pub open spec fn build_map(root: Seq<char>, fs: Seq<File>) -> Map<Seq<char>, File>
    decreases fs.len(),
{
    if fs.len() == 0 {
        Map::empty()
    } else {
        upsert_map(build_map(root, fs.drop_last()), root, fs.last())
    }
}

/// The note at `path` in group `group`.
pub open spec fn lookup_map(m: Map<Seq<char>, File>, root: Seq<char>, group: Seq<char>, path: Seq<
    char,
>) -> Option<File> {
    if grouping(root, path) == Some(group) && m.contains_key(path) {
        Some(m[path])
    } else {
        None
    }
}

/// Building the index never lets an older or equally old copy of a note win
/// over a newer one: the note stored at a path is at least as new as every
/// copy of that path that was offered.
pub proof fn law_build_keeps_newest(root: Seq<char>, fs: Seq<File>, i: int)
    requires
        0 <= i < fs.len(),
        rel_path(root, fs[i].path@) is Some,
        is_note_path(fs[i].path@),
    ensures
        build_map(root, fs).contains_key(fs[i].path@),
        build_map(root, fs)[fs[i].path@].modified >= fs[i].modified,
    decreases fs.len(),
{
    if i < fs.len() - 1 {
        assert(fs.drop_last()[i] == fs[i]);
        law_build_keeps_newest(root, fs.drop_last(), i);
    }
}

proof fn lemma_notes_map_contains(s: Seq<File>, p: Seq<char>)
    ensures
        notes_map(s).contains_key(p) <==> exists|i: int| 0 <= i < s.len() && s[i].path@ == p,
    decreases s.len(),
{
    if s.len() > 0 {
        lemma_notes_map_contains(s.drop_last(), p);
        if notes_map(s.drop_last()).contains_key(p) {
            let i = choose|i: int| 0 <= i < s.drop_last().len() && s.drop_last()[i].path@ == p;
            assert(s[i].path@ == p);
        }
        if exists|i: int| 0 <= i < s.len() && s[i].path@ == p {
            let i = choose|i: int| 0 <= i < s.len() && s[i].path@ == p;
            if i < s.len() - 1 {
                assert(s.drop_last()[i].path@ == p);
            }
        }
    }
}

proof fn lemma_notes_map_value(s: Seq<File>, i: int)
    requires
        distinct_paths(s),
        0 <= i < s.len(),
    ensures
        notes_map(s).contains_key(s[i].path@),
        notes_map(s)[s[i].path@] == s[i],
    decreases s.len(),
{
    if i < s.len() - 1 {
        assert(s.last().path@ != s[i].path@);
        assert(s.drop_last()[i] == s[i]);
        lemma_notes_map_value(s.drop_last(), i);
    }
}

proof fn lemma_notes_map_update(s: Seq<File>, i: int, f: File)
    requires
        distinct_paths(s),
        0 <= i < s.len(),
        s[i].path@ == f.path@,
    ensures
        notes_map(s.update(i, f)) == notes_map(s).insert(f.path@, f),
    decreases s.len(),
{
    let t = s.update(i, f);
    if i == s.len() - 1 {
        assert(t.drop_last() =~= s.drop_last());
        assert(notes_map(t) =~= notes_map(s).insert(f.path@, f));
    } else {
        assert(t.drop_last() =~= s.drop_last().update(i, f));
        assert(s.last().path@ != f.path@);
        lemma_notes_map_update(s.drop_last(), i, f);
        assert(notes_map(t) =~= notes_map(s).insert(f.path@, f));
    }
}

proof fn lemma_notes_map_remove(s: Seq<File>, i: int)
    requires
        distinct_paths(s),
        0 <= i < s.len(),
    ensures
        notes_map(s.remove(i)) == notes_map(s).remove(s[i].path@),
    decreases s.len(),
{
    let p = s[i].path@;
    let t = s.remove(i);
    if i == s.len() - 1 {
        assert(t =~= s.drop_last());
        lemma_notes_map_contains(s.drop_last(), p);
        assert forall|j: int| 0 <= j < s.drop_last().len() implies s.drop_last()[j].path@ != p by {
            assert(s.drop_last()[j] == s[j]);
        }
        assert(notes_map(t) =~= notes_map(s).remove(p));
    } else {
        assert(t.drop_last() =~= s.drop_last().remove(i));
        assert(t.last() == s.last());
        assert(s.last().path@ != p);
        lemma_notes_map_remove(s.drop_last(), i);
        assert(notes_map(t) =~= notes_map(s).remove(p));
    }
}

/// The index of notes below one root directory.
pub struct Envy {
    root: String,
    notes: Vec<File>,
}

impl Envy {
    /// The watched root directory.
    pub closed spec fn root(&self) -> Seq<char> {
        self.root@
    }

    /// The notes, in the order in which searches visit them.
    pub closed spec fn entries(&self) -> Seq<File> {
        self.notes@
    }

    /// Each path occurs once, and every note is a `.md` file under the root.
    pub open spec fn wf(&self) -> bool {
        &&& distinct_paths(self.entries())
        &&& forall|i: int|
            0 <= i < self.entries().len() ==> rel_path(self.root(), #[trigger] self.entries()[i].path@)
                is Some && is_note_path(self.entries()[i].path@)
    }

    /// An empty index of the notes below `root`.
    pub fn new(root: &str) -> (r: Self)
        ensures
            r.wf(),
            r.root() == root@,
            r@ == Map::<Seq<char>, File>::empty(),
    {
        Envy { root: root.to_owned(), notes: Vec::new() }
    }

    /// Where the note at `path` stands in the list.
    fn position_of(&self, path: &str) -> (r: Option<usize>)
        ensures
            match r {
                Some(i) => i < self.entries().len() && self.entries()[i as int].path@ == path@,
                None => forall|i: int|
                    0 <= i < self.entries().len() ==> #[trigger] self.entries()[i].path@ != path@,
            },
    {
        let target = path.to_owned();
        let mut i: usize = 0;
        while i < self.notes.len()
            invariant
                target@ == path@,
                i <= self.notes@.len(),
                forall|j: int| 0 <= j < i ==> #[trigger] self.notes@[j].path@ != path@,
            decreases self.notes@.len() - i,
        {
            if self.notes[i].path == target {
                return Some(i);
            }
            i = i + 1;
        }
        None
    }
}

impl Envy {
    /// Stores `file` under its path, over any note already there.
    fn insert_note(&mut self, file: File)
        requires
            old(self).wf(),
            rel_path(old(self).root(), file.path@) is Some,
            is_note_path(file.path@),
        ensures
            final(self).wf(),
            final(self).root() == old(self).root(),
            final(self)@ == old(self)@.insert(file.path@, file),
    {
        let ghost s = self.notes@;
        let ghost p = file.path@;
        match self.position_of(file.path.as_str()) {
            Some(i) => {
                proof {
                    lemma_notes_map_update(s, i as int, file);
                }
                self.notes.set(i, file);
                assert(self.notes@ == s.update(i as int, file));
            },
            None => {
                self.notes.push(file);
                assert(self.notes@.drop_last() =~= s);
            },
        }
        assert(distinct_paths(self.notes@));
    }

    /// Offers `file` to the index: a new path is added; a known path is
    /// replaced only when `file` is strictly newer, so a stored note never
    /// goes back to older content. A file outside the root, or one that is
    /// not a note, is not taken.
    pub fn upsert_or_refresh(&mut self, file: File)
        requires
            old(self).wf(),
        ensures
            final(self).wf(),
            final(self).root() == old(self).root(),
            final(self)@ == upsert_map(old(self)@, old(self).root(), file),
            old(self)@.contains_key(file.path@) && file.modified <= old(self)@[file.path@].modified
                ==> final(self)@ == old(self)@,
            forall|p: Seq<char>|
                #[trigger] old(self)@.contains_key(p) ==> final(self)@.contains_key(p)
                    && final(self)@[p].modified >= old(self)@[p].modified,
    {
        if relative_path(self.root.as_str(), file.path.as_str()).is_none() || !is_note(
            file.path.as_str(),
        ) {
            return;
        }
        match self.position_of(file.path.as_str()) {
            Some(i) => {
                proof {
                    lemma_notes_map_value(self.notes@, i as int);
                }
                if file.modified > self.notes[i].modified {
                    self.insert_note(file);
                }
            },
            None => {
                proof {
                    lemma_notes_map_contains(self.notes@, file.path@);
                }
                self.insert_note(file);
            },
        }
    }

    /// The note at `path`, when it is tracked and belongs to `group`.
    pub fn lookup(&self, group: &str, path: &str) -> (r: Option<&File>)
        requires
            self.wf(),
        ensures
            match lookup_map(self@, self.root(), group@, path@) {
                Some(f) => r == Some(&f),
                None => r is None,
            },
    {
        let in_group = match get_top_parent(self.root.as_str(), path) {
            Some(g) => g == group.to_owned(),
            None => false,
        };
        proof {
            lemma_notes_map_contains(self.notes@, path@);
        }
        if !in_group {
            return None;
        }
        match self.position_of(path) {
            Some(i) => {
                proof {
                    lemma_notes_map_value(self.notes@, i as int);
                }
                Some(&self.notes[i])
            },
            None => None,
        }
    }

    /// Forgets the note at `path` when it belongs to `group`.
    pub fn remove(&mut self, group: &str, path: &str)
        requires
            old(self).wf(),
        ensures
            final(self).wf(),
            final(self).root() == old(self).root(),
            final(self)@ == (if grouping(old(self).root(), path@) == Some(group@) {
                old(self)@.remove(path@)
            } else {
                old(self)@
            }),
    {
        let in_group = match get_top_parent(self.root.as_str(), path) {
            Some(g) => g == group.to_owned(),
            None => false,
        };
        if in_group {
            self.forget(path);
        }
    }

    /// Forgets the note at `path`, if any.
    fn forget(&mut self, path: &str)
        requires
            old(self).wf(),
        ensures
            final(self).wf(),
            final(self).root() == old(self).root(),
            final(self)@ == old(self)@.remove(path@),
    {
        let ghost s = self.notes@;
        match self.position_of(path) {
            Some(i) => {
                proof {
                    lemma_notes_map_remove(s, i as int);
                }
                self.notes.remove(i);
                assert forall|a: int, b: int|
                    0 <= a < self.notes@.len() && 0 <= b < self.notes@.len() && a != b implies
                    self.notes@[a].path@ != self.notes@[b].path@ by {
                    let a0 = if a < i { a } else { a + 1 };
                    let b0 = if b < i { b } else { b + 1 };
                    assert(self.notes@[a] == s[a0]);
                    assert(self.notes@[b] == s[b0]);
                }
                assert forall|a: int| 0 <= a < self.notes@.len() implies rel_path(
                    self.root(),
                    #[trigger] self.notes@[a].path@,
                ) is Some by {
                    let a0 = if a < i { a } else { a + 1 };
                    assert(self.notes@[a] == s[a0]);
                }
            },
            None => {
                proof {
                    lemma_notes_map_contains(s, path@);
                }
                assert(self@ =~= self@.remove(path@));
            },
        }
    }

    /// A modified file was reloaded: a tracked note is refreshed from it, as
    /// `upsert_or_refresh` does; a file that is not tracked is ignored.
    pub fn update_file(&mut self, file: File)
        requires
            old(self).wf(),
        ensures
            final(self).wf(),
            final(self).root() == old(self).root(),
            final(self)@ == (if old(self)@.contains_key(file.path@) {
                upsert_map(old(self)@, old(self).root(), file)
            } else {
                old(self)@
            }),
    {
        proof {
            lemma_notes_map_contains(self.notes@, file.path@);
        }
        if self.position_of(file.path.as_str()).is_some() {
            self.upsert_or_refresh(file);
        }
    }

    /// A note was renamed from `from` to the freshly loaded `to`: the old
    /// path is forgotten and `to` is stored under its own path, in whatever
    /// group that path belongs to. A rename of a file that is not a note is
    /// ignored; a destination outside the root, or one that is no longer a
    /// note, is not stored.
    pub fn move_file(&mut self, from: &str, to: File)
        requires
            old(self).wf(),
        ensures
            final(self).wf(),
            final(self).root() == old(self).root(),
            final(self)@ == (if !is_note_path(from@) {
                old(self)@
            } else if rel_path(old(self).root(), to.path@) is Some && is_note_path(to.path@) {
                old(self)@.remove(from@).insert(to.path@, to)
            } else {
                old(self)@.remove(from@)
            }),
    {
        if !is_note(from) {
            return;
        }
        self.forget(from);
        if relative_path(self.root.as_str(), to.path.as_str()).is_some() && is_note(
            to.path.as_str(),
        ) {
            self.insert_note(to);
        }
    }

    /// The index of the notes below `root`, built by offering it each of
    /// `files` in turn.
    pub fn build_database(root: &str, files: Vec<File>) -> (r: Self)
        ensures
            r.wf(),
            r.root() == root@,
            r@ == build_map(root@, files@),
    {
        let ghost all = files@;
        let mut envy = Envy::new(root);
        for file in it: files
            invariant
                envy.wf(),
                envy.root() == root@,
                it.seq() == all,
                envy@ == build_map(root@, all.take(it.index() as int)),
        {
            proof {
                assert(all.take(it.index() + 1).drop_last() =~= all.take(it.index() as int));
            }
            envy.upsert_or_refresh(file);
        }
        assert(all.take(all.len() as int) =~= all);
        envy
    }
}

/// Search results as mathematical values: (score, list item) pairs.
pub open spec fn pairs_view(v: Seq<(u32, String)>) -> Seq<(u32, Seq<char>)> {
    v.map_values(|e: (u32, String)| (e.0, e.1@))
}

/// The pairs of `v` with score `k`, in their order in `v`.
pub open spec fn with_score(v: Seq<(u32, Seq<char>)>, k: u32) -> Seq<(u32, Seq<char>)> {
    v.filter(|e: (u32, Seq<char>)| e.0 == k)
}

pub open spec fn ascending(v: Seq<(u32, Seq<char>)>) -> bool {
    forall|i: int, j: int| 0 <= i < j < v.len() ==> v[i].0 <= v[j].0
}

/// `out` holds the pairs of `v` ordered by ascending score, and pairs of
/// equal score keep their order in `v`.
pub open spec fn stable_by_score(out: Seq<(u32, Seq<char>)>, v: Seq<(u32, Seq<char>)>) -> bool {
    &&& ascending(out)
    &&& forall|k: u32| #[trigger] with_score(out, k) == with_score(v, k)
}

/// Relies on itertools' `sorted_by_key`, which collects the items into a
/// `Vec` and sorts it with the stable `slice::sort_by_key`.
#[verifier::external_body]
fn sort_by_score(v: Vec<(u32, String)>) -> (r: Vec<(u32, String)>)
    ensures
        stable_by_score(pairs_view(r@), pairs_view(v@)),
{
    v.into_iter().sorted_by_key(|e| e.0).collect()
}

/// The notes of `s` that score above zero for the query `q`, in order, each
/// as its score and its list item.
pub open spec fn search_hits(s: Seq<File>, q: Seq<char>, root: Seq<char>) -> Seq<(u32, Seq<char>)>
    decreases s.len(),
{
    if s.len() == 0 {
        Seq::empty()
    } else {
        let f = s.last();
        let rest = search_hits(s.drop_last(), q, root);
        if score(f, q, root) > 0 {
            rest.push((score(f, q, root) as u32, index_entry(f, root, true)))
        } else {
            rest
        }
    }
}

impl Envy {
    /// Ranked search. An empty query gives `None`, which stands for "no
    /// search", apart from a search without matches. Otherwise every note
    /// with a positive score comes out as its score and its list item,
    /// ordered by ascending score; notes of equal score keep their order in
    /// the index.
    pub fn query_any(&self, any: &str) -> (r: Option<Vec<(u32, String)>>)
        requires
            self.wf(),
        ensures
            r is None <==> any@.len() == 0,
            r matches Some(v) ==> stable_by_score(
                pairs_view(v@),
                search_hits(self.entries(), any@, self.root()),
            ),
    {
        if any.is_empty() {
            return None;
        }
        let mut hits: Vec<(u32, String)> = Vec::new();
        let mut i: usize = 0;
        while i < self.notes.len()
            invariant
                self.wf(),
                i <= self.notes@.len(),
                pairs_view(hits@) == search_hits(self.notes@.take(i as int), any@, self.root@),
            decreases self.notes@.len() - i,
        {
            let note = &self.notes[i];
            assert(self.notes@.take(i + 1).drop_last() =~= self.notes@.take(i as int));
            assert(rel_path(self.root(), self.entries()[i as int].path@) is Some);
            let s = note.matches_any(any, self.root.as_str());
            if s > 0 {
                let entry = note.write_index_entry(self.root.as_str(), true);
                let ghost before = hits@;
                hits.push((s, entry));
                assert(pairs_view(hits@) =~= pairs_view(before).push((s, entry@)));
            }
            i = i + 1;
        }
        assert(self.notes@.take(self.notes@.len() as int) =~= self.notes@);
        Some(sort_by_score(hits))
    }
}

/// `a` comes before `b` in byte-wise lexicographic order.
pub open spec fn bytes_lt(a: Seq<u8>, b: Seq<u8>) -> bool
    decreases a.len(),
{
    if a.len() == 0 {
        b.len() > 0
    } else if b.len() == 0 {
        false
    } else if a[0] != b[0] {
        a[0] < b[0]
    } else {
        bytes_lt(a.drop_first(), b.drop_first())
    }
}

/// `a` comes before `b` as strings are ordered: by their UTF-8 bytes.
pub open spec fn text_lt(a: Seq<char>, b: Seq<char>) -> bool {
    bytes_lt(encode_utf8(a), encode_utf8(b))
}

/// `x` comes no later than `y` when triples of strings are ordered field by
/// field.
pub open spec fn triple_le(
    x: (Seq<char>, Seq<char>, Seq<char>),
    y: (Seq<char>, Seq<char>, Seq<char>),
) -> bool {
    text_lt(x.0, y.0) || (x.0 == y.0 && (text_lt(x.1, y.1) || (x.1 == y.1 && !text_lt(y.2, x.2))))
}

pub open spec fn triples_view(v: Seq<(String, String, String)>) -> Seq<
    (Seq<char>, Seq<char>, Seq<char>),
> {
    v.map_values(|e: (String, String, String)| (e.0@, e.1@, e.2@))
}

/// Relies on itertools' `sorted`, which collects the items into a `Vec` and
/// sorts it with `slice::sort`: tuples compare field by field, strings by
/// their bytes.
#[verifier::external_body]
fn sort_triples(v: Vec<(String, String, String)>) -> (r: Vec<(String, String, String)>)
    ensures
        triples_view(r@).to_multiset() == triples_view(v@).to_multiset(),
        forall|i: int, j: int|
            0 <= i < j < r@.len() ==> triple_le(triples_view(r@)[i], triples_view(r@)[j]),
{
    v.into_iter().sorted().collect()
}

/// Each note of `s` as its group, its path and its list item by file name.
pub open spec fn listing_of(s: Seq<File>, root: Seq<char>) -> Seq<(Seq<char>, Seq<char>, Seq<char>)> {
    s.map_values(
        |f: File| (grouping(root, f.path@)->0, f.path@, index_entry(f, root, false)),
    )
}

impl Envy {
    /// The notes as the index page lists them: each as its group, its path
    /// and its list item, ordered by group and then by path.
    pub fn listing(&self) -> (r: Vec<(String, String, String)>)
        requires
            self.wf(),
        ensures
            triples_view(r@).to_multiset() == listing_of(self.entries(), self.root()).to_multiset(),
            forall|i: int, j: int|
                0 <= i < j < r@.len() ==> triple_le(triples_view(r@)[i], triples_view(r@)[j]),
    {
        let mut rows: Vec<(String, String, String)> = Vec::new();
        let mut i: usize = 0;
        while i < self.notes.len()
            invariant
                self.wf(),
                i <= self.notes@.len(),
                triples_view(rows@) == listing_of(self.notes@.take(i as int), self.root@),
            decreases self.notes@.len() - i,
        {
            let note = &self.notes[i];
            assert(rel_path(self.root(), self.entries()[i as int].path@) is Some);
            let group = match get_top_parent(self.root.as_str(), note.path.as_str()) {
                Some(g) => g,
                None => String::new(),
            };
            assert(group@ == grouping(self.root(), note.path@)->0);
            let entry = note.write_index_entry(self.root.as_str(), false);
            let ghost before = rows@;
            let path = note.path.clone();
            rows.push((group, path, entry));
            assert(triples_view(rows@) =~= triples_view(before).push(
                (grouping(self.root(), note.path@)->0, note.path@, index_entry(*note, self.root(), false)),
            ));
            assert(triples_view(rows@) =~= listing_of(self.notes@.take(i + 1), self.root@));
            i = i + 1;
        }
        assert(self.notes@.take(self.notes@.len() as int) =~= self.notes@);
        sort_triples(rows)
    }

    /// Every note, in index order.
    pub fn notes(&self) -> (r: &Vec<File>)
        ensures
            r@ == self.entries(),
    {
        &self.notes
    }
}

impl View for Envy {
    type V = Map<Seq<char>, File>;

    /// The notes keyed by path.
    open spec fn view(&self) -> Map<Seq<char>, File> {
        notes_map(self.entries())
    }
}

} // verus!
