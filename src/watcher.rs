//! The decisions of the corpus watcher: which files of a fresh directory
//! listing are new or modified, given the listing of the previous poll.
//!
//! A file is new when the previous listing did not hold its path, and
//! modified when its modification time is strictly later than the one
//! recorded. Deleted files raise no event. After each poll the recorded state
//! is exactly the fresh listing.
use crate::inverted_index::{doc_terms, is_search_result, lemma_own_term_finds_document, lists_doc, Corpus, DocReference};
use crate::text::terms_of;
use vstd::hash_map::StringHashMap;
use vstd::prelude::*;

verus! {

/// What happened to a file between two polls.
#[derive(Clone, Copy, Debug, PartialEq, Eq)]
pub enum ChangeKind {
    Created,
    Modified,
}

/// A file seen in a listing, with its modification time in nanoseconds
/// since the Unix epoch.
#[derive(Clone, Debug)]
pub struct FileStamp {
    pub path: String,
    pub modified: u64,
}

/// A file to index again.
#[derive(Clone, Debug)]
pub struct FileChange {
    pub path: String,
    pub kind: ChangeKind,
}

/// The views of the entries of a listing.
pub open spec fn stamp_views(ls: Seq<FileStamp>) -> Seq<(Seq<char>, u64)> {
    ls.map_values(|f: FileStamp| (f.path@, f.modified))
}

/// The views of a sequence of changes.
pub open spec fn change_views(cs: Seq<FileChange>) -> Seq<(Seq<char>, ChangeKind)> {
    cs.map_values(|c: FileChange| (c.path@, c.kind))
}

/// The modification time of each path of a listing.
pub open spec fn stamps_map(ls: Seq<(Seq<char>, u64)>) -> Map<Seq<char>, u64>
    decreases ls.len(),
{
    if ls.len() == 0 {
        Map::empty()
    } else {
        stamps_map(ls.drop_last()).insert(ls.last().0, ls.last().1)
    }
}

/// The event that entry `f` of a fresh listing raises against the recorded
/// state `prev`, if any.
pub open spec fn change_of(prev: Map<Seq<char>, u64>, f: (Seq<char>, u64)) -> Option<ChangeKind> {
    if !prev.contains_key(f.0) {
        Some(ChangeKind::Created)
    } else if prev[f.0] < f.1 {
        Some(ChangeKind::Modified)
    } else {
        None
    }
}

/// The events of a fresh listing against the recorded state, in listing
/// order.
pub open spec fn changes(prev: Map<Seq<char>, u64>, ls: Seq<(Seq<char>, u64)>) -> Seq<
    (Seq<char>, ChangeKind),
>
    decreases ls.len(),
{
    if ls.len() == 0 {
        Seq::empty()
    } else {
        let rest = changes(prev, ls.drop_last());
        match change_of(prev, ls.last()) {
            Some(kind) => rest.push((ls.last().0, kind)),
            None => rest,
        }
    }
}

/// The modification times recorded at the last poll.
pub struct WatchState {
    seen: StringHashMap<u64>,
}

impl View for WatchState {
    type V = Map<Seq<char>, u64>;

    closed spec fn view(&self) -> Map<Seq<char>, u64> {
        self.seen@
    }
}

impl WatchState {
    /// A state that has recorded no file.
    pub fn new() -> (r: WatchState)
        ensures
            r@ == Map::<Seq<char>, u64>::empty(),
    {
        WatchState { seen: StringHashMap::new() }
    }

    /// A state that records `listing`, so that its files raise no event.
    pub fn from_listing(listing: &Vec<FileStamp>) -> (r: WatchState)
        ensures
            r@ == stamps_map(stamp_views(listing@)),
    {
        let mut state = WatchState::new();
        let _ = state.poll(listing);
        state
    }

    /// Compares a fresh listing with the recorded one, returns the files to
    /// index again, and records the fresh listing.
    pub fn poll(&mut self, listing: &Vec<FileStamp>) -> (r: Vec<FileChange>)
        ensures
            change_views(r@) == changes(old(self)@, stamp_views(listing@)),
            final(self)@ == stamps_map(stamp_views(listing@)),
    {
        let ghost prev = self@;
        let ghost sv = stamp_views(listing@);
        let mut out: Vec<FileChange> = Vec::new();
        let mut next: StringHashMap<u64> = StringHashMap::new();
        let mut i: usize = 0;
        while i < listing.len()
            invariant
                i <= listing@.len(),
                prev == self@,
                sv == stamp_views(listing@),
                change_views(out@) == changes(prev, sv.subrange(0, i as int)),
                next@ == stamps_map(sv.subrange(0, i as int)),
            decreases listing@.len() - i,
        {
            let f = &listing[i];
            let ghost pre = sv.subrange(0, i as int);
            assert(sv.subrange(0, i + 1).drop_last() =~= pre);
            assert(sv.subrange(0, i + 1).last() == (f.path@, f.modified));
            let kind = match self.seen.get(f.path.as_str()) {
                None => Some(ChangeKind::Created),
                Some(before) => if *before < f.modified {
                    Some(ChangeKind::Modified)
                } else {
                    None
                },
            };
            match kind {
                Some(kind) => {
                    let c = FileChange { path: f.path.clone(), kind };
                    assert(change_views(out@.push(c)) =~= change_views(out@).push((c.path@, kind)));
                    out.push(c);
                },
                None => {},
            }
            next.insert(f.path.clone(), f.modified);
            i = i + 1;
        }
        assert(sv.subrange(0, listing@.len() as int) =~= sv);
        self.seen = next;
        out
    }
}

/// Whenever entry `k` of a listing raises an event, the events of that
/// listing include it.
proof fn lemma_change_listed(prev: Map<Seq<char>, u64>, ls: Seq<(Seq<char>, u64)>, k: int)
    requires
        0 <= k < ls.len(),
        change_of(prev, ls[k]) is Some,
    ensures
        changes(prev, ls).contains((ls[k].0, change_of(prev, ls[k])->0)),
    decreases ls.len(),
{
    let e = (ls[k].0, change_of(prev, ls[k])->0);
    let rest = changes(prev, ls.drop_last());
    if k == ls.len() - 1 {
        assert(changes(prev, ls) == rest.push(e));
        assert(changes(prev, ls)[rest.len() as int] == e);
    } else {
        assert(ls.drop_last()[k] == ls[k]);
        lemma_change_listed(prev, ls.drop_last(), k);
        let j = choose|j: int| 0 <= j < rest.len() && rest[j] == e;
        match change_of(prev, ls.last()) {
            Some(kind) => {
                assert(changes(prev, ls)[j] == rest.push((ls.last().0, kind))[j]);
            },
            None => {},
        }
        assert(changes(prev, ls)[j] == e);
    }
}

/// A rewritten file is picked up and its new text becomes searchable: a
/// listing entry whose time is later than the recorded one is reported as
/// modified; once its new text is indexed as a new document, a query made of
/// one of its terms finds that document, and the documents indexed before
/// (among them the file's previous text) are still found by their terms.
pub proof fn lemma_rewrite_round_trip(
    prev: Map<Seq<char>, u64>,
    listing: Seq<(Seq<char>, u64)>,
    k: int,
    docs: Corpus,
    name: Seq<char>,
    content: Seq<char>,
    query: Seq<char>,
    r: Seq<DocReference>,
)
    requires
        0 <= k < listing.len(),
        prev.contains_key(listing[k].0),
        prev[listing[k].0] < listing[k].1,
        terms_of(query).len() == 1,
        terms_of(content).contains(terms_of(query)[0]),
        is_search_result(r, docs.push((name, content)), terms_of(query)),
    ensures
        changes(prev, listing).contains((listing[k].0, ChangeKind::Modified)),
        lists_doc(r, docs.len() as int),
        forall|d: int|
            0 <= d < docs.len() && doc_terms(docs[d]).contains(terms_of(query)[0]) ==> lists_doc(
                r,
                d,
            ),
{
    lemma_change_listed(prev, listing, k);
    let nd = docs.push((name, content));
    assert(nd[docs.len() as int] == (name, content));
    lemma_own_term_finds_document(nd, docs.len() as int, query, r);
    assert forall|d: int|
        0 <= d < docs.len() && doc_terms(docs[d]).contains(terms_of(query)[0]) implies lists_doc(
        r,
        d,
    ) by {
        assert(nd[d] == docs[d]);
        lemma_own_term_finds_document(nd, d, query, r);
    }
}

} // verus!
