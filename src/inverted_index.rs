//! The inverted index: a document store and, for each term, the list of
//! documents that contain it.
//!
//! Documents are append-only. Adding a document whose name is already stored
//! (a file that changed on disk) creates a second, newer document; the older
//! one and its postings stay searchable.
use crate::text::{string_views, terms, terms_of};
use vstd::hash_map::StringHashMap;
use vstd::prelude::*;

verus! {

broadcast use vstd::seq_lib::lemma_seq_contains_after_push;

/// A stored document: the name it was indexed under and its text.
#[derive(Clone, Debug)]
pub struct Document {
    pub name: String,
    pub content: String,
}

impl View for Document {
    type V = (Seq<char>, Seq<char>);

    open spec fn view(&self) -> (Seq<char>, Seq<char>) {
        (self.name@, self.content@)
    }
}

/// A posting: a document and the number of times a term occurs in it.
#[derive(Clone, Copy, Debug, PartialEq, Eq, Hash)]
pub struct DocReference {
    pub doc_id: usize,
    pub matches: usize,
}

/// The abstract content of an index: its documents, indexed by id.
pub type Corpus = Seq<(Seq<char>, Seq<char>)>;

/// The terms of a document (given by its view).
pub open spec fn doc_terms(doc: (Seq<char>, Seq<char>)) -> Seq<Seq<char>> {
    terms_of(doc.1)
}

/// How many times `t` occurs in `ts`.
pub open spec fn occurrences(ts: Seq<Seq<char>>, t: Seq<char>) -> nat
    decreases ts.len(),
{
    if ts.len() == 0 {
        0
    } else {
        occurrences(ts.drop_last(), t) + if ts.last() == t {
            1nat
        } else {
            0nat
        }
    }
}

/// Whether document `d` of `docs` contains the term `t`.
pub open spec fn doc_has(docs: Corpus, d: int, t: Seq<char>) -> bool {
    0 <= d < docs.len() && doc_terms(docs[d]).contains(t)
}

/// Whether some document of `docs` contains the term `t`.
pub open spec fn in_corpus(docs: Corpus, t: Seq<char>) -> bool {
    exists|d: int| #[trigger] doc_has(docs, d, t)
}

/// The distinct terms of all documents.
pub open spec fn vocabulary(docs: Corpus) -> Set<Seq<char>> {
    Set::new(|t: Seq<char>| in_corpus(docs, t))
}

/// Whether the document ids of `list` strictly increase.
pub open spec fn sorted_ids(list: Seq<DocReference>) -> bool {
    forall|i: int, j: int|
        0 <= i < j < list.len() ==> #[trigger] list[i].doc_id < #[trigger] list[j].doc_id
}

/// Whether `list` holds an entry for document `d`.
pub open spec fn lists_doc(list: Seq<DocReference>, d: int) -> bool {
    exists|i: int| 0 <= i < list.len() && #[trigger] list[i].doc_id == d
}

/// Whether `list` is the posting list of `t` over `docs`: one entry for each
/// document that contains `t`, in increasing id order, each with the number
/// of occurrences of `t` in that document.
pub open spec fn is_posting_list(list: Seq<DocReference>, docs: Corpus, t: Seq<char>) -> bool {
    &&& sorted_ids(list)
    &&& forall|i: int|
        0 <= i < list.len() ==> {
            &&& #[trigger] doc_has(docs, list[i].doc_id as int, t)
            &&& list[i].matches == occurrences(doc_terms(docs[list[i].doc_id as int]), t)
        }
    &&& forall|d: int| #[trigger] doc_has(docs, d, t) ==> lists_doc(list, d)
}

/// Whether document `d` of `docs` contains every term of `q`.
pub open spec fn has_all_terms(docs: Corpus, d: int, q: Seq<Seq<char>>) -> bool {
    0 <= d < docs.len() && forall|k: int| 0 <= k < q.len() ==> #[trigger] doc_has(docs, d, q[k])
}

/// Whether `r` answers the query terms `q` over `docs`: the documents that
/// contain every term of `q`, in increasing id order, each with the number
/// of occurrences of the first query term. An empty `q` matches nothing.
pub open spec fn is_search_result(r: Seq<DocReference>, docs: Corpus, q: Seq<Seq<char>>) -> bool {
    &&& sorted_ids(r)
    &&& forall|i: int|
        0 <= i < r.len() ==> {
            &&& q.len() > 0
            &&& #[trigger] has_all_terms(docs, r[i].doc_id as int, q)
            &&& r[i].matches == occurrences(doc_terms(docs[r[i].doc_id as int]), q[0])
        }
    &&& forall|d: int| q.len() > 0 && #[trigger] has_all_terms(docs, d, q) ==> lists_doc(r, d)
}

/// An inverted index over documents that are numbered from 0 in the order in
/// which they are added.
///
/// Adding takes `&mut self` and reading takes `&self`, so an index shared
/// behind a reader-writer lock lets searches and lookups run side by side
/// while each addition excludes every other access; the lock order of the
/// additions is then the order in which ids are handed out.
pub struct InvertedIndex {
    /// The slot in `postings` of each term.
    slots: StringHashMap<usize>,
    postings: Vec<Vec<DocReference>>,
    documents: Vec<Document>,
}

impl View for InvertedIndex {
    type V = Corpus;

    closed spec fn view(&self) -> Corpus {
        self.documents@.map_values(|d: Document| d@)
    }
}

impl InvertedIndex {
    /// The posting list that slot `s` holds.
    closed spec fn list_at(&self, s: usize) -> Seq<DocReference> {
        self.postings@[s as int]@
    }

    /// Whether the term map and postings describe the stored documents.
    pub closed spec fn wf(&self) -> bool {
        &&& forall|t: Seq<char>| #[trigger]
            self.slots@.contains_key(t) ==> self.slots@[t] < self.postings@.len()
                && is_posting_list(self.list_at(self.slots@[t]), self@, t)
        &&& forall|t1: Seq<char>, t2: Seq<char>|
            self.slots@.contains_key(t1) && self.slots@.contains_key(t2) && t1 != t2
                ==> #[trigger] self.slots@[t1] != #[trigger] self.slots@[t2]
        &&& forall|t: Seq<char>| #[trigger] self.slots@.contains_key(t) <==> in_corpus(self@, t)
    }

    /// An empty index.
    pub fn new() -> (r: InvertedIndex)
        ensures
            r.wf(),
            r@ == Seq::<(Seq<char>, Seq<char>)>::empty(),
    {
        let r = InvertedIndex {
            slots: StringHashMap::new(),
            postings: Vec::new(),
            documents: Vec::new(),
        };
        assert(r@ =~= Seq::<(Seq<char>, Seq<char>)>::empty());
        r
    }

    /// The terms of `text`, normalised as documents and queries are.
    pub fn tokenize(&self, text: &str) -> (r: Vec<String>)
        ensures
            string_views(r@) == terms_of(text@),
    {
        terms(text)
    }

    /// Stores `document` under the next id (the number of documents stored
    /// so far) and records a posting for each of its distinct terms.
    pub fn add_document(&mut self, document: Document) -> (id: usize)
        requires
            old(self).wf(),
        ensures
            final(self).wf(),
            id == old(self)@.len(),
            final(self)@ == old(self)@.push(document@),
    {
        let id = self.documents.len();
        let ts = terms(document.content.as_str());
        let (distinct, counts) = count_terms(&ts);
        let ghost old_docs = self@;
        let ghost x = document@;
        let ghost dv = string_views(distinct@);
        let ghost tv = string_views(ts@);
        self.documents.push(document);
        proof {
            assert(self@ =~= old_docs.push(x));
            assert forall|t: Seq<char>| #[trigger]
                self.slots@.contains_key(t) && !tv.contains(t) implies is_posting_list(
                self.list_at(self.slots@[t]),
                self@,
                t,
            ) by {
                lemma_posting_keep(self.list_at(self.slots@[t]), old_docs, x, t);
            }
        }
        let mut k: usize = 0;
        while k < distinct.len()
            invariant
                k <= distinct@.len(),
                distinct@.len() == counts@.len(),
                dv == string_views(distinct@),
                dv.no_duplicates(),
                forall|t: Seq<char>| dv.contains(t) <==> tv.contains(t),
                forall|j: int|
                    0 <= j < counts@.len() ==> counts@[j] == occurrences(tv, #[trigger] dv[j]),
                tv == doc_terms(x),
                id == old_docs.len(),
                self@ == old_docs.push(x),
                forall|t: Seq<char>| #[trigger]
                    self.slots@.contains_key(t) ==> self.slots@[t] < self.postings@.len() && if dv.subrange(
                        0,
                        k as int,
                    ).contains(t) || !tv.contains(t) {
                        is_posting_list(self.list_at(self.slots@[t]), self@, t)
                    } else {
                        is_posting_list(self.list_at(self.slots@[t]), old_docs, t)
                    },
                forall|t1: Seq<char>, t2: Seq<char>|
                    self.slots@.contains_key(t1) && self.slots@.contains_key(t2) && t1 != t2
                        ==> #[trigger] self.slots@[t1] != #[trigger] self.slots@[t2],
                forall|t: Seq<char>| #[trigger]
                    self.slots@.contains_key(t) <==> (in_corpus(old_docs, t) || dv.subrange(
                        0,
                        k as int,
                    ).contains(t)),
            decreases distinct@.len() - k,
        {
            let ghost t = dv[k as int];
            let r = DocReference { doc_id: id, matches: counts[k] };
            proof {
                assert(dv.subrange(0, k + 1) =~= dv.subrange(0, k as int).push(t));
                assert(!dv.subrange(0, k as int).contains(t)) by {
                    if dv.subrange(0, k as int).contains(t) {
                        let j = choose|j: int| 0 <= j < k && dv.subrange(0, k as int)[j] == t;
                        assert(dv[j] == dv[k as int]);
                    }
                }
                assert(dv.contains(t));
            }
            let ghost before = *self;
            match self.slots.get(distinct[k].as_str()) {
                Some(slot) => {
                    let s = *slot;
                    proof {
                        lemma_posting_append(self.list_at(s), old_docs, x, t, r);
                    }
                    push_posting(&mut self.postings, s, r);
                },
                None => {
                    proof {
                        lemma_posting_empty(old_docs, t);
                        lemma_posting_append(Seq::empty(), old_docs, x, t, r);
                    }
                    let s = self.postings.len();
                    let mut list: Vec<DocReference> = Vec::new();
                    list.push(r);
                    assert(list@ =~= Seq::<DocReference>::empty().push(r));
                    self.postings.push(list);
                    self.slots.insert(distinct[k].clone(), s);
                },
            }
            proof {
                assert forall|t2: Seq<char>| #[trigger]
                    self.slots@.contains_key(t2) && t2 != t implies self.slots@[t2] == before.slots@[t2]
                    && self.list_at(self.slots@[t2]) == before.list_at(before.slots@[t2]) by {
                    assert(before.slots@.contains_key(t2));
                }
            }
            k = k + 1;
        }
        proof {
            assert(dv.subrange(0, distinct@.len() as int) =~= dv);
            assert forall|t: Seq<char>| #[trigger]
                self.slots@.contains_key(t) <==> in_corpus(self@, t) by {
                lemma_in_corpus_push(old_docs, x, t);
            }
        }
        id
    }

    /// The documents that contain every term of `query`, in increasing id
    /// order, each with the number of occurrences of the query's first term.
    /// A query without terms, or with a term that no document holds, matches
    /// nothing.
    pub fn search(&self, query: &str) -> (r: Vec<DocReference>)
        requires
            self.wf(),
        ensures
            is_search_result(r@, self@, terms_of(query@)),
    {
        let q = terms(query);
        let ghost qv = string_views(q@);
        let ghost docs = self@;
        if q.len() == 0 {
            return Vec::new();
        }
        let first = match self.slots.get(q[0].as_str()) {
            Some(s) => *s,
            None => {
                proof {
                    lemma_missing_term_matches_nothing(docs, qv, 0);
                }
                return Vec::new();
            },
        };
        let mut acc = copy_list(&self.postings[first]);
        proof {
            assert forall|d: int| #[trigger] has_all_terms(docs, d, qv.subrange(0, 1)) <==> doc_has(
                docs,
                d,
                qv[0],
            ) by {
                if has_all_terms(docs, d, qv.subrange(0, 1)) {
                    assert(doc_has(docs, d, qv.subrange(0, 1)[0]));
                }
            }
        }
        let mut k: usize = 1;
        while k < q.len()
            invariant
                1 <= k <= q@.len(),
                qv == string_views(q@),
                qv == terms_of(query@),
                docs == self@,
                self.wf(),
                sorted_ids(acc@),
                forall|i: int|
                    0 <= i < acc@.len() ==> {
                        &&& #[trigger] has_all_terms(docs, acc@[i].doc_id as int, qv.subrange(0, k as int))
                        &&& acc@[i].matches == occurrences(doc_terms(docs[acc@[i].doc_id as int]), qv[0])
                    },
                forall|d: int| #[trigger] has_all_terms(docs, d, qv.subrange(0, k as int)) ==> lists_doc(acc@, d),
            decreases q@.len() - k,
        {
            let ghost t = qv[k as int];
            let ghost pre = qv.subrange(0, k as int);
            let ghost next = qv.subrange(0, k + 1);
            proof {
                assert forall|d: int| #[trigger] has_all_terms(docs, d, next) <==> has_all_terms(docs, d, pre)
                    && doc_has(docs, d, t) by {
                    if has_all_terms(docs, d, next) {
                        assert(doc_has(docs, d, next[k as int]));
                        assert forall|j: int| 0 <= j < pre.len() implies #[trigger] doc_has(docs, d, pre[j]) by {
                            assert(doc_has(docs, d, next[j]));
                        }
                    }
                    if has_all_terms(docs, d, pre) && doc_has(docs, d, t) {
                        assert forall|j: int| 0 <= j < next.len() implies #[trigger] doc_has(docs, d, next[j]) by {
                            if j < k {
                                assert(doc_has(docs, d, pre[j]));
                            }
                        }
                    }
                }
            }
            let slot = match self.slots.get(q[k].as_str()) {
                Some(s) => *s,
                None => {
                    proof {
                        assert(!self.slots@.contains_key(q@[k as int]@));
                        lemma_missing_term_matches_nothing(docs, qv, k as int);
                    }
                    return Vec::new();
                },
            };
            let ghost list = self.list_at(slot);
            let ghost prev = acc@;
            assert(is_posting_list(list, docs, t)) by {
                assert(self.slots@.contains_key(q@[k as int]@));
            }
            acc = intersect(&acc, &self.postings[slot]);
            proof {
                assert forall|i: int| 0 <= i < acc@.len() implies {
                    &&& #[trigger] has_all_terms(docs, acc@[i].doc_id as int, next)
                    &&& acc@[i].matches == occurrences(doc_terms(docs[acc@[i].doc_id as int]), qv[0])
                } by {
                    let d = acc@[i].doc_id as int;
                    let j = choose|j: int| 0 <= j < list.len() && #[trigger] list[j].doc_id == d;
                    assert(doc_has(docs, list[j].doc_id as int, t));
                    let y = choose|y: int| 0 <= y < prev.len() && prev[y] == acc@[i];
                    assert(has_all_terms(docs, prev[y].doc_id as int, pre));
                }
                assert forall|d: int| #[trigger] has_all_terms(docs, d, next) implies lists_doc(acc@, d) by {
                    assert(has_all_terms(docs, d, pre));
                    assert(lists_doc(prev, d));
                    assert(doc_has(docs, d, t));
                }
            }
            k = k + 1;
        }
        assert(qv.subrange(0, q@.len() as int) =~= qv);
        acc
    }

    /// The number of documents stored.
    pub fn document_count(&self) -> (r: usize)
        ensures
            r == self@.len(),
    {
        self.documents.len()
    }

    /// The number of distinct terms over all stored documents.
    pub fn term_count(&self) -> (r: usize)
        requires
            self.wf(),
        ensures
            r == vocabulary(self@).len(),
    {
        assert(self.slots@.dom() =~= vocabulary(self@));
        self.slots.len()
    }

    /// The document stored under `doc_id`, or `None` where no document has
    /// that id.
    pub fn get_document(&self, doc_id: usize) -> (r: Option<Document>)
        ensures
            match r {
                Some(d) => doc_id < self@.len() && d@ == self@[doc_id as int],
                None => doc_id >= self@.len(),
            },
    {
        if doc_id < self.documents.len() {
            let d = &self.documents[doc_id];
            Some(Document { name: d.name.clone(), content: d.content.clone() })
        } else {
            None
        }
    }
}

proof fn lemma_occurrences_push(ts: Seq<Seq<char>>, x: Seq<char>, t: Seq<char>)
    ensures
        occurrences(ts.push(x), t) == occurrences(ts, t) + if x == t {
            1nat
        } else {
            0nat
        },
{
    assert(ts.push(x).drop_last() =~= ts);
}

proof fn lemma_occurrences_bound(ts: Seq<Seq<char>>, t: Seq<char>)
    ensures
        occurrences(ts, t) <= ts.len(),
        occurrences(ts, t) > 0 <==> ts.contains(t),
    decreases ts.len(),
{
    if ts.len() > 0 {
        lemma_occurrences_bound(ts.drop_last(), t);
        assert(ts =~= ts.drop_last().push(ts.last()));
        if ts.drop_last().contains(t) {
            let i = choose|i: int| 0 <= i < ts.drop_last().len() && ts.drop_last()[i] == t;
            assert(ts[i] == t);
        }
        if ts.contains(t) && ts.last() != t {
            let i = choose|i: int| 0 <= i < ts.len() && ts[i] == t;
            assert(ts.drop_last()[i] == t);
        }
    }
}

/// The distinct terms of `ts`, in order of first occurrence, with the number
/// of times each occurs.
fn count_terms(ts: &Vec<String>) -> (r: (Vec<String>, Vec<usize>))
    ensures
        string_views(r.0@).no_duplicates(),
        r.0@.len() == r.1@.len(),
        forall|t: Seq<char>| string_views(r.0@).contains(t) <==> string_views(ts@).contains(t),
        forall|k: int|
            0 <= k < r.1@.len() ==> r.1@[k] == occurrences(
                string_views(ts@),
                #[trigger] string_views(r.0@)[k],
            ),
{
    let ghost all = string_views(ts@);
    let mut distinct: Vec<String> = Vec::new();
    let mut counts: Vec<usize> = Vec::new();
    let mut pos: StringHashMap<usize> = StringHashMap::new();
    let mut i: usize = 0;
    while i < ts.len()
        invariant
            i <= ts@.len(),
            all == string_views(ts@),
            string_views(distinct@).no_duplicates(),
            distinct@.len() == counts@.len(),
            forall|t: Seq<char>| #[trigger]
                pos@.contains_key(t) <==> all.subrange(0, i as int).contains(t),
            forall|t: Seq<char>| #[trigger]
                pos@.contains_key(t) ==> pos@[t] < distinct@.len() && string_views(
                    distinct@,
                )[pos@[t] as int] == t,
            forall|k: int|
                0 <= k < distinct@.len() ==> #[trigger] pos@.contains_key(
                    string_views(distinct@)[k],
                ),
            forall|k: int|
                0 <= k < counts@.len() ==> counts@[k] == occurrences(
                    all.subrange(0, i as int),
                    #[trigger] string_views(distinct@)[k],
                ) && counts@[k] <= i,
        decreases ts@.len() - i,
    {
        let ghost pre = all.subrange(0, i as int);
        let ghost dv = string_views(distinct@);
        assert(all.subrange(0, i + 1) =~= pre.push(all[i as int]));
        proof {
            assert forall|k: int| 0 <= k < dv.len() implies occurrences(
                pre.push(all[i as int]),
                #[trigger] dv[k],
            ) == occurrences(pre, dv[k]) + if all[i as int] == dv[k] {
                1nat
            } else {
                0nat
            } by {
                lemma_occurrences_push(pre, all[i as int], dv[k]);
            }
        }
        let t = &ts[i];
        match pos.get(t.as_str()) {
            Some(k) => {
                let k = *k;
                let c = counts[k];
                counts.set(k, c + 1);
                assert forall|k2: int| 0 <= k2 < dv.len() && k2 != k implies dv[k2] != all[i as int] by {
                    assert(dv[k2] != dv[k as int]);
                }
            },
            None => {
                let key = t.clone();
                proof {
                    lemma_occurrences_bound(pre, all[i as int]);
                    lemma_occurrences_push(pre, all[i as int], all[i as int]);
                    assert forall|k2: int| 0 <= k2 < dv.len() implies dv[k2] != all[i as int] by {
                        assert(pos@.contains_key(dv[k2]));
                    }
                    assert(string_views(distinct@.push(key)) =~= dv.push(all[i as int]));
                }
                let idx = distinct.len();
                distinct.push(key);
                counts.push(1);
                pos.insert(t.clone(), idx);
            },
        }
        i = i + 1;
    }
    assert(all.subrange(0, ts@.len() as int) =~= all);
    assert forall|t: Seq<char>| string_views(distinct@).contains(t) <==> all.contains(t) by {
        if string_views(distinct@).contains(t) {
            let k = choose|k: int|
                0 <= k < distinct@.len() && #[trigger] string_views(distinct@)[k] == t;
            assert(pos@.contains_key(string_views(distinct@)[k]));
        }
        if all.contains(t) {
            assert(pos@.contains_key(t));
            assert(string_views(distinct@)[pos@[t] as int] == t);
        }
    }
    (distinct, counts)
}

/// Appends `r` to the posting list in slot `s`.
fn push_posting(postings: &mut Vec<Vec<DocReference>>, s: usize, r: DocReference)
    requires
        s < old(postings)@.len(),
    ensures
        final(postings)@.len() == old(postings)@.len(),
        forall|j: int|
            0 <= j < old(postings)@.len() && j != s ==> #[trigger] final(postings)@[j] == old(
                postings,
            )@[j],
        final(postings)@[s as int]@ == old(postings)@[s as int]@.push(r),
{
    postings[s].push(r);
}

/// A term occurs in the corpus with one more document exactly when it occurs
/// in the corpus before or in that document.
proof fn lemma_in_corpus_push(docs: Corpus, x: (Seq<char>, Seq<char>), t: Seq<char>)
    ensures
        in_corpus(docs.push(x), t) <==> in_corpus(docs, t) || doc_terms(x).contains(t),
{
    let nd = docs.push(x);
    if in_corpus(docs, t) {
        let d = choose|d: int| #[trigger] doc_has(docs, d, t);
        assert(doc_has(nd, d, t));
    }
    if doc_terms(x).contains(t) {
        assert(doc_has(nd, docs.len() as int, t));
    }
    if in_corpus(nd, t) {
        let d = choose|d: int| #[trigger] doc_has(nd, d, t);
        if d < docs.len() {
            assert(doc_has(docs, d, t));
        }
    }
}

/// A copy of `list`.
fn copy_list(list: &Vec<DocReference>) -> (r: Vec<DocReference>)
    ensures
        r@ == list@,
{
    let mut r: Vec<DocReference> = Vec::new();
    let mut i: usize = 0;
    while i < list.len()
        invariant
            i <= list@.len(),
            r@ == list@.subrange(0, i as int),
        decreases list@.len() - i,
    {
        r.push(list[i]);
        assert(r@ =~= list@.subrange(0, i + 1));
        i = i + 1;
    }
    assert(list@.subrange(0, list@.len() as int) =~= list@);
    r
}

/// The entries of `a` whose document `b` lists, in the order of `a`.
fn intersect(a: &Vec<DocReference>, b: &Vec<DocReference>) -> (r: Vec<DocReference>)
    requires
        sorted_ids(a@),
        sorted_ids(b@),
    ensures
        sorted_ids(r@),
        forall|x: int|
            0 <= x < r@.len() ==> a@.contains(#[trigger] r@[x]) && lists_doc(b@, r@[x].doc_id as int),
        forall|d: int| lists_doc(a@, d) && lists_doc(b@, d) ==> #[trigger] lists_doc(r@, d),
{
    let mut r: Vec<DocReference> = Vec::new();
    let ghost mut src: Seq<int> = Seq::empty();
    let mut i: usize = 0;
    let mut j: usize = 0;
    while i < a.len() && j < b.len()
        invariant
            sorted_ids(a@),
            sorted_ids(b@),
            i <= a@.len(),
            j <= b@.len(),
            sorted_ids(r@),
            src.len() == r@.len(),
            forall|x: int|
                0 <= x < r@.len() ==> 0 <= #[trigger] src[x] < i && a@[src[x]] == r@[x]
                    && lists_doc(b@, r@[x].doc_id as int),
            forall|y: int|
                0 <= y < i && lists_doc(b@, #[trigger] a@[y].doc_id as int) ==> lists_doc(
                    r@,
                    a@[y].doc_id as int,
                ),
            forall|z: int| 0 <= z < j && i < a@.len() ==> #[trigger] b@[z].doc_id < a@[i as int].doc_id,
        decreases a@.len() - i + b@.len() - j,
    {
        let ai = a[i];
        let bj = b[j];
        if ai.doc_id < bj.doc_id {
            proof {
                assert forall|z: int| 0 <= z < b@.len() implies #[trigger] b@[z].doc_id != ai.doc_id by {
                    if z > j {
                        assert(b@[j as int].doc_id < b@[z].doc_id);
                    }
                }
                if i + 1 < a@.len() {
                    assert(a@[i as int].doc_id < a@[i + 1].doc_id);
                }
            }
            i = i + 1;
        } else if ai.doc_id > bj.doc_id {
            j = j + 1;
        } else {
            let ghost old_r = r@;
            let ghost old_src = src;
            proof {
                assert forall|x: int| 0 <= x < old_r.len() implies #[trigger] old_r[x].doc_id < ai.doc_id by {
                    assert(a@[src[x]].doc_id < a@[i as int].doc_id);
                }
                assert(lists_doc(b@, ai.doc_id as int)) by {
                    assert(b@[j as int].doc_id == ai.doc_id);
                }
                if i + 1 < a@.len() {
                    assert forall|z: int| 0 <= z < j + 1 implies #[trigger] b@[z].doc_id < a@[i + 1].doc_id by {
                        assert(a@[i as int].doc_id < a@[i + 1].doc_id);
                        if z < j {
                            assert(b@[z].doc_id < b@[j as int].doc_id);
                        }
                    }
                }
            }
            r.push(ai);
            proof {
                src = src.push(i as int);
                assert(r@ == old_r.push(ai));
                assert forall|x: int| 0 <= x < r@.len() implies 0 <= #[trigger] src[x] < i + 1 && a@[src[x]]
                    == r@[x] && lists_doc(b@, r@[x].doc_id as int) by {
                    if x < old_r.len() {
                        assert(src[x] == old_src[x]);
                        assert(r@[x] == old_r[x]);
                    }
                }
                assert forall|y: int| 0 <= y < i + 1 && lists_doc(b@, #[trigger] a@[y].doc_id as int) implies lists_doc(
                    r@,
                    a@[y].doc_id as int,
                ) by {
                    if y == i {
                        assert(r@[old_r.len() as int].doc_id == a@[y].doc_id);
                    } else {
                        let x = choose|x: int| 0 <= x < old_r.len() && #[trigger] old_r[x].doc_id == a@[y].doc_id;
                        assert(r@[x] == old_r[x]);
                    }
                }
            }
            i = i + 1;
            j = j + 1;
        }
    }
    proof {
        assert forall|d: int| lists_doc(a@, d) && lists_doc(b@, d) implies #[trigger] lists_doc(r@, d) by {
            let y = choose|y: int| 0 <= y < a@.len() && #[trigger] a@[y].doc_id == d;
            if y >= i {
                let z = choose|z: int| 0 <= z < b@.len() && #[trigger] b@[z].doc_id == d;
                assert(j == b@.len());
                assert(b@[z].doc_id < a@[i as int].doc_id);
                if y > i {
                    assert(a@[i as int].doc_id < a@[y].doc_id);
                }
            }
            assert(lists_doc(b@, a@[y].doc_id as int));
        }
        assert forall|x: int| 0 <= x < r@.len() implies a@.contains(#[trigger] r@[x]) && lists_doc(
            b@,
            r@[x].doc_id as int,
        ) by {
            assert(a@[src[x]] == r@[x]);
        }
    }
    r
}

/// A query with a term that no document holds matches no document.
proof fn lemma_missing_term_matches_nothing(docs: Corpus, q: Seq<Seq<char>>, k: int)
    requires
        0 <= k < q.len(),
        !in_corpus(docs, q[k]),
    ensures
        is_search_result(Seq::empty(), docs, q),
{
    assert forall|d: int| !#[trigger] has_all_terms(docs, d, q) by {
        if has_all_terms(docs, d, q) {
            assert(doc_has(docs, d, q[k]));
        }
    }
}

/// A term that no document holds has the empty posting list.
proof fn lemma_posting_empty(docs: Corpus, t: Seq<char>)
    requires
        !in_corpus(docs, t),
    ensures
        is_posting_list(Seq::empty(), docs, t),
{
}

/// Adding a document that lacks `t` keeps the posting list of `t`.
proof fn lemma_posting_keep(list: Seq<DocReference>, docs: Corpus, x: (Seq<char>, Seq<char>), t: Seq<char>)
    requires
        is_posting_list(list, docs, t),
        !doc_terms(x).contains(t),
    ensures
        is_posting_list(list, docs.push(x), t),
{
    let nd = docs.push(x);
    assert forall|i: int| 0 <= i < list.len() implies #[trigger] doc_has(nd, list[i].doc_id as int, t)
        && list[i].matches == occurrences(doc_terms(nd[list[i].doc_id as int]), t) by {
        assert(doc_has(docs, list[i].doc_id as int, t));
    }
    assert forall|d: int| #[trigger] doc_has(nd, d, t) implies lists_doc(list, d) by {
        assert(doc_has(docs, d, t));
    }
}

/// Adding a document that holds `t` appends its entry to the posting list of `t`.
proof fn lemma_posting_append(
    list: Seq<DocReference>,
    docs: Corpus,
    x: (Seq<char>, Seq<char>),
    t: Seq<char>,
    r: DocReference,
)
    requires
        is_posting_list(list, docs, t),
        doc_terms(x).contains(t),
        r.doc_id == docs.len(),
        r.matches == occurrences(doc_terms(x), t),
    ensures
        is_posting_list(list.push(r), docs.push(x), t),
{
    let nd = docs.push(x);
    let nl = list.push(r);
    assert forall|i: int, j: int| 0 <= i < j < nl.len() implies #[trigger] nl[i].doc_id
        < #[trigger] nl[j].doc_id by {
        if j < list.len() {
            assert(nl[i] == list[i] && nl[j] == list[j]);
        } else {
            assert(doc_has(docs, list[i].doc_id as int, t));
        }
    }
    assert forall|i: int| 0 <= i < nl.len() implies #[trigger] doc_has(nd, nl[i].doc_id as int, t)
        && nl[i].matches == occurrences(doc_terms(nd[nl[i].doc_id as int]), t) by {
        if i < list.len() {
            assert(nl[i] == list[i]);
            assert(doc_has(docs, list[i].doc_id as int, t));
        } else {
            assert(nd[docs.len() as int] == x);
        }
    }
    assert forall|d: int| #[trigger] doc_has(nd, d, t) implies lists_doc(nl, d) by {
        if d < docs.len() {
            assert(doc_has(docs, d, t));
            let i = choose|i: int| 0 <= i < list.len() && #[trigger] list[i].doc_id == d;
            assert(nl[i] == list[i]);
        } else {
            assert(nl[list.len() as int] == r);
        }
    }
}

/// Ids are handed out densely: along any run of `add_document` calls that
/// starts from a new index, the call numbered `i` (from 0) receives id `i`,
/// so no two calls receive the same id, and the store ends up holding the
/// added documents in call order. Calls made from several threads through a
/// lock form such a run, in the order in which they took the lock.
pub proof fn lemma_ids_are_dense(states: Seq<Corpus>, added: Corpus, ids: Seq<int>)
    requires
        states.len() == added.len() + 1,
        ids.len() == added.len(),
        states[0] == Seq::<(Seq<char>, Seq<char>)>::empty(),
        forall|i: int|
            0 <= i < added.len() ==> #[trigger] states[i + 1] == states[i].push(added[i])
                && ids[i] == states[i].len(),
    ensures
        forall|i: int| 0 <= i < ids.len() ==> #[trigger] ids[i] == i,
        forall|i: int, j: int| 0 <= i < j < ids.len() ==> #[trigger] ids[i] != #[trigger] ids[j],
        states.last() == added,
{
    assert forall|i: int| 0 <= i <= added.len() implies #[trigger] states[i] == added.subrange(0, i) by {
        lemma_states_are_prefixes(states, added, i);
    }
    assert(states[added.len() as int] == added.subrange(0, added.len() as int));
    assert(added.subrange(0, added.len() as int) =~= added);
    assert forall|i: int| 0 <= i < ids.len() implies #[trigger] ids[i] == i by {
        assert(states[i] == added.subrange(0, i));
        assert(states[i + 1] == states[i].push(added[i]));
    }
}

proof fn lemma_states_are_prefixes(states: Seq<Corpus>, added: Corpus, i: int)
    requires
        states.len() == added.len() + 1,
        states[0] == Seq::<(Seq<char>, Seq<char>)>::empty(),
        forall|i: int|
            0 <= i < added.len() ==> #[trigger] states[i + 1] == states[i].push(added[i]),
        0 <= i <= added.len(),
    ensures
        states[i] == added.subrange(0, i),
    decreases i,
{
    if i == 0 {
        assert(added.subrange(0, 0) =~= Seq::<(Seq<char>, Seq<char>)>::empty());
    } else {
        lemma_states_are_prefixes(states, added, i - 1);
        assert(states[(i - 1) + 1] == states[i - 1].push(added[i - 1]));
        assert(added.subrange(0, i - 1).push(added[i - 1]) =~= added.subrange(0, i));
    }
}

/// A query whose only term occurs in a document finds that document: indexing
/// and querying normalise text the same way.
pub proof fn lemma_own_term_finds_document(docs: Corpus, d: int, query: Seq<char>, r: Seq<DocReference>)
    requires
        0 <= d < docs.len(),
        terms_of(query).len() == 1,
        doc_terms(docs[d]).contains(terms_of(query)[0]),
        is_search_result(r, docs, terms_of(query)),
    ensures
        lists_doc(r, d),
{
    let q = terms_of(query);
    assert forall|k: int| 0 <= k < q.len() implies #[trigger] doc_has(docs, d, q[k]) by {
        assert(k == 0);
    }
    assert(has_all_terms(docs, d, q));
}

/// A query answers exactly the documents that contain every one of its terms.
pub proof fn lemma_search_is_conjunction(docs: Corpus, query: Seq<char>, r: Seq<DocReference>)
    requires
        terms_of(query).len() > 0,
        is_search_result(r, docs, terms_of(query)),
    ensures
        forall|d: int|
            #[trigger] lists_doc(r, d) <==> 0 <= d < docs.len() && forall|k: int|
                0 <= k < terms_of(query).len() ==> doc_terms(docs[d]).contains(
                    #[trigger] terms_of(query)[k],
                ),
{
    let q = terms_of(query);
    assert forall|d: int| #[trigger] lists_doc(r, d) <==> has_all_terms(docs, d, q) by {
        if lists_doc(r, d) {
            let i = choose|i: int| 0 <= i < r.len() && #[trigger] r[i].doc_id == d;
            assert(has_all_terms(docs, r[i].doc_id as int, q));
        }
    }
    assert forall|d: int| has_all_terms(docs, d, q) <==> 0 <= d < docs.len() && forall|k: int|
        0 <= k < q.len() ==> doc_terms(docs[d]).contains(#[trigger] q[k]) by {
        if 0 <= d < docs.len() && forall|k: int|
            0 <= k < q.len() ==> doc_terms(docs[d]).contains(#[trigger] q[k]) {
            assert forall|k: int| 0 <= k < q.len() implies #[trigger] doc_has(docs, d, q[k]) by {
                assert(doc_terms(docs[d]).contains(q[k]));
            }
        }
        if has_all_terms(docs, d, q) {
            assert forall|k: int| 0 <= k < q.len() implies doc_terms(docs[d]).contains(#[trigger] q[k]) by {
                assert(doc_has(docs, d, q[k]));
            }
        }
    }
}

/// A query with a term that no document holds answers nothing, whatever its
/// other terms.
pub proof fn lemma_absent_term_empties_result(docs: Corpus, query: Seq<char>, k: int, r: Seq<DocReference>)
    requires
        0 <= k < terms_of(query).len(),
        !in_corpus(docs, terms_of(query)[k]),
        is_search_result(r, docs, terms_of(query)),
    ensures
        r.len() == 0,
{
    let q = terms_of(query);
    if r.len() > 0 {
        assert(has_all_terms(docs, r[0].doc_id as int, q));
        assert(doc_has(docs, r[0].doc_id as int, q[k]));
    }
}

} // verus!
