//! One named index: its mappings, its documents in insertion order, and its
//! aliases, with the count and search entry points.

use crate::document::{doc_view, same_text, Document, Mapping};
use crate::query::{query_matches, query_score, Query};
use crate::value::ValueView;
use vstd::prelude::*;
use vstd::string::*;

verus! {

/// The keys of a keyed sequence.
pub open spec fn keys_of<V>(s: Seq<(String, V)>) -> Seq<Seq<char>> {
    s.map_values(|e: (String, V)| e.0@)
}

/// No key occurs twice.
pub open spec fn unique(ks: Seq<Seq<char>>) -> bool {
    forall|i: int, j: int| 0 <= i < j < ks.len() ==> ks[i] != ks[j]
}

/// The documents of an index as ids with document views.
pub open spec fn entries_view(docs: Seq<(String, Document)>) -> Seq<
    (Seq<char>, Seq<(Seq<char>, ValueView)>),
> {
    docs.map_values(|e: (String, Document)| (e.0@, doc_view(e.1.fields@)))
}

/// How many of the first `n` documents a query matches.
pub open spec fn count_docs(q: Query, es: Seq<(Seq<char>, Seq<(Seq<char>, ValueView)>)>, n: int) -> nat
    decreases n,
{
    if n <= 0 || n > es.len() {
        0
    } else {
        count_docs(q, es, n - 1) + if query_matches(q, es[n - 1].1) {
            1nat
        } else {
            0nat
        }
    }
}

/// The positions of those of the first `n` documents that a query matches.
pub open spec fn matching_positions(q: Query, es: Seq<(Seq<char>, Seq<(Seq<char>, ValueView)>)>, n: int) -> Set<int> {
    Set::new(|k: int| 0 <= k < n && query_matches(q, es[k].1))
}

proof fn lemma_matching_positions_len(q: Query, es: Seq<(Seq<char>, Seq<(Seq<char>, ValueView)>)>, n: int)
    requires
        0 <= n <= es.len(),
    ensures
        matching_positions(q, es, n).finite(),
        matching_positions(q, es, n).len() == count_docs(q, es, n),
    decreases n,
{
    if n == 0 {
        assert(matching_positions(q, es, n) =~= Set::<int>::empty());
    } else {
        lemma_matching_positions_len(q, es, n - 1);
        if query_matches(q, es[n - 1].1) {
            assert(matching_positions(q, es, n) =~= matching_positions(q, es, n - 1).insert(n - 1));
        } else {
            assert(matching_positions(q, es, n) =~= matching_positions(q, es, n - 1));
        }
    }
}

/// Count and search agree: a hit list as `search` describes it, ranked,
/// of true hits, and as long as the number `count` returns, holds every
/// matching document, and each only once.
pub proof fn lemma_search_lists_each_match_once(
    q: Query,
    es: Seq<(Seq<char>, Seq<(Seq<char>, ValueView)>)>,
    hits: Seq<Hit>,
)
    requires
        hits.len() == count_docs(q, es, es.len() as int),
        forall|i: int| 0 <= i < hits.len() ==> true_hit(#[trigger] hits[i], q, es),
        forall|i: int, j: int| 0 <= i < j < hits.len() ==> ranks_before(hits[i], hits[j]),
    ensures
        forall|i: int, j: int|
            0 <= i < j < hits.len() ==> hits[i].position != hits[j].position,
        forall|k: int|
            0 <= k < es.len() && query_matches(q, es[k].1) ==> exists|i: int|
                0 <= i < hits.len() && (#[trigger] hits[i]).position == k,
{
    let ps = hits.map_values(|h: Hit| h.position as int);
    assert forall|i: int, j: int| 0 <= i < j < hits.len() implies hits[i].position != hits[j].position by {
        assert(true_hit(hits[i], q, es));
        assert(true_hit(hits[j], q, es));
        assert(ranks_before(hits[i], hits[j]));
    }
    assert(ps.no_duplicates()) by {
        assert forall|i: int, j: int| 0 <= i < ps.len() && 0 <= j < ps.len() && i != j implies ps[i] != ps[j] by {
            if i < j {
                assert(hits[i].position != hits[j].position);
            } else {
                assert(hits[j].position != hits[i].position);
            }
        }
    }
    ps.unique_seq_to_set();
    lemma_matching_positions_len(q, es, es.len() as int);
    let m = matching_positions(q, es, es.len() as int);
    assert(ps.to_set().subset_of(m)) by {
        assert forall|k: int| ps.to_set().contains(k) implies m.contains(k) by {
            let i = choose|i: int| 0 <= i < ps.len() && ps[i] == k;
            assert(true_hit(hits[i], q, es));
        }
    }
    vstd::set_lib::lemma_subset_equality(ps.to_set(), m);
    assert forall|k: int| 0 <= k < es.len() && query_matches(q, es[k].1) implies exists|i: int|
        0 <= i < hits.len() && (#[trigger] hits[i]).position == k by {
        assert(m.contains(k));
        assert(ps.to_set().contains(k));
        let i = choose|i: int| 0 <= i < ps.len() && ps[i] == k;
        assert(hits[i].position == k);
    }
}

/// The position of `key` among a keyed sequence's entries.
pub fn find_key<V>(v: &Vec<(String, V)>, key: &str) -> (r: Option<usize>)
    ensures
        match r {
            Some(i) => i < v@.len() && v@[i as int].0@ == key@,
            None => forall|i: int| 0 <= i < v@.len() ==> (#[trigger] v@[i]).0@ != key@,
        },
{
    let mut i: usize = 0;
    while i < v.len()
        invariant
            i <= v.len(),
            forall|k: int| 0 <= k < i ==> (#[trigger] v@[k]).0@ != key@,
        decreases v.len() - i,
    {
        if same_text(v[i].0.as_str(), key) {
            return Some(i);
        }
        i = i + 1;
    }
    None
}

/// One search result: the document's id, its score, and its insertion
/// position in the index.
#[derive(Clone, Debug, PartialEq, Eq)]
pub struct Hit {
    pub id: String,
    pub score: u64,
    pub position: usize,
}

/// Whether `a` is ranked before `b`: a higher score first, and among equal
/// scores the earlier document.
pub open spec fn ranks_before(a: Hit, b: Hit) -> bool {
    a.score > b.score || (a.score == b.score && a.position < b.position)
}

/// Whether a hit reports a matching document truly.
pub open spec fn true_hit(h: Hit, q: Query, es: Seq<(Seq<char>, Seq<(Seq<char>, ValueView)>)>) -> bool {
    &&& h.position < es.len()
    &&& query_matches(q, es[h.position as int].1)
    &&& h.id@ == es[h.position as int].0
    &&& h.score == query_score(q, es[h.position as int].1)
}

/// A named collection of mappings, documents and aliases.
#[derive(Debug)]
pub struct Index {
    pub name: String,
    pub mappings: Vec<(String, Mapping)>,
    pub docs: Vec<(String, Document)>,
    pub aliases: Vec<String>,
}

impl Index {
    /// Mapping names, document ids and aliases are each unique.
    pub open spec fn wf(&self) -> bool {
        &&& unique(keys_of(self.mappings@))
        &&& unique(keys_of(self.docs@))
        &&& unique(self.alias_names())
    }

    pub open spec fn alias_names(&self) -> Seq<Seq<char>> {
        self.aliases@.map_values(|a: String| a@)
    }

    pub open spec fn entries(&self) -> Seq<(Seq<char>, Seq<(Seq<char>, ValueView)>)> {
        entries_view(self.docs@)
    }

    /// An empty index.
    pub fn new(name: &str) -> (r: Index)
        ensures
            r.wf(),
            r.name@ == name@,
            r.mappings@.len() == 0,
            r.docs@.len() == 0,
            r.aliases@.len() == 0,
    {
        Index {
            name: String::from_str(name),
            mappings: Vec::new(),
            docs: Vec::new(),
            aliases: Vec::new(),
        }
    }

    /// The mapping of a document type.
    pub fn get_mapping(&self, name: &str) -> (r: Option<&Mapping>)
        ensures
            match r {
                Some(m) => keys_of(self.mappings@).contains(name@) && exists|i: int|
                    0 <= i < self.mappings@.len() && (#[trigger] self.mappings@[i]).0@ == name@
                        && self.mappings@[i].1 == *m,
                None => !keys_of(self.mappings@).contains(name@),
            },
    {
        match find_key(&self.mappings, name) {
            Some(i) => {
                assert(keys_of(self.mappings@)[i as int] == name@);
                Some(&self.mappings[i].1)
            },
            None => {
                proof {
                    assert forall|k: int| 0 <= k < self.mappings@.len() implies keys_of(
                        self.mappings@,
                    )[k] != name@ by {
                        assert(self.mappings@[k].0@ != name@);
                    }
                }
                None
            },
        }
    }

    /// Replaces the mapping of a document type wholesale, or adds it.
    /// Documents stored earlier are not converted again.
    pub fn put_mapping(&mut self, name: &str, mapping: Mapping)
        requires
            old(self).wf(),
        ensures
            final(self).wf(),
            final(self).name == old(self).name,
            final(self).docs@ == old(self).docs@,
            final(self).aliases@ == old(self).aliases@,
            keys_of(old(self).mappings@).contains(name@) ==> keys_of(final(self).mappings@)
                == keys_of(old(self).mappings@),
            !keys_of(old(self).mappings@).contains(name@) ==> keys_of(final(self).mappings@)
                == keys_of(old(self).mappings@).push(name@),
            exists|i: int|
                0 <= i < final(self).mappings@.len() && (#[trigger] final(self).mappings@[i]).0@
                    == name@ && final(self).mappings@[i].1 == mapping,
            forall|j: int|
                0 <= j < old(self).mappings@.len() && (#[trigger] old(self).mappings@[j]).0@ != name@
                    ==> final(self).mappings@[j] == old(self).mappings@[j],
    {
        let key = String::from_str(name);
        let ghost ks = keys_of(self.mappings@);
        match find_key(&self.mappings, name) {
            Some(i) => {
                self.mappings.set(i, (key, mapping));
                assert(keys_of(self.mappings@) =~= ks);
                assert(ks.contains(name@)) by {
                    assert(ks[i as int] == name@);
                }
                assert(self.mappings@[i as int].0@ == name@);
            },
            None => {
                self.mappings.push((key, mapping));
                assert(keys_of(self.mappings@) =~= ks.push(name@));
                assert(!ks.contains(name@)) by {
                    if ks.contains(name@) {
                        let k = choose|k: int| 0 <= k < ks.len() && ks[k] == name@;
                        assert(old(self).mappings@[k].0@ != name@);
                    }
                }
                assert(self.mappings@[ks.len() as int].0@ == name@);
            },
        }
    }

    /// The document stored under `id`.
    pub fn get_document(&self, id: &str) -> (r: Option<&Document>)
        ensures
            match r {
                Some(d) => keys_of(self.docs@).contains(id@) && exists|i: int|
                    0 <= i < self.docs@.len() && (#[trigger] self.docs@[i]).0@ == id@
                        && self.docs@[i].1 == *d,
                None => !keys_of(self.docs@).contains(id@),
            },
    {
        match find_key(&self.docs, id) {
            Some(i) => {
                assert(keys_of(self.docs@)[i as int] == id@);
                Some(&self.docs[i].1)
            },
            None => {
                proof {
                    assert forall|k: int| 0 <= k < self.docs@.len() implies keys_of(
                        self.docs@,
                    )[k] != id@ by {
                        assert(self.docs@[k].0@ != id@);
                    }
                }
                None
            },
        }
    }

    /// Stores `doc` under `id`. A document already stored under `id` is
    /// replaced wholesale where it stands; otherwise `doc` comes last.
    pub fn put_document(&mut self, id: &str, doc: Document)
        requires
            old(self).wf(),
        ensures
            final(self).wf(),
            final(self).name == old(self).name,
            final(self).mappings@ == old(self).mappings@,
            final(self).aliases@ == old(self).aliases@,
            keys_of(old(self).docs@).contains(id@) ==> exists|i: int|
                0 <= i < old(self).docs@.len() && (#[trigger] old(self).docs@[i]).0@ == id@
                    && final(self).entries() == old(self).entries().update(
                    i,
                    (id@, doc_view(doc.fields@)),
                ),
            !keys_of(old(self).docs@).contains(id@) ==> final(self).entries()
                == old(self).entries().push((id@, doc_view(doc.fields@))),
    {
        let key = String::from_str(id);
        let ghost ks = keys_of(self.docs@);
        let ghost es = self.entries();
        match find_key(&self.docs, id) {
            Some(i) => {
                assert(ks[i as int] == id@);
                let ghost od = self.docs@;
                self.docs.set(i, (key, doc));
                assert(od[i as int].0@ == id@);
                assert(keys_of(self.docs@) =~= ks);
                assert(self.entries() =~= es.update(i as int, (id@, doc_view(doc.fields@))));
            },
            None => {
                proof { lemma_key_absent(self.docs@, id@); }
                self.docs.push((key, doc));
                assert(keys_of(self.docs@) =~= ks.push(id@));
                assert(self.entries() =~= es.push((id@, doc_view(doc.fields@))));
            },
        }
    }

    /// Removes the document stored under `id`; false where there is none.
    pub fn delete_document(&mut self, id: &str) -> (r: bool)
        requires
            old(self).wf(),
        ensures
            final(self).wf(),
            final(self).name == old(self).name,
            final(self).mappings@ == old(self).mappings@,
            final(self).aliases@ == old(self).aliases@,
            r == keys_of(old(self).docs@).contains(id@),
            r ==> exists|i: int|
                0 <= i < old(self).docs@.len() && (#[trigger] old(self).docs@[i]).0@ == id@
                    && final(self).entries() == old(self).entries().remove(i),
            !r ==> final(self).docs@ == old(self).docs@,
    {
        let ghost ks = keys_of(self.docs@);
        let ghost es = self.entries();
        match find_key(&self.docs, id) {
            Some(i) => {
                assert(ks[i as int] == id@);
                let ghost od = self.docs@;
                let _removed = self.docs.remove(i);
                assert(keys_of(self.docs@) =~= ks.remove(i as int));
                assert(self.entries() =~= es.remove(i as int));
                assert(od[i as int].0@ == id@);
                true
            },
            None => {
                proof { lemma_key_absent(self.docs@, id@); }
                false
            },
        }
    }

    /// Whether the index carries `alias`.
    pub fn has_alias(&self, alias: &str) -> (r: bool)
        ensures
            r == self.alias_names().contains(alias@),
    {
        let ghost av = self.alias_names();
        let mut i: usize = 0;
        while i < self.aliases.len()
            invariant
                i <= self.aliases.len(),
                av == self.alias_names(),
                forall|k: int| 0 <= k < i ==> av[k] != alias@,
            decreases self.aliases.len() - i,
        {
            if same_text(self.aliases[i].as_str(), alias) {
                assert(av[i as int] == alias@);
                return true;
            }
            i = i + 1;
        }
        false
    }

    /// Tags the index with `alias`; tagging twice changes nothing.
    pub fn put_alias(&mut self, alias: &str)
        requires
            old(self).wf(),
        ensures
            final(self).wf(),
            final(self).name == old(self).name,
            final(self).mappings@ == old(self).mappings@,
            final(self).docs@ == old(self).docs@,
            old(self).alias_names().contains(alias@) ==> final(self).aliases@
                == old(self).aliases@,
            !old(self).alias_names().contains(alias@) ==> final(self).alias_names()
                == old(self).alias_names().push(alias@),
    {
        if !self.has_alias(alias) {
            let ghost av = self.alias_names();
            let a = String::from_str(alias);
            self.aliases.push(a);
            assert(self.alias_names() =~= av.push(alias@));
        }
    }

    /// The number of documents that `query` matches.
    pub fn count(&self, query: &Query) -> (r: usize)
        ensures
            r == count_docs(*query, self.entries(), self.entries().len() as int),
    {
        let ghost es = self.entries();
        let mut c: usize = 0;
        let mut i: usize = 0;
        while i < self.docs.len()
            invariant
                i <= self.docs.len(),
                es == self.entries(),
                c <= i,
                c == count_docs(*query, es, i as int),
            decreases self.docs.len() - i,
        {
            if query.matches(&self.docs[i].1) {
                c = c + 1;
            }
            i = i + 1;
        }
        c
    }

    /// The documents that `query` matches, best first: by descending score,
    /// and among equal scores in insertion order. There are exactly as many
    /// hits as `count` reports.
    pub fn search(&self, query: &Query) -> (r: Vec<Hit>)
        ensures
            r@.len() == count_docs(*query, self.entries(), self.entries().len() as int),
            forall|i: int| 0 <= i < r@.len() ==> true_hit(#[trigger] r@[i], *query, self.entries()),
            forall|i: int, j: int| 0 <= i < j < r@.len() ==> ranks_before(r@[i], r@[j]),
    {
        let ghost es = self.entries();
        let mut hits: Vec<Hit> = Vec::new();
        let mut i: usize = 0;
        while i < self.docs.len()
            invariant
                i <= self.docs.len(),
                es == self.entries(),
                hits@.len() == count_docs(*query, es, i as int),
                forall|k: int|
                    0 <= k < hits@.len() ==> true_hit(#[trigger] hits@[k], *query, es)
                        && hits@[k].position < i,
                forall|a: int, b: int| 0 <= a < b < hits@.len() ==> ranks_before(hits@[a], hits@[b]),
            decreases self.docs.len() - i,
        {
            let doc = &self.docs[i].1;
            if query.matches(doc) {
                let s = query.score(doc);
                let mut p: usize = 0;
                while p < hits.len() && hits[p].score >= s
                    invariant
                        p <= hits@.len(),
                        forall|k: int| 0 <= k < p ==> (#[trigger] hits@[k]).score >= s,
                    decreases hits@.len() - p,
                {
                    p = p + 1;
                }
                let h = Hit { id: self.docs[i].0.clone(), score: s, position: i };
                let ghost old_hits = hits@;
                hits.insert(p, h);
                proof {
                    assert forall|k: int| 0 <= k < hits@.len() implies true_hit(
                        #[trigger] hits@[k],
                        *query,
                        es,
                    ) && hits@[k].position < i + 1 by {
                        if k < p {
                            assert(hits@[k] == old_hits[k]);
                        } else if k > p {
                            assert(hits@[k] == old_hits[k - 1]);
                        }
                    }
                    assert forall|a: int, b: int| 0 <= a < b < hits@.len() implies ranks_before(
                        hits@[a],
                        hits@[b],
                    ) by {
                        if b < p {
                            assert(hits@[a] == old_hits[a] && hits@[b] == old_hits[b]);
                        } else if b == p {
                            assert(hits@[a] == old_hits[a]);
                        } else if a == p {
                            assert(hits@[b] == old_hits[b - 1]);
                            assert(old_hits[p as int].score < s);
                            if b - 1 > p {
                                assert(ranks_before(old_hits[p as int], old_hits[b - 1]));
                            }
                        } else if a < p {
                            assert(hits@[a] == old_hits[a] && hits@[b] == old_hits[b - 1]);
                        } else {
                            assert(hits@[a] == old_hits[a - 1] && hits@[b] == old_hits[b - 1]);
                        }
                    }
                }
            }
            i = i + 1;
        }
        hits
    }
}

proof fn lemma_key_absent<V>(s: Seq<(String, V)>, key: Seq<char>)
    requires
        forall|i: int| 0 <= i < s.len() ==> (#[trigger] s[i]).0@ != key,
    ensures
        !keys_of(s).contains(key),
{
    if keys_of(s).contains(key) {
        let k = choose|k: int| 0 <= k < keys_of(s).len() && keys_of(s)[k] == key;
        assert(s[k].0@ != key);
    }
}

} // verus!
