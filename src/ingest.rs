//! Ingestion: building the graph from files, and replacing pages of a built
//! graph, with the laws that re-ingestion obeys.
use vstd::prelude::*;

use crate::builder::{doc_has, is_last};
use crate::error::Error;
use crate::files::{stem_id, strip_extension_from_filename};
use crate::model::{id_set, opt_id, PageId, Wiki};
use crate::parser::{parse_raw_page, parsed_spec, Frontmatter, Html, Metadata, ParsedPage};
use crate::repo::find_page;

verus! {

/// Where some document has identifier `s`, one of them is the last with it.
proof fn lemma_last_exists(docs: Seq<(PageId, ParsedPage)>, j: int)
    requires
        0 <= j < docs.len(),
    ensures
        exists|i: int| #[trigger] is_last(docs, i) && docs[i].0@ == docs[j].0@,
    decreases docs.len() - j,
{
    if is_last(docs, j) {
    } else {
        let k = choose|k: int| j < k < docs.len() && docs[k].0@ == docs[j].0@;
        lemma_last_exists(docs, k);
    }
}

/// Two sequences of documents that hold the same identifiers, parents,
/// contents and links, in the same order.
pub open spec fn same_documents(docs1: Seq<(PageId, ParsedPage)>, docs2: Seq<(PageId, ParsedPage)>) -> bool {
    &&& docs1.len() == docs2.len()
    &&& forall|i: int|
        0 <= i < docs1.len() ==> #[trigger] docs1[i].0@ == docs2[i].0@ && docs1[i].1.parts()
            == docs2[i].1.parts()
}

/// Building from the same documents twice answers every navigation query
/// alike: the same pages exist, and each has the same children, siblings,
/// uncles, incoming and outgoing links.
pub proof fn lemma_rebuild_same_answers(
    docs1: Seq<(PageId, ParsedPage)>,
    docs2: Seq<(PageId, ParsedPage)>,
    w1: Wiki,
    w2: Wiki,
)
    requires
        same_documents(docs1, docs2),
        w1.built_from(docs1),
        w2.built_from(docs2),
    ensures
        forall|s: Seq<char>| #[trigger] w1.has(s) == w2.has(s),
        forall|s: Seq<char>|
            #![trigger w1.has(s)]
            w1.has(s) ==> {
                &&& w1.children_of(s) == w2.children_of(s)
                &&& w1.siblings_of(s) == w2.siblings_of(s)
                &&& w1.uncles_of(s) == w2.uncles_of(s)
                &&& w1.incoming_of(s) == w2.incoming_of(s)
                &&& w1.outgoing_of(s) == w2.outgoing_of(s)
            },
{
    assert forall|s: Seq<char>| doc_has(docs1, s) == doc_has(docs2, s) by {
        if doc_has(docs1, s) {
            let j = choose|j: int| 0 <= j < docs1.len() && docs1[j].0@ == s;
            assert(docs2[j].0@ == s);
        }
        if doc_has(docs2, s) {
            let j = choose|j: int| 0 <= j < docs2.len() && docs2[j].0@ == s;
            assert(docs1[j].0@ == s);
        }
    }
    assert forall|s: Seq<char>| w1.has(s) implies w1.parent_of(s) == w2.parent_of(s)
        && w1.outgoing_of(s) == w2.outgoing_of(s) by {
        let j = choose|j: int| 0 <= j < docs1.len() && docs1[j].0@ == s;
        lemma_last_exists(docs1, j);
        let i = choose|i: int| #[trigger] is_last(docs1, i) && docs1[i].0@ == docs1[j].0@;
        assert(docs1[i].0@ == docs2[i].0@);
        assert forall|k: int| i < k < docs2.len() implies docs2[k].0@ != docs2[i].0@ by {
            assert(docs1[k].0@ == docs2[k].0@);
        }
        assert(is_last(docs2, i));
        assert(w1.page_from(docs1, i));
        assert(w2.page_from(docs2, i));
        let l1 = docs1[i].1.links@;
        let l2 = docs2[i].1.links@;
        assert(l1.map_values(|p: PageId| p@) == l2.map_values(|p: PageId| p@));
        assert(l1.len() == l1.map_values(|p: PageId| p@).len());
        assert(l2.len() == l2.map_values(|p: PageId| p@).len());
        assert forall|t: Seq<char>| id_set(l1).contains(t) <==> id_set(l2).contains(t) by {
            if id_set(l1).contains(t) {
                let e = choose|e: int| 0 <= e < l1.len() && l1[e]@ == t;
                assert(l1.map_values(|p: PageId| p@)[e] == l2.map_values(|p: PageId| p@)[e]);
                assert(l2[e]@ == t);
            }
            if id_set(l2).contains(t) {
                let e = choose|e: int| 0 <= e < l2.len() && l2[e]@ == t;
                assert(l1.map_values(|p: PageId| p@)[e] == l2.map_values(|p: PageId| p@)[e]);
                assert(l1[e]@ == t);
            }
        }
        assert(w1.outgoing_of(s) =~= w2.outgoing_of(s));
    }
    assert forall|p: Option<Seq<char>>| w1.with_parent(p) == w2.with_parent(p) by {
        assert(w1.with_parent(p) =~= w2.with_parent(p));
    }
    assert forall|s: Seq<char>| w1.has(s) implies w1.incoming_of(s) == w2.incoming_of(s) by {
        assert(w2.has(s));
        let i1 = w1.index_of(s);
        w1.lemma_index_of(i1);
        let i2 = w2.index_of(s);
        w2.lemma_index_of(i2);
        assert(w1.incoming_at(i1) == w1.pointing_at(s));
        assert(w2.incoming_at(i2) == w2.pointing_at(s));
        assert(w1.pointing_at(s) =~= w2.pointing_at(s));
    }
    assert forall|s: Seq<char>| w1.has(s) implies w1.uncles_of(s) == w2.uncles_of(s) by {
        crate::model::lemma_parent_exists(&w1, s);
        if let Some(p) = w1.parent_of(s) {
            assert(w1.has(p));
        }
    }
}

/// Document `d` is what file `f` (name, text) yields: the identifier is the
/// name's stem, the rest is what the text parses to.
pub open spec fn extracted_from(f: (String, String), d: (PageId, ParsedPage)) -> bool {
    &&& stem_id(f.0@) == Some(d.0@)
    &&& parsed_spec(f.1@) == Some(d.1.parts())
}

/// File `f` yields a document: its name has a stem and its text parses.
pub open spec fn extracts(f: (String, String)) -> bool {
    stem_id(f.0@) is Some && parsed_spec(f.1@) is Some
}

/// `w` is the graph that `files` yield.
pub open spec fn ingested(files: Seq<(String, String)>, w: Wiki) -> bool {
    exists|docs: Seq<(PageId, ParsedPage)>|
        {
            &&& docs.len() == files.len()
            &&& forall|i: int| 0 <= i < files.len() ==> #[trigger] extracted_from(files[i], docs[i])
            &&& w.built_from(docs)
        }
}

/// Ingesting the same files twice answers every navigation query alike.
pub proof fn lemma_reingest_same_answers(files: Seq<(String, String)>, w1: Wiki, w2: Wiki)
    requires
        ingested(files, w1),
        ingested(files, w2),
    ensures
        forall|s: Seq<char>| #[trigger] w1.has(s) == w2.has(s),
        forall|s: Seq<char>|
            #![trigger w1.has(s)]
            w1.has(s) ==> {
                &&& w1.children_of(s) == w2.children_of(s)
                &&& w1.siblings_of(s) == w2.siblings_of(s)
                &&& w1.uncles_of(s) == w2.uncles_of(s)
                &&& w1.incoming_of(s) == w2.incoming_of(s)
                &&& w1.outgoing_of(s) == w2.outgoing_of(s)
            },
{
    let docs1 = choose|docs: Seq<(PageId, ParsedPage)>|
        {
            &&& docs.len() == files.len()
            &&& forall|i: int| 0 <= i < files.len() ==> #[trigger] extracted_from(files[i], docs[i])
            &&& w1.built_from(docs)
        };
    let docs2 = choose|docs: Seq<(PageId, ParsedPage)>|
        {
            &&& docs.len() == files.len()
            &&& forall|i: int| 0 <= i < files.len() ==> #[trigger] extracted_from(files[i], docs[i])
            &&& w2.built_from(docs)
        };
    assert forall|i: int| 0 <= i < docs1.len() implies #[trigger] docs1[i].0@ == docs2[i].0@ && docs1[i].1.parts()
            == docs2[i].1.parts() by {
        assert(extracted_from(files[i], docs1[i]));
        assert(extracted_from(files[i], docs2[i]));
    }
    lemma_rebuild_same_answers(docs1, docs2, w1, w2);
}

impl Wiki {
    /// Builds the graph of a set of documents, each given as its file name and
    /// its text. Fails with `Error::Parse`, and builds nothing, where a name
    /// has no stem or a text does not parse.
    pub fn from_files(files: Vec<(String, String)>) -> (r: Result<Wiki, Error>)
        ensures
            r is Ok <==> forall|i: int| 0 <= i < files.len() ==> #[trigger] extracts(files@[i]),
            r matches Err(e) ==> e == Error::Parse,
            r matches Ok(w) ==> ingested(files@, w),
    {
        let mut docs: Vec<(PageId, ParsedPage)> = Vec::new();
        let mut i: usize = 0;
        while i < files.len()
            invariant
                0 <= i <= files.len(),
                docs.len() == i,
                forall|k: int| 0 <= k < i ==> #[trigger] extracts(files@[k]),
                forall|k: int| 0 <= k < i ==> #[trigger] extracted_from(files@[k], docs@[k]),
            decreases files.len() - i,
        {
            let parsed = match parse_raw_page(files[i].1.as_str()) {
                Ok(p) => p,
                Err(e) => {
                    proof {
                        assert(!extracts(files@[i as int]));
                    }
                    return Err(e);
                },
            };
            let id = match strip_extension_from_filename(files[i].0.as_str()) {
                Some(s) => PageId(s),
                None => {
                    proof {
                        assert(!extracts(files@[i as int]));
                    }
                    return Err(Error::Parse);
                },
            };
            docs.push((id, parsed));
            proof {
                assert(extracted_from(files@[i as int], docs@[i as int]));
            }
            i += 1;
        }
        let w = Wiki::from_pages(&docs);
        proof {
            assert(docs@.len() == files@.len());
        }
        Ok(w)
    }
}

/// A copy of `v`.
pub(crate) fn copy_ids(v: &Vec<PageId>) -> (r: Vec<PageId>)
    ensures
        r@.map_values(|p: PageId| p@) == v@.map_values(|p: PageId| p@),
{
    let mut r: Vec<PageId> = Vec::new();
    let mut i: usize = 0;
    while i < v.len()
        invariant
            0 <= i <= v.len(),
            r.len() == i,
            forall|j: int| 0 <= j < i ==> (#[trigger] r@[j])@ == v@[j]@,
        decreases v.len() - i,
    {
        r.push(v[i].duplicate());
        i += 1;
    }
    proof {
        assert(r@.map_values(|p: PageId| p@) =~= v@.map_values(|p: PageId| p@));
    }
    r
}

/// Document `d` restates page `i` of `w`: the same identifier, parent,
/// content and links.
pub open spec fn restates(w: Wiki, i: int, d: (PageId, ParsedPage)) -> bool {
    &&& d.0@ == w.id_at(i)
    &&& d.1.parts() == (w.parent_at(i), w.pages@[i].1.metadata, w.pages@[i].1.content@, w.pages@[i].1.outgoing@.map_values(
        |p: PageId| p@,
    ))
}

impl Wiki {
    /// The pages of this graph as documents, in order.
    pub fn to_documents(&self) -> (r: Vec<(PageId, ParsedPage)>)
        ensures
            r.len() == self.pages.len(),
            forall|i: int| 0 <= i < r.len() ==> #[trigger] restates(*self, i, r@[i]),
    {
        let mut r: Vec<(PageId, ParsedPage)> = Vec::new();
        let mut i: usize = 0;
        while i < self.pages.len()
            invariant
                0 <= i <= self.pages.len(),
                r.len() == i,
                forall|j: int| 0 <= j < i ==> #[trigger] restates(*self, j, r@[j]),
            decreases self.pages.len() - i,
        {
            let page = &self.pages[i].1;
            let parent = match &page.parent {
                Some(p) => Some(p.duplicate()),
                None => None,
            };
            let doc = ParsedPage {
                frontmatter: Some(Frontmatter { parent, metadata: page.metadata }),
                html: Html(page.content.0.clone()),
                links: copy_ids(&page.outgoing),
            };
            r.push((self.pages[i].0.duplicate(), doc));
            proof {
                assert(restates(*self, i as int, r@[i as int]));
            }
            i += 1;
        }
        r
    }
}

/// Adds `pages` to `wiki` as one batch: each replaces the page of its
/// identifier or adds a new one, references among the pages of the batch
/// and of the graph are resolved once the whole batch is in, and every
/// incoming link is derived anew.
pub fn insert_graph(wiki: &mut Wiki, pages: Vec<(PageId, ParsedPage)>)
    ensures
        exists|before: Seq<(PageId, ParsedPage)>|
            {
                &&& before.len() == old(wiki).pages.len()
                &&& forall|i: int| 0 <= i < before.len() ==> #[trigger] restates(*old(wiki), i, before[i])
                &&& final(wiki).built_from(before + pages@)
            },
{
    let mut docs = wiki.to_documents();
    let mut batch = pages;
    docs.append(&mut batch);
    *wiki = Wiki::from_pages(&docs);
}

/// The links of page `s` of `w` as a sequence of texts, empty where there is
/// no page `s`.
pub open spec fn links_of(w: Wiki, s: Seq<char>) -> Seq<Seq<char>> {
    if w.has(s) {
        w.pages@[w.index_of(s)].1.outgoing@.map_values(|p: PageId| p@)
    } else {
        Seq::empty()
    }
}

/// The flags of page `s` of `w`, none where there is no page `s`.
pub open spec fn metadata_kept(w: Wiki, s: Seq<char>) -> Metadata {
    if w.has(s) {
        w.metadata_of(s)
    } else {
        Metadata::none()
    }
}

/// `w` is `old` with document `d` added last: built from the pages of `old`,
/// restated as documents, followed by `d`.
pub open spec fn rebuilt_with(old: Wiki, d: (PageId, ParsedPage), w: Wiki) -> bool {
    exists|before: Seq<(PageId, ParsedPage)>|
        {
            &&& before.len() == old.pages.len()
            &&& forall|i: int| 0 <= i < before.len() ==> #[trigger] restates(old, i, before[i])
            &&& w.built_from(before.push(d))
        }
}

impl Wiki {
    /// Adds page `id` with `content` and `parent`, or replaces the content and
    /// parent of the page that has that identifier, keeping its links and
    /// flags. A
    /// parent that names no page is dropped; incoming links are derived anew.
    pub fn upsert_page(&mut self, id: PageId, content: Html, parent: Option<PageId>)
        requires
            old(self).wf(),
        ensures
            exists|d: (PageId, ParsedPage)|
                {
                    &&& d.0@ == id@
                    &&& d.1.parts() == (
                        opt_id(parent),
                        metadata_kept(*old(self), id@),
                        content@,
                        links_of(*old(self), id@),
                    )
                    &&& rebuilt_with(*old(self), d, *final(self))
                },
    {
        let ghost old_w = *self;
        let (links, metadata) = match find_page(self, id.as_str()) {
            Some(k) => {
                proof {
                    self.lemma_index_of(k as int);
                }
                (copy_ids(&self.pages[k].1.outgoing), self.pages[k].1.metadata)
            },
            None => (Vec::new(), Metadata { latex: None, code: None }),
        };
        let ghost want = links_of(*self, id@);
        proof {
            if !self.has(id@) {
                assert(links@.map_values(|p: PageId| p@) =~= want);
            }
        }
        let mut docs = self.to_documents();
        let ghost before = docs@;
        let d = (
            id,
            ParsedPage { frontmatter: Some(Frontmatter { parent, metadata }), html: content, links },
        );
        let ghost dg = d;
        docs.push(d);
        *self = Wiki::from_pages(&docs);
        proof {
            assert(docs@ == before.push(dg));
            assert(rebuilt_with(old_w, dg, *self));
        }
    }

    /// Replaces the links of page `id` by `targets`, each kept once; targets
    /// that name no page are dropped, and incoming links are derived anew.
    /// Returns `false`, and changes nothing, where there is no page `id`.
    pub fn replace_outgoing_links(&mut self, id: &str, targets: Vec<PageId>) -> (r: bool)
        requires
            old(self).wf(),
        ensures
            r == old(self).has(id@),
            !r ==> *final(self) == *old(self),
            r ==> exists|d: (PageId, ParsedPage)|
                {
                    &&& d.0@ == id@
                    &&& d.1.parts() == (
                        old(self).parent_of(id@),
                        old(self).metadata_of(id@),
                        old(self).content_of(id@),
                        targets@.map_values(|p: PageId| p@),
                    )
                    &&& rebuilt_with(*old(self), d, *final(self))
                },
    {
        let ghost old_w = *self;
        let k = match find_page(self, id) {
            Some(k) => k,
            None => return false,
        };
        proof {
            self.lemma_index_of(k as int);
        }
        let page = &self.pages[k].1;
        let parent = match &page.parent {
            Some(p) => Some(p.duplicate()),
            None => None,
        };
        let d = (
            self.pages[k].0.duplicate(),
            ParsedPage {
                frontmatter: Some(Frontmatter { parent, metadata: page.metadata }),
                html: Html(page.content.0.clone()),
                links: targets,
            },
        );
        let mut docs = self.to_documents();
        let ghost before = docs@;
        let ghost dg = d;
        docs.push(d);
        *self = Wiki::from_pages(&docs);
        proof {
            assert(docs@ == before.push(dg));
            assert(rebuilt_with(old_w, dg, *self));
        }
        true
    }
}

} // verus!
