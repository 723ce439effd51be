//! The graph: pages keyed by identifier, each with its parent and its links in
//! both directions.
use vstd::prelude::*;

use crate::parser::{Html, Metadata};

verus! {

/// The identifier of a page: its document's name without the extension.
#[derive(Clone, Debug, PartialEq, Eq, Hash)]
pub struct PageId(pub String);

impl View for PageId {
    type V = Seq<char>;

    open spec fn view(&self) -> Seq<char> {
        self.0@
    }
}

impl From<String> for PageId {
    fn from(string: String) -> (r: PageId)
        ensures
            r@ == string@,
    {
        PageId(string)
    }
}

impl vstd::std_specs::convert::FromSpecImpl<String> for PageId {
    open spec fn obeys_from_spec() -> bool {
        true
    }

    open spec fn from_spec(string: String) -> PageId {
        PageId(string)
    }
}

impl PageId {
    /// A copy of this identifier.
    pub fn duplicate(&self) -> (r: PageId)
        ensures
            r@ == self@,
    {
        PageId(self.0.clone())
    }

    /// The identifier as text.
    pub fn as_str(&self) -> (r: &str)
        ensures
            r@ == self@,
    {
        self.0.as_str()
    }
}

/// The identifiers that a sequence of them holds, as a set.
pub open spec fn id_set(v: Seq<PageId>) -> Set<Seq<char>> {
    Set::new(|s: Seq<char>| exists|j: int| 0 <= j < v.len() && v[j]@ == s)
}

/// No identifier occurs twice in `v`.
pub open spec fn distinct_ids(v: Seq<PageId>) -> bool {
    forall|a: int, b: int| 0 <= a < v.len() && 0 <= b < v.len() && a != b ==> v[a]@ != v[b]@
}

/// The identifier that an optional one holds, as text.
pub open spec fn opt_id(o: Option<PageId>) -> Option<Seq<char>> {
    match o {
        Some(p) => Some(p@),
        None => None,
    }
}

/// A node of the graph.
#[derive(Clone, Debug)]
pub struct Page {
    pub content: Html,
    pub parent: Option<PageId>,
    pub outgoing: Vec<PageId>,
    pub incoming: Vec<PageId>,
    pub metadata: Metadata,
}

/// The whole graph: each page under its identifier.
#[derive(Clone, Debug)]
pub struct Wiki {
    pub pages: Vec<(PageId, Page)>,
}

impl Wiki {
    pub open spec fn id_at(&self, i: int) -> Seq<char> {
        self.pages@[i].0@
    }

    pub open spec fn parent_at(&self, i: int) -> Option<Seq<char>> {
        opt_id(self.pages@[i].1.parent)
    }

    pub open spec fn outgoing_at(&self, i: int) -> Set<Seq<char>> {
        id_set(self.pages@[i].1.outgoing@)
    }

    pub open spec fn incoming_at(&self, i: int) -> Set<Seq<char>> {
        id_set(self.pages@[i].1.incoming@)
    }

    /// A page with identifier `s` exists.
    pub open spec fn has(&self, s: Seq<char>) -> bool {
        exists|i: int| 0 <= i < self.pages.len() && self.id_at(i) == s
    }

    /// The position of the page with identifier `s`.
    pub open spec fn index_of(&self, s: Seq<char>) -> int {
        choose|i: int| 0 <= i < self.pages.len() && self.id_at(i) == s
    }

    /// The parent of page `s`.
    pub open spec fn parent_of(&self, s: Seq<char>) -> Option<Seq<char>> {
        self.parent_at(self.index_of(s))
    }

    /// The pages that page `s` links to.
    pub open spec fn outgoing_of(&self, s: Seq<char>) -> Set<Seq<char>> {
        self.outgoing_at(self.index_of(s))
    }

    /// The pages that link to page `s` or name it as their parent.
    pub open spec fn incoming_of(&self, s: Seq<char>) -> Set<Seq<char>> {
        self.incoming_at(self.index_of(s))
    }

    /// The content of page `s`.
    pub open spec fn content_of(&self, s: Seq<char>) -> Seq<char> {
        self.pages@[self.index_of(s)].1.content@
    }

    /// The flags of page `s`.
    pub open spec fn metadata_of(&self, s: Seq<char>) -> Metadata {
        self.pages@[self.index_of(s)].1.metadata
    }

    /// The pages that point at page `s`: those whose parent it is and those
    /// that link to it.
    pub open spec fn pointing_at(&self, s: Seq<char>) -> Set<Seq<char>> {
        Set::new(
            |q: Seq<char>|
                self.has(q) && (self.parent_of(q) == Some(s) || self.outgoing_of(q).contains(s)),
        )
    }

    /// No identifier names two pages.
    pub open spec fn unique_ids(&self) -> bool {
        forall|i: int, j: int|
            0 <= i < self.pages.len() && 0 <= j < self.pages.len() && self.id_at(i) == self.id_at(
                j,
            ) ==> i == j
    }

    /// A closed graph: identifiers are unique, every parent and link names an
    /// existing page, no link is listed twice, and each page's incoming links
    /// are exactly the pages that point at it.
    pub open spec fn wf(&self) -> bool {
        &&& self.unique_ids()
        &&& forall|i: int|
            0 <= i < self.pages.len() ==> match #[trigger] self.parent_at(i) {
                Some(p) => self.has(p),
                None => true,
            }
        &&& forall|i: int, t: Seq<char>|
            0 <= i < self.pages.len() && #[trigger] self.outgoing_at(i).contains(t) ==> self.has(t)
        &&& forall|i: int|
            0 <= i < self.pages.len() ==> distinct_ids(#[trigger] self.pages@[i].1.outgoing@)
                && distinct_ids(self.pages@[i].1.incoming@)
        &&& forall|i: int|
            0 <= i < self.pages.len() ==> #[trigger] self.incoming_at(i) == self.pointing_at(
                self.id_at(i),
            )
    }

    /// The pages whose parent is `p` (`None`: the pages without a parent).
    pub open spec fn with_parent(&self, p: Option<Seq<char>>) -> Set<Seq<char>> {
        Set::new(|q: Seq<char>| self.has(q) && self.parent_of(q) == p)
    }

    /// The children of page `s`.
    pub open spec fn children_of(&self, s: Seq<char>) -> Set<Seq<char>> {
        self.with_parent(Some(s))
    }

    /// The siblings of page `s`, itself included: the pages with the same
    /// parent, where two pages without a parent are siblings too.
    pub open spec fn siblings_of(&self, s: Seq<char>) -> Set<Seq<char>> {
        self.with_parent(self.parent_of(s))
    }

    /// The uncles of page `s`: the other children of its grandparent. A page
    /// without a grandparent has none.
    pub open spec fn uncles_of(&self, s: Seq<char>) -> Set<Seq<char>> {
        match self.parent_of(s) {
            Some(p) => match self.parent_of(p) {
                Some(g) => self.with_parent(Some(g)).remove(p),
                None => Set::empty(),
            },
            None => Set::empty(),
        }
    }

    /// Where identifiers are unique, the page at `i` is the page of its identifier.
    pub proof fn lemma_index_of(&self, i: int)
        requires
            self.unique_ids(),
            0 <= i < self.pages.len(),
        ensures
            self.has(self.id_at(i)),
            self.index_of(self.id_at(i)) == i,
            self.parent_of(self.id_at(i)) == self.parent_at(i),
            self.outgoing_of(self.id_at(i)) == self.outgoing_at(i),
            self.incoming_of(self.id_at(i)) == self.incoming_at(i),
    {
        let s = self.id_at(i);
        assert(self.has(s));
        let k = self.index_of(s);
        assert(0 <= k < self.pages.len() && self.id_at(k) == s);
    }
}

/// In a closed graph the parent of every page is a page of the graph.
pub proof fn lemma_parent_exists(w: &Wiki, s: Seq<char>)
    requires
        w.wf(),
        w.has(s),
    ensures
        w.parent_of(s) matches Some(p) ==> w.has(p),
{
    let i = w.index_of(s);
    w.lemma_index_of(i);
}

/// A page `q` is among the incoming links of page `p` exactly when `q` links
/// to `p` or names `p` as its parent.
pub proof fn lemma_inverse_edge(w: &Wiki, p: Seq<char>, q: Seq<char>)
    requires
        w.wf(),
        w.has(p),
        w.has(q),
    ensures
        w.incoming_of(p).contains(q) <==> (w.outgoing_of(q).contains(p) || w.parent_of(q) == Some(
            p,
        )),
{
    let i = w.index_of(p);
    w.lemma_index_of(i);
}

/// Every page is one of its own siblings.
pub proof fn lemma_sibling_of_itself(w: &Wiki, s: Seq<char>)
    requires
        w.has(s),
    ensures
        w.siblings_of(s).contains(s),
{
}

/// A page without a grandparent has no uncles: neither one without a parent
/// nor one whose parent has none.
pub proof fn lemma_no_grandparent_no_uncles(w: &Wiki, s: Seq<char>)
    requires
        w.parent_of(s) is None || w.parent_of(w.parent_of(s)->0) is None,
    ensures
        w.uncles_of(s) == Set::<Seq<char>>::empty(),
{
}

} // verus!
