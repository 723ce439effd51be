//! What a page's view shows: the page and its neighbourhood in the graph.
use vstd::prelude::*;

use crate::ingest::copy_ids;
use crate::model::{distinct_ids, id_set, opt_id, PageId, Wiki};
use crate::parser::Html;
use crate::repo::{get_children_ids, get_page, get_sibling_ids, get_uncle_ids};

verus! {

/// The view shown where no page has the requested identifier.
#[derive(Clone, Copy, Debug)]
pub struct NotFound;

/// The view of one page: its content, its parent, its links in both
/// directions, and its uncles, siblings and children.
#[derive(Clone, Debug)]
pub struct Base {
    pub page_id: PageId,
    pub parent: Option<PageId>,
    pub content: Html,
    pub incoming: Vec<PageId>,
    pub outgoing: Vec<PageId>,
    pub parents_siblings: Vec<PageId>,
    pub siblings: Vec<PageId>,
    pub children: Vec<PageId>,
    /// Formulas are to be typeset.
    pub latex: bool,
    /// Code is to be highlighted.
    pub code: bool,
}

impl Base {
    /// The view of page `id`, or `None` where there is no such page.
    pub fn for_page(wiki: &Wiki, id: &str) -> (r: Option<Base>)
        requires
            wiki.wf(),
        ensures
            r is Some <==> wiki.has(id@),
            r matches Some(b) ==> {
                &&& b.page_id@ == id@
                &&& opt_id(b.parent) == wiki.parent_of(id@)
                &&& b.content@ == wiki.content_of(id@)
                &&& id_set(b.incoming@) == wiki.incoming_of(id@)
                &&& id_set(b.outgoing@) == wiki.outgoing_of(id@)
                &&& id_set(b.parents_siblings@) == wiki.uncles_of(id@)
                &&& id_set(b.siblings@) == wiki.siblings_of(id@)
                &&& id_set(b.children@) == wiki.children_of(id@)
                &&& distinct_ids(b.incoming@) && distinct_ids(b.outgoing@)
                &&& distinct_ids(b.parents_siblings@) && distinct_ids(b.siblings@)
                &&& distinct_ids(b.children@)
                &&& b.latex == (wiki.metadata_of(id@).latex == Some(true))
                &&& b.code == (wiki.metadata_of(id@).code == Some(true))
            },
    {
        let page = match get_page(wiki, id) {
            Some(p) => p,
            None => return None,
        };
        let ghost i = choose|i: int|
            0 <= i < wiki.pages.len() && wiki.id_at(i) == id@ && *page == wiki.pages@[i].1;
        proof {
            wiki.lemma_index_of(i);
        }
        let children = match get_children_ids(wiki, id) {
            Some(v) => v,
            None => return None,
        };
        let siblings = match get_sibling_ids(wiki, id) {
            Some(v) => v,
            None => return None,
        };
        let parents_siblings = match get_uncle_ids(wiki, id) {
            Some(v) => v,
            None => return None,
        };
        let incoming = copy_ids(&page.incoming);
        let outgoing = copy_ids(&page.outgoing);
        proof {
            lemma_copy_same_set(page.incoming@, incoming@);
            lemma_copy_same_set(page.outgoing@, outgoing@);
        }
        let parent = match &page.parent {
            Some(p) => Some(p.duplicate()),
            None => None,
        };
        Some(Base {
            page_id: PageId(id.to_owned()),
            parent,
            content: Html(page.content.0.clone()),
            incoming,
            outgoing,
            parents_siblings,
            siblings,
            children,
            latex: page.metadata.latex == Some(true),
            code: page.metadata.code == Some(true),
        })
    }
}

/// Two sequences of identifiers with the same texts in the same order hold
/// the same identifiers, each once where the first does.
proof fn lemma_copy_same_set(a: Seq<PageId>, b: Seq<PageId>)
    requires
        b.map_values(|p: PageId| p@) == a.map_values(|p: PageId| p@),
    ensures
        id_set(b) == id_set(a),
        distinct_ids(a) ==> distinct_ids(b),
{
    assert(a.len() == a.map_values(|p: PageId| p@).len());
    assert(b.len() == b.map_values(|p: PageId| p@).len());
    assert forall|j: int| 0 <= j < a.len() implies #[trigger] b[j]@ == a[j]@ by {
        assert(b.map_values(|p: PageId| p@)[j] == a.map_values(|p: PageId| p@)[j]);
    }
    assert forall|s: Seq<char>| id_set(b).contains(s) <==> id_set(a).contains(s) by {
        if id_set(b).contains(s) {
            let j = choose|j: int| 0 <= j < b.len() && b[j]@ == s;
            assert(a[j]@ == s);
        }
        if id_set(a).contains(s) {
            let j = choose|j: int| 0 <= j < a.len() && a[j]@ == s;
            assert(b[j]@ == s);
        }
    }
    assert(id_set(b) =~= id_set(a));
}

} // verus!
