//! Navigation queries on a built graph.
use vstd::prelude::*;

use crate::model::{distinct_ids, id_set, opt_id, Page, PageId, Wiki};

verus! {

/// The position of the page with identifier `id`, if there is one.
pub(crate) fn find_page(wiki: &Wiki, id: &str) -> (r: Option<usize>)
    ensures
        r matches Some(i) ==> i < wiki.pages.len() && wiki.id_at(i as int) == id@,
        r is None ==> !wiki.has(id@),
{
    let key = id.to_owned();
    let mut i: usize = 0;
    while i < wiki.pages.len()
        invariant
            0 <= i <= wiki.pages.len(),
            key@ == id@,
            forall|k: int| 0 <= k < i ==> wiki.id_at(k) != id@,
        decreases wiki.pages.len() - i,
    {
        if wiki.pages[i].0.0 == key {
            return Some(i);
        }
        i += 1;
    }
    None
}

/// Whether two optional identifiers are equal (two absent ones are).
fn same_parent(a: &Option<PageId>, b: &Option<PageId>) -> (r: bool)
    ensures
        r == (opt_id(*a) == opt_id(*b)),
{
    match (a, b) {
        (Some(x), Some(y)) => x.0 == y.0,
        (None, None) => true,
        _ => false,
    }
}

/// The pages whose parent is `parent`, each once, with the identifier `skip`
/// left out where one is given.
fn pages_with_parent(wiki: &Wiki, parent: &Option<PageId>, skip: Option<&PageId>) -> (r: Vec<
    PageId,
>)
    requires
        wiki.wf(),
    ensures
        distinct_ids(r@),
        id_set(r@) == (match skip {
            Some(s) => wiki.with_parent(opt_id(*parent)).remove(s@),
            None => wiki.with_parent(opt_id(*parent)),
        }),
{
    let ghost target = match skip {
        Some(s) => wiki.with_parent(opt_id(*parent)).remove(s@),
        None => wiki.with_parent(opt_id(*parent)),
    };
    let mut r: Vec<PageId> = Vec::new();
    let mut i: usize = 0;
    while i < wiki.pages.len()
        invariant
            0 <= i <= wiki.pages.len(),
            wiki.wf(),
            target == (match skip {
                Some(s) => wiki.with_parent(opt_id(*parent)).remove(s@),
                None => wiki.with_parent(opt_id(*parent)),
            }),
            distinct_ids(r@),
            forall|j: int|
                0 <= j < r.len() ==> exists|k: int| 0 <= k < i && wiki.id_at(k) == #[trigger] r@[j]@,
            forall|q: Seq<char>|
                #![trigger id_set(r@).contains(q)]
                id_set(r@).contains(q) <==> (exists|k: int|
                    0 <= k < i && wiki.id_at(k) == q && target.contains(q)),
        decreases wiki.pages.len() - i,
    {
        proof {
            wiki.lemma_index_of(i as int);
        }
        let entry = &wiki.pages[i];
        let keep = same_parent(&entry.1.parent, parent) && match skip {
            Some(s) => entry.0.0 != s.0,
            None => true,
        };
        if keep {
            let ghost old_r = r@;
            r.push(entry.0.duplicate());
            proof {
                assert forall|a: int, b: int|
                    0 <= a < r.len() && 0 <= b < r.len() && a != b implies r@[a]@ != r@[b]@ by {
                    if a == i || b == i {
                    }
                    if a == old_r.len() {
                        let k = choose|k: int| 0 <= k < i && wiki.id_at(k) == old_r[b]@;
                    }
                    if b == old_r.len() {
                        let k = choose|k: int| 0 <= k < i && wiki.id_at(k) == old_r[a]@;
                    }
                }
                assert forall|q: Seq<char>|
                    id_set(r@).contains(q) <==> (exists|k: int|
                        0 <= k < i + 1 && wiki.id_at(k) == q && target.contains(q)) by {
                    if id_set(r@).contains(q) {
                        let j = choose|j: int| 0 <= j < r@.len() && r@[j]@ == q;
                        if j < old_r.len() {
                            assert(id_set(old_r).contains(q));
                        }
                    }
                    if exists|k: int| 0 <= k < i + 1 && wiki.id_at(k) == q && target.contains(q) {
                        let k = choose|k: int| 0 <= k < i + 1 && wiki.id_at(k) == q && target.contains(q);
                        if k < i {
                            assert(id_set(old_r).contains(q));
                            let j = choose|j: int| 0 <= j < old_r.len() && old_r[j]@ == q;
                            assert(r@[j]@ == q);
                        } else {
                            assert(r@[old_r.len() as int]@ == q);
                        }
                    }
                }
            }
        } else {
            proof {
                assert forall|q: Seq<char>|
                    id_set(r@).contains(q) <==> (exists|k: int|
                        0 <= k < i + 1 && wiki.id_at(k) == q && target.contains(q)) by {
                    if exists|k: int| 0 <= k < i + 1 && wiki.id_at(k) == q && target.contains(q) {
                        let k = choose|k: int| 0 <= k < i + 1 && wiki.id_at(k) == q && target.contains(q);
                        if k == i {
                            assert(!target.contains(q));
                        }
                    }
                }
            }
        }
        i += 1;
    }
    proof {
        assert forall|q: Seq<char>| id_set(r@).contains(q) <==> target.contains(q) by {
            if target.contains(q) {
                assert(wiki.has(q));
                let k = wiki.index_of(q);
            }
        }
        assert(id_set(r@) =~= target);
    }
    r
}

/// The page with identifier `id`, or `None` where there is none.
pub fn get_page<'a>(wiki: &'a Wiki, id: &str) -> (r: Option<&'a Page>)
    ensures
        r is Some <==> wiki.has(id@),
        r matches Some(p) ==> exists|i: int|
            0 <= i < wiki.pages.len() && wiki.id_at(i) == id@ && *p == wiki.pages@[i].1,
{
    match find_page(wiki, id) {
        Some(i) => Some(&wiki.pages[i].1),
        None => None,
    }
}

/// The children of page `id`: the pages that name it as their parent. `None`
/// where there is no page `id`.
pub fn get_children_ids(wiki: &Wiki, id: &str) -> (r: Option<Vec<PageId>>)
    requires
        wiki.wf(),
    ensures
        r is Some <==> wiki.has(id@),
        r matches Some(v) ==> id_set(v@) == wiki.children_of(id@) && distinct_ids(v@),
{
    match find_page(wiki, id) {
        Some(i) => Some(pages_with_parent(wiki, &Some(wiki.pages[i].0.duplicate()), None)),
        None => None,
    }
}

/// The siblings of page `id`, itself included: the pages with the same
/// parent, where all pages without a parent are siblings of each other.
/// `None` where there is no page `id`.
pub fn get_sibling_ids(wiki: &Wiki, id: &str) -> (r: Option<Vec<PageId>>)
    requires
        wiki.wf(),
    ensures
        r is Some <==> wiki.has(id@),
        r matches Some(v) ==> id_set(v@) == wiki.siblings_of(id@) && distinct_ids(v@),
{
    match find_page(wiki, id) {
        Some(i) => {
            proof {
                wiki.lemma_index_of(i as int);
            }
            Some(pages_with_parent(wiki, &wiki.pages[i].1.parent, None))
        },
        None => None,
    }
}

/// The uncles of page `id`: the children of its grandparent other than its
/// parent. Empty where `id` has no parent or its parent has none. `None` where
/// there is no page `id`.
pub fn get_uncle_ids(wiki: &Wiki, id: &str) -> (r: Option<Vec<PageId>>)
    requires
        wiki.wf(),
    ensures
        r is Some <==> wiki.has(id@),
        r matches Some(v) ==> id_set(v@) == wiki.uncles_of(id@) && distinct_ids(v@),
{
    match find_page(wiki, id) {
        Some(i) => {
            proof {
                wiki.lemma_index_of(i as int);
            }
            match &wiki.pages[i].1.parent {
                Some(p) => {
                    match find_page(wiki, p.as_str()) {
                        Some(j) => {
                            proof {
                                wiki.lemma_index_of(j as int);
                            }
                            match &wiki.pages[j].1.parent {
                                Some(g) => Some(
                                    pages_with_parent(wiki, &Some(g.duplicate()), Some(p)),
                                ),
                                None => {
                                    let v: Vec<PageId> = Vec::new();
                                    proof {
                                        assert(id_set(v@) =~= Set::empty());
                                    }
                                    Some(v)
                                },
                            }
                        },
                        None => None,
                    }
                },
                None => {
                    let v: Vec<PageId> = Vec::new();
                    proof {
                        assert(id_set(v@) =~= Set::empty());
                    }
                    Some(v)
                },
            }
        },
        None => None,
    }
}

} // verus!
