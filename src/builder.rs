//! Building a closed graph from extracted documents.
use vstd::prelude::*;

use crate::model::{distinct_ids, id_set, opt_id, Page, PageId, Wiki};
use crate::repo::find_page;
use crate::error::Error;
use crate::files::{stem_id, strip_extension_from_filename};
use crate::parser::{parse_raw_page, parsed_spec, Frontmatter, Html, ParsedPage};

verus! {

/// Some document of `docs` has identifier `s`.
pub open spec fn doc_has(docs: Seq<(PageId, ParsedPage)>, s: Seq<char>) -> bool {
    exists|i: int| 0 <= i < docs.len() && docs[i].0@ == s
}

/// Document `i` is the last one of `docs` with its identifier: the one that
/// counts where several share it.
pub open spec fn is_last(docs: Seq<(PageId, ParsedPage)>, i: int) -> bool {
    &&& 0 <= i < docs.len()
    &&& forall|j: int| i < j < docs.len() ==> docs[j].0@ != docs[i].0@
}

/// The position of `s` in `ids`, if it is there.
fn find_id(ids: &Vec<PageId>, s: &PageId) -> (r: Option<usize>)
    ensures
        r matches Some(k) ==> k < ids.len() && ids@[k as int]@ == s@,
        r is None ==> !id_set(ids@).contains(s@),
{
    let mut k: usize = 0;
    while k < ids.len()
        invariant
            0 <= k <= ids.len(),
            forall|j: int| 0 <= j < k ==> ids@[j]@ != s@,
        decreases ids.len() - k,
    {
        if ids[k].0 == s.0 {
            return Some(k);
        }
        k += 1;
    }
    None
}

/// The distinct identifiers of `docs`, and for each the position of the last
/// document that has it.
fn latest_per_id(docs: &Vec<(PageId, ParsedPage)>) -> (r: (Vec<PageId>, Vec<usize>))
    ensures
        r.0.len() == r.1.len(),
        distinct_ids(r.0@),
        forall|k: int|
            0 <= k < r.1.len() ==> is_last(docs@, #[trigger] r.1@[k] as int) && docs@[r.1@[k] as int].0@
                == r.0@[k]@,
        forall|s: Seq<char>| #[trigger] id_set(r.0@).contains(s) <==> doc_has(docs@, s),
{
    let mut ids: Vec<PageId> = Vec::new();
    let mut sel: Vec<usize> = Vec::new();
    let mut i: usize = 0;
    while i < docs.len()
        invariant
            0 <= i <= docs.len(),
            ids.len() == sel.len(),
            distinct_ids(ids@),
            forall|k: int|
                0 <= k < sel.len() ==> #[trigger] sel@[k] < i && docs@[sel@[k] as int].0@ == ids@[k]@
                    && forall|j: int| sel@[k] < j < i ==> docs@[j].0@ != ids@[k]@,
            forall|s: Seq<char>|
                #[trigger] id_set(ids@).contains(s) <==> exists|j: int|
                    0 <= j < i && docs@[j].0@ == s,
        decreases docs.len() - i,
    {
        let ghost old_ids = ids@;
        match find_id(&ids, &docs[i].0) {
            Some(k) => {
                sel.set(k, i);
                proof {
                    assert forall|k2: int|
                        0 <= k2 < sel.len() implies #[trigger] sel@[k2] < i + 1 && docs@[sel@[k2] as int].0@
                            == ids@[k2]@ && forall|j: int|
                            sel@[k2] < j < i + 1 ==> docs@[j].0@ != ids@[k2]@ by {
                        if k2 != k {
                            assert(ids@[k2]@ != ids@[k as int]@);
                        }
                    }
                    assert forall|s: Seq<char>|
                        #[trigger] id_set(ids@).contains(s) <==> exists|j: int|
                            0 <= j < i + 1 && docs@[j].0@ == s by {
                        if exists|j: int| 0 <= j < i + 1 && docs@[j].0@ == s {
                            let j = choose|j: int| 0 <= j < i + 1 && docs@[j].0@ == s;
                            if j == i {
                                assert(ids@[k as int]@ == s);
                            }
                        }
                    }
                }
            },
            None => {
                ids.push(docs[i].0.duplicate());
                sel.push(i);
                proof {
                    assert forall|a: int, b: int|
                        0 <= a < ids.len() && 0 <= b < ids.len() && a != b implies ids@[a]@
                        != ids@[b]@ by {
                        if a == old_ids.len() {
                            assert(old_ids[b] == ids@[b]);
                        }
                        if b == old_ids.len() {
                            assert(old_ids[a] == ids@[a]);
                        }
                    }
                    assert forall|s: Seq<char>|
                        #[trigger] id_set(ids@).contains(s) <==> exists|j: int|
                            0 <= j < i + 1 && docs@[j].0@ == s by {
                        if id_set(ids@).contains(s) {
                            let e = choose|e: int| 0 <= e < ids.len() && ids@[e]@ == s;
                            if e < old_ids.len() {
                                assert(id_set(old_ids).contains(s));
                            }
                        }
                        if exists|j: int| 0 <= j < i + 1 && docs@[j].0@ == s {
                            let j = choose|j: int| 0 <= j < i + 1 && docs@[j].0@ == s;
                            if j < i {
                                assert(id_set(old_ids).contains(s));
                                let e = choose|e: int| 0 <= e < old_ids.len() && old_ids[e]@ == s;
                                assert(ids@[e]@ == s);
                            } else {
                                assert(ids@[old_ids.len() as int]@ == s);
                            }
                        }
                    }
                }
            },
        }
        i += 1;
    }
    (ids, sel)
}

/// The declared parent and the links of `page`, resolved to positions in
/// `ids`; references to identifiers that `ids` lacks are dropped, and each
/// target is listed once.
fn resolve_links(ids: &Vec<PageId>, page: &ParsedPage) -> (r: (Option<usize>, Vec<usize>))
    requires
        distinct_ids(ids@),
    ensures
        r.0 matches Some(t) ==> t < ids.len() && page.declared_parent() == Some(ids@[t as int]@),
        r.0 is None ==> (page.declared_parent() matches Some(p) ==> !id_set(ids@).contains(p)),
        r.1@.no_duplicates(),
        forall|e: int| 0 <= e < r.1.len() ==> #[trigger] r.1@[e] < ids.len(),
        forall|t: int|
            0 <= t < ids.len() ==> (r.1@.contains(t as usize) <==> #[trigger] id_set(
                page.links@,
            ).contains(ids@[t]@)),
{
    let parent = match &page.frontmatter {
        Some(f) => match &f.parent {
            Some(p) => find_id(ids, p),
            None => None,
        },
        None => None,
    };
    let mut out: Vec<usize> = Vec::new();
    let mut e: usize = 0;
    while e < page.links.len()
        invariant
            0 <= e <= page.links.len(),
            distinct_ids(ids@),
            out@.no_duplicates(),
            forall|x: int| 0 <= x < out.len() ==> #[trigger] out@[x] < ids.len(),
            forall|t: int|
                #![trigger ids@[t]]
                0 <= t < ids.len() ==> (out@.contains(t as usize) <==> exists|x: int|
                    0 <= x < e && #[trigger] page.links@[x]@ == ids@[t]@),
        decreases page.links.len() - e,
    {
        match find_id(ids, &page.links[e]) {
            Some(t) => {
                let ghost old_out = out@;
                if !vec_contains(&out, t) {
                    out.push(t);
                    proof {
                        assert(out@[old_out.len() as int] == t);
                        assert forall|y: usize| out@.contains(y) <==> (old_out.contains(y) || y == t) by {
                            if out@.contains(y) {
                                let z = choose|z: int| 0 <= z < out.len() && out@[z] == y;
                                if z < old_out.len() {
                                    assert(old_out[z] == y);
                                }
                            }
                            if old_out.contains(y) {
                                let z = choose|z: int| 0 <= z < old_out.len() && old_out[z] == y;
                                assert(out@[z] == y);
                            }
                        }
                    }
                }
                proof {
                    assert forall|t2: int|
                        #![trigger ids@[t2]]
                        0 <= t2 < ids.len() implies (out@.contains(t2 as usize) <==> exists|x: int|
                            0 <= x < e + 1 && #[trigger] page.links@[x]@ == ids@[t2]@) by {
                        if t2 != t {
                            assert(ids@[t2]@ != ids@[t as int]@);
                        } else {
                            assert(page.links@[e as int]@ == ids@[t2]@);
                        }
                    }
                }
            },
            None => {
                proof {
                    assert forall|t2: int|
                        #![trigger ids@[t2]]
                        0 <= t2 < ids.len() implies (out@.contains(t2 as usize) <==> exists|x: int|
                            0 <= x < e + 1 && #[trigger] page.links@[x]@ == ids@[t2]@) by {
                        if page.links@[e as int]@ == ids@[t2]@ {
                            assert(id_set(ids@).contains(ids@[t2]@));
                        }
                    }
                }
            },
        }
        e += 1;
    }
    proof {
        assert forall|t: int|
            0 <= t < ids.len() implies (out@.contains(t as usize) <==> #[trigger] id_set(
                page.links@,
            ).contains(ids@[t]@)) by {
            if id_set(page.links@).contains(ids@[t]@) {
                let x = choose|x: int| 0 <= x < page.links.len() && page.links@[x]@ == ids@[t]@;
            }
        }
    }
    (parent, out)
}

/// Whether `v` holds `x`.
fn vec_contains(v: &Vec<usize>, x: usize) -> (r: bool)
    ensures
        r == v@.contains(x),
{
    let mut i: usize = 0;
    while i < v.len()
        invariant
            0 <= i <= v.len(),
            forall|j: int| 0 <= j < i ==> v@[j] != x,
        decreases v.len() - i,
    {
        if v[i] == x {
            return true;
        }
        i += 1;
    }
    false
}

/// Position `a` points at position `b`: `b` is its parent or one of its links.
pub open spec fn points_to(par: Seq<Option<usize>>, out: Seq<Vec<usize>>, a: int, b: int) -> bool {
    par[a] == Some(b as usize) || out[a]@.contains(b as usize)
}

/// Records `a` among the sources of `b`, unless it is there already.
fn add_source(inc: &mut Vec<Vec<usize>>, b: usize, a: usize)
    requires
        b < old(inc).len(),
        old(inc)@[b as int]@.no_duplicates(),
    ensures
        final(inc).len() == old(inc).len(),
        forall|c: int| 0 <= c < old(inc).len() && c != b ==> final(inc)@[c] == old(inc)@[c],
        final(inc)@[b as int]@.no_duplicates(),
        forall|x: usize|
            #[trigger] final(inc)@[b as int]@.contains(x) <==> (old(inc)@[b as int]@.contains(x) || x
                == a),
{
    if !vec_contains(&inc[b], a) {
        let ghost before = inc@[b as int]@;
        inc[b].push(a);
        proof {
            let after = inc@[b as int]@;
            assert(after == before.push(a));
            assert forall|x: usize| after.contains(x) <==> (before.contains(x) || x == a) by {
                if after.contains(x) {
                    let z = choose|z: int| 0 <= z < after.len() && after[z] == x;
                    if z < before.len() {
                        assert(before[z] == x);
                    }
                }
                if before.contains(x) {
                    let z = choose|z: int| 0 <= z < before.len() && before[z] == x;
                    assert(after[z] == x);
                }
                if x == a {
                    assert(after[before.len() as int] == x);
                }
            }
        }
    }
}

/// For each position, the positions that point at it: the inverse of the
/// parent and link relation.
fn invert(par: &Vec<Option<usize>>, out: &Vec<Vec<usize>>) -> (inc: Vec<Vec<usize>>)
    requires
        par.len() == out.len(),
        forall|a: int| 0 <= a < par.len() ==> (#[trigger] par@[a] matches Some(b) ==> b < par.len()),
        forall|a: int, e: int|
            0 <= a < out.len() && 0 <= e < out@[a].len() ==> #[trigger] out@[a]@[e] < out.len(),
    ensures
        inc.len() == par.len(),
        forall|b: int| 0 <= b < inc.len() ==> (#[trigger] inc@[b])@.no_duplicates(),
        forall|b: int, x: usize|
            0 <= b < inc.len() ==> (#[trigger] inc@[b]@.contains(x) <==> (x < par.len()
                && points_to(par@, out@, x as int, b))),
{
    let n = par.len();
    let mut inc: Vec<Vec<usize>> = Vec::new();
    while inc.len() < n
        invariant
            inc.len() <= n,
            forall|b: int| 0 <= b < inc.len() ==> (#[trigger] inc@[b])@.len() == 0,
        decreases n - inc.len(),
    {
        inc.push(Vec::new());
    }
    let mut a: usize = 0;
    while a < n
        invariant
            n == par.len(),
            par.len() == out.len(),
            0 <= a <= n,
            inc.len() == n,
            forall|a2: int| 0 <= a2 < par.len() ==> (#[trigger] par@[a2] matches Some(b) ==> b < par.len()),
            forall|a2: int, e: int|
                0 <= a2 < out.len() && 0 <= e < out@[a2].len() ==> #[trigger] out@[a2]@[e] < out.len(),
            forall|b: int| 0 <= b < inc.len() ==> (#[trigger] inc@[b])@.no_duplicates(),
            forall|b: int, x: usize|
                0 <= b < inc.len() ==> (#[trigger] inc@[b]@.contains(x) <==> (x < a
                    && points_to(par@, out@, x as int, b))),
        decreases n - a,
    {
        if let Some(b) = par[a] {
            add_source(&mut inc, b, a);
        }
        let ghost base = inc@;
        proof {
            assert forall|b: int, x: usize|
                0 <= b < inc.len() implies (#[trigger] inc@[b]@.contains(x) <==> ((x < a
                    && points_to(par@, out@, x as int, b)) || (x == a && par@[a as int] == Some(b as usize)))) by {
            }
        }
        let mut e: usize = 0;
        while e < out[a].len()
            invariant
                n == par.len(),
                par.len() == out.len(),
                0 <= a < n,
                0 <= e <= out@[a as int].len(),
                inc.len() == n,
                forall|a2: int, e2: int|
                    0 <= a2 < out.len() && 0 <= e2 < out@[a2].len() ==> #[trigger] out@[a2]@[e2] < out.len(),
                forall|b: int| 0 <= b < inc.len() ==> (#[trigger] inc@[b])@.no_duplicates(),
                forall|b: int, x: usize|
                    0 <= b < inc.len() ==> (#[trigger] inc@[b]@.contains(x) <==> ((x < a
                        && points_to(par@, out@, x as int, b)) || (x == a && (par@[a as int] == Some(b as usize)
                        || out@[a as int]@.take(e as int).contains(b as usize))))),
            decreases out@[a as int].len() - e,
        {
            let t = out[a][e];
            let ghost prev = inc@;
            add_source(&mut inc, t, a);
            proof {
                let row = out@[a as int]@;
                assert(row.take(e + 1) == row.take(e as int).push(t));
                assert forall|b: int, x: usize|
                    0 <= b < inc.len() implies (#[trigger] inc@[b]@.contains(x) <==> ((x < a
                        && points_to(par@, out@, x as int, b)) || (x == a && (par@[a as int] == Some(b as usize)
                        || row.take(e + 1).contains(b as usize))))) by {
                    assert(prev[b]@.contains(x) <==> ((x < a
                        && points_to(par@, out@, x as int, b)) || (x == a && (par@[a as int] == Some(b as usize)
                        || row.take(e as int).contains(b as usize)))));
                    if row.take(e + 1).contains(b as usize) && !row.take(e as int).contains(b as usize) {
                        let z = choose|z: int| 0 <= z < e + 1 && #[trigger] row.take(e + 1)[z] == b as usize;
                        if z < e {
                            assert(row.take(e as int)[z] == b as usize);
                        }
                    }
                    if row.take(e as int).contains(b as usize) {
                        let z = choose|z: int| 0 <= z < e && #[trigger] row.take(e as int)[z] == b as usize;
                        assert(row.take(e + 1)[z] == b as usize);
                    }
                    if b == t {
                        assert(row.take(e + 1)[e as int] == t);
                    }
                }
            }
            e += 1;
        }
        proof {
            assert(out@[a as int]@.take(out@[a as int].len() as int) == out@[a as int]@);
        }
        a += 1;
    }
    inc
}

/// The identifiers at the positions `idx`, in order.
fn ids_at(ids: &Vec<PageId>, idx: &Vec<usize>) -> (r: Vec<PageId>)
    requires
        forall|e: int| 0 <= e < idx.len() ==> #[trigger] idx@[e] < ids.len(),
    ensures
        r.len() == idx.len(),
        forall|e: int| 0 <= e < idx.len() ==> (#[trigger] r@[e])@ == ids@[idx@[e] as int]@,
{
    let mut r: Vec<PageId> = Vec::new();
    let mut e: usize = 0;
    while e < idx.len()
        invariant
            0 <= e <= idx.len(),
            r.len() == e,
            forall|e2: int| 0 <= e2 < idx.len() ==> #[trigger] idx@[e2] < ids.len(),
            forall|e2: int| 0 <= e2 < e ==> (#[trigger] r@[e2])@ == ids@[idx@[e2] as int]@,
        decreases idx.len() - e,
    {
        r.push(ids[idx[e]].duplicate());
        e += 1;
    }
    r
}

/// What `v` holds, where each of its items is the identifier at the matching
/// position of `idx`: the identifiers at the positions that `idx` lists, each
/// once where `idx` lists each once.
proof fn lemma_ids_at(ids: Seq<PageId>, idx: Seq<usize>, v: Seq<PageId>)
    requires
        ids.len() <= usize::MAX,
        distinct_ids(ids),
        v.len() == idx.len(),
        forall|e: int| 0 <= e < idx.len() ==> #[trigger] idx[e] < ids.len(),
        forall|e: int| 0 <= e < idx.len() ==> (#[trigger] v[e])@ == ids[idx[e] as int]@,
    ensures
        forall|s: Seq<char>|
            #[trigger] id_set(v).contains(s) ==> exists|t: int|
                0 <= t < ids.len() && idx.contains(t as usize) && ids[t]@ == s,
        forall|t: int|
            0 <= t < ids.len() ==> (#[trigger] id_set(v).contains(ids[t]@) <==> idx.contains(
                t as usize,
            )),
        idx.no_duplicates() ==> distinct_ids(v),
{
    assert forall|s: Seq<char>|
        #[trigger] id_set(v).contains(s) implies exists|t: int|
            0 <= t < ids.len() && idx.contains(t as usize) && ids[t]@ == s by {
        let e = choose|e: int| 0 <= e < v.len() && v[e]@ == s;
        assert(idx[e] < ids.len());
        assert(idx.contains(idx[e]));
    }
    assert forall|t: int|
        0 <= t < ids.len() implies (#[trigger] id_set(v).contains(ids[t]@) <==> idx.contains(
            t as usize,
        )) by {
        if id_set(v).contains(ids[t]@) {
            let e = choose|e: int| 0 <= e < v.len() && v[e]@ == ids[t]@;
            assert(idx[e] < ids.len());
            assert(ids[idx[e] as int]@ == ids[t]@);
            assert(idx[e] as int == t);
        }
        if idx.contains(t as usize) {
            let e = choose|e: int| 0 <= e < idx.len() && idx[e] == t as usize;
            assert(v[e]@ == ids[t]@);
        }
    }
    if idx.no_duplicates() {
        assert forall|a: int, b: int|
            0 <= a < v.len() && 0 <= b < v.len() && a != b implies v[a]@ != v[b]@ by {
            assert(idx[a] != idx[b]);
            assert(idx[a] < ids.len() && idx[b] < ids.len());
        }
    }
}

/// The parent that a declared one resolves to among `docs`: itself where a
/// document has that identifier, none otherwise.
pub open spec fn resolved_parent(docs: Seq<(PageId, ParsedPage)>, p: Option<Seq<char>>) -> Option<
    Seq<char>,
> {
    match p {
        Some(x) => if doc_has(docs, x) {
            Some(x)
        } else {
            None
        },
        None => None,
    }
}

impl Wiki {
    /// Page `docs[i].0` of this graph is built from document `i`: its
    /// content, its declared parent where that page exists, and those of its
    /// links whose targets exist.
    pub open spec fn page_from(&self, docs: Seq<(PageId, ParsedPage)>, i: int) -> bool {
        let s = docs[i].0@;
        let d = docs[i].1;
        &&& self.content_of(s) == d.html@
        &&& self.metadata_of(s) == d.metadata()
        &&& self.parent_of(s) == resolved_parent(docs, d.declared_parent())
        &&& self.outgoing_of(s) == id_set(d.links@).filter(|t: Seq<char>| doc_has(docs, t))
    }

    /// This graph is the one that `docs` yield: a closed graph with a page for
    /// each identifier of `docs`, built from the last document with it.
    pub open spec fn built_from(&self, docs: Seq<(PageId, ParsedPage)>) -> bool {
        &&& self.wf()
        &&& forall|s: Seq<char>| #[trigger] self.has(s) <==> doc_has(docs, s)
        &&& forall|i: int| #[trigger] is_last(docs, i) ==> self.page_from(docs, i)
    }

    /// Builds the graph of `docs`: one page per identifier (where several
    /// documents share one, the last wins), references to absent pages
    /// dropped, and each page's incoming links derived from the parents and
    /// links of the others.
    pub fn from_pages(docs: &Vec<(PageId, ParsedPage)>) -> (w: Wiki)
        ensures
            w.built_from(docs@),
    {
        let (ids, sel) = latest_per_id(docs);
        let m = ids.len();
        let mut par: Vec<Option<usize>> = Vec::new();
        let mut out: Vec<Vec<usize>> = Vec::new();
        let mut k: usize = 0;
        while k < m
            invariant
                m == ids.len(),
                ids.len() == sel.len(),
                distinct_ids(ids@),
                forall|k2: int|
                    0 <= k2 < sel.len() ==> is_last(docs@, #[trigger] sel@[k2] as int)
                        && docs@[sel@[k2] as int].0@ == ids@[k2]@,
                forall|s: Seq<char>| #[trigger] id_set(ids@).contains(s) <==> doc_has(docs@, s),
                0 <= k <= m,
                par.len() == k,
                out.len() == k,
                forall|k2: int|
                    0 <= k2 < k ==> #[trigger] resolves(ids@, docs@[sel@[k2] as int].1, par@[k2], out@[k2]),
            decreases m - k,
        {
            let (p, o) = resolve_links(&ids, &docs[sel[k]].1);
            par.push(p);
            out.push(o);
            proof {
                assert(resolves(ids@, docs@[sel@[k as int] as int].1, par@[k as int], out@[k as int]));
            }
            k += 1;
        }
        proof {
            assert forall|a: int| 0 <= a < par.len() implies (#[trigger] par@[a] matches Some(b)
                ==> b < par.len()) by {
                assert(resolves(ids@, docs@[sel@[a] as int].1, par@[a], out@[a]));
            }
            assert forall|a: int, e: int|
                0 <= a < out.len() && 0 <= e < out@[a].len() implies #[trigger] out@[a]@[e] < out.len() by {
                assert(resolves(ids@, docs@[sel@[a] as int].1, par@[a], out@[a]));
            }
        }
        let inc = invert(&par, &out);
        let mut pages: Vec<(PageId, Page)> = Vec::new();
        let mut k: usize = 0;
        while k < m
            invariant
                m == ids.len(),
                ids.len() == sel.len(),
                distinct_ids(ids@),
                forall|k2: int|
                    0 <= k2 < sel.len() ==> is_last(docs@, #[trigger] sel@[k2] as int)
                        && docs@[sel@[k2] as int].0@ == ids@[k2]@,
                forall|s: Seq<char>| #[trigger] id_set(ids@).contains(s) <==> doc_has(docs@, s),
                forall|k2: int|
                    0 <= k2 < m ==> #[trigger] resolves(ids@, docs@[sel@[k2] as int].1, par@[k2], out@[k2]),
                forall|b: int| 0 <= b < inc.len() ==> (#[trigger] inc@[b])@.no_duplicates(),
                par.len() == m,
                out.len() == m,
                inc.len() == m,
                forall|a: int| 0 <= a < par.len() ==> (#[trigger] par@[a] matches Some(b) ==> b < par.len()),
                forall|a: int, e: int|
                    0 <= a < out.len() && 0 <= e < out@[a].len() ==> #[trigger] out@[a]@[e] < out.len(),
                forall|b: int, x: usize|
                    0 <= b < inc.len() ==> (#[trigger] inc@[b]@.contains(x) <==> (x < par.len()
                        && points_to(par@, out@, x as int, b))),
                0 <= k <= m,
                pages.len() == k,
                forall|k2: int|
                    0 <= k2 < k ==> #[trigger] assembled(
                        ids@,
                        docs@[sel@[k2] as int].1,
                        par@[k2],
                        out@[k2],
                        inc@[k2],
                        pages@[k2],
                        ids@[k2],
                    ),
            decreases m - k,
        {
            let d = &docs[sel[k]].1;
            let parent = match par[k] {
                Some(t) => Some(ids[t].duplicate()),
                None => None,
            };
            proof {
                assert forall|e: int| 0 <= e < inc@[k as int].len() implies #[trigger] inc@[k as int]@[e]
                    < ids.len() by {
                    assert(inc@[k as int]@.contains(inc@[k as int]@[e]));
                }
            }
            let page = Page {
                content: Html(d.html.0.clone()),
                parent,
                outgoing: ids_at(&ids, &out[k]),
                incoming: ids_at(&ids, &inc[k]),
                metadata: d.metadata_value(),
            };
            pages.push((ids[k].duplicate(), page));
            proof {
                let k = k as int;
                assert(assembled(ids@, docs@[sel@[k] as int].1, par@[k], out@[k], inc@[k], pages@[k], ids@[k]));
            }
            k += 1;
        }
        let w = Wiki { pages };
        proof {
            lemma_built(docs@, ids@, sel@, par@, out@, inc@, w);
        }
        w
    }
}

/// `par` and `out` are the parent and the links of `page`, resolved against `ids`.
pub open spec fn resolves(ids: Seq<PageId>, page: ParsedPage, par: Option<usize>, out: Vec<usize>) -> bool {
    &&& par matches Some(t) ==> t < ids.len() && page.declared_parent() == Some(ids[t as int]@)
    &&& par is None ==> (page.declared_parent() matches Some(p) ==> !id_set(ids).contains(p))
    &&& out@.no_duplicates()
    &&& forall|e: int| 0 <= e < out.len() ==> #[trigger] out@[e] < ids.len()
    &&& forall|t: int|
        0 <= t < ids.len() ==> (out@.contains(t as usize) <==> #[trigger] id_set(page.links@).contains(ids[t]@))
}

/// `entry` is the page with identifier `id` made of `page` and the resolved
/// positions `par`, `out` and `inc`.
pub open spec fn assembled(
    ids: Seq<PageId>,
    page: ParsedPage,
    par: Option<usize>,
    out: Vec<usize>,
    inc: Vec<usize>,
    entry: (PageId, Page),
    id: PageId,
) -> bool {
    &&& entry.0@ == id@
    &&& entry.1.content@ == page.html@
    &&& entry.1.metadata == page.metadata()
    &&& entry.1.parent is Some <==> par is Some
    &&& par matches Some(t) ==> entry.1.parent->0@ == ids[t as int]@
    &&& entry.1.outgoing.len() == out.len()
    &&& forall|e: int| 0 <= e < out.len() ==> (#[trigger] entry.1.outgoing@[e])@ == ids[out@[e] as int]@
    &&& entry.1.incoming.len() == inc.len()
    &&& forall|e: int| 0 <= e < inc.len() ==> (#[trigger] entry.1.incoming@[e])@ == ids[inc@[e] as int]@
}

/// Page `k` of `w` has the parent and the links that the positions `par`,
/// `out` and `inc` give it.
spec fn page_facts(
    w: Wiki,
    ids: Seq<PageId>,
    par: Seq<Option<usize>>,
    out: Seq<Vec<usize>>,
    inc: Seq<Vec<usize>>,
    k: int,
) -> bool {
    &&& w.parent_at(k) == (match par[k] { Some(t) => Some(ids[t as int]@), None => None })
    &&& forall|t: int|
        0 <= t < ids.len() ==> (#[trigger] w.outgoing_at(k).contains(ids[t]@) <==> out[k]@.contains(
            t as usize,
        ))
    &&& forall|t: int|
        0 <= t < ids.len() ==> (#[trigger] w.incoming_at(k).contains(ids[t]@) <==> inc[k]@.contains(
            t as usize,
        ))
    &&& forall|s: Seq<char>| #[trigger] w.outgoing_at(k).contains(s) ==> id_set(ids).contains(s)
    &&& forall|s: Seq<char>| #[trigger] w.incoming_at(k).contains(s) ==> id_set(ids).contains(s)
    &&& distinct_ids(w.pages@[k].1.outgoing@)
    &&& distinct_ids(w.pages@[k].1.incoming@)
}

/// The graph assembled from the resolved positions is the one that `docs` yield.
proof fn lemma_built(
    docs: Seq<(PageId, ParsedPage)>,
    ids: Seq<PageId>,
    sel: Seq<usize>,
    par: Seq<Option<usize>>,
    out: Seq<Vec<usize>>,
    inc: Seq<Vec<usize>>,
    w: Wiki,
)
    requires
        ids.len() <= usize::MAX,
        ids.len() == sel.len(),
        par.len() == ids.len(),
        out.len() == ids.len(),
        inc.len() == ids.len(),
        w.pages.len() == ids.len(),
        distinct_ids(ids),
        forall|k: int|
            0 <= k < sel.len() ==> is_last(docs, #[trigger] sel[k] as int) && docs[sel[k] as int].0@
                == ids[k]@,
        forall|s: Seq<char>| #[trigger] id_set(ids).contains(s) <==> doc_has(docs, s),
        forall|k: int| 0 <= k < ids.len() ==> #[trigger] resolves(ids, docs[sel[k] as int].1, par[k], out[k]),
        forall|b: int| 0 <= b < inc.len() ==> (#[trigger] inc[b])@.no_duplicates(),
        forall|b: int, x: usize|
            0 <= b < inc.len() ==> (#[trigger] inc[b]@.contains(x) <==> (x < par.len()
                && points_to(par, out, x as int, b))),
        forall|k: int|
            0 <= k < ids.len() ==> #[trigger] assembled(
                ids,
                docs[sel[k] as int].1,
                par[k],
                out[k],
                inc[k],
                w.pages@[k],
                ids[k],
            ),
    ensures
        w.built_from(docs),
{
    assert forall|k: int| 0 <= k < ids.len() implies #[trigger] w.id_at(k) == ids[k]@ by {
        assert(assembled(ids, docs[sel[k] as int].1, par[k], out[k], inc[k], w.pages@[k], ids[k]));
    }
    assert(w.unique_ids());
    assert forall|k: int| 0 <= k < ids.len() implies #[trigger] page_facts(w, ids, par, out, inc, k) by {
        let d = docs[sel[k] as int].1;
        assert(assembled(ids, d, par[k], out[k], inc[k], w.pages@[k], ids[k]));
        assert(resolves(ids, d, par[k], out[k]));
        assert forall|e: int| 0 <= e < inc[k].len() implies #[trigger] inc[k]@[e] < ids.len() by {
            assert(inc[k]@.contains(inc[k]@[e]));
        }
        lemma_ids_at(ids, out[k]@, w.pages@[k].1.outgoing@);
        lemma_ids_at(ids, inc[k]@, w.pages@[k].1.incoming@);
        assert forall|s: Seq<char>| #[trigger] w.outgoing_at(k).contains(s) implies id_set(ids).contains(s) by {
            let t = choose|t: int| 0 <= t < ids.len() && out[k]@.contains(t as usize) && ids[t]@ == s;
        }
        assert forall|s: Seq<char>| #[trigger] w.incoming_at(k).contains(s) implies id_set(ids).contains(s) by {
            let t = choose|t: int| 0 <= t < ids.len() && inc[k]@.contains(t as usize) && ids[t]@ == s;
        }
    }
    assert forall|s: Seq<char>| #[trigger] w.has(s) <==> id_set(ids).contains(s) by {
        if w.has(s) {
            let k = choose|k: int| 0 <= k < ids.len() && w.id_at(k) == s;
        }
        if id_set(ids).contains(s) {
            let k = choose|k: int| 0 <= k < ids.len() && ids[k]@ == s;
            assert(w.id_at(k) == s);
        }
    }
    // Closedness.
    assert forall|i: int| 0 <= i < ids.len() implies match #[trigger] w.parent_at(i) {
        Some(p) => w.has(p),
        None => true,
    } by {
        assert(page_facts(w, ids, par, out, inc, i));
        if let Some(t) = par[i] {
            assert(resolves(ids, docs[sel[i] as int].1, par[i], out[i]));
            assert(id_set(ids).contains(ids[t as int]@));
        }
    }
    // Incoming links are exactly the pages that point at each page.
    assert forall|b: int| 0 <= b < ids.len() implies #[trigger] w.incoming_at(b) == w.pointing_at(w.id_at(b)) by {
        assert(page_facts(w, ids, par, out, inc, b));
        assert forall|q: Seq<char>| w.incoming_at(b).contains(q) <==> w.pointing_at(w.id_at(b)).contains(q) by {
            if w.has(q) {
                let a = w.index_of(q);
                w.lemma_index_of(a);
                assert(page_facts(w, ids, par, out, inc, a));
                assert(page_facts(w, ids, par, out, inc, b));
                assert(w.parent_at(a) == Some(ids[b]@) <==> par[a] == Some(b as usize)) by {
                    if let Some(t) = par[a] {
                        assert(resolves(ids, docs[sel[a] as int].1, par[a], out[a]));
                        if ids[t as int]@ == ids[b]@ {
                            assert(t as int == b);
                        }
                    }
                }
                assert(w.outgoing_at(a).contains(ids[b]@) <==> out[a]@.contains(b as usize));
                assert(w.incoming_at(b).contains(ids[a]@) <==> inc[b]@.contains(a as usize));
            }
            if w.incoming_at(b).contains(q) {
                assert(id_set(ids).contains(q));
            }
        }
        assert(w.incoming_at(b) =~= w.pointing_at(w.id_at(b)));
    }
    assert forall|i: int, t: Seq<char>|
        0 <= i < w.pages.len() && #[trigger] w.outgoing_at(i).contains(t) implies w.has(t) by {
        assert(page_facts(w, ids, par, out, inc, i));
    }
    assert forall|i: int|
        0 <= i < w.pages.len() implies distinct_ids(#[trigger] w.pages@[i].1.outgoing@)
            && distinct_ids(w.pages@[i].1.incoming@) by {
        assert(page_facts(w, ids, par, out, inc, i));
    }
    assert(w.wf());
    assert forall|s: Seq<char>| #[trigger] w.has(s) <==> doc_has(docs, s) by {}
    assert forall|i: int| #[trigger] is_last(docs, i) implies w.page_from(docs, i) by {
        let s = docs[i].0@;
        assert(doc_has(docs, s));
        assert(id_set(ids).contains(s));
        let k = choose|k: int| 0 <= k < ids.len() && ids[k]@ == s;
        let j = sel[k] as int;
        assert(is_last(docs, j) && docs[j].0@ == s);
        if j < i {
            assert(docs[i].0@ != docs[j].0@);
        }
        if i < j {
            assert(docs[j].0@ != docs[i].0@);
        }
        assert(j == i);
        w.lemma_index_of(k);
        assert(page_facts(w, ids, par, out, inc, k));
        let d = docs[i].1;
        assert(assembled(ids, d, par[k], out[k], inc[k], w.pages@[k], ids[k]));
        assert(resolves(ids, d, par[k], out[k]));
        if let Some(p) = d.declared_parent() {
            if par[k] is None {
                assert(!doc_has(docs, p));
            }
        }
        let want = id_set(d.links@).filter(|t: Seq<char>| doc_has(docs, t));
        assert forall|t: Seq<char>| w.outgoing_at(k).contains(t) <==> want.contains(t) by {
            if w.outgoing_at(k).contains(t) || want.contains(t) {
                assert(id_set(ids).contains(t));
                let x = choose|x: int| 0 <= x < ids.len() && ids[x]@ == t;
                assert(w.outgoing_at(k).contains(ids[x]@) <==> out[k]@.contains(x as usize));
            }
        }
        assert(w.outgoing_at(k) =~= want);
    }
}

} // verus!
