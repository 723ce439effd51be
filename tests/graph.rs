use wikigraph::ingest::insert_graph;
use wikigraph::error::Error;
use wikigraph::files::strip_extension_from_filename;
use wikigraph::model::{PageId, Wiki};
use wikigraph::parser::{
    flag_from_field, frontmatter_from_fields, link_page, linked_pages, parse_raw_page, FrontField,
    Frontmatter, Html, Metadata, ParsedPage,
};
use wikigraph::repo::{get_children_ids, get_page, get_sibling_ids, get_uncle_ids};
use wikigraph::templates::Base;

const NO_FLAGS: Metadata = Metadata { latex: None, code: None };

fn doc(name: &str, parent: Option<&str>, body: &str) -> (String, String) {
    let text = match parent {
        Some(p) => format!("---\nparent: {}\n---\n{}", p, body),
        None => body.to_string(),
    };
    (name.to_string(), text)
}

fn sorted(v: Vec<PageId>) -> Vec<String> {
    let mut r: Vec<String> = v.into_iter().map(|p| p.0).collect();
    r.sort();
    r
}

fn family() -> Wiki {
    Wiki::from_files(vec![
        doc("a.md", None, "Top"),
        doc("b.md", Some("a"), "Bee"),
        doc("c.md", Some("a"), "See"),
        doc("d.md", Some("b"), "Dee"),
    ])
    .unwrap()
}

#[test]
fn family_children_siblings_uncles() {
    let w = family();
    assert_eq!(sorted(get_children_ids(&w, "a").unwrap()), vec!["b", "c"]);
    assert_eq!(sorted(get_sibling_ids(&w, "b").unwrap()), vec!["b", "c"]);
    assert_eq!(sorted(get_uncle_ids(&w, "d").unwrap()), vec!["c"]);
    assert_eq!(sorted(get_uncle_ids(&w, "b").unwrap()), Vec::<String>::new());
    assert_eq!(sorted(get_children_ids(&w, "d").unwrap()), Vec::<String>::new());
}

#[test]
fn missing_parent_is_dropped() {
    let w = Wiki::from_files(vec![doc("x.md", Some("ghost"), "Lost")]).unwrap();
    let page = get_page(&w, "x").unwrap();
    assert!(page.parent.is_none());
    assert!(page.incoming.is_empty());
    assert!(get_page(&w, "ghost").is_none());
}

#[test]
fn parentless_pages_are_siblings() {
    let w = Wiki::from_files(vec![doc("m.md", None, "Em"), doc("n.md", None, "En")]).unwrap();
    assert_eq!(sorted(get_sibling_ids(&w, "m").unwrap()), vec!["m", "n"]);
}

#[test]
fn every_parent_exists() {
    let w = Wiki::from_files(vec![
        doc("a.md", None, "A"),
        doc("b.md", Some("a"), "B"),
        doc("c.md", Some("nowhere"), "C"),
    ])
    .unwrap();
    for (_, page) in &w.pages {
        if let Some(p) = &page.parent {
            assert!(get_page(&w, &p.0).is_some());
        }
    }
    assert_eq!(get_page(&w, "b").unwrap().parent.as_ref().unwrap().0, "a");
    assert!(get_page(&w, "c").unwrap().parent.is_none());
}

#[test]
fn incoming_links_invert_parents_and_links() {
    let w = Wiki::from_files(vec![
        doc("a.md", None, "See [b](b.md) and [c](c) and [far](https://example.com)"),
        doc("b.md", Some("a"), "Back to [a](a.md), [a again](a.md#top), [nothing](missing.md)"),
        doc("c.md", None, "[self](#here) [mail](mailto:someone@example.com)"),
    ])
    .unwrap();
    let a = get_page(&w, "a").unwrap();
    let b = get_page(&w, "b").unwrap();
    let c = get_page(&w, "c").unwrap();
    assert_eq!(sorted(a.outgoing.clone()), vec!["b", "c"]);
    assert_eq!(sorted(b.outgoing.clone()), vec!["a"]);
    assert!(c.outgoing.is_empty());
    assert_eq!(sorted(a.incoming.clone()), vec!["b"]);
    assert_eq!(sorted(b.incoming.clone()), vec!["a"]);
    assert_eq!(sorted(c.incoming.clone()), vec!["a"]);
}

#[test]
fn page_is_its_own_sibling() {
    let w = family();
    for id in ["a", "b", "c", "d"] {
        assert!(sorted(get_sibling_ids(&w, id).unwrap()).contains(&id.to_string()));
    }
}

#[test]
fn no_grandparent_no_uncles() {
    let w = family();
    assert!(get_uncle_ids(&w, "a").unwrap().is_empty());
    assert!(get_uncle_ids(&w, "c").unwrap().is_empty());
}

#[test]
fn rebuilding_gives_same_answers() {
    let files = vec![
        doc("a.md", None, "[b](b.md)"),
        doc("b.md", Some("a"), "[c](c.md)"),
        doc("c.md", Some("a"), "C"),
        doc("d.md", Some("b"), "[a](a.md)"),
    ];
    let w1 = Wiki::from_files(files.clone()).unwrap();
    let w2 = Wiki::from_files(files).unwrap();
    for id in ["a", "b", "c", "d"] {
        assert_eq!(sorted(get_children_ids(&w1, id).unwrap()), sorted(get_children_ids(&w2, id).unwrap()));
        assert_eq!(sorted(get_sibling_ids(&w1, id).unwrap()), sorted(get_sibling_ids(&w2, id).unwrap()));
        assert_eq!(sorted(get_uncle_ids(&w1, id).unwrap()), sorted(get_uncle_ids(&w2, id).unwrap()));
        let first = get_page(&w1, id).unwrap();
        let second = get_page(&w2, id).unwrap();
        assert_eq!(sorted(first.incoming.clone()), sorted(second.incoming.clone()));
        assert_eq!(sorted(first.outgoing.clone()), sorted(second.outgoing.clone()));
    }
}

#[test]
fn unknown_page_is_not_found() {
    let w = family();
    assert!(get_page(&w, "zzz").is_none());
    assert!(get_children_ids(&w, "zzz").is_none());
    assert!(get_sibling_ids(&w, "zzz").is_none());
    assert!(get_uncle_ids(&w, "zzz").is_none());
    assert!(Base::for_page(&w, "zzz").is_none());
}

#[test]
fn last_document_with_an_id_wins() {
    let w = Wiki::from_files(vec![
        doc("a.md", None, "first"),
        doc("a.txt", None, "second"),
    ])
    .unwrap();
    assert_eq!(w.pages.len(), 1);
    assert!(get_page(&w, "a").unwrap().content.0.contains("second"));
}

#[test]
fn empty_document_set_builds_empty_graph() {
    let w = Wiki::from_files(Vec::new()).unwrap();
    assert!(w.pages.is_empty());
}

#[test]
fn name_without_stem_fails() {
    let r = Wiki::from_files(vec![doc("a.md", None, "A"), doc("", None, "B")]);
    assert!(matches!(r, Err(Error::Parse)));
}

#[test]
fn non_text_parent_fails() {
    let r = Wiki::from_files(vec![("a.md".to_string(), "---\nparent: 3\n---\nA".to_string())]);
    assert!(matches!(r, Err(Error::Parse)));
    assert!(matches!(parse_raw_page("---\n- x\n- y\n---\nA"), Err(Error::Parse)));
}

#[test]
fn invalid_yaml_fails() {
    assert!(matches!(parse_raw_page("---\nparent: [unclosed\n---\nA"), Err(Error::Parse)));
}

#[test]
fn parse_renders_and_reads_parent() {
    let p = parse_raw_page("---\nparent: home\n---\n# Title\n\nSee [x](x.md).").unwrap();
    assert_eq!(p.frontmatter.unwrap().parent.unwrap().0, "home");
    assert!(p.html.0.contains("<h1>Title</h1>"));
    assert!(!p.html.0.contains("parent"));
    assert_eq!(p.links.iter().map(|l| l.0.clone()).collect::<Vec<_>>(), vec!["x"]);
}

#[test]
fn parse_without_front_matter() {
    let p = parse_raw_page("plain *text*").unwrap();
    assert!(p.frontmatter.is_none());
    assert_eq!(p.html.0, "<p>plain <em>text</em></p>\n");
    assert!(p.links.is_empty());
}

#[test]
fn null_parent_means_none() {
    let p = parse_raw_page("---\nparent: ~\ntitle: t\n---\nbody").unwrap();
    assert!(p.frontmatter.unwrap().parent.is_none());
}

#[test]
fn stem_of_file_names() {
    assert_eq!(strip_extension_from_filename("notes.md"), Some("notes".to_string()));
    assert_eq!(strip_extension_from_filename("dir/page.tar.gz"), Some("page.tar".to_string()));
    assert_eq!(strip_extension_from_filename("plain"), Some("plain".to_string()));
    assert_eq!(strip_extension_from_filename(""), None);
}

#[test]
fn link_targets_to_pages() {
    assert_eq!(link_page("b.md").unwrap().0, "b");
    assert_eq!(link_page("b").unwrap().0, "b");
    assert_eq!(link_page("sub/c.md#part").unwrap().0, "c");
    assert!(link_page("#part").is_none());
    assert!(link_page("https://example.com/x.md").is_none());
    assert!(link_page("mailto:a@b.c").is_none());
    assert!(link_page("").is_none());
    let targets = vec!["a.md".to_string(), "http://x.y".to_string(), "b".to_string()];
    let pages = linked_pages(&targets);
    assert_eq!(pages.iter().map(|p| p.0.clone()).collect::<Vec<_>>(), vec!["a", "b"]);
}

#[test]
fn front_field_cases() {
    let none = || FrontField::Absent;
    assert!(matches!(frontmatter_from_fields(FrontField::NoMatter, none(), none()), Ok(None)));
    match frontmatter_from_fields(FrontField::Absent, none(), none()) {
        Ok(Some(f)) => {
            assert!(f.parent.is_none());
            assert_eq!(f.metadata, NO_FLAGS);
        }
        _ => panic!("expected front matter"),
    }
    match frontmatter_from_fields(FrontField::Null, FrontField::Flag(true), FrontField::Null) {
        Ok(Some(f)) => {
            assert!(f.parent.is_none());
            assert_eq!(f.metadata, Metadata { latex: Some(true), code: None });
        }
        _ => panic!("expected front matter"),
    }
    match frontmatter_from_fields(FrontField::Text("p".to_string()), none(), FrontField::Flag(false)) {
        Ok(Some(Frontmatter { parent: Some(id), metadata })) => {
            assert_eq!(id.0, "p");
            assert_eq!(metadata, Metadata { latex: None, code: Some(false) });
        }
        _ => panic!("expected a parent"),
    }
    assert!(matches!(frontmatter_from_fields(FrontField::NotATable, none(), none()), Err(Error::Parse)));
    assert!(matches!(frontmatter_from_fields(FrontField::Other, none(), none()), Err(Error::Parse)));
    assert!(matches!(frontmatter_from_fields(FrontField::Flag(true), none(), none()), Err(Error::Parse)));
    assert!(matches!(
        frontmatter_from_fields(none(), FrontField::Text("yes".to_string()), none()),
        Err(Error::Parse)
    ));
    assert!(matches!(flag_from_field(FrontField::Flag(true)), Ok(Some(true))));
    assert!(matches!(flag_from_field(FrontField::NoMatter), Ok(None)));
    assert!(matches!(flag_from_field(FrontField::Other), Err(Error::Parse)));
}

#[test]
fn flags_are_read_and_kept() {
    let w = Wiki::from_files(vec![
        ("a.md".to_string(), "---\nlatex: true\ncode: false\n---\nA".to_string()),
        doc("b.md", Some("a"), "B"),
    ])
    .unwrap();
    let a = get_page(&w, "a").unwrap();
    assert_eq!(a.metadata, Metadata { latex: Some(true), code: Some(false) });
    assert_eq!(get_page(&w, "b").unwrap().metadata, NO_FLAGS);
    let view = Base::for_page(&w, "a").unwrap();
    assert!(view.latex);
    assert!(!view.code);
    let r = Wiki::from_files(vec![("a.md".to_string(), "---\nlatex: yes please\n---\nA".to_string())]);
    assert!(matches!(r, Err(Error::Parse)));
    let mut w = w;
    w.upsert_page(PageId("a".to_string()), Html("A2".to_string()), None);
    assert_eq!(get_page(&w, "a").unwrap().metadata, Metadata { latex: Some(true), code: Some(false) });
}

#[test]
fn from_pages_resolves_and_dedups() {
    let docs = vec![
        (PageId("a".to_string()), ParsedPage {
            frontmatter: None,
            html: Html("A".to_string()),
            links: vec![PageId("b".to_string()), PageId("b".to_string()), PageId("zz".to_string())],
        }),
        (PageId("b".to_string()), ParsedPage {
            frontmatter: Some(Frontmatter { parent: Some(PageId("a".to_string())), metadata: NO_FLAGS }),
            html: Html("B".to_string()),
            links: vec![PageId("a".to_string())],
        }),
    ];
    let w = Wiki::from_pages(&docs);
    let a = get_page(&w, "a").unwrap();
    assert_eq!(sorted(a.outgoing.clone()), vec!["b"]);
    assert_eq!(sorted(a.incoming.clone()), vec!["b"]);
    assert_eq!(a.content.0, "A");
    let b = get_page(&w, "b").unwrap();
    assert_eq!(sorted(b.incoming.clone()), vec!["a"]);
}

#[test]
fn insert_graph_upserts_batch() {
    let mut w = family();
    let batch = vec![
        (PageId("e".to_string()), ParsedPage {
            frontmatter: Some(Frontmatter { parent: Some(PageId("f".to_string())), metadata: NO_FLAGS }),
            html: Html("E".to_string()),
            links: vec![PageId("a".to_string())],
        }),
        (PageId("f".to_string()), ParsedPage {
            frontmatter: None,
            html: Html("F".to_string()),
            links: vec![],
        }),
        (PageId("c".to_string()), ParsedPage {
            frontmatter: Some(Frontmatter { parent: Some(PageId("b".to_string())), metadata: NO_FLAGS }),
            html: Html("new c".to_string()),
            links: vec![],
        }),
    ];
    insert_graph(&mut w, batch);
    assert_eq!(w.pages.len(), 6);
    assert_eq!(get_page(&w, "e").unwrap().parent.as_ref().unwrap().0, "f");
    assert_eq!(get_page(&w, "c").unwrap().content.0, "new c");
    assert_eq!(sorted(get_children_ids(&w, "b").unwrap()), vec!["c", "d"]);
    assert_eq!(sorted(get_children_ids(&w, "a").unwrap()), vec!["b"]);
    assert_eq!(sorted(get_page(&w, "a").unwrap().incoming.clone()), vec!["b", "e"]);
    assert_eq!(sorted(get_children_ids(&w, "f").unwrap()), vec!["e"]);
}

#[test]
fn base_view_of_page() {
    let w = family();
    let b = Base::for_page(&w, "d").unwrap();
    assert_eq!(b.page_id.0, "d");
    assert_eq!(b.parent.as_ref().unwrap().0, "b");
    assert_eq!(b.content.0, "<p>Dee</p>\n");
    assert_eq!(sorted(b.incoming.clone()), Vec::<String>::new());
    assert_eq!(sorted(b.parents_siblings.clone()), vec!["c"]);
    assert_eq!(sorted(b.siblings.clone()), vec!["d"]);
    assert!(b.children.is_empty());
    let top = Base::for_page(&w, "b").unwrap();
    assert_eq!(sorted(top.incoming.clone()), vec!["d"]);
    assert_eq!(sorted(top.children.clone()), vec!["d"]);
}

#[test]
fn page_id_and_html_conversions() {
    assert_eq!(PageId::from("x".to_string()).as_str(), "x");
    assert_eq!(Html::from("<p/>".to_string()).0, "<p/>");
}

#[test]
fn upsert_page_replaces_content_and_parent_keeps_links() {
    let mut w = Wiki::from_files(vec![
        doc("a.md", None, "[b](b.md)"),
        doc("b.md", None, "B"),
    ])
    .unwrap();
    w.upsert_page(PageId("a".to_string()), Html("new a".to_string()), Some(PageId("b".to_string())));
    let a = get_page(&w, "a").unwrap();
    assert_eq!(a.content.0, "new a");
    assert_eq!(a.parent.as_ref().unwrap().0, "b");
    assert_eq!(sorted(a.outgoing.clone()), vec!["b"]);
    assert_eq!(sorted(get_page(&w, "b").unwrap().incoming.clone()), vec!["a"]);
    w.upsert_page(PageId("c".to_string()), Html("C".to_string()), Some(PageId("nobody".to_string())));
    assert_eq!(w.pages.len(), 3);
    assert!(get_page(&w, "c").unwrap().parent.is_none());
    assert!(get_page(&w, "c").unwrap().outgoing.is_empty());
}

#[test]
fn replace_outgoing_links_dedups_and_refreshes_backlinks() {
    let mut w = Wiki::from_files(vec![
        doc("a.md", None, "[b](b.md)"),
        doc("b.md", None, "B"),
        doc("c.md", Some("a"), "C"),
    ])
    .unwrap();
    let targets = vec![
        PageId("c".to_string()),
        PageId("c".to_string()),
        PageId("missing".to_string()),
    ];
    assert!(w.replace_outgoing_links("a", targets));
    let a = get_page(&w, "a").unwrap();
    assert_eq!(sorted(a.outgoing.clone()), vec!["c"]);
    assert_eq!(sorted(a.incoming.clone()), vec!["c"]);
    assert!(get_page(&w, "b").unwrap().incoming.is_empty());
    assert_eq!(sorted(get_page(&w, "c").unwrap().incoming.clone()), vec!["a"]);
    assert!(!w.replace_outgoing_links("zzz", vec![PageId("a".to_string())]));
    assert_eq!(w.pages.len(), 3);
}
