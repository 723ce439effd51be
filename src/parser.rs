//! Extracting a page from a document: front matter, rendered body and links.
use vstd::prelude::*;
use vstd::string::StrSliceExecFns;
use gray_matter::Error as MatterError;

use crate::error::Error;
use crate::files::{stem_id, strip_extension_from_filename};
use crate::model::PageId;

verus! {

/// Rendered page content.
#[derive(Clone, Debug)]
pub struct Html(pub String);

impl View for Html {
    type V = Seq<char>;

    open spec fn view(&self) -> Seq<char> {
        self.0@
    }
}

impl From<String> for Html {
    fn from(string: String) -> (r: Html)
        ensures
            r@ == string@,
    {
        Html(string)
    }
}

impl vstd::std_specs::convert::FromSpecImpl<String> for Html {
    open spec fn obeys_from_spec() -> bool {
        true
    }

    open spec fn from_spec(string: String) -> Html {
        Html(string)
    }
}

/// Named flags of a page, read from its front matter, that only the
/// presentation uses.
#[derive(Clone, Copy, Debug, PartialEq, Eq)]
pub struct Metadata {
    /// The page holds formulas to typeset.
    pub latex: Option<bool>,
    /// The page holds code to highlight.
    pub code: Option<bool>,
}

impl Metadata {
    /// No flag set.
    pub open spec fn none() -> Metadata {
        Metadata { latex: None, code: None }
    }
}

/// The fields of a document's front matter that are read.
#[derive(Clone, Debug)]
pub struct Frontmatter {
    pub parent: Option<PageId>,
    pub metadata: Metadata,
}

/// What a document yields: its front matter, if it has one, its rendered
/// content and the pages that its body links to.
#[derive(Clone, Debug)]
pub struct ParsedPage {
    pub frontmatter: Option<Frontmatter>,
    pub html: Html,
    pub links: Vec<PageId>,
}

impl ParsedPage {
    /// The declared parent: the front matter's `parent`, if any.
    pub open spec fn declared_parent(&self) -> Option<Seq<char>> {
        match self.frontmatter {
            Some(f) => match f.parent {
                Some(p) => Some(p@),
                None => None,
            },
            None => None,
        }
    }

    /// The flags of the front matter; none without front matter.
    pub open spec fn metadata(&self) -> Metadata {
        match self.frontmatter {
            Some(f) => f.metadata,
            None => Metadata::none(),
        }
    }

    /// The flags of the front matter; none without front matter.
    pub fn metadata_value(&self) -> (r: Metadata)
        ensures
            r == self.metadata(),
    {
        match &self.frontmatter {
            Some(f) => f.metadata,
            None => Metadata { latex: None, code: None },
        }
    }
}

#[verifier::external_type_specification]
#[verifier::external_body]
pub struct ExMatterError(MatterError);

/// What a document's front matter holds under one key.
#[derive(Clone, Debug)]
pub enum FrontField {
    /// The document has no front matter.
    NoMatter,
    /// The front matter is not a table of keys.
    NotATable,
    /// The key is not there.
    Absent,
    /// The key holds the null value.
    Null,
    /// The key holds text.
    Text(String),
    /// The key holds a boolean.
    Flag(bool),
    /// The key holds something other than text.
    Other,
}

/// The key of the front matter that names a page's parent.
pub const PARENT_KEY: &'static str = "parent";

/// The key of the front matter that sets the `latex` flag.
pub const LATEX_KEY: &'static str = "latex";

/// The key of the front matter that sets the `code` flag.
pub const CODE_KEY: &'static str = "code";

/// The front matter of `raw` as YAML under `key`, and the body that follows
/// it; `None` where the front matter cannot be read.
pub uninterp spec fn front_matter_of(raw: Seq<char>, key: Seq<char>) -> Option<(FrontField, Seq<char>)>;

/// Relies on `gray_matter::Matter::<YAML>::parse`: splits a leading front
/// matter block off `raw`, reads it as YAML, and returns the value under `key`
/// with the rest of the text; it fails where the block is not valid YAML.
#[verifier::external_body]
fn read_front_matter(raw: &str, key: &str) -> (r: Result<(FrontField, String), MatterError>)
    ensures
        r is Ok <==> front_matter_of(raw@, key@) is Some,
        r matches Ok(v) ==> front_matter_of(raw@, key@) == Some((v.0, v.1@)),
{
    let e = gray_matter::Matter::<gray_matter::engine::YAML>::new().parse::<gray_matter::Pod>(raw)?;
    let field = match e.data {
        None => FrontField::NoMatter,
        Some(gray_matter::Pod::Hash(mut h)) => match h.remove(key) {
            None => FrontField::Absent,
            Some(gray_matter::Pod::Null) => FrontField::Null,
            Some(gray_matter::Pod::String(s)) => FrontField::Text(s),
            Some(gray_matter::Pod::Boolean(b)) => FrontField::Flag(b),
            Some(_) => FrontField::Other,
        },
        Some(_) => FrontField::NotATable,
    };
    Ok((field, e.content))
}

/// The HTML that CommonMark text renders to.
pub uninterp spec fn markdown_html(text: Seq<char>) -> Seq<char>;

/// Relies on `pulldown_cmark::html::push_html` over `pulldown_cmark::Parser`
/// with no extensions: the HTML rendering of `text`.
#[verifier::external_body]
fn render_markdown(text: &str) -> (r: String)
    ensures
        r@ == markdown_html(text@),
{
    let mut html = String::new();
    let parser = pulldown_cmark::Parser::new_ext(text, pulldown_cmark::Options::empty());
    pulldown_cmark::html::push_html(&mut html, parser);
    html
}

/// The destinations of the links of CommonMark text, in order.
pub uninterp spec fn markdown_link_targets(text: Seq<char>) -> Seq<Seq<char>>;

/// Relies on `pulldown_cmark::Parser` with no extensions: the destination of
/// each link that it reports, in order.
#[verifier::external_body]
fn link_targets(text: &str) -> (r: Vec<String>)
    ensures
        r@.map_values(|t: String| t@) == markdown_link_targets(text@),
{
    pulldown_cmark::Parser::new_ext(text, pulldown_cmark::Options::empty())
        .filter_map(|ev| match ev {
            pulldown_cmark::Event::Start(pulldown_cmark::Tag::Link { dest_url, .. }) => Some(dest_url.to_string()),
            _ => None,
        })
        .collect()
}

/// A flag that a field stands for: unset where the document has no front
/// matter or the key is absent or null, an error where it holds anything but
/// a boolean.
pub open spec fn flag_spec(field: FrontField) -> Result<Option<bool>, Error> {
    match field {
        FrontField::NoMatter => Ok(None),
        FrontField::Absent => Ok(None),
        FrontField::Null => Ok(None),
        FrontField::Flag(b) => Ok(Some(b)),
        _ => Err(Error::Parse),
    }
}

/// The front matter that the fields read under the parent, latex and code
/// keys stand for: none without front matter; an error where the front
/// matter is not a table, the parent is neither text nor absent nor null, or
/// a flag is not a boolean; else the parent (if text) and the flags.
pub open spec fn frontmatter_spec(parent: FrontField, latex: FrontField, code: FrontField) -> Result<
    Option<(Option<Seq<char>>, Metadata)>,
    Error,
> {
    let p: Result<Option<Seq<char>>, Error> = match parent {
        FrontField::Absent => Ok(None),
        FrontField::Null => Ok(None),
        FrontField::Text(s) => Ok(Some(s@)),
        _ => Err(Error::Parse),
    };
    if parent is NoMatter {
        Ok(None)
    } else {
        match (p, flag_spec(latex), flag_spec(code)) {
            (Ok(p), Ok(l), Ok(c)) => Ok(Some((p, Metadata { latex: l, code: c }))),
            _ => Err(Error::Parse),
        }
    }
}

/// The flag that `field`, read under a flag's key, sets.
pub fn flag_from_field(field: FrontField) -> (r: Result<Option<bool>, Error>)
    ensures
        r == flag_spec(field),
{
    match field {
        FrontField::NoMatter => Ok(None),
        FrontField::Absent => Ok(None),
        FrontField::Null => Ok(None),
        FrontField::Flag(b) => Ok(Some(b)),
        _ => Err(Error::Parse),
    }
}

/// The front matter read from the fields under the parent, latex and code
/// keys.
pub fn frontmatter_from_fields(parent: FrontField, latex: FrontField, code: FrontField) -> (r: Result<
    Option<Frontmatter>,
    Error,
>)
    ensures
        r is Ok <==> frontmatter_spec(parent, latex, code) is Ok,
        r matches Err(e) ==> e == Error::Parse,
        r matches Ok(f) ==> frontmatter_spec(parent, latex, code) == Ok::<_, Error>(match f {
            Some(m) => Some((opt_text(m.parent), m.metadata)),
            None => None,
        }),
{
    let parent = match parent {
        FrontField::NoMatter => return Ok(None),
        FrontField::Absent => None,
        FrontField::Null => None,
        FrontField::Text(s) => Some(PageId(s)),
        _ => return Err(Error::Parse),
    };
    let latex = match flag_from_field(latex) {
        Ok(l) => l,
        Err(e) => return Err(e),
    };
    let code = match flag_from_field(code) {
        Ok(c) => c,
        Err(e) => return Err(e),
    };
    Ok(Some(Frontmatter { parent, metadata: Metadata { latex, code } }))
}

/// The text of an optional identifier.
pub open spec fn opt_text(p: Option<PageId>) -> Option<Seq<char>> {
    match p {
        Some(x) => Some(x@),
        None => None,
    }
}

/// A link target that leaves the graph: empty, an anchor on the same page, or
/// an address with a scheme (`https:`, `mailto:`).
pub open spec fn is_external(t: Seq<char>) -> bool {
    t.len() == 0 || t[0] == '#' || t.contains(':')
}

/// A link target without its anchor.
pub open spec fn before_anchor(t: Seq<char>) -> Seq<char> {
    match t.index_of_first('#') {
        Some(p) => t.take(p),
        None => t,
    }
}

/// The page that a link target names, if it names one.
pub open spec fn link_page_spec(t: Seq<char>) -> Option<Seq<char>> {
    if is_external(t) {
        None
    } else {
        stem_id(before_anchor(t))
    }
}

/// The pages that a sequence of link targets names, in order.
pub open spec fn linked_pages_spec(ts: Seq<Seq<char>>) -> Seq<Seq<char>>
    decreases ts.len(),
{
    if ts.len() == 0 {
        Seq::empty()
    } else {
        let init = linked_pages_spec(ts.drop_last());
        match link_page_spec(ts.last()) {
            Some(p) => init.push(p),
            None => init,
        }
    }
}

/// The page that link target `target` names: the file stem of the target
/// without its anchor. `None` for external targets and anchors.
pub fn link_page(target: &str) -> (r: Option<PageId>)
    ensures
        opt_text(r) == link_page_spec(target@),
{
    let n = target.unicode_len();
    let mut colon = false;
    let mut cut: Option<usize> = None;
    let mut i: usize = 0;
    while i < n
        invariant
            n == target@.len(),
            0 <= i <= n,
            colon == exists|j: int| 0 <= j < i && target@[j] == ':',
            cut matches Some(p) ==> p < i && target@[p as int] == '#' && forall|j: int|
                0 <= j < p ==> target@[j] != '#',
            cut is None ==> forall|j: int| 0 <= j < i ==> target@[j] != '#',
        decreases n - i,
    {
        let c = target.get_char(i);
        if c == ':' {
            colon = true;
        }
        if c == '#' && cut.is_none() {
            cut = Some(i);
        }
        i += 1;
    }
    proof {
        target@.index_of_first_ensures('#');
        match target@.index_of_first('#') {
            Some(p) => {
                if let Some(q) = cut {
                    assert(!(p < q));
                    assert(!(q < p));
                }
            },
            None => {
                if let Some(q) = cut {
                    assert(target@.contains('#'));
                }
            },
        }
    }
    if n == 0 || colon {
        return None;
    }
    let end = match cut {
        Some(p) => p,
        None => n,
    };
    if end == 0 {
        return None;
    }
    let stem_text = target.substring_char(0, end);
    proof {
        assert(target@.subrange(0, n as int) == target@);
    }
    match strip_extension_from_filename(stem_text) {
        Some(s) => Some(PageId(s)),
        None => None,
    }
}

/// The pages that `targets` name, in order, external targets left out.
pub fn linked_pages(targets: &Vec<String>) -> (r: Vec<PageId>)
    ensures
        r@.map_values(|p: PageId| p@) == linked_pages_spec(targets@.map_values(|t: String| t@)),
{
    let mut r: Vec<PageId> = Vec::new();
    let mut i: usize = 0;
    while i < targets.len()
        invariant
            0 <= i <= targets.len(),
            r@.map_values(|p: PageId| p@) == linked_pages_spec(
                targets@.take(i as int).map_values(|t: String| t@),
            ),
        decreases targets.len() - i,
    {
        let ghost prev = targets@.take(i as int).map_values(|t: String| t@);
        let ghost next = targets@.take(i + 1).map_values(|t: String| t@);
        proof {
            assert(next.drop_last() =~= prev);
            assert(next.last() == targets@[i as int]@);
        }
        match link_page(targets[i].as_str()) {
            Some(p) => {
                r.push(p);
                proof {
                    assert(r@.map_values(|p: PageId| p@) =~= linked_pages_spec(next));
                }
            },
            None => {},
        }
        i += 1;
    }
    proof {
        assert(targets@.take(targets.len() as int) =~= targets@);
    }
    r
}

/// The parsed view of a document: its declared parent, its flags, its HTML
/// and the pages its links name; `None` where its front matter cannot be
/// read or is malformed.
pub open spec fn parsed_spec(raw: Seq<char>) -> Option<
    (Option<Seq<char>>, Metadata, Seq<char>, Seq<Seq<char>>),
> {
    match (
        front_matter_of(raw, PARENT_KEY@),
        front_matter_of(raw, LATEX_KEY@),
        front_matter_of(raw, CODE_KEY@),
    ) {
        (Some((pf, body)), Some((lf, _)), Some((cf, _))) => match frontmatter_spec(pf, lf, cf) {
            Err(_) => None,
            Ok(f) => Some(
                (
                    match f {
                        Some((p, _)) => p,
                        None => None,
                    },
                    match f {
                        Some((_, m)) => m,
                        None => Metadata::none(),
                    },
                    markdown_html(body),
                    linked_pages_spec(markdown_link_targets(body)),
                ),
            ),
        },
        _ => None,
    }
}

impl ParsedPage {
    /// The declared parent, the flags, the HTML and the linked pages of this
    /// page.
    pub open spec fn parts(&self) -> (Option<Seq<char>>, Metadata, Seq<char>, Seq<Seq<char>>) {
        (self.declared_parent(), self.metadata(), self.html@, self.links@.map_values(|p: PageId| p@))
    }
}

/// Reads a document: its front matter (for the parent and the flags), its
/// body rendered to HTML, and the pages that its body links to. Fails with
/// `Error::Parse` where the front matter is not valid YAML or not a table,
/// names a parent that is not text, or sets a flag that is not a boolean.
pub fn parse_raw_page(raw: &str) -> (r: Result<ParsedPage, Error>)
    ensures
        r is Ok <==> parsed_spec(raw@) is Some,
        r matches Err(e) ==> e == Error::Parse,
        r matches Ok(p) ==> parsed_spec(raw@) == Some(p.parts()),
{
    proof {
        reveal_strlit("parent");
        reveal_strlit("latex");
        reveal_strlit("code");
    }
    let (parent_field, body) = match read_front_matter(raw, PARENT_KEY) {
        Ok(v) => v,
        Err(e) => return Err(Error::from(e)),
    };
    let (latex_field, _) = match read_front_matter(raw, LATEX_KEY) {
        Ok(v) => v,
        Err(e) => return Err(Error::from(e)),
    };
    let (code_field, _) = match read_front_matter(raw, CODE_KEY) {
        Ok(v) => v,
        Err(e) => return Err(Error::from(e)),
    };
    let frontmatter = match frontmatter_from_fields(parent_field, latex_field, code_field) {
        Ok(f) => f,
        Err(e) => return Err(e),
    };
    let html = Html(render_markdown(body.as_str()));
    let links = linked_pages(&link_targets(body.as_str()));
    Ok(ParsedPage { frontmatter, html, links })
}

} // verus!
