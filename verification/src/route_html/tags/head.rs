use vstd::prelude::*;

use crate::route_html::css::spec_minified_css;
use crate::route_html::tags::link::clone_tags;
use crate::route_html::tags::style::{style_text, Style, StyleView};
use crate::route_html::tags::{
    attribute_text, element, is_text_element, is_void_element, lemma_render_seq_append, lemma_same_tags, pair,
    pairs_view, render, render_seq, same_tags, text_element, IntoTag, Tag,
};
use crate::text::join;

verus! {

/// The kinds of page that Open Graph knows.
#[derive(Debug, Clone, Copy, PartialEq, Eq, Structural)]
pub enum OpenGraphType {
    Website,
    Article,
    VideoMovie,
    MusicSong,
}

pub open spec fn og_type_text(t: OpenGraphType) -> Seq<char> {
    match t {
        OpenGraphType::Website => "website"@,
        OpenGraphType::Article => "article"@,
        OpenGraphType::VideoMovie => "video.movie"@,
        OpenGraphType::MusicSong => "music.song"@,
    }
}

/// The `og:type` text of each kind is its Open Graph name, and different
/// kinds have different texts.
pub proof fn lemma_og_type_names(a: OpenGraphType, b: OpenGraphType)
    ensures
        og_type_text(OpenGraphType::Website) == seq!['w', 'e', 'b', 's', 'i', 't', 'e'],
        og_type_text(OpenGraphType::Article) == seq!['a', 'r', 't', 'i', 'c', 'l', 'e'],
        og_type_text(OpenGraphType::VideoMovie) == seq![
            'v', 'i', 'd', 'e', 'o', '.', 'm', 'o', 'v', 'i', 'e'
        ],
        og_type_text(OpenGraphType::MusicSong) == seq!['m', 'u', 's', 'i', 'c', '.', 's', 'o', 'n', 'g'],
        a != b ==> og_type_text(a) != og_type_text(b),
{
    reveal_strlit("website");
    reveal_strlit("article");
    reveal_strlit("video.movie");
    reveal_strlit("music.song");
    assert(og_type_text(OpenGraphType::Website) =~= seq!['w', 'e', 'b', 's', 'i', 't', 'e']);
    assert(og_type_text(OpenGraphType::Article) =~= seq!['a', 'r', 't', 'i', 'c', 'l', 'e']);
    assert(og_type_text(OpenGraphType::VideoMovie) =~= seq![
        'v', 'i', 'd', 'e', 'o', '.', 'm', 'o', 'v', 'i', 'e'
    ]);
    assert(og_type_text(OpenGraphType::MusicSong) =~= seq![
        'm', 'u', 's', 'i', 'c', '.', 's', 'o', 'n', 'g'
    ]);
    if a != b {
        let (x, y) = (og_type_text(a), og_type_text(b));
        assert(x.len() != y.len() || x[0] != y[0]);
    }
}

impl OpenGraphType {
    pub fn to_string(&self) -> (r: String)
        ensures
            r@ == og_type_text(*self),
    {
        match self {
            OpenGraphType::Website => String::from_str("website"),
            OpenGraphType::Article => String::from_str("article"),
            OpenGraphType::VideoMovie => String::from_str("video.movie"),
            OpenGraphType::MusicSong => String::from_str("music.song"),
        }
    }
}

/// Open Graph data of a page.
#[derive(Debug)]
pub struct OpenGraph {
    pub title: String,
    pub description: String,
    pub og_type: OpenGraphType,
    pub image_url: String,
}

impl OpenGraph {
    pub fn new(title: &str, description: &str, og_type: OpenGraphType, image_url: &str) -> (r: Self)
        ensures
            r.title@ == title@,
            r.description@ == description@,
            r.og_type == og_type,
            r.image_url@ == image_url@,
    {
        Self {
            title: String::from_str(title),
            description: String::from_str(description),
            og_type,
            image_url: String::from_str(image_url),
        }
    }

    fn duplicate(&self) -> (r: Self)
        ensures
            r.title@ == self.title@,
            r.description@ == self.description@,
            r.og_type == self.og_type,
            r.image_url@ == self.image_url@,
    {
        OpenGraph {
            title: self.title.clone(),
            description: self.description.clone(),
            og_type: self.og_type,
            image_url: self.image_url.clone(),
        }
    }
}

/// `<meta property="og:..." content="...">`.
pub open spec fn is_og_meta(t: Tag, property: Seq<char>, content: Seq<char>) -> bool {
    is_void_element(t, "meta"@, seq![("property"@, property), ("content"@, content)])
}

/// The Open Graph elements: title, description, type and image.
pub open spec fn is_og_tags(ts: Seq<Tag>, og: OpenGraph) -> bool {
    &&& ts.len() == 4
    &&& is_og_meta(ts[0], "og:title"@, og.title@)
    &&& is_og_meta(ts[1], "og:description"@, og.description@)
    &&& is_og_meta(ts[2], "og:type"@, og_type_text(og.og_type))
    &&& is_og_meta(ts[3], "og:image"@, og.image_url@)
}

fn og_meta(property: &str, content: String) -> (r: Tag)
    ensures
        is_og_meta(r, property@, content@),
{
    let mut attributes = Vec::new();
    attributes.push(pair("property", property));
    attributes.push((String::from_str("content"), content));
    let r = element("meta", attributes, None);
    assert(pairs_view(attributes@) =~= seq![("property"@, property@), ("content"@, content@)]);
    r
}

/// The text of `<meta property="..." content="...">`.
pub open spec fn og_meta_text(property: Seq<char>, content: Seq<char>) -> Seq<char> {
    "<meta property=\""@ + property + "\" content=\""@ + content + "\">"@
}

pub proof fn lemma_og_meta_render(t: Tag, property: Seq<char>, content: Seq<char>)
    requires
        is_og_meta(t, property, content),
    ensures
        render(t) == og_meta_text(property, content),
{
    reveal_strlit("<meta property=\"");
    reveal_strlit("\" content=\"");
    reveal_strlit("\">");
    reveal_strlit("meta");
    reveal_strlit("property");
    reveal_strlit("content");
    match t {
        Tag::Tag { ident, children, classes, ids, attributes } => {
            let parts = attributes@.map_values(|a: (String, String)| attribute_text(a));
            assert(pairs_view(attributes@) == seq![("property"@, property), ("content"@, content)]);
            assert(pairs_view(attributes@).len() == 2);
            assert(parts.len() == 2);
            assert(pairs_view(attributes@)[0] == ("property"@, property));
            assert(pairs_view(attributes@)[1] == ("content"@, content));
            assert(parts[0] == "property"@ + seq!['=', '"'] + property + seq!['"']);
            assert(parts[1] == "content"@ + seq!['=', '"'] + content + seq!['"']);
            assert(parts.drop_last() =~= seq![parts[0]]);
            assert(join(parts.drop_last(), seq![' ']) == parts[0]);
            assert(join(parts, seq![' ']) == parts[0] + seq![' '] + parts[1]);
            assert(render(t) =~= og_meta_text(property, content));
        },
        _ => {},
    }
}

impl IntoTag for OpenGraph {
    fn into_tag(&self) -> (r: Vec<Tag>)
        ensures
            is_og_tags(r@, *self),
    {
        let mut v = Vec::new();
        v.push(og_meta("og:title", self.title.clone()));
        v.push(og_meta("og:description", self.description.clone()));
        v.push(og_meta("og:type", self.og_type.to_string()));
        v.push(og_meta("og:image", self.image_url.clone()));
        v
    }
}

/// The `<head>` of a page.
#[derive(Debug)]
pub struct Head {
    pub children: Vec<Tag>,
    pub opengraph: Option<OpenGraph>,
}

/// `<meta charset="UTF-8">`.
pub open spec fn is_meta_utf8(t: Tag) -> bool {
    is_void_element(t, "meta"@, seq![("charset"@, "UTF-8"@)])
}

/// `<meta name="viewport" content="width=device-width, initial-scale=1.0">`.
pub open spec fn is_meta_viewport(t: Tag) -> bool {
    is_void_element(t, "meta"@, seq![("name"@, "viewport"@), ("content"@, "width=device-width, initial-scale=1.0"@)])
}

fn meta_utf8_tag() -> (r: Tag)
    ensures
        is_meta_utf8(r),
{
    let mut attributes = Vec::new();
    attributes.push(pair("charset", "UTF-8"));
    let r = element("meta", attributes, None);
    assert(pairs_view(attributes@) =~= seq![("charset"@, "UTF-8"@)]);
    r
}

/// The css that [`Head::reset_css`] adds (modern-normalize).
pub open spec fn reset_css_source() -> Seq<char> {
    RESET_CSS@
}

impl Default for Head {
    /// A head with the UTF-8 and viewport `<meta>` elements.
    fn default() -> (r: Head)
        ensures
            r.opengraph is None,
            r.children@.len() == 2,
            is_meta_utf8(r.children@[0]),
            is_meta_viewport(r.children@[1]),
    {
        let mut children = Vec::new();
        children.push(meta_utf8_tag());
        let mut attributes = Vec::new();
        attributes.push(pair("name", "viewport"));
        attributes.push(pair("content", "width=device-width, initial-scale=1.0"));
        assert(pairs_view(attributes@) =~= seq![("name"@, "viewport"@), ("content"@, "width=device-width, initial-scale=1.0"@)]);
        children.push(element("meta", attributes, None));
        Head { opengraph: None, children }
    }
}

impl Head {
    pub fn empty() -> (r: Self)
        ensures
            r.opengraph is None,
            r.children@.len() == 0,
    {
        Self { opengraph: None, children: Vec::new() }
    }

    /// Adds `<meta charset="UTF-8">`.
    pub fn meta_utf8(self) -> (r: Self)
        ensures
            r.opengraph == self.opengraph,
            r.children@.len() == self.children@.len() + 1,
            r.children@.drop_last() == self.children@,
            is_meta_utf8(r.children@.last()),
    {
        let mut s = self;
        s.children.push(meta_utf8_tag());
        assert(s.children@.drop_last() =~= self.children@);
        s
    }

    /// Adds `<title>title</title>`.
    pub fn title(self, title: &str) -> (r: Self)
        ensures
            r.opengraph == self.opengraph,
            r.children@.drop_last() == self.children@,
            r.children@.len() == self.children@.len() + 1,
            is_text_element(r.children@.last(), "title"@, seq![], title@),
    {
        let mut s = self;
        let t = text_element("title", Vec::new(), String::from_str(title));
        assert(pairs_view(Seq::<(String, String)>::empty()) =~= seq![]);
        s.children.push(t);
        assert(s.children@.drop_last() =~= self.children@);
        s
    }

    pub fn append(self, tag: Tag) -> (r: Self)
        ensures
            r.opengraph == self.opengraph,
            r.children@ == self.children@.push(tag),
    {
        let mut s = self;
        s.children.push(tag);
        s
    }

    pub fn extend_ref(&mut self, tags: Vec<Tag>)
        ensures
            final(self).opengraph == old(self).opengraph,
            final(self).children@ == old(self).children@ + tags@,
    {
        let mut tags = tags;
        self.children.append(&mut tags);
    }

    /// Adds a `<style>` element with the css text of `style`.
    pub fn style(self, style: Style) -> (r: Self)
        ensures
            r.opengraph == self.opengraph,
            r.children@.drop_last() == self.children@,
            r.children@.len() == self.children@.len() + 1,
            is_text_element(r.children@.last(), "style"@, seq![], style_text(style@)),
    {
        let mut s = self;
        let mut tags = style.into_tag();
        s.children.append(&mut tags);
        assert(s.children@.drop_last() =~= self.children@);
        s
    }

    /// Adds `<meta name="description" content="...">`.
    pub fn description(self, title: &str) -> (r: Self)
        ensures
            r.opengraph == self.opengraph,
            r.children@.drop_last() == self.children@,
            r.children@.len() == self.children@.len() + 1,
            is_void_element(r.children@.last(), "meta"@, seq![("name"@, "description"@), ("content"@, title@)]),
    {
        let mut s = self;
        let mut attributes = Vec::new();
        attributes.push(pair("name", "description"));
        attributes.push(pair("content", title));
        assert(pairs_view(attributes@) =~= seq![("name"@, "description"@), ("content"@, title@)]);
        s.children.push(element("meta", attributes, None));
        assert(s.children@.drop_last() =~= self.children@);
        s
    }

    pub fn opengraph(self, og: OpenGraph) -> (r: Self)
        ensures
            r.children == self.children,
            r.opengraph == Some(og),
    {
        let mut s = self;
        s.opengraph = Some(og);
        s
    }

    /// Adds a `<style>` element with the reset style sheet, as lightningcss
    /// minifies it; lightningcss must read that style sheet.
    pub fn reset_css(self) -> (r: Self)
        requires
            spec_minified_css(reset_css_source()) is Some,
        ensures
            r.opengraph == self.opengraph,
            r.children@.drop_last() == self.children@,
            r.children@.len() == self.children@.len() + 1,
            is_text_element(r.children@.last(), "style"@, seq![], spec_minified_css(reset_css_source())->0),
    {
        let style = Style::from_css(RESET_CSS);
        self.style(style)
    }

    /// Like [`Head::reset_css`], but the head comes back unchanged in `Err`
    /// when lightningcss cannot read the reset style sheet.
    pub fn try_reset_css(self) -> (r: Result<Self, Self>)
        ensures
            spec_minified_css(reset_css_source()) is Some <==> r is Ok,
            r matches Err(h) ==> h == self,
            r matches Ok(h) ==> h.opengraph == self.opengraph && h.children@.drop_last() == self.children@
                && is_text_element(h.children@.last(), "style"@, seq![], spec_minified_css(reset_css_source())->0),
    {
        match Style::try_from_css(RESET_CSS) {
            Some(_) => Ok(self.reset_css()),
            None => Err(self),
        }
    }
}

/// The text of the Open Graph elements, if any.
pub open spec fn og_text(og: Option<OpenGraph>) -> Seq<char> {
    match og {
        Some(o) => og_meta_text("og:title"@, o.title@) + og_meta_text("og:description"@, o.description@)
            + og_meta_text("og:type"@, og_type_text(o.og_type)) + og_meta_text("og:image"@, o.image_url@),
        None => seq![],
    }
}

pub proof fn lemma_og_tags_render(ts: Seq<Tag>, og: OpenGraph)
    requires
        is_og_tags(ts, og),
    ensures
        render_seq(ts) == og_text(Some(og)),
{
    lemma_og_meta_render(ts[0], "og:title"@, og.title@);
    lemma_og_meta_render(ts[1], "og:description"@, og.description@);
    lemma_og_meta_render(ts[2], "og:type"@, og_type_text(og.og_type));
    lemma_og_meta_render(ts[3], "og:image"@, og.image_url@);
    assert(ts.subrange(0, 0) =~= Seq::<Tag>::empty());
    assert(ts.subrange(0, 1).subrange(0, 0) =~= ts.subrange(0, 0));
    assert(ts.subrange(0, 2).subrange(0, 1) =~= ts.subrange(0, 1));
    assert(ts.subrange(0, 3).subrange(0, 2) =~= ts.subrange(0, 2));
    assert(ts.subrange(0, 4) =~= ts);
    assert(render_seq(ts.subrange(0, 0)) == Seq::<char>::empty());
    assert(ts.subrange(0, 1)[0] == ts[0]);
    assert(render_seq(ts.subrange(0, 1)) =~= render(ts[0]));
    assert(ts.subrange(0, 2)[1] == ts[1]);
    assert(render_seq(ts.subrange(0, 2)) =~= render(ts[0]) + render(ts[1]));
    assert(ts.subrange(0, 3)[2] == ts[2]);
    assert(render_seq(ts.subrange(0, 3)) =~= render(ts[0]) + render(ts[1]) + render(ts[2]));
}

/// The text of a `<head>` element: the children, then the Open Graph
/// elements.
pub open spec fn head_text(h: Head) -> Seq<char> {
    "<head>"@ + render_seq(h.children@) + og_text(h.opengraph) + "</head>"@
}

/// `t` is the `<head>` element of `h`: the children, then the Open Graph
/// elements, with no classes, ids or attributes.
pub open spec fn is_head_tag(t: Tag, h: Head) -> bool {
    &&& t matches Tag::Tag { ident, children: Some(cs), classes, ids, attributes } && ident@ == "head"@
        && classes@.len() == 0 && ids@.len() == 0 && attributes@.len() == 0 && cs@.len() == h.children@.len()
        + (if h.opengraph is Some { 4int } else { 0int })
        && same_tags(cs@.subrange(0, h.children@.len() as int), h.children@)
        && (h.opengraph matches Some(og) ==> is_og_tags(cs@.subrange(h.children@.len() as int, cs@.len() as int), og))
    &&& render(t) == head_text(h)
}

impl IntoTag for Head {
    /// A `<head>` element with the children, then the Open Graph elements.
    fn into_tag(&self) -> (r: Vec<Tag>)
        ensures
            r@.len() == 1,
            is_head_tag(r@[0], *self),
    {
        let mut children = clone_tags(&self.children);
        let ghost n = self.children@.len();
        let ghost c0 = children@;
        if let Some(og) = &self.opengraph {
            let mut ogs = og.into_tag();
            let ghost o = ogs@;
            children.append(&mut ogs);
            assert(children@.subrange(n as int, children@.len() as int) =~= o);
        }
        assert(children@.subrange(0, n as int) =~= c0);
        proof {
            let cs = children@;
            assert(cs =~= cs.subrange(0, n as int) + cs.subrange(n as int, cs.len() as int));
            lemma_render_seq_append(cs.subrange(0, n as int), cs.subrange(n as int, cs.len() as int));
            lemma_same_tags(cs.subrange(0, n as int), self.children@);
            if self.opengraph is Some {
                lemma_og_tags_render(cs.subrange(n as int, cs.len() as int), self.opengraph->0);
            } else {
                assert(cs.subrange(n as int, cs.len() as int) =~= Seq::<Tag>::empty());
            }
        }
        let ghost cv = children@;
        let t = element("head", Vec::new(), Some(children));
        proof {
            reveal_strlit("<head>");
            reveal_strlit("</head>");
            reveal_strlit("head");
            assert(render(t) =~= head_text(*self));
        }
        let mut v = Vec::new();
        v.push(t);
        v
    }
}

/// The reset style sheet (modern-normalize).
pub const RESET_CSS: &'static str = "
/*! modern-normalize v3.0.1 | MIT License | https://github.com/sindresorhus/modern-normalize */
*,
::before,
::after {
	box-sizing: border-box;
}

html {
	font-family:
		system-ui,
		'Segoe UI',
		Roboto,
		Helvetica,
		Arial,
		sans-serif,
		'Apple Color Emoji',
		'Segoe UI Emoji';
	line-height: 1.15;
	-webkit-text-size-adjust: 100%;
	tab-size: 4;
}

body {
	margin: 0;
}

b,
strong {
	font-weight: bolder;
}

code,
kbd,
samp,
pre {
	font-family:
		ui-monospace,
		SFMono-Regular,
		Consolas,
		'Liberation Mono',
		Menlo,
		monospace; /* 1 */
	font-size: 1em; /* 2 */
}

small {
	font-size: 80%;
}

sub,
sup {
	font-size: 75%;
	line-height: 0;
	position: relative;
	vertical-align: baseline;
}

sub {
	bottom: -0.25em;
}

sup {
	top: -0.5em;
}

table {
	border-color: currentcolor;
}

button,
input,
optgroup,
select,
textarea {
	font-family: inherit; /* 1 */
	font-size: 100%; /* 1 */
	line-height: 1.15; /* 1 */
	margin: 0; /* 2 */
}

button,
[type='button'],
[type='reset'],
[type='submit'] {
	-webkit-appearance: button;
}

legend {
	padding: 0;
}

progress {
	vertical-align: baseline;
}

::-webkit-inner-spin-button,
::-webkit-outer-spin-button {
	height: auto;
}

[type='search'] {
	-webkit-appearance: textfield; /* 1 */
	outline-offset: -2px; /* 2 */
}

::-webkit-search-decoration {
	-webkit-appearance: none;
}

::-webkit-file-upload-button {
	-webkit-appearance: button; /* 1 */
	font: inherit; /* 2 */
}

summary {
	display: list-item;
}
";

} // verus!
