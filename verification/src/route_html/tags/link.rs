use rand::rngs::ThreadRng;
use rand::Rng;
use vstd::prelude::*;

use crate::route_html::class::{
    add_distinct_class, class_set_insert, distinct_classes, TagClass, TagClassView,
};
use crate::route_html::stylerule::{check_declarations, declaration_pairs, declarations_ok, spec_base62, StyleRule};
use crate::route_html::tags::{classes_view, pairs_view, same_tags, IntoTag, Tag};
use crate::text::{attribute_set, push_char, set_attribute, strings_view, unique_names};

verus! {

/// Where a link opens.
#[derive(Debug, Clone, Copy, PartialEq, Eq, Structural)]
pub enum LinkTarget {
    _Self,
    _Blank,
}

pub open spec fn target_text(t: LinkTarget) -> Seq<char> {
    match t {
        LinkTarget::_Blank => "_blank"@,
        LinkTarget::_Self => "_self"@,
    }
}

impl LinkTarget {
    pub fn to_string(&self) -> (r: String)
        ensures
            r@ == target_text(*self),
    {
        match self {
            LinkTarget::_Blank => String::from_str("_blank"),
            LinkTarget::_Self => String::from_str("_self"),
        }
    }
}

/// When the page a link leads to is fetched ahead.
#[derive(Debug, Clone, Copy, PartialEq, Eq, Structural)]
pub enum LinkLoadType {
    No,
    WhenIdle,
    WhenHover,
}

impl Default for LinkTarget {
    fn default() -> (r: Self)
        ensures
            r == LinkTarget::_Self,
    {
        LinkTarget::_Self
    }
}

impl Default for LinkLoadType {
    fn default() -> (r: Self)
        ensures
            r == LinkLoadType::No,
    {
        LinkLoadType::No
    }
}

/// An `<a>` element.
#[derive(Debug)]
pub struct Link {
    pub children: Vec<Tag>,
    pub href: String,
    pub target: LinkTarget,
    pub load_type: LinkLoadType,
    /// Classes, each at most once.
    pub classes: Vec<TagClass>,
    pub ids: Vec<String>,
    /// Attributes; no name occurs twice.
    pub attributes: Vec<(String, String)>,
}

#[verifier::external_type_specification]
#[verifier::external_body]
pub struct ExThreadRng(ThreadRng);

/// `rand::thread_rng`: the thread's random number generator.
#[verifier::external_body]
fn thread_rng() -> ThreadRng {
    rand::thread_rng()
}

/// `Rng::gen_range` over `0..n`: a random number below `n` (rand panics on
/// an empty range, hence `n > 0`).
#[verifier::external_body]
fn gen_below(rng: &mut ThreadRng, n: usize) -> (r: usize)
    requires
        n > 0,
    ensures
        r < n,
{
    rng.gen_range(0..n)
}

/// The letters that random ids are made of.
pub open spec fn letters() -> Seq<char> {
    "abcdefghijklmnopqrstuvwxyzABCDEFGHIJKLMNOPQRSTUVWXYZ"@
}

/// `length` random letters.
pub fn generate_random_letters(length: usize) -> (r: String)
    ensures
        r@.len() == length,
        forall|i: int| 0 <= i < length ==> letters().contains(#[trigger] r@[i]),
{
    let mut rng = thread_rng();
    let mut random_string = String::new();
    let alphabet = "abcdefghijklmnopqrstuvwxyzABCDEFGHIJKLMNOPQRSTUVWXYZ";
    proof {
        reveal_strlit("abcdefghijklmnopqrstuvwxyzABCDEFGHIJKLMNOPQRSTUVWXYZ");
    }
    let n = alphabet.unicode_len();
    let mut k: usize = 0;
    while k < length
        invariant
            k <= length,
            n == alphabet@.len(),
            n == 52,
            alphabet@ == letters(),
            random_string@.len() == k,
            forall|i: int| 0 <= i < k ==> letters().contains(#[trigger] random_string@[i]),
        decreases length - k,
    {
        let random_index = gen_below(&mut rng, n);
        let c = alphabet.get_char(random_index);
        assert(letters()[random_index as int] == c);
        push_char(&mut random_string, c);
        k = k + 1;
    }
    random_string
}

/// The text of the script that fetches the link's page when the pointer
/// first enters the element with id `id`.
pub open spec fn hover_script(id: Seq<char>, href: Seq<char>) -> Seq<char> {
    "/* Generated By route-rs */\ndocument.querySelector(\"#"@ + id
        + "\").addEventListener('mouseenter', function() {\n  if (!window?.__ROUTE_RS_APPENDED_"@ + id
        + ") {\n     var link = document.createElement('link');\n     link.rel = 'prefetch';\n     link.href = '"@
        + href + "';\n     document.head.appendChild(link);\n   \n     window.__ROUTE_RS_APPENDED_"@ + id
        + " = true;\n   }\n});"@
}

fn hover_script_text(id: &str, href: &str) -> (r: String)
    ensures
        r@ == hover_script(id@, href@),
{
    let mut s = String::from_str("/* Generated By route-rs */\ndocument.querySelector(\"#");
    s.append(id);
    s.append("\").addEventListener('mouseenter', function() {\n  if (!window?.__ROUTE_RS_APPENDED_");
    s.append(id);
    s.append(") {\n     var link = document.createElement('link');\n     link.rel = 'prefetch';\n     link.href = '");
    s.append(href);
    s.append("';\n     document.head.appendChild(link);\n   \n     window.__ROUTE_RS_APPENDED_");
    s.append(id);
    s.append(" = true;\n   }\n});");
    s
}

impl Link {
    pub open spec fn href_view(&self) -> Seq<char> {
        self.href@
    }

    pub open spec fn target_view(&self) -> LinkTarget {
        self.target
    }

    /// Every class at most once and every attribute name at most once.
    pub open spec fn wf(&self) -> bool {
        &&& unique_names(pairs_view(self.attributes@))
        &&& distinct_classes(self.classes@)
    }

    /// A link to `href` around `children`, opening in the same window,
    /// fetched only when followed.
    pub fn new(href: String, children: Vec<Tag>) -> (r: Self)
        ensures
            r.wf(),
            r.href_view() == href@,
            r.children == children,
            r.classes@.len() == 0,
            r.ids@.len() == 0,
            r.attributes@.len() == 0,
            r.load_type == LinkLoadType::No,
            r.target_view() == LinkTarget::_Self,
    {
        Self {
            href,
            children,
            classes: Vec::new(),
            ids: Vec::new(),
            attributes: Vec::new(),
            load_type: LinkLoadType::default(),
            target: LinkTarget::default(),
        }
    }

    /// A link to `href` around the text `text`.
    pub fn text(href: String, text: &str) -> (r: Self)
        ensures
            r.wf(),
            r.href_view() == href@,
            r.children@.len() == 1,
            r.children@[0] matches Tag::Text(t) && t@ == text@,
            r.classes@.len() == 0,
            r.ids@.len() == 0,
            r.attributes@.len() == 0,
            r.load_type == LinkLoadType::No,
            r.target_view() == LinkTarget::_Self,
    {
        let mut children = Vec::new();
        children.push(Tag::Text(String::from_str(text)));
        Self::new(href, children)
    }

    pub fn preload(self, preload: LinkLoadType) -> (r: Self)
        ensures
            r == (Link { load_type: preload, ..self }),
    {
        let mut s = self;
        s.load_type = preload;
        s
    }

    /// Adds a class unless the link has it already.
    pub fn add_class(self, class: TagClass) -> (r: Self)
        requires
            self.wf(),
        ensures
            r.wf(),
            r == (Link { classes: r.classes, ..self }),
            classes_view(r.classes@) == class_set_insert(classes_view(self.classes@), class@),
    {
        let mut s = self;
        add_distinct_class(&mut s.classes, class);
        s
    }

    pub fn add_id(self, id: String) -> (r: Self)
        ensures
            r == (Link { ids: r.ids, ..self }),
            r.ids@ == self.ids@.push(id),
    {
        let mut s = self;
        s.ids.push(id);
        s
    }

    /// Sets an attribute.
    pub fn add_attribute(self, key: String, value: String) -> (r: Self)
        requires
            self.wf(),
        ensures
            r.wf(),
            r == (Link { attributes: r.attributes, ..self }),
            pairs_view(r.attributes@) == attribute_set(pairs_view(self.attributes@), key@, value@),
    {
        let mut s = self;
        set_attribute(&mut s.attributes, key, value);
        s
    }

    /// Gives the link a generated class for the css declarations
    /// `str_styles`, which must be declarations of known properties.
    pub fn styles(self, str_styles: &str) -> (r: Self)
        requires
            self.wf(),
            declarations_ok(str_styles@),
        ensures
            r.wf(),
            r == (Link { classes: r.classes, ..self }),
            exists|rule: StyleRule|
                rule@.styles == declaration_pairs(str_styles@) && (exists|key: u64| rule@.rule == spec_base62(key as nat))
                && #[trigger] classes_view(r.classes@) == class_set_insert(classes_view(self.classes@), TagClassView::Style(rule@)),
    {
        let rule = StyleRule::from_declarations(str_styles);
        let ghost rv = rule;
        let r = self.add_class(TagClass::Style(rule));
        assert(classes_view(r.classes@) == class_set_insert(classes_view(self.classes@), TagClassView::Style(rv@)));
        r
    }

    /// Like [`Link::styles`], but the link comes back unchanged in `Err`
    /// when lightningcss does not read `str_styles` as declarations of
    /// known properties.
    pub fn try_styles(self, str_styles: &str) -> (r: Result<Self, Self>)
        requires
            self.wf(),
        ensures
            declarations_ok(str_styles@) <==> r is Ok,
            r matches Err(l) ==> l == self,
            r matches Ok(l) ==> l.wf() && l == (Link { classes: l.classes, ..self }),
    {
        if check_declarations(str_styles) {
            Ok(self.styles(str_styles))
        } else {
            Err(self)
        }
    }
}

impl IntoTag for Link {
    /// The `<a>` element with the link's classes, ids and children and its
    /// `href` and `target` (other attributes are not written); a link
    /// fetched on hover also gets a random id and a script.
    fn into_tag(&self) -> (r: Vec<Tag>)
        ensures
            r@.len() == (if self.load_type == LinkLoadType::WhenHover { 2int } else { 1int }),
            r@[0] matches Tag::Tag { ident, children: Some(cs), classes, ids, attributes } && ident@ == "a"@
                && same_tags(cs@, self.children@) && classes_view(classes@) == classes_view(self.classes@)
                && pairs_view(attributes@) == seq![("href"@, self.href_view()), ("target"@, target_text(self.target_view()))]
                && (self.load_type != LinkLoadType::WhenHover ==> strings_view(ids@) == strings_view(self.ids@)),
            self.load_type == LinkLoadType::WhenHover ==> exists|id: Seq<char>| {
                &&& id.len() == 8
                &&& forall|i: int| 0 <= i < 8 ==> letters().contains(#[trigger] id[i])
                &&& strings_view(r@[0]->ids@) == strings_view(self.ids@).push(id)
                &&& r@[1] matches Tag::Tag { ident, children: Some(cs), classes, ids, attributes }
                &&& r@[1]->ident@ == "script"@
                &&& r@[1]->classes@.len() == 0 && r@[1]->ids@.len() == 0 && r@[1]->attributes@.len() == 0
                &&& r@[1]->children->0@.len() == 1
                &&& r@[1]->children->0@[0] matches Tag::Text(t)
                &&& r@[1]->children->0@[0]->Text_0@ == hover_script(id, self.href_view())
            },
    {
        let mut attributes = Vec::new();
        attributes.push((String::from_str("href"), self.href.clone()));
        attributes.push((String::from_str("target"), self.target.to_string()));
        assert(pairs_view(attributes@) =~= seq![("href"@, self.href_view()), ("target"@, target_text(self.target_view()))]);
        let first = Tag::Tag {
            classes: clone_classes(&self.classes),
            ids: clone_strings(&self.ids),
            ident: "a",
            children: Some(clone_tags(&self.children)),
            attributes,
        };
        let mut tags = Vec::new();
        tags.push(first);
        match self.load_type {
            LinkLoadType::No => tags,
            LinkLoadType::WhenIdle => tags,
            LinkLoadType::WhenHover => {
                let id: String = generate_random_letters(8);
                let script = hover_script_text(id.as_str(), self.href.as_str());
                let mut cs = Vec::new();
                cs.push(Tag::Text(script));
                let script_tag = Tag::Tag {
                    ident: "script",
                    children: Some(cs),
                    ids: Vec::new(),
                    classes: Vec::new(),
                    attributes: Vec::new(),
                };
                let ghost idv = id@;
                tags[0].add_id(id);
                tags.push(script_tag);
                assert(strings_view(tags@[0]->ids@) =~= strings_view(self.ids@).push(idv));
                tags
            },
        }
    }
}

pub(crate) fn clone_classes(classes: &Vec<TagClass>) -> (r: Vec<TagClass>)
    ensures
        classes_view(r@) == classes_view(classes@),
{
    let mut ks: Vec<TagClass> = Vec::new();
    let mut i: usize = 0;
    while i < classes.len()
        invariant
            i <= classes@.len(),
            classes_view(ks@) =~= classes_view(classes@.take(i as int)),
        decreases classes@.len() - i,
    {
        let ghost before = classes_view(ks@);
        ks.push(classes[i].duplicate());
        assert(classes_view(ks@) =~= before.push(classes@[i as int]@));
        assert(classes@.take(i + 1) =~= classes@.take(i as int).push(classes@[i as int]));
        i = i + 1;
    }
    assert(classes@.take(classes@.len() as int) =~= classes@);
    ks
}

pub(crate) fn clone_strings(v: &Vec<String>) -> (r: Vec<String>)
    ensures
        strings_view(r@) == strings_view(v@),
{
    let mut out: Vec<String> = Vec::new();
    let mut i: usize = 0;
    while i < v.len()
        invariant
            i <= v@.len(),
            strings_view(out@) =~= strings_view(v@.take(i as int)),
        decreases v@.len() - i,
    {
        let ghost before = strings_view(out@);
        out.push(v[i].clone());
        assert(strings_view(out@) =~= before.push(v@[i as int]@));
        assert(v@.take(i + 1) =~= v@.take(i as int).push(v@[i as int]));
        i = i + 1;
    }
    assert(v@.take(v@.len() as int) =~= v@);
    out
}

/// Copies of nodes.
pub fn clone_tags(v: &Vec<Tag>) -> (r: Vec<Tag>)
    ensures
        same_tags(r@, v@),
{
    let mut out: Vec<Tag> = Vec::new();
    let mut i: usize = 0;
    while i < v.len()
        invariant
            i <= v@.len(),
            out@.len() == i,
            forall|k: int| 0 <= k < i ==> crate::route_html::tags::same_tag(#[trigger] out@[k], v@[k]),
        decreases v@.len() - i,
    {
        out.push(v[i].duplicate());
        i = i + 1;
    }
    proof {
        crate::route_html::tags::lemma_same_tags_pointwise(out@, v@);
    }
    out
}

} // verus!
