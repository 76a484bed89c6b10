use vstd::prelude::*;

use crate::route_html::class::{add_distinct_class, class_set_insert, distinct_classes, TagClass, TagClassView};
use crate::route_html::stylerule::{check_declarations, declaration_pairs, declarations_ok, spec_base62, StyleRule};
use crate::route_html::tags::link::{clone_classes, clone_strings, clone_tags};
use crate::route_html::tags::{classes_view, pairs_view, same_tags, IntoTag, Tag};
use crate::text::{attribute_set, set_attribute, strings_view, unique_names};

verus! {

/// A `<div>` element.
#[derive(Debug)]
pub struct Div {
    pub children: Vec<Tag>,
    /// Classes, each at most once.
    pub classes: Vec<TagClass>,
    pub ids: Vec<String>,
    /// Attributes; no name occurs twice.
    pub attributes: Vec<(String, String)>,
}

impl Default for Div {
    fn default() -> (r: Div)
        ensures
            r.children@.len() == 0,
            r.classes@.len() == 0,
            r.ids@.len() == 0,
            r.attributes@.len() == 0,
    {
        Div { children: Vec::new(), classes: Vec::new(), ids: Vec::new(), attributes: Vec::new() }
    }
}

impl From<&'static str> for Div {
    /// An element holding the text.
    fn from(value: &'static str) -> (r: Div)
        ensures
            r.children@.len() == 1,
            r.children@[0] matches Tag::Text(t) && t@ == value@,
            r.classes@.len() == 0,
            r.ids@.len() == 0,
            r.attributes@.len() == 0,
    {
        let mut children = Vec::new();
        children.push(Tag::Text(String::from_str(value)));
        Div { children, classes: Vec::new(), ids: Vec::new(), attributes: Vec::new() }
    }
}

impl vstd::std_specs::convert::FromSpecImpl<&'static str> for Div {
    open spec fn obeys_from_spec() -> bool {
        false
    }

    open spec fn from_spec(v: &'static str) -> Div {
        vstd::pervasive::arbitrary()
    }
}

impl Div {
    /// Every class at most once and every attribute name at most once.
    pub open spec fn wf(&self) -> bool {
        &&& unique_names(pairs_view(self.attributes@))
        &&& distinct_classes(self.classes@)
    }

    /// Adds a class unless the element has it already.
    pub fn add_class(self, class: TagClass) -> (r: Self)
        requires
            self.wf(),
        ensures
            r.wf(),
            r == (Div { classes: r.classes, ..self }),
            classes_view(r.classes@) == class_set_insert(classes_view(self.classes@), class@),
    {
        let mut s = self;
        add_distinct_class(&mut s.classes, class);
        s
    }

    pub fn add_id(self, id: String) -> (r: Self)
        ensures
            r == (Div { ids: r.ids, ..self }),
            r.ids@ == self.ids@.push(id),
    {
        let mut s = self;
        s.ids.push(id);
        s
    }

    /// Sets an attribute.
    pub fn add_attribute(self, key: String, value: String) -> (r: Self)
        requires
            self.wf(),
        ensures
            r.wf(),
            r == (Div { attributes: r.attributes, ..self }),
            pairs_view(r.attributes@) == attribute_set(pairs_view(self.attributes@), key@, value@),
    {
        let mut s = self;
        set_attribute(&mut s.attributes, key, value);
        s
    }

    /// Gives the element a generated class for the css declarations
    /// `str_styles`, which must be declarations of known properties.
    pub fn styles(self, str_styles: &str) -> (r: Self)
        requires
            self.wf(),
            declarations_ok(str_styles@),
        ensures
            r.wf(),
            r == (Div { classes: r.classes, ..self }),
            exists|rule: StyleRule|
                rule@.styles == declaration_pairs(str_styles@) && (exists|key: u64| rule@.rule == spec_base62(key as nat))
                && #[trigger] classes_view(r.classes@) == class_set_insert(classes_view(self.classes@), TagClassView::Style(rule@)),
    {
        let rule = StyleRule::from_declarations(str_styles);
        let ghost rv = rule;
        let r = self.add_class(TagClass::Style(rule));
        assert(classes_view(r.classes@) == class_set_insert(classes_view(self.classes@), TagClassView::Style(rv@)));
        r
    }

    /// Like [`Div::styles`], but the element comes back unchanged in
    /// `Err` when lightningcss does not read `str_styles` as declarations
    /// of known properties.
    pub fn try_styles(self, str_styles: &str) -> (r: Result<Self, Self>)
        requires
            self.wf(),
        ensures
            declarations_ok(str_styles@) <==> r is Ok,
            r matches Err(e) ==> e == self,
            r matches Ok(e) ==> e.wf() && e == (Div { classes: e.classes, ..self }),
    {
        if check_declarations(str_styles) {
            Ok(self.styles(str_styles))
        } else {
            Err(self)
        }
    }
}

impl IntoTag for Div {
    /// The `<div>` element with the children, classes and ids (the
    /// attributes are not written).
    fn into_tag(&self) -> (r: Vec<Tag>)
        ensures
            r@.len() == 1,
            r@[0] matches Tag::Tag { ident, children: Some(cs), classes, ids, attributes } && ident@ == "div"@
                && same_tags(cs@, self.children@) && classes_view(classes@) == classes_view(self.classes@)
                && strings_view(ids@) == strings_view(self.ids@) && attributes@.len() == 0,
    {
        let t = Tag::Tag {
            ident: "div",
            children: Some(clone_tags(&self.children)),
            classes: clone_classes(&self.classes),
            ids: clone_strings(&self.ids),
            attributes: Vec::new(),
        };
        let mut v = Vec::new();
        v.push(t);
        v
    }
}

/// A `<span>` element.
#[derive(Debug)]
pub struct Span {
    pub children: Vec<Tag>,
    /// Classes, each at most once.
    pub classes: Vec<TagClass>,
    pub ids: Vec<String>,
    /// Attributes; no name occurs twice.
    pub attributes: Vec<(String, String)>,
}

impl Default for Span {
    fn default() -> (r: Span)
        ensures
            r.children@.len() == 0,
            r.classes@.len() == 0,
            r.ids@.len() == 0,
            r.attributes@.len() == 0,
    {
        Span { children: Vec::new(), classes: Vec::new(), ids: Vec::new(), attributes: Vec::new() }
    }
}

impl From<&'static str> for Span {
    /// An element holding the text.
    fn from(value: &'static str) -> (r: Span)
        ensures
            r.children@.len() == 1,
            r.children@[0] matches Tag::Text(t) && t@ == value@,
            r.classes@.len() == 0,
            r.ids@.len() == 0,
            r.attributes@.len() == 0,
    {
        let mut children = Vec::new();
        children.push(Tag::Text(String::from_str(value)));
        Span { children, classes: Vec::new(), ids: Vec::new(), attributes: Vec::new() }
    }
}

impl vstd::std_specs::convert::FromSpecImpl<&'static str> for Span {
    open spec fn obeys_from_spec() -> bool {
        false
    }

    open spec fn from_spec(v: &'static str) -> Span {
        vstd::pervasive::arbitrary()
    }
}

impl Span {
    /// Every class at most once and every attribute name at most once.
    pub open spec fn wf(&self) -> bool {
        &&& unique_names(pairs_view(self.attributes@))
        &&& distinct_classes(self.classes@)
    }

    /// Adds a class unless the element has it already.
    pub fn add_class(self, class: TagClass) -> (r: Self)
        requires
            self.wf(),
        ensures
            r.wf(),
            r == (Span { classes: r.classes, ..self }),
            classes_view(r.classes@) == class_set_insert(classes_view(self.classes@), class@),
    {
        let mut s = self;
        add_distinct_class(&mut s.classes, class);
        s
    }

    pub fn add_id(self, id: String) -> (r: Self)
        ensures
            r == (Span { ids: r.ids, ..self }),
            r.ids@ == self.ids@.push(id),
    {
        let mut s = self;
        s.ids.push(id);
        s
    }

    /// Sets an attribute.
    pub fn add_attribute(self, key: String, value: String) -> (r: Self)
        requires
            self.wf(),
        ensures
            r.wf(),
            r == (Span { attributes: r.attributes, ..self }),
            pairs_view(r.attributes@) == attribute_set(pairs_view(self.attributes@), key@, value@),
    {
        let mut s = self;
        set_attribute(&mut s.attributes, key, value);
        s
    }

    /// Gives the element a generated class for the css declarations
    /// `str_styles`, which must be declarations of known properties.
    pub fn styles(self, str_styles: &str) -> (r: Self)
        requires
            self.wf(),
            declarations_ok(str_styles@),
        ensures
            r.wf(),
            r == (Span { classes: r.classes, ..self }),
            exists|rule: StyleRule|
                rule@.styles == declaration_pairs(str_styles@) && (exists|key: u64| rule@.rule == spec_base62(key as nat))
                && #[trigger] classes_view(r.classes@) == class_set_insert(classes_view(self.classes@), TagClassView::Style(rule@)),
    {
        let rule = StyleRule::from_declarations(str_styles);
        let ghost rv = rule;
        let r = self.add_class(TagClass::Style(rule));
        assert(classes_view(r.classes@) == class_set_insert(classes_view(self.classes@), TagClassView::Style(rv@)));
        r
    }

    /// Like [`Span::styles`], but the element comes back unchanged in
    /// `Err` when lightningcss does not read `str_styles` as declarations
    /// of known properties.
    pub fn try_styles(self, str_styles: &str) -> (r: Result<Self, Self>)
        requires
            self.wf(),
        ensures
            declarations_ok(str_styles@) <==> r is Ok,
            r matches Err(e) ==> e == self,
            r matches Ok(e) ==> e.wf() && e == (Span { classes: e.classes, ..self }),
    {
        if check_declarations(str_styles) {
            Ok(self.styles(str_styles))
        } else {
            Err(self)
        }
    }
}

impl IntoTag for Span {
    /// The `<span>` element with the children, classes and ids (the
    /// attributes are not written).
    fn into_tag(&self) -> (r: Vec<Tag>)
        ensures
            r@.len() == 1,
            r@[0] matches Tag::Tag { ident, children: Some(cs), classes, ids, attributes } && ident@ == "span"@
                && same_tags(cs@, self.children@) && classes_view(classes@) == classes_view(self.classes@)
                && strings_view(ids@) == strings_view(self.ids@) && attributes@.len() == 0,
    {
        let t = Tag::Tag {
            ident: "span",
            children: Some(clone_tags(&self.children)),
            classes: clone_classes(&self.classes),
            ids: clone_strings(&self.ids),
            attributes: Vec::new(),
        };
        let mut v = Vec::new();
        v.push(t);
        v
    }
}

/// A `<p>` element.
#[derive(Debug)]
pub struct P {
    pub children: Vec<Tag>,
    /// Classes, each at most once.
    pub classes: Vec<TagClass>,
    pub ids: Vec<String>,
    /// Attributes; no name occurs twice.
    pub attributes: Vec<(String, String)>,
}

impl Default for P {
    fn default() -> (r: P)
        ensures
            r.children@.len() == 0,
            r.classes@.len() == 0,
            r.ids@.len() == 0,
            r.attributes@.len() == 0,
    {
        P { children: Vec::new(), classes: Vec::new(), ids: Vec::new(), attributes: Vec::new() }
    }
}

impl From<&'static str> for P {
    /// An element holding the text.
    fn from(value: &'static str) -> (r: P)
        ensures
            r.children@.len() == 1,
            r.children@[0] matches Tag::Text(t) && t@ == value@,
            r.classes@.len() == 0,
            r.ids@.len() == 0,
            r.attributes@.len() == 0,
    {
        let mut children = Vec::new();
        children.push(Tag::Text(String::from_str(value)));
        P { children, classes: Vec::new(), ids: Vec::new(), attributes: Vec::new() }
    }
}

impl vstd::std_specs::convert::FromSpecImpl<&'static str> for P {
    open spec fn obeys_from_spec() -> bool {
        false
    }

    open spec fn from_spec(v: &'static str) -> P {
        vstd::pervasive::arbitrary()
    }
}

impl P {
    /// Every class at most once and every attribute name at most once.
    pub open spec fn wf(&self) -> bool {
        &&& unique_names(pairs_view(self.attributes@))
        &&& distinct_classes(self.classes@)
    }

    /// Adds a class unless the element has it already.
    pub fn add_class(self, class: TagClass) -> (r: Self)
        requires
            self.wf(),
        ensures
            r.wf(),
            r == (P { classes: r.classes, ..self }),
            classes_view(r.classes@) == class_set_insert(classes_view(self.classes@), class@),
    {
        let mut s = self;
        add_distinct_class(&mut s.classes, class);
        s
    }

    pub fn add_id(self, id: String) -> (r: Self)
        ensures
            r == (P { ids: r.ids, ..self }),
            r.ids@ == self.ids@.push(id),
    {
        let mut s = self;
        s.ids.push(id);
        s
    }

    /// Sets an attribute.
    pub fn add_attribute(self, key: String, value: String) -> (r: Self)
        requires
            self.wf(),
        ensures
            r.wf(),
            r == (P { attributes: r.attributes, ..self }),
            pairs_view(r.attributes@) == attribute_set(pairs_view(self.attributes@), key@, value@),
    {
        let mut s = self;
        set_attribute(&mut s.attributes, key, value);
        s
    }

    /// Gives the element a generated class for the css declarations
    /// `str_styles`, which must be declarations of known properties.
    pub fn styles(self, str_styles: &str) -> (r: Self)
        requires
            self.wf(),
            declarations_ok(str_styles@),
        ensures
            r.wf(),
            r == (P { classes: r.classes, ..self }),
            exists|rule: StyleRule|
                rule@.styles == declaration_pairs(str_styles@) && (exists|key: u64| rule@.rule == spec_base62(key as nat))
                && #[trigger] classes_view(r.classes@) == class_set_insert(classes_view(self.classes@), TagClassView::Style(rule@)),
    {
        let rule = StyleRule::from_declarations(str_styles);
        let ghost rv = rule;
        let r = self.add_class(TagClass::Style(rule));
        assert(classes_view(r.classes@) == class_set_insert(classes_view(self.classes@), TagClassView::Style(rv@)));
        r
    }

    /// Like [`P::styles`], but the element comes back unchanged in
    /// `Err` when lightningcss does not read `str_styles` as declarations
    /// of known properties.
    pub fn try_styles(self, str_styles: &str) -> (r: Result<Self, Self>)
        requires
            self.wf(),
        ensures
            declarations_ok(str_styles@) <==> r is Ok,
            r matches Err(e) ==> e == self,
            r matches Ok(e) ==> e.wf() && e == (P { classes: e.classes, ..self }),
    {
        if check_declarations(str_styles) {
            Ok(self.styles(str_styles))
        } else {
            Err(self)
        }
    }
}

impl IntoTag for P {
    /// The `<p>` element with the children, classes and ids (the
    /// attributes are not written).
    fn into_tag(&self) -> (r: Vec<Tag>)
        ensures
            r@.len() == 1,
            r@[0] matches Tag::Tag { ident, children: Some(cs), classes, ids, attributes } && ident@ == "p"@
                && same_tags(cs@, self.children@) && classes_view(classes@) == classes_view(self.classes@)
                && strings_view(ids@) == strings_view(self.ids@) && attributes@.len() == 0,
    {
        let t = Tag::Tag {
            ident: "p",
            children: Some(clone_tags(&self.children)),
            classes: clone_classes(&self.classes),
            ids: clone_strings(&self.ids),
            attributes: Vec::new(),
        };
        let mut v = Vec::new();
        v.push(t);
        v
    }
}

} // verus!
