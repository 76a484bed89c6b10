use vstd::prelude::*;

use crate::route_html::class::{
    add_distinct_class, class_set_insert, distinct_classes, TagClass, TagClassView,
};
use crate::route_html::stylerule::{check_declarations, declaration_pairs, declarations_ok, spec_base62, StyleRule};
use crate::route_html::tags::head::{head_text, is_head_tag, og_text, Head};
use crate::route_html::tags::link::{clone_classes, clone_strings, clone_tags};
use crate::route_html::tags::style::{style_text, Style, StyleView};
use crate::route_html::tags::{
    add_rules, class_rules, classes_view, lemma_same_tags, open_tag_text, pairs_view, render, render_seq,
    same_tags, style_rules, style_rules_seq, IntoTag, Tag,
};
use crate::text::{attribute_set, set_attribute, strings_view, unique_names};

verus! {

/// The `<body>` element of a page.
#[derive(Debug)]
pub struct Body {
    pub children: Vec<Tag>,
    /// Classes, each at most once.
    pub classes: Vec<TagClass>,
    pub ids: Vec<String>,
    /// Attributes; no name occurs twice.
    pub attributes: Vec<(String, String)>,
}

/// The text of the `<body>` element: its classes and ids, then its
/// children.
pub open spec fn body_text(b: Body) -> Seq<char> {
    open_tag_text("body"@, classes_view(b.classes@), strings_view(b.ids@), seq![]) + render_seq(b.children@)
        + "</body>"@
}

/// The generated rules that the body and its descendants use, in document
/// order.
pub open spec fn body_rules(b: Body) -> Seq<crate::route_html::stylerule::StyleRuleView> {
    class_rules(classes_view(b.classes@)) + style_rules_seq(b.children@)
}

impl Default for Body {
    fn default() -> (r: Body)
        ensures
            r.children@.len() == 0,
            r.classes@.len() == 0,
            r.ids@.len() == 0,
            r.attributes@.len() == 0,
    {
        Body { children: Vec::new(), classes: Vec::new(), ids: Vec::new(), attributes: Vec::new() }
    }
}

impl Body {
    /// Every class at most once and every attribute name at most once.
    pub open spec fn wf(&self) -> bool {
        &&& unique_names(pairs_view(self.attributes@))
        &&& distinct_classes(self.classes@)
    }

    /// Adds a class unless the body has it already.
    pub fn add_class(self, class: TagClass) -> (r: Self)
        requires
            self.wf(),
        ensures
            r.wf(),
            r == (Body { classes: r.classes, ..self }),
            classes_view(r.classes@) == class_set_insert(classes_view(self.classes@), class@),
    {
        let mut s = self;
        add_distinct_class(&mut s.classes, class);
        s
    }

    pub fn add_id(self, id: String) -> (r: Self)
        ensures
            r == (Body { ids: r.ids, ..self }),
            r.ids@ == self.ids@.push(id),
    {
        let mut s = self;
        s.ids.push(id);
        s
    }

    /// Sets an attribute.
    pub fn add_attribute(self, key: String, value: String) -> (r: Self)
        requires
            self.wf(),
        ensures
            r.wf(),
            r == (Body { attributes: r.attributes, ..self }),
            pairs_view(r.attributes@) == attribute_set(pairs_view(self.attributes@), key@, value@),
    {
        let mut s = self;
        set_attribute(&mut s.attributes, key, value);
        s
    }

    /// Gives the body a generated class for the css declarations
    /// `str_styles`, which must be declarations of known properties.
    pub fn styles(self, str_styles: &str) -> (r: Self)
        requires
            self.wf(),
            declarations_ok(str_styles@),
        ensures
            r.wf(),
            r == (Body { classes: r.classes, ..self }),
            exists|rule: StyleRule|
                rule@.styles == declaration_pairs(str_styles@) && (exists|key: u64| rule@.rule == spec_base62(key as nat))
                && #[trigger] classes_view(r.classes@) == class_set_insert(classes_view(self.classes@), TagClassView::Style(rule@)),
    {
        let rule = StyleRule::from_declarations(str_styles);
        let ghost rv = rule;
        let r = self.add_class(TagClass::Style(rule));
        assert(classes_view(r.classes@) == class_set_insert(classes_view(self.classes@), TagClassView::Style(rv@)));
        r
    }

    /// Like [`Body::styles`], but the body comes back unchanged in `Err`
    /// when lightningcss does not read `str_styles` as declarations of
    /// known properties.
    pub fn try_styles(self, str_styles: &str) -> (r: Result<Self, Self>)
        requires
            self.wf(),
        ensures
            declarations_ok(str_styles@) <==> r is Ok,
            r matches Err(b) ==> b == self,
            r matches Ok(b) ==> b.wf() && b == (Body { classes: b.classes, ..self }),
    {
        if check_declarations(str_styles) {
            Ok(self.styles(str_styles))
        } else {
            Err(self)
        }
    }
}

/// `t` is the `<body>` element of `b`: its children, classes and ids, and
/// no attributes.
pub open spec fn is_body_tag(t: Tag, b: Body) -> bool {
    &&& t matches Tag::Tag { ident, children: Some(cs), classes, ids, attributes } && ident@ == "body"@
        && same_tags(cs@, b.children@) && classes_view(classes@) == classes_view(b.classes@)
        && strings_view(ids@) == strings_view(b.ids@) && attributes@.len() == 0
    &&& render(t) == body_text(b)
    &&& style_rules(t) == body_rules(b)
}

impl IntoTag for Body {
    /// The `<body>` element with the children, classes and ids (the
    /// attributes are not written).
    fn into_tag(&self) -> (r: Vec<Tag>)
        ensures
            r@.len() == 1,
            is_body_tag(r@[0], *self),
    {
        let cs = clone_tags(&self.children);
        proof {
            lemma_same_tags(cs@, self.children@);
            reveal_strlit("body");
            reveal_strlit("</body>");
        }
        let t = Tag::Tag {
            ident: "body",
            children: Some(cs),
            classes: clone_classes(&self.classes),
            ids: clone_strings(&self.ids),
            attributes: Vec::new(),
        };
        assert(render(t) =~= body_text(*self));
        let mut v = Vec::new();
        v.push(t);
        v
    }
}

/// An html page.
#[derive(Debug)]
pub struct Html {
    pub head: Head,
    pub body: Body,
}

/// The text of a page: the doctype, then the `<html>` element around the
/// head and the body.
pub open spec fn html_text(head: Head, body: Body) -> Seq<char> {
    "<!DOCTYPE html><html>"@ + head_text(head) + body_text(body) + "</html>"@
}

impl Default for Html {
    /// A page with the default head and an empty body.
    fn default() -> (r: Html)
        ensures
            r.head.opengraph is None,
            r.head.children@.len() == 2,
            r.body.children@.len() == 0,
            r.body.classes@.len() == 0,
            r.body.ids@.len() == 0,
            r.body.attributes@.len() == 0,
    {
        Html { head: Head::default(), body: Body::default() }
    }
}

impl Html {
    /// A page with this head and an empty body.
    pub fn with_head(head: Head) -> (r: Self)
        ensures
            r.head == head,
            r.body.children@.len() == 0,
            r.body.classes@.len() == 0,
            r.body.ids@.len() == 0,
            r.body.attributes@.len() == 0,
    {
        Html { head, body: Body::default() }
    }

    /// Appends the nodes of each list to the body, one list after the
    /// other.
    pub fn body_from_iter(self, tags: Vec<Vec<Tag>>) -> (r: Self)
        ensures
            r.head == self.head,
            r.body == (Body { children: r.body.children, ..self.body }),
            r.body.children@ == self.body.children@ + tags@.map_values(|v: Vec<Tag>| v@).flatten(),
    {
        let mut s = self;
        let mut tags = tags;
        let ghost tv = tags@.map_values(|v: Vec<Tag>| v@);
        let ghost start = s.body.children@;
        let mut i: usize = 0;
        let n = tags.len();
        while i < n
            invariant
                n == tags@.len(),
                i <= n,
                tags@.len() == n,
                tv.len() == n,
                forall|k: int| i <= k < n ==> #[trigger] tags@[k]@ == tv[k],
                s.head == self.head,
                s.body == (Body { children: s.body.children, ..self.body }),
                start == self.body.children@,
                s.body.children@ == start + tv.take(i as int).flatten_alt(),
            decreases n - i,
        {
            let mut part = Vec::new();
            std::mem::swap(&mut part, &mut tags[i]);
            let ghost pv = part@;
            assert(pv == tv[i as int]);
            assert(tv.take(i + 1).drop_last() =~= tv.take(i as int));
            let ghost before = s.body.children@;
            s.body.children.append(&mut part);
            assert(s.body.children@ =~= before + pv);
            i = i + 1;
        }
        proof {
            assert(tv.take(n as int) =~= tv);
            tv.lemma_flatten_and_flatten_alt_are_equivalent();
        }
        s
    }

    /// Appends nodes to the body.
    pub fn extend(&mut self, tags: Vec<Tag>)
        ensures
            final(self).head == old(self).head,
            final(self).body == (Body { children: final(self).body.children, ..old(self).body }),
            final(self).body.children@ == old(self).body.children@ + tags@,
    {
        let mut tags = tags;
        self.body.children.append(&mut tags);
    }
}

proof fn lemma_render_pair(a: Tag, b: Tag)
    ensures
        render_seq(seq![a, b]) == render(a) + render(b),
{
    let ab = seq![a, b];
    assert(ab.subrange(0, 1) =~= seq![a]);
    assert(seq![a].subrange(0, 0) =~= Seq::<Tag>::empty());
    assert(render_seq(Seq::<Tag>::empty()) == Seq::<char>::empty());
    assert(render_seq(seq![a]) =~= render(a));
    assert(render_seq(ab) =~= render(a) + render(b));
}

impl IntoTag for Html {
    /// The doctype, then the `<html>` element around the head and the body.
    fn into_tag(&self) -> (r: Vec<Tag>)
        ensures
            r@.len() == 2,
            r@[0] matches Tag::Text(t) && t@ == "<!DOCTYPE html>"@,
            r@[1] matches Tag::Tag { ident, children: Some(cs), classes, ids, attributes } && ident@ == "html"@
                && classes@.len() == 0 && ids@.len() == 0 && attributes@.len() == 0 && cs@.len() == 2
                && is_head_tag(cs@[0], self.head) && is_body_tag(cs@[1], self.body),
            render_seq(r@) == html_text(self.head, self.body),
    {
        let mut children = self.head.into_tag();
        let mut body = self.body.into_tag();
        let ghost h = children@[0];
        let ghost b = body@[0];
        children.append(&mut body);
        assert(children@ =~= seq![h, b]);
        proof {
            lemma_render_pair(h, b);
        }
        let html = Tag::Tag {
            ident: "html",
            children: Some(children),
            classes: Vec::new(),
            ids: Vec::new(),
            attributes: Vec::new(),
        };
        let doctype = Tag::Text(String::from_str("<!DOCTYPE html>"));
        proof {
            reveal_strlit("html");
            reveal_strlit("<!DOCTYPE html>");
            reveal_strlit("<!DOCTYPE html><html>");
            reveal_strlit("</html>");
            reveal_strlit("<html>");
            assert(render(html) =~= "<html>"@ + head_text(self.head) + body_text(self.body) + "</html>"@);
        }
        let mut v = Vec::new();
        v.push(doctype);
        v.push(html);
        proof {
            assert(v@ =~= seq![v@[0], v@[1]]);
            lemma_render_pair(v@[0], v@[1]);
            assert(render_seq(v@) =~= html_text(self.head, self.body));
        }
        v
    }
}

/// The text of a page whose head gains, after its children, a `<style>`
/// element with the generated rules that the body uses, each once.
pub open spec fn page_text(head: Head, body: Body) -> Seq<char> {
    "<!DOCTYPE html><html><head>"@ + render_seq(head.children@) + "<style>"@ + style_text(
        add_rules(StyleView::Styles(seq![]), body_rules(body)),
    ) + "</style>"@ + og_text(head.opengraph) + "</head>"@ + body_text(body) + "</html>"@
}

} // verus!
