use vstd::prelude::*;

use crate::route_html::class::{class_name, TagClass, TagClassView};
use crate::route_html::stylerule::{StyleRule, StyleRuleView};
use crate::route_html::tags::style::{spec_add_rule, Style, StyleView};
pub use crate::text::pairs_view;
use crate::text::{concat, join, join_strings, concat_strings, strings_view};

verus! {

/// An html node: text, or an element with optional children (`None` for
/// an element with no closing tag).
#[derive(Debug)]
pub enum Tag {
    Text(String),
    Tag {
        ident: &'static str,
        children: Option<Vec<Tag>>,
        classes: Vec<TagClass>,
        ids: Vec<String>,
        /// Attributes in the order they are written; no name occurs twice.
        attributes: Vec<(String, String)>,
    },
}

/// Something that becomes html nodes.
pub trait IntoTag {
    fn into_tag(&self) -> Vec<Tag>;
}

/// `key="value"`.
pub open spec fn attribute_text(a: (String, String)) -> Seq<char> {
    a.0@ + seq!['=', '"'] + a.1@ + seq!['"']
}

pub open spec fn classes_view(cs: Seq<TagClass>) -> Seq<TagClassView> {
    cs.map_values(|c: TagClass| c@)
}

/// The opening tag: the name, then the attributes, the class names and
/// the ids, each list only when it is not empty.
pub open spec fn open_tag_text(ident: Seq<char>, classes: Seq<TagClassView>, ids: Seq<Seq<char>>, attributes: Seq<(String, String)>) -> Seq<char> {
    seq!['<'] + ident + (if attributes.len() > 0 {
        seq![' '] + join(attributes.map_values(|a: (String, String)| attribute_text(a)), seq![' '])
    } else {
        seq![]
    }) + (if classes.len() > 0 {
        " class=\""@ + join(classes.map_values(|c: TagClassView| class_name(c)), seq![' ']) + seq!['"']
    } else {
        seq![]
    }) + (if ids.len() > 0 {
        " id=\""@ + join(ids, seq![' ']) + seq!['"']
    } else {
        seq![]
    }) + seq!['>']
}

/// The html text of a node.
pub open spec fn render(t: Tag) -> Seq<char>
    decreases t,
{
    match t {
        Tag::Text(s) => s@,
        Tag::Tag { ident, children, classes, ids, attributes } => open_tag_text(
            ident@,
            classes_view(classes@),
            strings_view(ids@),
            attributes@,
        ) + match children {
            Some(cs) => render_seq(cs@) + seq!['<', '/'] + ident@ + seq!['>'],
            None => seq![],
        },
    }
}

/// The html text of nodes one after the other.
pub open spec fn render_seq(ts: Seq<Tag>) -> Seq<char>
    decreases ts,
{
    if ts.len() == 0 {
        seq![]
    } else {
        render_seq(ts.subrange(0, ts.len() - 1)) + render(ts[ts.len() - 1])
    }
}

pub proof fn lemma_render_seq(ts: Seq<Tag>)
    ensures
        render_seq(ts) == concat(ts.map_values(|t: Tag| render(t))),
    decreases ts.len(),
{
    if ts.len() > 0 {
        lemma_render_seq(ts.subrange(0, ts.len() - 1));
        assert(ts.map_values(|t: Tag| render(t)).drop_last() =~= ts.subrange(0, ts.len() - 1).map_values(
            |t: Tag| render(t),
        ));
    }
}

pub proof fn lemma_render_seq_append(a: Seq<Tag>, b: Seq<Tag>)
    ensures
        render_seq(a + b) == render_seq(a) + render_seq(b),
    decreases b.len(),
{
    if b.len() == 0 {
        assert(a + b =~= a);
        assert(render_seq(a) + render_seq(b) =~= render_seq(a));
    } else {
        let ab = a + b;
        lemma_render_seq_append(a, b.subrange(0, b.len() - 1));
        assert(ab.subrange(0, ab.len() - 1) =~= a + b.subrange(0, b.len() - 1));
        assert(ab[ab.len() - 1] == b[b.len() - 1]);
    }
}

fn attribute_strings(attributes: &Vec<(String, String)>) -> (r: Vec<String>)
    ensures
        strings_view(r@) == attributes@.map_values(|a: (String, String)| attribute_text(a)),
{
    let mut out: Vec<String> = Vec::new();
    let mut i: usize = 0;
    proof {
        reveal_strlit("=\"");
        reveal_strlit("\"");
        assert("=\""@ =~= seq!['=', '"']);
        assert("\""@ =~= seq!['"']);
    }
    while i < attributes.len()
        invariant
            i <= attributes@.len(),
            strings_view(out@) =~= attributes@.take(i as int).map_values(|a: (String, String)| attribute_text(a)),
            "=\""@ == seq!['=', '"'],
            "\""@ == seq!['"'],
        decreases attributes@.len() - i,
    {
        let mut a = attributes[i].0.clone();
        a.append("=\"");
        a.append(attributes[i].1.as_str());
        a.append("\"");
        assert(a@ == attribute_text(attributes@[i as int]));
        let ghost before = strings_view(out@);
        out.push(a);
        assert(strings_view(out@) =~= before.push(attribute_text(attributes@[i as int])));
        assert(attributes@.take(i + 1) =~= attributes@.take(i as int).push(attributes@[i as int]));
        i = i + 1;
    }
    assert(attributes@.take(attributes@.len() as int) =~= attributes@);
    out
}

fn class_strings(classes: &Vec<TagClass>) -> (r: Vec<String>)
    ensures
        strings_view(r@) == classes_view(classes@).map_values(|c: TagClassView| class_name(c)),
{
    let mut out: Vec<String> = Vec::new();
    let mut i: usize = 0;
    while i < classes.len()
        invariant
            i <= classes@.len(),
            strings_view(out@) =~= classes_view(classes@.take(i as int)).map_values(|c: TagClassView| class_name(c)),
        decreases classes@.len() - i,
    {
        let name = classes[i].name();
        let ghost before = strings_view(out@);
        out.push(name);
        assert(strings_view(out@) =~= before.push(class_name(classes@[i as int]@)));
        assert(classes@.take(i + 1) =~= classes@.take(i as int).push(classes@[i as int]));
        i = i + 1;
    }
    assert(classes@.take(classes@.len() as int) =~= classes@);
    out
}

impl Tag {
    /// The html text of this node.
    ///
    /// An element is written `<ident` then ` key="value"` pairs joined by
    /// spaces, ` class="..."` with the class names, ` id="..."` with the
    /// ids, then `>`; with children, their text follows and `</ident>`.
    pub fn to_string(&self) -> (r: String)
        ensures
            r@ == render(*self),
        decreases self,
    {
        match self {
            Tag::Text(text) => text.clone(),
            Tag::Tag { ident, children, classes, ids, attributes } => {
                proof {
                    reveal_strlit("<");
                    reveal_strlit(" ");
                    reveal_strlit(" class=\"");
                    reveal_strlit(" id=\"");
                    reveal_strlit("\"");
                    reveal_strlit(">");
                    reveal_strlit("</");
                    assert("<"@ =~= seq!['<']);
                    assert(" "@ =~= seq![' ']);
                    assert("\""@ =~= seq!['"']);
                    assert(">"@ =~= seq!['>']);
                    assert("</"@ =~= seq!['<', '/']);
                }
                let mut base = String::new();
                base.append("<");
                base.append(ident);
                let ghost b0 = base@;
                if attributes.len() > 0 {
                    let parts = attribute_strings(attributes);
                    base.append(" ");
                    base.append(join_strings(&parts, " ").as_str());
                }
                let ghost b1 = base@;
                if classes.len() > 0 {
                    let names = class_strings(classes);
                    base.append(" class=\"");
                    base.append(join_strings(&names, " ").as_str());
                    base.append("\"");
                }
                let ghost b2 = base@;
                if ids.len() > 0 {
                    base.append(" id=\"");
                    base.append(join_strings(ids, " ").as_str());
                    base.append("\"");
                }
                base.append(">");
                assert(base@ =~= open_tag_text(ident@, classes_view(classes@), strings_view(ids@), attributes@));
                if let Some(children) = children {
                    let mut outs: Vec<String> = Vec::new();
                    let mut i: usize = 0;
                    while i < children.len()
                        invariant
                            i <= children@.len(),
                            strings_view(outs@) =~= children@.take(i as int).map_values(|t: Tag| render(t)),
                            *self matches Tag::Tag { children: Some(cs), .. } && cs == *children,
                        decreases children@.len() - i,
                    {
                        proof {
                            assert(decreases_to!(*self => children@[i as int]));
                        }
                        let out = children[i].to_string();
                        let ghost before = strings_view(outs@);
                        outs.push(out);
                        assert(strings_view(outs@) =~= before.push(render(children@[i as int])));
                        assert(children@.take(i + 1) =~= children@.take(i as int).push(children@[i as int]));
                        i = i + 1;
                    }
                    assert(children@.take(children@.len() as int) =~= children@);
                    proof {
                        lemma_render_seq(children@);
                    }
                    let content = concat_strings(&outs);
                    base.append(content.as_str());
                    base.append("</");
                    base.append(ident);
                    base.append(">");
                }
                base
            },
        }
    }
}

/// The generated rules that a node and its descendants use, in document order.
pub open spec fn style_rules(t: Tag) -> Seq<StyleRuleView>
    decreases t,
{
    match t {
        Tag::Text(_) => seq![],
        Tag::Tag { children, classes, .. } => class_rules(classes_view(classes@)) + match children {
            Some(cs) => style_rules_seq(cs@),
            None => seq![],
        },
    }
}

pub open spec fn style_rules_seq(ts: Seq<Tag>) -> Seq<StyleRuleView>
    decreases ts,
{
    if ts.len() == 0 {
        seq![]
    } else {
        style_rules_seq(ts.subrange(0, ts.len() - 1)) + style_rules(ts[ts.len() - 1])
    }
}

/// The generated rules among some classes, in order.
pub open spec fn class_rules(cs: Seq<TagClassView>) -> Seq<StyleRuleView>
    decreases cs.len(),
{
    if cs.len() == 0 {
        seq![]
    } else {
        class_rules(cs.drop_last()) + match cs.last() {
            TagClassView::Style(r) => seq![r],
            TagClassView::Normal(_) => seq![],
        }
    }
}

/// A style sheet after adding rules one after the other.
pub open spec fn add_rules(s: StyleView, rs: Seq<StyleRuleView>) -> StyleView
    decreases rs.len(),
{
    if rs.len() == 0 {
        s
    } else {
        spec_add_rule(add_rules(s, rs.drop_last()), rs.last())
    }
}

pub proof fn lemma_add_rules_append(s: StyleView, a: Seq<StyleRuleView>, b: Seq<StyleRuleView>)
    ensures
        add_rules(s, a + b) == add_rules(add_rules(s, a), b),
    decreases b.len(),
{
    if b.len() == 0 {
        assert(a + b =~= a);
    } else {
        lemma_add_rules_append(s, a, b.drop_last());
        assert((a + b).drop_last() =~= a + b.drop_last());
    }
}

/// Two nodes with the same content.
pub open spec fn same_tag(a: Tag, b: Tag) -> bool
    decreases a,
{
    match (a, b) {
        (Tag::Text(x), Tag::Text(y)) => x@ == y@,
        (
            Tag::Tag { ident: i1, children: c1, classes: k1, ids: d1, attributes: a1 },
            Tag::Tag { ident: i2, children: c2, classes: k2, ids: d2, attributes: a2 },
        ) => {
            &&& i1@ == i2@
            &&& classes_view(k1@) == classes_view(k2@)
            &&& strings_view(d1@) == strings_view(d2@)
            &&& a1@ == a2@
            &&& match (c1, c2) {
                (None, None) => true,
                (Some(x), Some(y)) => same_tags(x@, y@),
                _ => false,
            }
        },
        _ => false,
    }
}

pub open spec fn same_tags(a: Seq<Tag>, b: Seq<Tag>) -> bool
    decreases a,
{
    &&& a.len() == b.len()
    &&& a.len() > 0 ==> same_tags(a.subrange(0, a.len() - 1), b.subrange(0, b.len() - 1)) && same_tag(
        a[a.len() - 1],
        b[b.len() - 1],
    )
}

/// Nodes with the same content have the same text and use the same rules.
pub proof fn lemma_same_tag(a: Tag, b: Tag)
    requires
        same_tag(a, b),
    ensures
        render(a) == render(b),
        style_rules(a) == style_rules(b),
    decreases a,
{
    match (a, b) {
        (
            Tag::Tag { ident: i1, children: c1, classes: k1, ids: d1, attributes: a1 },
            Tag::Tag { ident: i2, children: c2, classes: k2, ids: d2, attributes: a2 },
        ) => {
            match (c1, c2) {
                (Some(x), Some(y)) => {
                    lemma_same_tags(x@, y@);
                },
                _ => {},
            }
        },
        _ => {},
    }
}

pub proof fn lemma_same_tags(a: Seq<Tag>, b: Seq<Tag>)
    requires
        same_tags(a, b),
    ensures
        render_seq(a) == render_seq(b),
        style_rules_seq(a) == style_rules_seq(b),
    decreases a,
{
    if a.len() > 0 {
        lemma_same_tags(a.subrange(0, a.len() - 1), b.subrange(0, b.len() - 1));
        lemma_same_tag(a[a.len() - 1], b[b.len() - 1]);
    }
}

impl Tag {
    /// A copy of this node.
    pub fn duplicate(&self) -> (r: Tag)
        ensures
            same_tag(r, *self),
        decreases self,
    {
        match self {
            Tag::Text(text) => Tag::Text(text.clone()),
            Tag::Tag { ident, children, classes, ids, attributes } => {
                let mut ks: Vec<TagClass> = Vec::new();
                let mut i: usize = 0;
                while i < classes.len()
                    invariant
                        i <= classes@.len(),
                        classes_view(ks@) =~= classes_view(classes@.take(i as int)),
                    decreases classes@.len() - i,
                {
                    let ghost before = classes_view(ks@);
                    ks.push(classes[i].duplicate());
                    assert(classes_view(ks@) =~= before.push(classes@[i as int]@));
                    assert(classes@.take(i + 1) =~= classes@.take(i as int).push(classes@[i as int]));
                    i = i + 1;
                }
                assert(classes@.take(classes@.len() as int) =~= classes@);
                let mut ds: Vec<String> = Vec::new();
                let mut i: usize = 0;
                while i < ids.len()
                    invariant
                        i <= ids@.len(),
                        strings_view(ds@) =~= strings_view(ids@.take(i as int)),
                    decreases ids@.len() - i,
                {
                    let ghost before = strings_view(ds@);
                    ds.push(ids[i].clone());
                    assert(strings_view(ds@) =~= before.push(ids@[i as int]@));
                    assert(ids@.take(i + 1) =~= ids@.take(i as int).push(ids@[i as int]));
                    i = i + 1;
                }
                assert(ids@.take(ids@.len() as int) =~= ids@);
                let mut attrs: Vec<(String, String)> = Vec::new();
                let mut i: usize = 0;
                while i < attributes.len()
                    invariant
                        i <= attributes@.len(),
                        attrs@ =~= attributes@.take(i as int),
                    decreases attributes@.len() - i,
                {
                    attrs.push((attributes[i].0.clone(), attributes[i].1.clone()));
                    assert(attributes@.take(i + 1) =~= attributes@.take(i as int).push(attributes@[i as int]));
                    i = i + 1;
                }
                assert(attributes@.take(attributes@.len() as int) =~= attributes@);
                let new_children = match children {
                    None => None,
                    Some(cs) => {
                        let mut out: Vec<Tag> = Vec::new();
                        let mut i: usize = 0;
                        while i < cs.len()
                            invariant
                                i <= cs@.len(),
                                out@.len() == i,
                                forall|k: int| 0 <= k < i ==> same_tag(#[trigger] out@[k], cs@[k]),
                                *self matches Tag::Tag { children: Some(c0), .. } && c0 == *cs,
                            decreases cs@.len() - i,
                        {
                            proof {
                                assert(decreases_to!(*self => cs@[i as int]));
                            }
                            out.push(cs[i].duplicate());
                            i = i + 1;
                        }
                        proof {
                            lemma_same_tags_pointwise(out@, cs@);
                        }
                        Some(out)
                    },
                };
                Tag::Tag { ident: *ident, children: new_children, classes: ks, ids: ds, attributes: attrs }
            },
        }
    }

    /// Adds an id to an element; text is left as it is.
    pub fn add_id(&mut self, id: String)
        ensures
            match *old(self) {
                Tag::Text(t) => *final(self) == Tag::Text(t),
                Tag::Tag { ident, children, classes, ids, attributes } => *final(self) == Tag::Tag {
                    ident,
                    children,
                    classes,
                    ids: final(self)->ids,
                    attributes,
                } && final(self)->ids@ == ids@.push(id),
            },
    {
        if let Tag::Tag { ref mut ids, .. } = self {
            ids.push(id);
        }
    }

    /// Gives an element a generated class; text is left as it is.
    pub fn style(&mut self, class: StyleRule)
        ensures
            match *old(self) {
                Tag::Text(t) => *final(self) == Tag::Text(t),
                Tag::Tag { ident, children, classes, ids, attributes } => *final(self) == Tag::Tag {
                    ident,
                    children,
                    classes: final(self)->classes,
                    ids,
                    attributes,
                } && final(self)->classes@ == classes@.push(TagClass::Style(class)),
            },
    {
        if let Tag::Tag { ref mut classes, .. } = self {
            classes.push(TagClass::Style(class));
        }
    }

    /// Adds the generated rules that this node and its descendants use to
    /// `styles`, in document order.
    pub fn hydrate_styles(&self, styles: &mut Style)
        ensures
            final(styles)@ == add_rules(old(styles)@, style_rules(*self)),
            final(styles)@ matches StyleView::Styles(rs) ==> rs.no_duplicates(),
        decreases self,
    {
        match self {
            Tag::Text(_) => {},
            Tag::Tag { classes, children, .. } => {
                let ghost start = styles@;
                let mut i: usize = 0;
                while i < classes.len()
                    invariant
                        i <= classes@.len(),
                        styles@ == add_rules(start, class_rules(classes_view(classes@.take(i as int)))),
                    decreases classes@.len() - i,
                {
                    assert(classes_view(classes@.take(i + 1)).drop_last() =~= classes_view(classes@.take(i as int)));
                    assert(classes_view(classes@.take(i + 1)).last() == classes@[i as int]@);
                    if let TagClass::Style(style) = &classes[i] {
                        let ghost s0 = styles@;
                        styles.add_rule(style.duplicate());
                        proof {
                            lemma_add_rules_append(start, class_rules(classes_view(classes@.take(i as int))), seq![style@]);
                            assert(seq![style@].drop_last() =~= Seq::<StyleRuleView>::empty());
                            assert(add_rules(s0, seq![style@]) == spec_add_rule(add_rules(s0, seq![]), style@));
                        }
                    } else {
                        assert(class_rules(classes_view(classes@.take(i + 1))) =~= class_rules(classes_view(classes@.take(i as int))));
                    }
                    i = i + 1;
                }
                assert(classes@.take(classes@.len() as int) =~= classes@);
                let ghost mid = styles@;
                if let Some(children) = children {
                    let mut j: usize = 0;
                    while j < children.len()
                        invariant
                            j <= children@.len(),
                            styles@ == add_rules(mid, style_rules_seq(children@.take(j as int))),
                            *self matches Tag::Tag { children: Some(c0), .. } && c0 == *children,
                        decreases children@.len() - j,
                    {
                        proof {
                            assert(decreases_to!(*self => children@[j as int]));
                            assert(children@.take(j + 1).subrange(0, j as int) =~= children@.take(j as int));
                            assert(children@.take(j + 1)[j as int] == children@[j as int]);
                            lemma_add_rules_append(mid, style_rules_seq(children@.take(j as int)), style_rules(children@[j as int]));
                        }
                        children[j].hydrate_styles(styles);
                        j = j + 1;
                    }
                    assert(children@.take(children@.len() as int) =~= children@);
                    proof {
                        lemma_add_rules_append(start, class_rules(classes_view(classes@)), style_rules_seq(children@));
                    }
                } else {
                    assert(style_rules(*self) =~= class_rules(classes_view(classes@)));
                }
            },
        }
        styles.distinct_rules();
    }
}

pub proof fn lemma_same_tags_pointwise(a: Seq<Tag>, b: Seq<Tag>)
    requires
        a.len() == b.len(),
        forall|k: int| 0 <= k < a.len() ==> same_tag(#[trigger] a[k], b[k]),
    ensures
        same_tags(a, b),
    decreases a.len(),
{
    if a.len() > 0 {
        lemma_same_tags_pointwise(a.subrange(0, a.len() - 1), b.subrange(0, b.len() - 1));
    }
}

impl From<String> for Tag {
    fn from(value: String) -> (r: Tag)
        ensures
            r == Tag::Text(value),
    {
        Self::Text(value)
    }
}

impl vstd::std_specs::convert::FromSpecImpl<String> for Tag {
    open spec fn obeys_from_spec() -> bool {
        true
    }

    open spec fn from_spec(v: String) -> Tag {
        Tag::Text(v)
    }
}

impl IntoTag for Tag {
    fn into_tag(&self) -> (r: Vec<Tag>)
        ensures
            r@.len() == 1,
            same_tag(r@[0], *self),
    {
        let mut v = Vec::new();
        v.push(self.duplicate());
        v
    }
}

impl IntoTag for &'static str {
    fn into_tag(&self) -> (r: Vec<Tag>)
        ensures
            r@.len() == 1,
            r@[0] matches Tag::Text(t) && t@ == (**self)@,
    {
        let mut v = Vec::new();
        v.push(Tag::Text(String::from_str(*self)));
        v
    }
}

/// `t` is an element `ident` with these attributes, no classes, no ids
/// and no closing tag.
pub open spec fn is_void_element(t: Tag, ident: Seq<char>, attrs: Seq<(Seq<char>, Seq<char>)>) -> bool {
    t matches Tag::Tag { ident: i, children: None, classes, ids, attributes } && i@ == ident
        && classes@.len() == 0 && ids@.len() == 0 && pairs_view(attributes@) == attrs
}

/// `t` is an element `ident` with these attributes, no classes and no ids,
/// holding the text `text`.
pub open spec fn is_text_element(t: Tag, ident: Seq<char>, attrs: Seq<(Seq<char>, Seq<char>)>, text: Seq<char>) -> bool {
    match t {
        Tag::Tag { ident: i, children: Some(cs), classes, ids, attributes } => {
            &&& i@ == ident
            &&& classes@.len() == 0
            &&& ids@.len() == 0
            &&& pairs_view(attributes@) == attrs
            &&& cs@.len() == 1
            &&& cs@[0] matches Tag::Text(x)
            &&& cs@[0]->Text_0@ == text
        },
        _ => false,
    }
}

/// A (name, value) pair of strings.
pub fn pair(k: &str, v: &str) -> (r: (String, String))
    ensures
        r.0@ == k@,
        r.1@ == v@,
{
    (String::from_str(k), String::from_str(v))
}

/// An element with no classes and no ids.
pub fn element(ident: &'static str, attributes: Vec<(String, String)>, children: Option<Vec<Tag>>) -> (r: Tag)
    ensures
        r == (Tag::Tag { ident, children, classes: r->classes, ids: r->ids, attributes }),
        r->classes@.len() == 0,
        r->ids@.len() == 0,
{
    Tag::Tag { ident, children, classes: Vec::new(), ids: Vec::new(), attributes }
}

/// An element holding one text node.
pub fn text_element(ident: &'static str, attributes: Vec<(String, String)>, text: String) -> (r: Tag)
    ensures
        is_text_element(r, ident@, pairs_view(attributes@), text@),
        r matches Tag::Tag { attributes: a, .. } && a == attributes,
{
    let mut cs = Vec::new();
    cs.push(Tag::Text(text));
    element(ident, attributes, Some(cs))
}

} // verus!

pub mod elements;
pub mod head;
pub mod html;
pub mod link;
pub mod style;
