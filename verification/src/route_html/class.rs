use vstd::prelude::*;

use crate::route_html::stylerule::{StyleRule, StyleRuleView};
use crate::text::str_eq;

verus! {

/// A class of a tag.
#[derive(Clone, Debug, PartialEq, Eq, Hash)]
pub enum TagClass {
    /// Just a class name.
    Normal(String),
    /// A generated css rule; the tag gets the rule's class name.
    Style(StyleRule),
}

pub enum TagClassView {
    Normal(Seq<char>),
    Style(StyleRuleView),
}

impl View for TagClass {
    type V = TagClassView;

    open spec fn view(&self) -> TagClassView {
        match self {
            TagClass::Normal(s) => TagClassView::Normal(s@),
            TagClass::Style(r) => TagClassView::Style(r@),
        }
    }
}

/// The class name that a class puts on its tag.
pub open spec fn class_name(c: TagClassView) -> Seq<char> {
    match c {
        TagClassView::Normal(s) => s,
        TagClassView::Style(r) => r.rule,
    }
}

impl TagClass {
    pub fn text(value: String) -> (r: TagClass)
        ensures
            r@ == TagClassView::Normal(value@),
    {
        Self::Normal(value)
    }

    pub fn styles(value: StyleRule) -> (r: TagClass)
        ensures
            r@ == TagClassView::Style(value@),
    {
        Self::Style(value)
    }

    /// A copy of this class.
    pub fn duplicate(&self) -> (r: TagClass)
        ensures
            r@ == self@,
    {
        match self {
            TagClass::Normal(class) => TagClass::Normal(class.clone()),
            TagClass::Style(style) => TagClass::Style(style.duplicate()),
        }
    }

    /// Whether two classes are the same.
    pub fn same_as(&self, other: &TagClass) -> (r: bool)
        ensures
            r == (self@ == other@),
    {
        match (self, other) {
            (TagClass::Normal(a), TagClass::Normal(b)) => str_eq(a.as_str(), b.as_str()),
            (TagClass::Style(a), TagClass::Style(b)) => a.same_as(b),
            _ => false,
        }
    }

    /// The class name this class puts on its tag.
    pub fn name(&self) -> (r: String)
        ensures
            r@ == class_name(self@),
    {
        match self {
            TagClass::Normal(class) => class.clone(),
            TagClass::Style(style) => style.rule.clone(),
        }
    }
}

/// A class set after adding a class: unchanged when it holds the class.
pub open spec fn class_set_insert(cs: Seq<TagClassView>, c: TagClassView) -> Seq<TagClassView> {
    if cs.contains(c) {
        cs
    } else {
        cs.push(c)
    }
}

/// No class occurs twice.
pub open spec fn distinct_classes(cs: Seq<TagClass>) -> bool {
    forall|i: int, j: int| 0 <= i < j < cs.len() ==> cs[i]@ != cs[j]@
}

/// Adds a class to a list of distinct classes unless it is there already.
pub fn add_distinct_class(classes: &mut Vec<TagClass>, class: TagClass)
    requires
        distinct_classes(old(classes)@),
    ensures
        distinct_classes(final(classes)@),
        final(classes)@.map_values(|c: TagClass| c@) == class_set_insert(old(classes)@.map_values(|c: TagClass| c@), class@),
{
    let ghost cs = classes@.map_values(|c: TagClass| c@);
    let ghost old_classes = classes@;
    let ghost c = class@;
    insert_class(classes, class);
    proof {
        let ns = classes@.map_values(|c: TagClass| c@);
        assert(ns == class_set_insert(cs, c));
        if cs.contains(c) {
            assert(ns == cs);
        } else {
            assert(ns == cs.push(c));
        }
        assert(cs.len() == old_classes.len());
        assert forall|i: int, j: int| 0 <= i < j < classes@.len() implies classes@[i]@ != classes@[j]@ by {
            assert(ns[i] == classes@[i]@ && ns[j] == classes@[j]@);
            if !cs.contains(c) && j == cs.len() {
                assert(ns[i] == cs[i]);
            } else {
                assert(ns[i] == cs[i] && ns[j] == cs[j]);
                assert(cs[i] == old_classes[i]@ && cs[j] == old_classes[j]@);
            }
        }
    }
}

/// Adds a class to a list of classes unless it is there already.
pub fn insert_class(classes: &mut Vec<TagClass>, class: TagClass)
    ensures
        final(classes)@.map_values(|c: TagClass| c@) == class_set_insert(old(classes)@.map_values(|c: TagClass| c@), class@),
{
    let ghost cs = classes@.map_values(|c: TagClass| c@);
    let mut i: usize = 0;
    while i < classes.len()
        invariant
            cs == classes@.map_values(|c: TagClass| c@),
            i <= classes@.len(),
            forall|k: int| 0 <= k < i ==> cs[k] != class@,
        decreases classes@.len() - i,
    {
        if classes[i].same_as(&class) {
            assert(cs[i as int] == class@);
            return;
        }
        i = i + 1;
    }
    let ghost c = class@;
    classes.push(class);
    assert(classes@.map_values(|c: TagClass| c@) =~= cs.push(c));
}

} // verus!
