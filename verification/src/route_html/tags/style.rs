use vstd::prelude::*;

use crate::route_html::stylerule::{rule_text, StyleRule, StyleRuleView};
use crate::route_html::css::{minify_css, spec_minified_css};
use crate::route_html::tags::{element, is_void_element, is_text_element, pair, pairs_view, text_element, IntoTag, Tag};
use crate::text::concat;

verus! {

/// Generated rules, each at most once, in the order they were added.
#[derive(Debug)]
pub struct RuleSet {
    rules: Vec<StyleRule>,
}

impl View for RuleSet {
    type V = Seq<StyleRuleView>;

    closed spec fn view(&self) -> Seq<StyleRuleView> {
        self.rules@.map_values(|r: StyleRule| r@)
    }
}

impl RuleSet {
    /// No rule is held twice.
    #[verifier::type_invariant]
    spec fn distinct(self) -> bool {
        self.rules@.map_values(|r: StyleRule| r@).no_duplicates()
    }

    /// The set with no rules.
    pub fn new() -> (r: RuleSet)
        ensures
            r@ == Seq::<StyleRuleView>::empty(),
    {
        let rules: Vec<StyleRule> = Vec::new();
        assert(rules@.map_values(|r: StyleRule| r@) =~= Seq::<StyleRuleView>::empty());
        RuleSet { rules }
    }

    /// The rules, in the order they were added; none is held twice.
    pub fn rules(&self) -> (r: &Vec<StyleRule>)
        ensures
            r@.map_values(|x: StyleRule| x@) == self@,
            self@.no_duplicates(),
    {
        proof {
            use_type_invariant(self);
        }
        &self.rules
    }

    /// Adds a rule unless the set holds it already.
    pub fn insert(&mut self, style: StyleRule)
        ensures
            final(self)@ == (if old(self)@.contains(style@) {
                old(self)@
            } else {
                old(self)@.push(style@)
            }),
            final(self)@.no_duplicates(),
    {
        proof {
            use_type_invariant(&*self);
        }
        let ghost rs = self@;
        let mut i: usize = 0;
        let mut found = false;
        while i < self.rules.len() && !found
            invariant
                rs == self@,
                rs == self.rules@.map_values(|r: StyleRule| r@),
                rs.no_duplicates(),
                i <= self.rules@.len(),
                !found ==> forall|k: int| 0 <= k < i ==> rs[k] != style@,
                found ==> rs.contains(style@),
            decreases self.rules@.len() - i + (if found { 0int } else { 1int }),
        {
            if self.rules[i].same_as(&style) {
                found = true;
                assert(rs[i as int] == style@);
            } else {
                i = i + 1;
            }
        }
        if !found {
            let ghost r = style@;
            let mut rules: Vec<StyleRule> = Vec::new();
            std::mem::swap(&mut rules, &mut self.rules);
            rules.push(style);
            assert(rules@.map_values(|x: StyleRule| x@) =~= rs.push(r));
            assert(!rs.contains(r));
            assert(rs.push(r).no_duplicates()) by {
                assert forall|a: int, b: int| 0 <= a < rs.push(r).len() && 0 <= b < rs.push(r).len() && a != b implies rs.push(
                    r,
                )[a] != rs.push(r)[b] by {
                    if a == rs.len() as int {
                        assert(rs[b] != r);
                    } else if b == rs.len() as int {
                        assert(rs[a] != r);
                    }
                }
            }
            self.rules = rules;
        }
    }
}

/// A style sheet: a set of generated rules, or css text.
#[derive(Debug)]
pub enum Style {
    /// Generated rules, each at most once, in the order they were added.
    Styles(RuleSet),
    /// Css text.
    Text(String),
}

pub enum StyleView {
    Styles(Seq<StyleRuleView>),
    Text(Seq<char>),
}

impl View for Style {
    type V = StyleView;

    open spec fn view(&self) -> StyleView {
        match self {
            Style::Styles(rs) => StyleView::Styles(rs@),
            Style::Text(t) => StyleView::Text(t@),
        }
    }
}

/// A style sheet after adding a rule: a rule set gains the rule unless it
/// holds it already; css text gets the rule's css appended.
pub open spec fn spec_add_rule(s: StyleView, r: StyleRuleView) -> StyleView {
    match s {
        StyleView::Styles(rs) => if rs.contains(r) {
            s
        } else {
            StyleView::Styles(rs.push(r))
        },
        StyleView::Text(t) => StyleView::Text(t + rule_text(r)),
    }
}

/// The css text of a style sheet.
pub open spec fn style_text(s: StyleView) -> Seq<char> {
    match s {
        StyleView::Text(t) => t,
        StyleView::Styles(rs) => concat(rs.map_values(|r: StyleRuleView| rule_text(r))),
    }
}

impl Default for Style {
    /// An empty rule set.
    fn default() -> (r: Style)
        ensures
            r@ == StyleView::Styles(Seq::empty()),
    {
        Style::Styles(RuleSet::new())
    }
}

impl Style {
    /// Adds a rule: a rule set gains it unless it holds it already; css
    /// text gets its css appended.
    pub fn add_rule(&mut self, style: StyleRule)
        ensures
            final(self)@ == spec_add_rule(old(self)@, style@),
            final(self)@ matches StyleView::Styles(rs) ==> rs.no_duplicates(),
    {
        match self {
            Style::Styles(set) => {
                set.insert(style);
            },
            Style::Text(text) => {
                let css = style.to_string();
                text.append(css.as_str());
            },
        }
    }

    /// A rule set holds each rule once.
    pub(crate) fn distinct_rules(&self)
        ensures
            self@ matches StyleView::Styles(rs) ==> rs.no_duplicates(),
    {
        if let Style::Styles(set) = self {
            proof {
                use_type_invariant(set);
            }
        }
    }
}

impl Style {
    /// A `<link rel="stylesheet" href="...">` for an external style sheet.
    pub fn external(link: String) -> (r: Tag)
        ensures
            is_void_element(r, "link"@, seq![("rel"@, "stylesheet"@), ("href"@, link@)]),
    {
        let mut attributes = Vec::new();
        attributes.push(pair("rel", "stylesheet"));
        attributes.push((String::from_str("href"), link));
        let r = element("link", attributes, None);
        assert(pairs_view(attributes@) =~= seq![("rel"@, "stylesheet"@), ("href"@, link@)]);
        r
    }

    /// The css text of this style sheet.
    pub fn css_text(&self) -> (r: String)
        ensures
            r@ == style_text(self@),
    {
        match self {
            Style::Text(text) => text.clone(),
            Style::Styles(set) => {
                let styles = set.rules();
                let ghost rs = styles@.map_values(|r: StyleRule| r@);
                let ghost ts = rs.map_values(|r: StyleRuleView| rule_text(r));
                let mut out = String::new();
                let mut i: usize = 0;
                while i < styles.len()
                    invariant
                        rs == styles@.map_values(|r: StyleRule| r@),
                        ts == rs.map_values(|r: StyleRuleView| rule_text(r)),
                        i <= styles@.len(),
                        out@ == concat(ts.take(i as int)),
                    decreases styles@.len() - i,
                {
                    assert(ts.take(i + 1).drop_last() =~= ts.take(i as int));
                    assert(ts.take(i + 1).last() == rule_text(styles@[i as int]@));
                    let css = styles[i].to_string();
                    out.append(css.as_str());
                    i = i + 1;
                }
                assert(ts.take(styles@.len() as int) =~= ts);
                out
            },
        }
    }

    /// A style sheet of the css text that lightningcss makes of `source`
    /// (parsed, minified and printed); the source must be css that it
    /// reads.
    pub fn from_css(source: &str) -> (r: Style)
        requires
            spec_minified_css(source@) is Some,
        ensures
            r@ == StyleView::Text(spec_minified_css(source@)->0),
    {
        match minify_css(source) {
            Some(text) => Style::Text(text),
            None => {
                proof {
                    assert(false);
                }
                Style::Text(String::new())
            },
        }
    }

    /// Like [`Style::from_css`], but nothing when lightningcss cannot read
    /// `source`.
    pub fn try_from_css(source: &str) -> (r: Option<Style>)
        ensures
            match spec_minified_css(source@) {
                Some(t) => r matches Some(s) && s@ == StyleView::Text(t),
                None => r is None,
            },
    {
        match minify_css(source) {
            Some(_) => Some(Style::from_css(source)),
            None => None,
        }
    }
}

impl IntoTag for Style {
    /// A `<style>` element with the css text.
    fn into_tag(&self) -> (r: Vec<Tag>)
        ensures
            r@.len() == 1,
            is_text_element(r@[0], "style"@, seq![], style_text(self@)),
            self@ matches StyleView::Styles(rs) ==> rs.no_duplicates(),
    {
        self.distinct_rules();
        let content = self.css_text();
        let mut v = Vec::new();
        let t = text_element("style", Vec::new(), content);
        assert(pairs_view(Seq::<(String, String)>::empty()) =~= seq![]);
        v.push(t);
        v
    }
}

} // verus!
