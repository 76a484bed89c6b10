pub mod class;
pub mod css;
pub mod stylerule;
pub mod tags;

use vstd::prelude::*;

use crate::route_html::stylerule::StyleRuleView;
use crate::route_html::tags::html::{body_rules, html_text, page_text, Body, Html};
use crate::route_html::tags::style::{spec_add_rule, style_text, Style, StyleView};
use crate::route_html::tags::{add_rules, classes_view, pairs_view, render_seq, style_rules, IntoTag, Tag};
use crate::text::strings_view;

verus! {

/// Adding rules to a rule set keeps each rule once: the set holds exactly
/// the rules it held and the rules added, none twice.
pub proof fn lemma_add_rules_dedup(init: Seq<StyleRuleView>, rs: Seq<StyleRuleView>)
    requires
        init.no_duplicates(),
    ensures
        add_rules(StyleView::Styles(init), rs) is Styles,
        add_rules(StyleView::Styles(init), rs)->Styles_0.no_duplicates(),
        forall|r: StyleRuleView|
            add_rules(StyleView::Styles(init), rs)->Styles_0.contains(r) <==> (init.contains(r) || rs.contains(r)),
    decreases rs.len(),
{
    if rs.len() > 0 {
        lemma_add_rules_dedup(init, rs.drop_last());
        let before = add_rules(StyleView::Styles(init), rs.drop_last())->Styles_0;
        let last = rs.last();
        assert forall|r: StyleRuleView| rs.contains(r) <==> (rs.drop_last().contains(r) || r == last) by {
            if rs.contains(r) {
                let k = choose|k: int| 0 <= k < rs.len() && rs[k] == r;
                if k < rs.len() - 1 {
                    assert(rs.drop_last()[k] == r);
                }
            }
            if rs.drop_last().contains(r) {
                let k = choose|k: int| 0 <= k < rs.drop_last().len() && rs.drop_last()[k] == r;
                assert(rs[k] == r);
            }
            if r == last {
                assert(rs[rs.len() - 1] == r);
            }
        }
        if !before.contains(last) {
            let after = before.push(last);
            assert forall|r: StyleRuleView| after.contains(r) <==> (before.contains(r) || r == last) by {
                if after.contains(r) {
                    let k = choose|k: int| 0 <= k < after.len() && after[k] == r;
                    if k < before.len() {
                        assert(before[k] == r);
                    }
                }
                if before.contains(r) {
                    let k = choose|k: int| 0 <= k < before.len() && before[k] == r;
                    assert(after[k] == r);
                }
                if r == last {
                    assert(after[before.len() as int] == r);
                }
            }
        }
    }
}

/// A rule set that already holds every rule added stays as it is.
proof fn lemma_add_held_rules(rs: Seq<StyleRuleView>, added: Seq<StyleRuleView>)
    requires
        forall|i: int| 0 <= i < added.len() ==> rs.contains(#[trigger] added[i]),
    ensures
        add_rules(StyleView::Styles(rs), added) == StyleView::Styles(rs),
    decreases added.len(),
{
    if added.len() > 0 {
        assert forall|i: int| 0 <= i < added.drop_last().len() implies rs.contains(#[trigger] added.drop_last()[i]) by {
            assert(added.drop_last()[i] == added[i]);
        }
        lemma_add_held_rules(rs, added.drop_last());
        assert(rs.contains(added[added.len() - 1]));
    }
}

/// Adding rules to a rule set is set union: the set then holds its rules
/// and the added ones, each once; adding the same rules again changes
/// nothing.
pub proof fn lemma_add_rules_is_union(rs: Seq<StyleRuleView>, added: Seq<StyleRuleView>)
    requires
        rs.no_duplicates(),
    ensures
        add_rules(StyleView::Styles(rs), added) is Styles,
        add_rules(StyleView::Styles(rs), added)->Styles_0.no_duplicates(),
        add_rules(StyleView::Styles(rs), added)->Styles_0.to_set() == rs.to_set() + added.to_set(),
        add_rules(add_rules(StyleView::Styles(rs), added), added) == add_rules(StyleView::Styles(rs), added),
{
    lemma_add_rules_dedup(rs, added);
    let out = add_rules(StyleView::Styles(rs), added)->Styles_0;
    assert(out.to_set() =~= rs.to_set() + added.to_set());
    assert forall|i: int| 0 <= i < added.len() implies out.contains(#[trigger] added[i]) by {
        assert(added.contains(added[i]));
    }
    lemma_add_held_rules(out, added);
}

/// Adding one rule to a rule set is set union with that rule; adding it
/// again changes nothing.
pub proof fn lemma_add_rule_is_union(rs: Seq<StyleRuleView>, r: StyleRuleView)
    requires
        rs.no_duplicates(),
    ensures
        spec_add_rule(StyleView::Styles(rs), r) is Styles,
        spec_add_rule(StyleView::Styles(rs), r)->Styles_0.no_duplicates(),
        spec_add_rule(StyleView::Styles(rs), r)->Styles_0.to_set() == rs.to_set().insert(r),
        spec_add_rule(spec_add_rule(StyleView::Styles(rs), r), r) == spec_add_rule(StyleView::Styles(rs), r),
{
    let one = seq![r];
    assert(one.drop_last() =~= Seq::<StyleRuleView>::empty());
    assert(one.last() == r);
    assert(add_rules(StyleView::Styles(rs), Seq::<StyleRuleView>::empty()) == StyleView::Styles(rs));
    assert(add_rules(StyleView::Styles(rs), one) == spec_add_rule(StyleView::Styles(rs), r));
    lemma_add_rules_is_union(rs, one);
    assert(one[0] == r);
    assert(one.to_set() =~= Set::empty().insert(r));
    assert(rs.to_set() + one.to_set() =~= rs.to_set().insert(r));
    let s1 = spec_add_rule(StyleView::Styles(rs), r);
    if !rs.contains(r) {
        assert(rs.push(r)[rs.len() as int] == r);
    }
    assert(s1->Styles_0.contains(r));
}

/// Collecting a node's generated rules into a rule set is set union with
/// the rules the node and its descendants use; collecting them again
/// changes nothing.
pub proof fn lemma_hydrate_is_union(rs: Seq<StyleRuleView>, t: Tag)
    requires
        rs.no_duplicates(),
    ensures
        add_rules(StyleView::Styles(rs), style_rules(t)) is Styles,
        add_rules(StyleView::Styles(rs), style_rules(t))->Styles_0.no_duplicates(),
        add_rules(StyleView::Styles(rs), style_rules(t))->Styles_0.to_set() == rs.to_set() + style_rules(t).to_set(),
        add_rules(add_rules(StyleView::Styles(rs), style_rules(t)), style_rules(t)) == add_rules(
            StyleView::Styles(rs),
            style_rules(t),
        ),
{
    lemma_add_rules_is_union(rs, style_rules(t));
}

/// The style sheet that [`render`] writes holds each generated rule that
/// the body uses exactly once, and no other rule.
pub proof fn lemma_page_rules_unique(body: Body)
    ensures
        add_rules(StyleView::Styles(seq![]), body_rules(body)) is Styles,
        add_rules(StyleView::Styles(seq![]), body_rules(body))->Styles_0.no_duplicates(),
        forall|r: StyleRuleView|
            add_rules(StyleView::Styles(seq![]), body_rules(body))->Styles_0.contains(r) <==> body_rules(body).contains(r),
{
    lemma_add_rules_dedup(seq![], body_rules(body));
}

/// Renders a page: the generated rules that the body uses are collected,
/// each once, into a `<style>` element at the end of the head's children,
/// and the page is written out.
pub fn render(root: Html) -> (r: String)
    ensures
        r@ == page_text(root.head, root.body),
{
    let Html { head, body } = root;
    let ghost h0 = head;
    let ghost b0 = body;
    let body_tags = body.into_tag();
    let mut style = Style::default();
    body_tags[0].hydrate_styles(&mut style);
    assert(style@ == add_rules(StyleView::Styles(seq![]), body_rules(body)));
    let ghost css = style_text(style@);
    let head2 = head.style(style);
    proof {
        let hc = head2.children@;
        assert(hc.subrange(0, hc.len() - 1) =~= h0.children@);
        let st = hc[hc.len() - 1];
        reveal_strlit("style");
        reveal_strlit("<style>");
        reveal_strlit("</style>");
        match st {
            Tag::Tag { ident, children: Some(cs), classes, ids, attributes } => {
                assert(pairs_view(attributes@) == Seq::<(Seq<char>, Seq<char>)>::empty());
                assert(pairs_view(attributes@).len() == 0);
                assert(attributes@.len() == 0);
                assert(classes_view(classes@).len() == 0);
                assert(strings_view(ids@).len() == 0);
                assert(ident@ == "style"@);
                assert(cs@.len() == 1);
                assert(cs@.subrange(0, 0) =~= Seq::<Tag>::empty());
                assert(render_seq(Seq::<Tag>::empty()) == Seq::<char>::empty());
                assert(tags::render(cs@[0]) == css);
                assert(render_seq(cs@) == render_seq(cs@.subrange(0, 0)) + tags::render(cs@[0]));
                assert(render_seq(cs@) =~= css);
                assert(tags::render(st) =~= "<style>"@ + css + "</style>"@);
            },
            _ => {},
        }
        assert(tags::render(st) =~= "<style>"@ + css + "</style>"@);
        assert(render_seq(hc) == render_seq(h0.children@) + tags::render(st));
    }
    let page = Html { head: head2, body };
    let tags = page.into_tag();
    let first = tags[0].to_string();
    let second = tags[1].to_string();
    let mut out = first;
    out.append(second.as_str());
    proof {
        assert(tags@.subrange(0, 1) =~= seq![tags@[0]]);
        assert(seq![tags@[0]].subrange(0, 0) =~= Seq::<Tag>::empty());
        assert(seq![tags@[0]][0] == tags@[0]);
        assert(render_seq(Seq::<Tag>::empty()) == Seq::<char>::empty());
        assert(render_seq(seq![tags@[0]]) == render_seq(seq![tags@[0]].subrange(0, 0)) + tags::render(tags@[0]));
        assert(render_seq(seq![tags@[0]]) =~= tags::render(tags@[0]));
        assert(render_seq(tags@) =~= tags::render(tags@[0]) + tags::render(tags@[1]));
        reveal_strlit("<!DOCTYPE html><html>");
        reveal_strlit("<!DOCTYPE html><html><head>");
        reveal_strlit("<head>");
        assert(out@ =~= html_text(page.head, page.body));
        assert(html_text(page.head, page.body) =~= page_text(h0, b0));
    }
    out
}

} // verus!
