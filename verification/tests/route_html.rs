use route_rs::route_html::class::TagClass;
use route_rs::route_html::render;
use route_rs::route_html::stylerule::{encode_base62, StyleRule};
use route_rs::route_html::tags::head::{Head, OpenGraph, OpenGraphType};
use route_rs::route_html::tags::html::{Body, Html};
use route_rs::route_html::tags::link::{generate_random_letters, Link, LinkLoadType, LinkTarget};
use route_rs::route_html::tags::style::Style;
use route_rs::route_html::tags::{element, text_element, IntoTag, Tag};

fn rule(key: u64, name: &str, value: &str) -> StyleRule {
    StyleRule::with_key(vec![(name.to_string(), value.to_string())], key)
}

fn div(children: Vec<Tag>, classes: Vec<TagClass>) -> Tag {
    Tag::Tag { ident: "div", children: Some(children), classes, ids: vec![], attributes: vec![] }
}

#[test]
fn base62_names() {
    assert_eq!(encode_base62(0), "0");
    assert_eq!(encode_base62(10), "A");
    assert_eq!(encode_base62(61), "z");
    assert_eq!(encode_base62(62), "10");
    assert_eq!(encode_base62(3843), "zz");
}

#[test]
fn rule_as_css() {
    let r = StyleRule::with_key(
        vec![("color".to_string(), "red".to_string()), ("margin".to_string(), "0".to_string())],
        36,
    );
    assert_eq!(r.rule, "a");
    assert_eq!(r.to_string(), ".a{color:red;margin:0;}");
}

#[test]
fn tag_to_string() {
    let t = Tag::Tag {
        ident: "p",
        children: Some(vec![Tag::Text("hi".to_string())]),
        classes: vec![TagClass::text("big".to_string()), TagClass::styles(rule(10, "color", "red"))],
        ids: vec!["one".to_string(), "two".to_string()],
        attributes: vec![("title".to_string(), "x".to_string()), ("lang".to_string(), "en".to_string())],
    };
    assert_eq!(t.to_string(), "<p title=\"x\" lang=\"en\" class=\"big A\" id=\"one two\">hi</p>");
    let void = element("br", vec![], None);
    assert_eq!(void.to_string(), "<br>");
    assert_eq!(Tag::Text("plain".to_string()).to_string(), "plain");
}

#[test]
fn add_id_and_style_on_tags() {
    let mut t = div(vec![], vec![]);
    t.add_id("x".to_string());
    t.style(rule(11, "margin", "0"));
    assert_eq!(t.to_string(), "<div class=\"B\" id=\"x\"></div>");
    let mut text = Tag::Text("t".to_string());
    text.add_id("x".to_string());
    assert_eq!(text.to_string(), "t");
}

#[test]
fn hydrate_collects_rules_once() {
    let r = rule(10, "color", "red");
    let t = div(
        vec![div(vec![], vec![TagClass::Style(r.clone())]), div(vec![], vec![TagClass::Style(rule(11, "margin", "0"))])],
        vec![TagClass::Style(r.clone())],
    );
    let mut style = Style::default();
    t.hydrate_styles(&mut style);
    assert_eq!(style.css_text(), ".A{color:red;}.B{margin:0;}");
}

#[test]
fn style_text_collects_rules() {
    let mut s = Style::Text("body{margin:0}".to_string());
    s.add_rule(rule(12, "color", "blue"));
    assert_eq!(s.css_text(), "body{margin:0}.C{color:blue;}");
    let tags = s.into_tag();
    assert_eq!(tags[0].to_string(), "<style>body{margin:0}.C{color:blue;}</style>");
}

#[test]
fn external_style_sheet() {
    let t = Style::external("/main.css".to_string());
    assert_eq!(t.to_string(), "<link rel=\"stylesheet\" href=\"/main.css\">");
}

#[test]
fn css_is_read_by_lightningcss() {
    let s = Style::try_from_css("a {\n  color: red;\n}\n").unwrap();
    assert_eq!(s.css_text(), "a {\n  color: red;\n}\n");
}

#[test]
fn default_head() {
    let head = Head::default().title("Home");
    let tags = head.into_tag();
    assert_eq!(
        tags[0].to_string(),
        "<head><meta charset=\"UTF-8\"><meta name=\"viewport\" content=\"width=device-width, initial-scale=1.0\"><title>Home</title></head>"
    );
}

#[test]
fn head_with_open_graph() {
    let og = OpenGraph::new("T", "D", OpenGraphType::Article, "/i.png");
    let head = Head::empty().description("about").opengraph(og);
    let tags = head.into_tag();
    assert_eq!(
        tags[0].to_string(),
        "<head><meta name=\"description\" content=\"about\"><meta property=\"og:title\" content=\"T\"><meta property=\"og:description\" content=\"D\"><meta property=\"og:type\" content=\"article\"><meta property=\"og:image\" content=\"/i.png\"></head>"
    );
}

#[test]
fn head_append_and_extend() {
    let mut head = Head::empty().append(text_element("title", vec![], "x".to_string()));
    head.extend_ref(vec![Tag::Text("y".to_string())]);
    head = head.meta_utf8();
    assert_eq!(head.children.len(), 3);
    assert_eq!(head.into_tag()[0].to_string(), "<head><title>x</title>y<meta charset=\"UTF-8\"></head>");
}

#[test]
fn reset_css_is_added() {
    let head = Head::empty().try_reset_css().ok().unwrap();
    let text = head.into_tag()[0].to_string();
    assert!(text.starts_with("<head><style>"));
    assert!(text.contains("box-sizing: border-box"));
}

#[test]
fn link_text_and_targets() {
    let link = Link::text("/about".to_string(), "About");
    assert_eq!(link.target, LinkTarget::_Self);
    assert_eq!(link.load_type, LinkLoadType::No);
    let tags = link.add_class(TagClass::text("nav".to_string())).add_id("l".to_string()).into_tag();
    assert_eq!(tags.len(), 1);
    assert_eq!(tags[0].to_string(), "<a href=\"/about\" target=\"_self\" class=\"nav\" id=\"l\">About</a>");
    assert_eq!(LinkTarget::_Blank.to_string(), "_blank");
}

#[test]
fn link_class_added_once() {
    let link = Link::new("/".to_string(), vec![])
        .add_class(TagClass::text("a".to_string()))
        .add_class(TagClass::text("a".to_string()));
    assert_eq!(link.classes.len(), 1);
    let link = link.add_attribute("rel".to_string(), "x".to_string()).add_attribute("rel".to_string(), "y".to_string());
    assert_eq!(link.attributes, vec![("rel".to_string(), "y".to_string())]);
}

#[test]
fn hover_link_gets_an_id_and_a_script() {
    let link = Link::text("/next".to_string(), "Next").preload(LinkLoadType::WhenHover);
    let tags = link.into_tag();
    assert_eq!(tags.len(), 2);
    let Tag::Tag { ids, .. } = &tags[0] else { panic!() };
    assert_eq!(ids.len(), 1);
    assert_eq!(ids[0].len(), 8);
    assert!(ids[0].chars().all(|c| c.is_ascii_alphabetic()));
    let script = tags[1].to_string();
    assert!(script.starts_with("<script>/* Generated By route-rs */"));
    assert!(script.contains(&format!("querySelector(\"#{}\")", ids[0])));
    assert!(script.contains("link.href = '/next'"));
}

#[test]
fn random_letters() {
    let s = generate_random_letters(20);
    assert_eq!(s.len(), 20);
    assert!(s.chars().all(|c| c.is_ascii_alphabetic()));
}

#[test]
fn link_styles_from_css() {
    let link = Link::new("/".to_string(), vec![]).try_styles("color: red").ok().unwrap();
    assert_eq!(link.classes.len(), 1);
    let TagClass::Style(r) = &link.classes[0] else { panic!() };
    assert_eq!(r.styles, vec![("color".to_string(), "red".to_string())]);
    assert!(Link::new("/".to_string(), vec![]).try_styles("not-a-property: 1").is_err());
}

#[test]
fn from_string_is_text() {
    let t: Tag = Tag::from("x".to_string());
    assert_eq!(t.to_string(), "x");
    let ts = "hello".into_tag();
    assert_eq!(ts[0].to_string(), "hello");
}

#[test]
fn body_tag() {
    let body = Body::default().add_class(TagClass::text("main".to_string())).add_id("b".to_string());
    let tags = body.into_tag();
    assert_eq!(tags[0].to_string(), "<body class=\"main\" id=\"b\"></body>");
}

#[test]
fn html_tags() {
    let mut html = Html::with_head(Head::empty());
    html.extend(vec![Tag::Text("a".to_string())]);
    let html = html.body_from_iter(vec![vec![Tag::Text("b".to_string())], vec![], vec![Tag::Text("c".to_string())]]);
    let tags = html.into_tag();
    assert_eq!(tags.len(), 2);
    assert_eq!(tags[0].to_string(), "<!DOCTYPE html>");
    assert_eq!(tags[1].to_string(), "<html><head></head><body>abc</body></html>");
}

#[test]
fn render_puts_the_body_rules_in_the_head() {
    let r = rule(10, "color", "red");
    let mut html = Html::with_head(Head::empty().title("T"));
    html.body = Body::default().add_class(TagClass::Style(r.clone()));
    html.extend(vec![div(vec![Tag::Text("x".to_string())], vec![TagClass::Style(r.clone()), TagClass::Style(rule(11, "margin", "0"))])]);
    let out = render(html);
    assert_eq!(
        out,
        "<!DOCTYPE html><html><head><title>T</title><style>.A{color:red;}.B{margin:0;}</style></head><body class=\"A\"><div class=\"A B\">x</div></body></html>"
    );
}

#[test]
fn render_empty_page() {
    let out = render(Html::with_head(Head::empty()));
    assert_eq!(out, "<!DOCTYPE html><html><head><style></style></head><body></body></html>");
}

use route_rs::route_html::tags::elements::{Div, Span, P};

#[test]
fn text_elements() {
    let d = Div::from("hello").add_class(TagClass::text("box".to_string())).add_id("d".to_string());
    assert_eq!(d.into_tag()[0].to_string(), "<div class=\"box\" id=\"d\">hello</div>");
    let s = Span::from("s").add_attribute("title".to_string(), "t".to_string());
    assert_eq!(s.attributes, vec![("title".to_string(), "t".to_string())]);
    assert_eq!(s.into_tag()[0].to_string(), "<span>s</span>");
    let p = P::default();
    assert_eq!(p.into_tag()[0].to_string(), "<p></p>");
}

#[test]
fn element_styles() {
    let d = Div::default().try_styles("margin: 0").ok().unwrap();
    let TagClass::Style(r) = &d.classes[0] else { panic!() };
    assert_eq!(r.styles, vec![("margin".to_string(), "0".to_string())]);
    assert!(P::default().try_styles("{{{").is_err());
    let styled = Div::default().styles("color: red").styles("color: red");
    assert_eq!(styled.classes.len(), 1);
}

#[test]
fn page_of_two_styled_links_has_one_rule() {
    let css = "
            color: blue;
            background-color: red;
          ";
    let first = Link::text("http://localhost:3000".to_string(), "testing")
        .preload(LinkLoadType::WhenIdle)
        .try_styles(css)
        .ok()
        .unwrap();
    let second = Link::text("http://localhost:3000".to_string(), "testing")
        .preload(LinkLoadType::WhenHover)
        .try_styles(css)
        .ok()
        .unwrap();
    let TagClass::Style(rule) = &first.classes[0] else { panic!() };
    let name = rule.rule.clone();
    assert_eq!(
        rule.styles,
        vec![("color".to_string(), "#00f".to_string()), ("background-color".to_string(), "red".to_string())]
    );
    let root = Html::with_head(Head::default().title("testing")).body_from_iter(vec![first.into_tag(), second.into_tag()]);
    let out = render(root);
    let css_rule = format!(".{}{{color:#00f;background-color:red;}}", name);
    assert_eq!(out.matches(&css_rule).count(), 1);
    assert_eq!(out.matches(&format!("class=\"{}\"", name)).count(), 2);
    assert!(out.contains("<title>testing</title>"));
    assert!(out.contains("<script>"));
}

#[test]
fn adding_a_rule_twice_keeps_it_once() {
    let mut style = Style::default();
    style.add_rule(rule(10, "color", "red"));
    style.add_rule(rule(10, "color", "red"));
    assert_eq!(style.css_text(), ".A{color:red;}");
    let Style::Styles(set) = &style else { panic!() };
    assert_eq!(set.rules().len(), 1);
}

#[test]
fn hydrating_twice_changes_nothing() {
    let t = div(vec![div(vec![], vec![TagClass::Style(rule(11, "margin", "0"))])], vec![TagClass::Style(rule(10, "color", "red"))]);
    let mut style = Style::default();
    t.hydrate_styles(&mut style);
    let once = style.css_text();
    t.hydrate_styles(&mut style);
    assert_eq!(style.css_text(), once);
    assert_eq!(once, ".A{color:red;}.B{margin:0;}");
}
