use saba_core::css::{Declaration, Rule, Selector, StyleSheet};
use saba_core::css_parse::{parse_color, parse_length, parse_stylesheet};
use saba_core::display_item::{next_link, paint, previous_link, DisplayItem};
use saba_core::dom::{Attribute, Document, Element, ElementKind, NodeKind};
use saba_core::error::Error;
use saba_core::html::parse_html;
use saba_core::http::HttpResponse;
use saba_core::layout::{LayoutObjectKind, LayoutView, CONTENT_AREA_WIDTH, LINE_HEIGHT};
use saba_core::lines::{split_text_lines, wrap_text};
use saba_core::page::{settle, Page, MAX_SCRIPT_ROUNDS};
use saba_core::url::Url;
use saba_core::style::{
    BoxInfo, Color, ComputedStyle, DisplayType, FontSize, TextDecoration, WhiteSpace,
};

fn load(html: &str) -> Page {
    let mut page = Page::new();
    let raw = format!("HTTP/1.1 200 OK\n\n{}", html);
    page.receive_response(HttpResponse::new(raw).unwrap());
    page
}

fn element(kind: ElementKind) -> NodeKind {
    NodeKind::Element(Element::new(kind, Vec::new()))
}

fn texts(items: &[DisplayItem]) -> Vec<String> {
    items
        .iter()
        .filter_map(|i| match i {
            DisplayItem::Text { text, .. } => Some(text.clone()),
            _ => None,
        })
        .collect()
}

fn input_point(items: &[DisplayItem]) -> (u64, u64) {
    items
        .iter()
        .find_map(|i| match i {
            DisplayItem::Input { layout_point, .. } => Some((layout_point.x, layout_point.y)),
            _ => None,
        })
        .unwrap()
}

#[test]
fn script_and_style_are_not_laid_out_or_painted() {
    let page = load(
        "<html><head><style>p { color: red; }</style><script>var x = 1;</script></head><body><p>shown</p></body></html>",
    );
    let sheet = StyleSheet::new();
    let style = sheet.resolve(&element(ElementKind::Script), None);
    assert_eq!(style.display(), DisplayType::DisplayNone);
    let style = sheet.resolve(&element(ElementKind::Style), None);
    assert_eq!(style.display(), DisplayType::DisplayNone);

    let items = page.display_items();
    assert_eq!(texts(&items), vec!["shown".to_string()]);
    let dom = page.dom.as_ref().unwrap();
    let view = page.layout_view.as_ref().unwrap();
    for o in &view.objects {
        match &dom.nodes[o.node].kind {
            NodeKind::Element(e) => {
                assert!(e.kind != ElementKind::Script && e.kind != ElementKind::Style)
            }
            NodeKind::Text(t) => assert_eq!(t, "shown"),
            NodeKind::Document => {}
        }
    }
}

#[test]
fn headings_get_their_font_sizes() {
    let sheet = StyleSheet::new();
    let medium_parent = sheet.resolve(&element(ElementKind::Body), None);
    assert_eq!(sheet.resolve(&element(ElementKind::H1), Some(medium_parent)).font_size(), FontSize::XXLarge);
    assert_eq!(sheet.resolve(&element(ElementKind::H2), Some(medium_parent)).font_size(), FontSize::XLarge);
    assert_eq!(sheet.resolve(&element(ElementKind::P), Some(medium_parent)).font_size(), FontSize::Medium);
    assert_eq!(sheet.resolve(&element(ElementKind::H1), None).font_size(), FontSize::XXLarge);
}

#[test]
fn heading_inside_a_large_parent_inherits_its_size() {
    let sheet = StyleSheet::new();
    let h2 = sheet.resolve(&element(ElementKind::H2), None);
    let h1 = sheet.resolve(&element(ElementKind::H1), Some(h2));
    assert_eq!(h1.font_size(), FontSize::XLarge);
}

#[test]
fn links_are_underlined() {
    let sheet = StyleSheet::new();
    let body = sheet.resolve(&element(ElementKind::Body), None);
    let a = sheet.resolve(&element(ElementKind::A), Some(body));
    assert_eq!(a.text_decoration(), TextDecoration::Underline);
    let text = sheet.resolve(&NodeKind::Text("x".to_string()), Some(a));
    assert_eq!(text.text_decoration(), TextDecoration::Underline);
}

#[test]
fn color_is_inherited_only_when_not_black() {
    let mut sheet = StyleSheet::new();
    sheet.push_rule(Rule::new(Selector::Type(ElementKind::P), vec![Declaration::Color(Color::from_code(0xff0000))]));
    let p = sheet.resolve(&element(ElementKind::P), None);
    assert_eq!(p.color(), Color::from_code(0xff0000));
    let child = sheet.resolve(&NodeKind::Text("t".to_string()), Some(p));
    assert_eq!(child.color(), Color::from_code(0xff0000));

    let plain = StyleSheet::new();
    let div = plain.resolve(&element(ElementKind::Div), None);
    assert_eq!(div.color(), Color::black());
    let child = plain.resolve(&NodeKind::Text("t".to_string()), Some(div));
    assert_eq!(child.color(), Color::black());
    assert_eq!(child.background_color(), Color::white());
}

#[test]
fn background_is_inherited_when_not_white() {
    let mut sheet = StyleSheet::new();
    sheet.push_rule(Rule::new(
        Selector::Type(ElementKind::Div),
        vec![Declaration::BackgroundColor(Color::from_code(0x0000ff))],
    ));
    let div = sheet.resolve(&element(ElementKind::Div), None);
    let span = sheet.resolve(&element(ElementKind::Span), Some(div));
    assert_eq!(span.background_color(), Color::from_code(0x0000ff));
}

#[test]
fn defaulting_fills_every_property() {
    let mut style = ComputedStyle::new();
    style.defaulting(&element(ElementKind::Pre), None);
    assert_eq!(style.display(), DisplayType::Block);
    assert_eq!(style.white_space(), WhiteSpace::Pre);
    assert_eq!(style.width(), 0);
    assert_eq!(style.height(), 0);
    assert_eq!(style.margin(), BoxInfo::new(0, 0, 0, 0));
    assert_eq!(style.padding_left(), 0);
    let mut text = ComputedStyle::new();
    text.defaulting(&NodeKind::Text("x".to_string()), None);
    assert_eq!(text.display(), DisplayType::Inline);
    let mut doc = ComputedStyle::new();
    doc.defaulting(&NodeKind::Document, None);
    assert_eq!(doc.display(), DisplayType::Block);
}

#[test]
fn display_keywords() {
    assert_eq!(DisplayType::from_str("block"), Ok(DisplayType::Block));
    assert_eq!(DisplayType::from_str("inline"), Ok(DisplayType::Inline));
    assert_eq!(DisplayType::from_str("none"), Ok(DisplayType::DisplayNone));
    assert!(matches!(DisplayType::from_str("flex"), Err(Error::UnexpectedInput(_))));
}

#[test]
fn numeric_font_sizes() {
    assert_eq!(FontSize::from_number(12), FontSize::Medium);
    assert_eq!(FontSize::from_number(13), FontSize::XLarge);
    assert_eq!(FontSize::from_number(18), FontSize::XLarge);
    assert_eq!(FontSize::from_number(19), FontSize::XXLarge);
    assert_eq!(FontSize::from_number(0), FontSize::Medium);
}

#[test]
fn clicking_an_input_focuses_it_and_clicking_elsewhere_clears_focus() {
    let mut page = load(r#"<html><body><p>Name</p><input type="text" name="user"/></body></html>"#);
    let (x, y) = input_point(&page.display_items());
    assert_eq!(page.clicked((x as i64 + 1, y as i64 + 1)), None);
    assert!(page.has_focused_input());
    assert_eq!(page.clicked((100_000, 100_000)), None);
    assert!(!page.has_focused_input());
    assert!(!page.handle_input('a'));
}

#[test]
fn backspace_on_an_empty_input_is_handled() {
    let mut page = load(r#"<html><body><input type="text" name="user"/></body></html>"#);
    let (x, y) = input_point(&page.display_items());
    page.clicked((x as i64, y as i64));
    assert!(page.handle_input('\u{8}'));
    page.refresh_display();
    let value = page.display_items().iter().find_map(|i| match i {
        DisplayItem::Input { value, .. } => Some(value.clone()),
        _ => None,
    });
    assert_eq!(value, Some(Some(String::new())));
}

#[test]
fn typing_edits_the_focused_input() {
    let mut page = load(r#"<html><body><input type="text" name="user"/></body></html>"#);
    let (x, y) = input_point(&page.display_items());
    page.clicked((x as i64, y as i64));
    assert!(page.handle_input('h'));
    assert!(page.handle_input('i'));
    assert!(page.handle_input(' '));
    assert!(page.handle_input('!'));
    assert!(page.handle_input('\u{7f}'));
    assert!(!page.handle_input('\u{1b}'));
    assert!(!page.handle_input('é'));
    assert!(!page.handle_input('\n'));
    page.refresh_display();
    let value = page.display_items().iter().find_map(|i| match i {
        DisplayItem::Input { value, .. } => value.clone(),
        _ => None,
    });
    assert_eq!(value, Some("hi ".to_string()));
}

#[test]
fn clicking_a_link_returns_its_target() {
    let mut page = load(r#"<html><body><a href="http://example.com/next">go</a></body></html>"#);
    let items = page.display_items();
    let (x, y) = items
        .iter()
        .find_map(|i| match i {
            DisplayItem::Text { text, layout_point, .. } if text == "go" => Some((layout_point.x, layout_point.y)),
            _ => None,
        })
        .unwrap();
    assert_eq!(page.clicked((x as i64 + 1, y as i64 + 1)), Some("http://example.com/next".to_string()));
    assert_eq!(page.clicked((-5, -5)), None);
}

#[test]
fn end_to_end_page() {
    let page = load(
        r#"<html><body><h1>Test Page</h1><p>Hello World!</p><input type="text" name="username" placeholder="enter name"/></body></html>"#,
    );
    let items = page.display_items();
    let inputs: Vec<_> = items.iter().filter(|i| i.is_input()).collect();
    assert_eq!(inputs.len(), 1);
    match inputs[0] {
        DisplayItem::Input { input_type, name, placeholder, value, .. } => {
            assert_eq!(input_type, "text");
            assert_eq!(name, &Some("username".to_string()));
            assert_eq!(placeholder, &Some("enter name".to_string()));
            assert_eq!(value, &None);
        }
        _ => unreachable!(),
    }
    let heading = items.iter().find_map(|i| match i {
        DisplayItem::Text { text, style, .. } if text == "Test Page" => Some(style.font_size()),
        _ => None,
    });
    assert_eq!(heading, Some(FontSize::XXLarge));
}

#[test]
fn refreshing_twice_gives_the_same_display_list() {
    let mut page = load(r#"<html><body><h1>Title</h1><p>some words to lay out</p><input type="text"/></body></html>"#);
    page.refresh_display();
    let first = page.display_items();
    page.refresh_display();
    let second = page.display_items();
    assert_eq!(first, second);
    assert!(!first.is_empty());
}

fn copy_doc(d: &Document) -> Document {
    let mut next = Document::new();
    for n in d.nodes.iter().skip(1) {
        let kind = match &n.kind {
            NodeKind::Text(t) => NodeKind::Text(t.clone()),
            NodeKind::Element(e) => NodeKind::Element(Element::new(e.kind, Vec::new())),
            NodeKind::Document => NodeKind::Document,
        };
        next.append(n.parent.unwrap(), kind);
    }
    next
}

#[test]
fn script_rounds_settle_after_the_last_change() {
    let doc = parse_html("<html><body><p>x</p></body></html>");
    let start = doc.nodes.len();
    // Adds one text node per run, three times, then leaves the document alone.
    let script = move |d: &Document| -> Option<Document> {
        if d.nodes.len() >= start + 3 {
            return None;
        }
        let mut next = copy_doc(d);
        next.append(0, NodeKind::Text("y".to_string()));
        Some(next)
    };
    let (settled_doc, rounds, settled) = settle(doc, &script);
    assert!(settled);
    assert_eq!(rounds, 3);
    assert_eq!(settled_doc.nodes.len(), start + 3);
}

#[test]
fn scripts_that_never_settle_are_cut_off() {
    let doc = parse_html("<p>a</p>");
    let script = |d: &Document| -> Option<Document> { Some(copy_doc(d)) };
    let (_d, rounds, settled) = settle(doc, &script);
    assert!(!settled);
    assert_eq!(rounds, MAX_SCRIPT_ROUNDS);

    let mut page = load("<p>before</p>");
    let raw = "HTTP/1.1 200 OK\n\n<p>after</p>".to_string();
    let r = page.receive_response_with_script(HttpResponse::new(raw).unwrap(), script);
    assert!(matches!(r, Err(Error::Other(_))));
    assert_eq!(texts(&page.display_items()), vec!["before".to_string()]);
}

#[test]
fn text_wraps_at_spaces() {
    let lines = wrap_text("aaa bbb ccc", 7);
    assert_eq!(lines, vec!["aaa bbb".to_string(), "ccc".to_string()]);
    let lines = wrap_text("abcdefghij", 4);
    assert_eq!(lines, vec!["abcd".to_string(), "efgh".to_string(), "ij".to_string()]);
    assert_eq!(wrap_text("", 3), vec!["".to_string()]);
    assert_eq!(split_text_lines("a\nb c\n"), vec!["a".to_string(), "b c".to_string(), "".to_string()]);
}

#[test]
fn blocks_stack_and_text_is_measured() {
    let doc = parse_html("<html><body><p>abc</p><h1>de</h1></body></html>");
    let view = LayoutView::new(&doc, &StyleSheet::new(), 100);
    let items = paint(&view, &doc);
    let text_points: Vec<_> = items
        .iter()
        .filter_map(|i| match i {
            DisplayItem::Text { text, layout_point, .. } => Some((text.clone(), layout_point.x, layout_point.y)),
            _ => None,
        })
        .collect();
    assert_eq!(text_points, vec![("abc".to_string(), 0, 0), ("de".to_string(), 0, LINE_HEIGHT)]);
    let text_box = view.objects.iter().find(|o| o.kind == LayoutObjectKind::Text).unwrap();
    assert_eq!(text_box.size.width, 24);
    assert_eq!(text_box.size.height, LINE_HEIGHT);
    let h1_text = view.objects.iter().filter(|o| o.kind == LayoutObjectKind::Text).nth(1).unwrap();
    assert_eq!(h1_text.size.width, 2 * 8 * 3);
    assert_eq!(h1_text.size.height, 3 * LINE_HEIGHT);
    assert_eq!(view.objects[0].size.width, 100);
    assert_eq!(view.objects[0].size.height, LINE_HEIGHT + 3 * LINE_HEIGHT);
}

#[test]
fn long_text_wraps_in_a_narrow_viewport() {
    let doc = parse_html("<p>one two three</p>");
    let view = LayoutView::new(&doc, &StyleSheet::new(), 64);
    let lines: Vec<_> = texts(&paint(&view, &doc));
    assert_eq!(lines, vec!["one two".to_string(), "three".to_string()]);
}

#[test]
fn inline_boxes_share_a_line() {
    let doc = parse_html(r#"<p><input type="text"/><img src="a.png"/></p>"#);
    let view = LayoutView::new(&doc, &StyleSheet::new(), CONTENT_AREA_WIDTH);
    let items = paint(&view, &doc);
    let img = items
        .iter()
        .find_map(|i| match i {
            DisplayItem::Img { src, layout_point, .. } => Some((src.clone(), layout_point.x, layout_point.y)),
            _ => None,
        })
        .unwrap();
    assert_eq!(img, ("a.png".to_string(), 200, 0));
}

#[test]
fn stylesheet_rules_apply() {
    let page = load(
        "<html><head><style>p { color: #00ff00; display: none } .big, #main { font-size: 20px }</style></head><body><p>hidden</p><div class=\"big\">large</div></body></html>",
    );
    let items = page.display_items();
    assert_eq!(texts(&items), vec!["large".to_string()]);
    let large = items.iter().find_map(|i| match i {
        DisplayItem::Text { style, .. } => Some(style.font_size()),
        _ => None,
    });
    assert_eq!(large, Some(FontSize::XXLarge));
    let sheet = parse_stylesheet("h1 { margin: 4px; width: 30 } unknown { color: red }");
    assert_eq!(sheet.rules.len(), 1);
    assert_eq!(sheet.rules[0].declarations, vec![Declaration::Margin(BoxInfo::new(4, 4, 4, 4)), Declaration::Width(30)]);
}

#[test]
fn css_values() {
    assert_eq!(parse_color("#ff8000"), Some(Color::from_code(0xff8000)));
    assert_eq!(parse_color("white"), Some(Color::white()));
    assert_eq!(parse_color("#zzzzzz"), None);
    assert_eq!(parse_length("12px"), Some(12));
    assert_eq!(parse_length("7"), Some(7));
    assert_eq!(parse_length("em"), None);
}

#[test]
fn subresources_are_looked_up_by_url() {
    let mut page = Page::new();
    assert_eq!(page.subresource("a.png".to_string()), "");
    page.push_url_for_subresource("a.png".to_string());
    assert_eq!(page.subresource("a.png".to_string()), "");
    assert_eq!(page.subresource("b.png".to_string()), "");
    assert_eq!(page.subresources.len(), 1);
}

#[test]
fn clearing_the_display_list() {
    let mut page = load("<p>x</p>");
    assert!(!page.display_items().is_empty());
    page.clear_display_items();
    assert!(page.display_items().is_empty());
}

#[test]
fn a_page_without_content_ignores_clicks_and_keys() {
    let mut page = Page::new();
    assert_eq!(page.clicked((1, 1)), None);
    assert!(!page.handle_input('a'));
    page.refresh_display();
    assert!(page.display_items().is_empty());
}

#[test]
fn http_responses() {
    let r = HttpResponse::new("HTTP/1.1 302 Found\r\nLocation: http://x/\r\n\r\nbody".to_string()).unwrap();
    assert_eq!(r.status_code(), 302);
    assert_eq!(r.header_value("Location").unwrap(), "http://x/");
    assert_eq!(r.body(), "body");
    assert!(matches!(r.header_value("Missing"), Err(Error::Network(_))));
    assert_eq!(r.redirect_target(), Some("http://x/".to_string()));
    let ok = HttpResponse::new("HTTP/1.1 200 OK\r\nLocation: http://y/\r\n\r\n".to_string()).unwrap();
    assert_eq!(ok.redirect_target(), None);
    assert!(matches!(HttpResponse::new("garbage".to_string()), Err(Error::Network(_))));
    assert!(matches!(HttpResponse::new("HTTP/1.1 abc OK\n\n".to_string()), Err(Error::Network(_))));
}

#[test]
fn attributes_are_looked_up_by_name() {
    let e = Element::new(
        ElementKind::A,
        vec![
            Attribute::new("href".to_string(), "one".to_string()),
            Attribute::new("href".to_string(), "two".to_string()),
        ],
    );
    assert_eq!(e.get_attribute("href"), Some("one".to_string()));
    assert_eq!(e.get_attribute("id"), None);
}

#[test]
fn urls_are_split_into_host_port_and_path() {
    let u = Url::parse("http://example.com:8000/index.html").unwrap();
    assert_eq!(u.host, "example.com");
    assert_eq!(u.port, 8000);
    assert_eq!(u.path, "index.html");
    let u = Url::parse("http://localhost").unwrap();
    assert_eq!(u.port, 80);
    assert_eq!(u.path, "");
    assert!(matches!(Url::parse("https://example.com"), Err(Error::UnexpectedInput(_))));
    assert!(matches!(Url::parse("http://x:99999/"), Err(Error::UnexpectedInput(_))));
    assert!(matches!(Url::parse("http:///path"), Err(Error::UnexpectedInput(_))));
}

#[test]
fn keyboard_focus_moves_between_links() {
    let page = load(r#"<html><body><p>intro</p><a href="/a">first</a><p>middle</p><a href="/b">second</a></body></html>"#);
    let items = page.display_items();
    let first = next_link(&items, None).unwrap();
    assert!(matches!(&items[first], DisplayItem::Text { text, .. } if text == "first"));
    let second = next_link(&items, Some(first)).unwrap();
    assert!(matches!(&items[second], DisplayItem::Text { text, .. } if text == "second"));
    assert_eq!(next_link(&items, Some(second)), None);
    assert_eq!(previous_link(&items, second), Some(first));
    assert_eq!(previous_link(&items, first), None);
}

#[test]
fn a_new_response_replaces_the_page() {
    let mut page = load("<p>one</p><input type=\"text\"/>");
    let (x, y) = input_point(&page.display_items());
    page.clicked((x as i64, y as i64));
    assert!(page.has_focused_input());
    page.receive_response(HttpResponse::new("HTTP/1.1 200 OK\n\n<p>two</p>".to_string()).unwrap());
    assert_eq!(texts(&page.display_items()), vec!["two".to_string()]);
    assert!(!page.has_focused_input());
}

#[test]
fn a_page_settles_after_its_script_changes_it() {
    let mut page = Page::new();
    let script = |d: &Document| -> Option<Document> {
        if d.nodes.len() >= 6 {
            return None;
        }
        let mut next = copy_doc(d);
        next.append(0, NodeKind::Text("added".to_string()));
        Some(next)
    };
    let raw = "HTTP/1.1 200 OK\n\n<div><p>x</p></div>".to_string();
    let r = page.receive_response_with_script(HttpResponse::new(raw).unwrap(), script);
    assert!(r.is_ok());
    assert_eq!(page.dom.as_ref().unwrap().nodes.len(), 6);
}
