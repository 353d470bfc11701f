use saba_core::css::StyleSheet;
use saba_core::display_item::{paint, DisplayItem};
use saba_core::dom::{Document, ElementKind, NodeKind};
use saba_core::html::parse_html;
use saba_core::http::HttpResponse;
use saba_core::layout::{LayoutView, CONTENT_AREA_WIDTH};
use saba_core::page::Page;

fn children_of(doc: &Document, parent: usize) -> Vec<usize> {
    (0..doc.nodes.len())
        .filter(|&i| doc.nodes[i].parent == Some(parent))
        .collect()
}

fn find_element_by_kind(doc: &Document, kind: ElementKind) -> Option<usize> {
    (0..doc.nodes.len()).find(|&i| match &doc.nodes[i].kind {
        NodeKind::Element(e) => e.kind == kind,
        _ => false,
    })
}

fn debug_print_dom(doc: &Document, node: usize, depth: usize) {
    let indent = "  ".repeat(depth);
    match &doc.nodes[node].kind {
        NodeKind::Document => println!("{}Document", indent),
        NodeKind::Element(e) => println!("{}Element: {:?} (attributes: {:?})", indent, e.kind, e.attributes),
        NodeKind::Text(t) => println!("{}Text: {:?}", indent, t),
    }
    for c in children_of(doc, node) {
        debug_print_dom(doc, c, depth + 1);
    }
}

#[test]
fn test_input_parsing_debug() {
    let html = r#"<html><body><h1>Test Page</h1><p>Hello World!</p><input type="text" name="username" placeholder="ユーザー名を入力してください" /></body></html>"#;
    let doc = parse_html(html);

    println!("=== DOM構造デバッグ ===");
    debug_print_dom(&doc, 0, 0);

    let body = find_element_by_kind(&doc, ElementKind::Body).expect("body要素が見つかりません");

    println!("\n=== body要素の子要素 ===");
    for (index, child) in children_of(&doc, body).into_iter().enumerate() {
        println!("子要素 {}: {:?}", index, doc.nodes[child].kind);
        if let NodeKind::Element(element) = &doc.nodes[child].kind {
            println!("  要素名: {:?}", element.kind);
            if element.kind == ElementKind::Input {
                println!("  *** INPUT要素発見! ***");
                println!("  属性: {:?}", element.attributes);
            }
        }
    }
}

#[test]
fn test_layout_view_with_input() {
    let html = r#"<html><body><h1>Test Page</h1><p>Hello World!</p><input type="text" name="username" placeholder="ユーザー名を入力してください" /></body></html>"#;
    let doc = parse_html(html);
    let cssom = StyleSheet::new();
    let layout_view = LayoutView::new(&doc, &cssom, CONTENT_AREA_WIDTH);

    println!("\n=== LayoutView構築デバッグ ===");
    if layout_view.len() > 0 {
        println!("Layout root exists");
    } else {
        println!("No layout root found");
    }

    println!("\n=== DisplayItem生成デバッグ ===");
    let display_items = paint(&layout_view, &doc);
    println!("Generated {} display items", display_items.len());
    for (i, item) in display_items.iter().enumerate() {
        println!("DisplayItem {}: {:?}", i, item);
        if item.is_input() {
            println!("  *** INPUT DisplayItem発見! ***");
        }
    }
}

#[test]
fn test_input_dom_structure() {
    let html_content = r#"<html><body><h1>Test Page</h1><p>Hello World!</p><input type="text" name="username" placeholder="ユーザー名を入力してください" /></body></html>"#;
    let doc = parse_html(html_content);

    println!("DOM Structure:");
    debug_print_dom(&doc, 0, 0);

    let mut has_input = false;
    for node in &doc.nodes {
        if let NodeKind::Element(e) = &node.kind {
            if e.kind == ElementKind::Input {
                println!("Found input element with attributes:");
                for attr in &e.attributes {
                    println!("  {}: {}", attr.name, attr.value);
                }
                has_input = true;
                break;
            }
        }
    }
    assert!(has_input, "Input element not found in DOM");
}

#[test]
fn test_input_file_content_debug() {
    let html = r#"<html>
  <body>
    <h1>Test Page</h1>
    <p>Hello World!</p>
    <input type="text" name="username" placeholder="ユーザー名を入力してください" />
  </body>
</html>"#;

    println!("処理するHTML: {}", html);
    let doc = parse_html(html);

    println!("\n=== DOM構造確認 ===");
    debug_print_dom(&doc, 0, 0);

    let cssom = StyleSheet::new();
    let layout_view = LayoutView::new(&doc, &cssom, CONTENT_AREA_WIDTH);

    println!("\n=== LayoutView.paint()結果 ===");
    let display_items = paint(&layout_view, &doc);
    println!("DisplayItem総数: {}", display_items.len());
    for (i, item) in display_items.iter().enumerate() {
        println!("DisplayItem[{}]: {:?}", i, item);
        if item.is_input() {
            println!("  *** INPUT要素がDisplayItemに正常に変換されました！ ***");
        }
    }
}

#[test]
fn test_input_rendering_with_real_html() {
    let html_content = r#"<html><body><h1>Test Page</h1><p>Hello World!</p><input type="text" name="username" placeholder="ユーザー名を入力してください" /></body></html>"#;

    let raw_response = format!("HTTP/1.1 200 OK\n\n{}", html_content);
    let response = HttpResponse::new(raw_response).expect("Failed to create HTTP response");

    let mut page = Page::new();
    page.receive_response(response);

    let display_items = page.display_items();
    println!("Total display items: {}", display_items.len());
    for (i, item) in display_items.iter().enumerate() {
        println!("Item {}: {:?}", i, item);
    }

    let input_items: Vec<_> = display_items
        .iter()
        .filter(|item| matches!(item, DisplayItem::Input { .. }))
        .collect();

    assert!(!input_items.is_empty(), "No input display items found");

    if let DisplayItem::Input { input_type, name, placeholder, .. } = input_items[0] {
        assert_eq!(input_type, "text");
        assert_eq!(name, &Some("username".to_string()));
        assert_eq!(placeholder, &Some("ユーザー名を入力してください".to_string()));
    }

    println!("Input element successfully rendered! Display items count: {}", display_items.len());
    println!("Input display items count: {}", input_items.len());
}

#[test]
fn test_input_element_rendering() {
    let html = r#"<html>
<body>
<h1>Test Page</h1>
<p>Hello World!</p>
<input type="text" name="username" placeholder="ユーザー名を入力してください" />
</body>
</html>"#;

    let doc = parse_html(html);
    let cssom = StyleSheet::new();
    let layout_view = LayoutView::new(&doc, &cssom, CONTENT_AREA_WIDTH);
    let display_items = paint(&layout_view, &doc);

    let has_input = display_items.iter().any(|item| matches!(item, DisplayItem::Input { .. }));
    assert!(has_input, "No input display item found");

    for item in &display_items {
        if let DisplayItem::Input { input_type, name, placeholder, .. } = item {
            assert_eq!(input_type, "text");
            assert_eq!(name, &Some("username".to_string()));
            assert_eq!(placeholder, &Some("ユーザー名を入力してください".to_string()));
        }
    }
}

#[test]
fn test_browser_integration_debug() {
    println!("Testing browser engine with input tag...");

    let html = r#"<html>
  <head><title>Input Test</title></head>
  <body>
    <h1>Input Test Page</h1>
    <input type="text" name="test" placeholder="Test Input" />
    <p>End of page</p>
  </body>
</html>"#;

    let response_text = format!(
        "HTTP/1.1 200 OK\r\nContent-Type: text/html\r\nContent-Length: {}\r\n\r\n{}",
        html.len(),
        html
    );

    println!("Creating HttpResponse...");
    let http_response = match HttpResponse::new(response_text) {
        Ok(res) => {
            println!("HTTP response created successfully");
            res
        }
        Err(e) => {
            println!("Failed to create response: {:?}", e);
            return;
        }
    };

    println!("Processing response with browser engine...");
    let mut page = Page::new();
    page.receive_response(http_response);

    println!("=== Final Results ===");
    let display_items = page.display_items();
    println!("Display items count: {}", display_items.len());
    for (i, item) in display_items.iter().enumerate() {
        match item {
            DisplayItem::Input { input_type, name, placeholder, .. } => {
                println!(
                    "DisplayItem[{}]: INPUT (type={}, name={:?}, placeholder={:?})",
                    i, input_type, name, placeholder
                );
            }
            DisplayItem::Text { text, .. } => println!("DisplayItem[{}]: TEXT ({})", i, text),
            DisplayItem::Rect { .. } => println!("DisplayItem[{}]: RECT", i),
            DisplayItem::Img { .. } => println!("DisplayItem[{}]: IMG", i),
        }
    }
}
