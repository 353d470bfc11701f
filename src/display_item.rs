//! The display list: what a presentation layer draws, in order.
use crate::dom::{attribute_value, Document, ElementKind, Node, NodeKind};
use crate::layout::{
    boxes_agree, line_advance, lines_view, sat, LayoutObject, LayoutObjectKind, LayoutPoint, LayoutSize,
    LayoutView,
};
use crate::style::{ComputedStyle, TextDecoration};
use vstd::prelude::*;
use vstd::string::StringExecFns;

verus! {

/// One drawing instruction.
#[derive(Debug, Clone, PartialEq)]
pub enum DisplayItem {
    Rect { style: ComputedStyle, layout_point: LayoutPoint, layout_size: LayoutSize },
    Text { text: String, style: ComputedStyle, layout_point: LayoutPoint },
    Img { src: String, style: ComputedStyle, layout_point: LayoutPoint },
    Input {
        input_type: String,
        name: Option<String>,
        placeholder: Option<String>,
        value: Option<String>,
        style: ComputedStyle,
        layout_point: LayoutPoint,
        layout_size: LayoutSize,
    },
}

/// A display item with its strings seen as character sequences.
pub enum ItemView {
    Rect { style: ComputedStyle, layout_point: LayoutPoint, layout_size: LayoutSize },
    Text { text: Seq<char>, style: ComputedStyle, layout_point: LayoutPoint },
    Img { src: Seq<char>, style: ComputedStyle, layout_point: LayoutPoint },
    Input {
        input_type: Seq<char>,
        name: Option<Seq<char>>,
        placeholder: Option<Seq<char>>,
        value: Option<Seq<char>>,
        style: ComputedStyle,
        layout_point: LayoutPoint,
        layout_size: LayoutSize,
    },
}

pub open spec fn opt_view(s: Option<String>) -> Option<Seq<char>> {
    match s {
        Some(v) => Some(v@),
        None => None,
    }
}

fn opt_duplicate(s: &Option<String>) -> (r: Option<String>)
    ensures
        opt_view(r) == opt_view(*s),
{
    match s {
        Some(v) => Some(v.clone()),
        None => None,
    }
}

impl DisplayItem {
    pub open spec fn view(self) -> ItemView {
        match self {
            DisplayItem::Rect { style, layout_point, layout_size } => ItemView::Rect {
                style,
                layout_point,
                layout_size,
            },
            DisplayItem::Text { text, style, layout_point } => ItemView::Text {
                text: text@,
                style,
                layout_point,
            },
            DisplayItem::Img { src, style, layout_point } => ItemView::Img {
                src: src@,
                style,
                layout_point,
            },
            DisplayItem::Input {
                input_type,
                name,
                placeholder,
                value,
                style,
                layout_point,
                layout_size,
            } => ItemView::Input {
                input_type: input_type@,
                name: opt_view(name),
                placeholder: opt_view(placeholder),
                value: opt_view(value),
                style,
                layout_point,
                layout_size,
            },
        }
    }

    /// A copy of the item.
    pub fn duplicate(&self) -> (r: DisplayItem)
        ensures
            r.view() == self.view(),
    {
        match self {
            DisplayItem::Rect { style, layout_point, layout_size } => DisplayItem::Rect {
                style: *style,
                layout_point: *layout_point,
                layout_size: *layout_size,
            },
            DisplayItem::Text { text, style, layout_point } => DisplayItem::Text {
                text: text.clone(),
                style: *style,
                layout_point: *layout_point,
            },
            DisplayItem::Img { src, style, layout_point } => DisplayItem::Img {
                src: src.clone(),
                style: *style,
                layout_point: *layout_point,
            },
            DisplayItem::Input {
                input_type,
                name,
                placeholder,
                value,
                style,
                layout_point,
                layout_size,
            } => DisplayItem::Input {
                input_type: input_type.clone(),
                name: opt_duplicate(name),
                placeholder: opt_duplicate(placeholder),
                value: opt_duplicate(value),
                style: *style,
                layout_point: *layout_point,
                layout_size: *layout_size,
            },
        }
    }

    pub fn is_rect(&self) -> (r: bool)
        ensures
            r == (self is Rect),
    {
        matches!(self, DisplayItem::Rect { .. })
    }

    pub fn is_text(&self) -> (r: bool)
        ensures
            r == (self is Text),
    {
        matches!(self, DisplayItem::Text { .. })
    }

    pub fn is_input(&self) -> (r: bool)
        ensures
            r == (self is Input),
    {
        matches!(self, DisplayItem::Input { .. })
    }
}

pub open spec fn items_view(items: Seq<DisplayItem>) -> Seq<ItemView> {
    items.map_values(|i: DisplayItem| i.view())
}

/// The `k`-th line of a text box, drawn one line advance below the previous.
pub open spec fn text_line_item(o: LayoutObject, k: int) -> ItemView {
    ItemView::Text {
        text: o.lines@[k]@,
        style: o.style,
        layout_point: LayoutPoint {
            x: o.point.x,
            y: sat(o.point.y + sat(k * line_advance(o.style))),
        },
    }
}

/// The type of a text field: its `type` attribute, `text` when it has none.
pub open spec fn input_type_of(attrs: Seq<crate::dom::Attribute>) -> Seq<char> {
    match attribute_value(attrs, "type"@) {
        Some(t) => t,
        None => "text"@,
    }
}

/// What box `o` draws: a block its rectangle; a text box each of its lines;
/// an image its source; a text field its attributes and current value.
pub open spec fn box_items(o: LayoutObject, node: NodeKind) -> Seq<ItemView> {
    match o.kind {
        LayoutObjectKind::Block => seq![
            ItemView::Rect { style: o.style, layout_point: o.point, layout_size: o.size },
        ],
        LayoutObjectKind::Text => Seq::new(o.lines@.len(), |k: int| text_line_item(o, k)),
        LayoutObjectKind::Inline => match node {
            NodeKind::Element(e) => if e.kind == ElementKind::Img {
                seq![
                    ItemView::Img {
                        src: match attribute_value(e.attributes@, "src"@) {
                            Some(v) => v,
                            None => Seq::empty(),
                        },
                        style: o.style,
                        layout_point: o.point,
                    },
                ]
            } else if e.kind == ElementKind::Input {
                seq![
                    ItemView::Input {
                        input_type: input_type_of(e.attributes@),
                        name: attribute_value(e.attributes@, "name"@),
                        placeholder: attribute_value(e.attributes@, "placeholder"@),
                        value: opt_view(e.value),
                        style: o.style,
                        layout_point: o.point,
                        layout_size: o.size,
                    },
                ]
            } else {
                Seq::empty()
            },
            _ => Seq::empty(),
        },
    }
}

/// The items of the first `n` boxes, in document order.
pub open spec fn paint_upto(objs: Seq<LayoutObject>, nodes: Seq<Node>, n: int) -> Seq<ItemView>
    decreases n,
{
    if n <= 0 {
        Seq::empty()
    } else {
        paint_upto(objs, nodes, n - 1) + box_items(objs[n - 1], nodes[objs[n - 1].node as int].kind)
    }
}

/// The display list of a whole box tree.
pub open spec fn painted(objs: Seq<LayoutObject>, nodes: Seq<Node>) -> Seq<ItemView> {
    paint_upto(objs, nodes, objs.len() as int)
}

fn push_box_items(items: &mut Vec<DisplayItem>, o: &LayoutObject, node: &NodeKind)
    requires
        o.style.is_resolved(),
    ensures
        items_view(final(items)@) == items_view(old(items)@) + box_items(*o, *node),
{
    let ghost start = items@;
    match o.kind {
        LayoutObjectKind::Block => {
            items.push(DisplayItem::Rect { style: o.style, layout_point: o.point, layout_size: o.size });
            assert(items_view(items@) =~= items_view(start) + box_items(*o, *node));
        },
        LayoutObjectKind::Text => {
            let ratio = o.style.font_size.unwrap().ratio();
            let advance = crate::layout::LINE_HEIGHT * ratio;
            let mut k: usize = 0;
            while k < o.lines.len()
                invariant
                    k <= o.lines@.len(),
                    advance == line_advance(o.style),
                    items_view(items@) =~= items_view(start) + Seq::new(
                        k as nat,
                        |j: int| text_line_item(*o, j),
                    ),
                decreases o.lines@.len() - k,
            {
                let dy = crate::layout::sat_mul(k as u64, advance);
                let y = crate::layout::sat_add(o.point.y, dy);
                let ghost prev = items@;
                items.push(
                    DisplayItem::Text {
                        text: o.lines[k].clone(),
                        style: o.style,
                        layout_point: LayoutPoint { x: o.point.x, y },
                    },
                );
                proof {
                    assert(items@.last().view() == text_line_item(*o, k as int));
                    assert(items_view(items@) =~= items_view(prev).push(text_line_item(*o, k as int)));
                }
                k = k + 1;
                assert(items_view(items@) =~= items_view(start) + Seq::new(
                    k as nat,
                    |j: int| text_line_item(*o, j),
                ));
            }
        },
        LayoutObjectKind::Inline => {
            match node {
                NodeKind::Element(e) => {
                    if e.kind == ElementKind::Img {
                        let src = match e.get_attribute("src") {
                            Some(v) => v,
                            None => String::new(),
                        };
                        items.push(DisplayItem::Img { src, style: o.style, layout_point: o.point });
                    } else if e.kind == ElementKind::Input {
                        let input_type = match e.get_attribute("type") {
                            Some(v) => v,
                            None => String::from_str("text"),
                        };
                        items.push(
                            DisplayItem::Input {
                                input_type,
                                name: e.get_attribute("name"),
                                placeholder: e.get_attribute("placeholder"),
                                value: opt_duplicate(&e.value),
                                style: o.style,
                                layout_point: o.point,
                                layout_size: o.size,
                            },
                        );
                    }
                },
                _ => {},
            }
            assert(items_view(items@) =~= items_view(start) + box_items(*o, *node));
        },
    }
}

/// Walks the box tree in document order and lists what each box draws.
pub fn paint(view: &LayoutView, dom: &Document) -> (r: Vec<DisplayItem>)
    requires
        forall|b: int|
            0 <= b < view.objects@.len() ==> (#[trigger] view.objects@[b]).node < dom.nodes@.len()
                && view.objects@[b].style.is_resolved(),
    ensures
        items_view(r@) == painted(view.objects@, dom.nodes@),
{
    let mut items: Vec<DisplayItem> = Vec::new();
    let mut b: usize = 0;
    while b < view.objects.len()
        invariant
            b <= view.objects@.len(),
            forall|c: int|
                0 <= c < view.objects@.len() ==> (#[trigger] view.objects@[c]).node < dom.nodes@.len()
                    && view.objects@[c].style.is_resolved(),
            items_view(items@) == paint_upto(view.objects@, dom.nodes@, b as int),
        decreases view.objects@.len() - b,
    {
        let o = &view.objects[b];
        push_box_items(&mut items, o, &dom.nodes[o.node].kind);
        b = b + 1;
    }
    items
}

/// A focusable link: underlined text.
pub open spec fn is_link_item(v: ItemView) -> bool {
    match v {
        ItemView::Text { style, .. } => style.text_decoration == Some(TextDecoration::Underline),
        _ => false,
    }
}

fn is_link(item: &DisplayItem) -> (r: bool)
    ensures
        r == is_link_item(item.view()),
{
    match item {
        DisplayItem::Text { style, .. } => style.text_decoration == Some(TextDecoration::Underline),
        _ => false,
    }
}

/// Where the search for the next link starts: just after the focused item.
pub open spec fn link_search_start(focus: Option<usize>) -> int {
    match focus {
        Some(f) => f + 1,
        None => 0,
    }
}

/// The link that keyboard focus moves down to: the first link after `focus`,
/// or the first link of all when nothing has focus.
pub fn next_link(items: &Vec<DisplayItem>, focus: Option<usize>) -> (r: Option<usize>)
    ensures
        r matches Some(j) ==> link_search_start(focus) <= j < items@.len() && is_link_item(
            items@[j as int].view(),
        ) && forall|k: int| link_search_start(focus) <= k < j ==> !is_link_item(#[trigger] items@[k].view()),
        r is None ==> forall|k: int|
            link_search_start(focus) <= k < items@.len() ==> !is_link_item(#[trigger] items@[k].view()),
{
    let start = match focus {
        Some(f) => {
            if f >= items.len() {
                return None;
            }
            f + 1
        },
        None => 0,
    };
    let mut j = start;
    while j < items.len()
        invariant
            start == link_search_start(focus),
            start <= j <= items@.len(),
            forall|k: int| start <= k < j ==> !is_link_item(#[trigger] items@[k].view()),
        decreases items@.len() - j,
    {
        if is_link(&items[j]) {
            return Some(j);
        }
        j = j + 1;
    }
    None
}

/// The link that keyboard focus moves up to: the last link before `focus`.
pub fn previous_link(items: &Vec<DisplayItem>, focus: usize) -> (r: Option<usize>)
    ensures
        r matches Some(j) ==> j < focus && j < items@.len() && is_link_item(items@[j as int].view())
            && forall|k: int| j < k < focus && k < items@.len() ==> !is_link_item(
            #[trigger] items@[k].view(),
        ),
        r is None ==> forall|k: int|
            0 <= k < focus && k < items@.len() ==> !is_link_item(#[trigger] items@[k].view()),
{
    let mut j = if focus < items.len() {
        focus
    } else {
        items.len()
    };
    while j > 0
        invariant
            j <= focus,
            j <= items@.len(),
            forall|k: int| j <= k < focus && k < items@.len() ==> !is_link_item(#[trigger] items@[k].view()),
        decreases j,
    {
        if is_link(&items[j - 1]) {
            return Some(j - 1);
        }
        j = j - 1;
    }
    None
}

/// Every item of the display list was drawn by one of the boxes.
pub proof fn lemma_painted_from_boxes(objs: Seq<LayoutObject>, nodes: Seq<Node>, n: int, i: int)
    requires
        0 <= n <= objs.len(),
        0 <= i < paint_upto(objs, nodes, n).len(),
    ensures
        exists|b: int, k: int|
            0 <= b < n && 0 <= k < box_items(objs[b], nodes[objs[b].node as int].kind).len()
                && paint_upto(objs, nodes, n)[i] == #[trigger] box_items(
                objs[b],
                nodes[objs[b].node as int].kind,
            )[k],
    decreases n,
{
    let prev = paint_upto(objs, nodes, n - 1);
    let last = box_items(objs[n - 1], nodes[objs[n - 1].node as int].kind);
    assert(paint_upto(objs, nodes, n) == prev + last);
    if i < prev.len() {
        lemma_painted_from_boxes(objs, nodes, n - 1, i);
        let (b, k) = choose|b: int, k: int|
            0 <= b < n - 1 && 0 <= k < box_items(objs[b], nodes[objs[b].node as int].kind).len()
                && prev[i] == #[trigger] box_items(objs[b], nodes[objs[b].node as int].kind)[k];
        assert(paint_upto(objs, nodes, n)[i] == box_items(objs[b], nodes[objs[b].node as int].kind)[k]);
    } else {
        let k = i - prev.len();
        assert(paint_upto(objs, nodes, n)[i] == last[k]);
    }
}

/// Nothing of a `script` or `style` element that no rule gives a display,
/// nor of anything inside one, is painted: every item of the display list
/// was drawn by a box standing for some other node.
pub proof fn lemma_script_and_style_not_painted(
    view: LayoutView,
    dom: Document,
    rules: Seq<crate::css::Rule>,
    a: int,
    i: int,
)
    requires
        dom.wf(),
        view.laid_out(dom.nodes@, rules),
        0 <= a < dom.nodes@.len(),
        dom.nodes@[a].kind matches NodeKind::Element(e) && (e.kind == ElementKind::Script || e.kind
            == ElementKind::Style),
        crate::css::cascaded(rules, dom.nodes@[a].kind).display is None,
        0 <= i < painted(view.objects@, dom.nodes@).len(),
    ensures
        exists|b: int, k: int|
            0 <= b < view.objects@.len() && !dom.is_ancestor_or_self(a, view.objects@[b].node as int)
                && 0 <= k < box_items(view.objects@[b], dom.nodes@[view.objects@[b].node as int].kind).len()
                && painted(view.objects@, dom.nodes@)[i] == #[trigger] box_items(
                view.objects@[b],
                dom.nodes@[view.objects@[b].node as int].kind,
            )[k],
{
    let objs = view.objects@;
    let nodes = dom.nodes@;
    lemma_painted_from_boxes(objs, nodes, objs.len() as int, i);
    let (b, k) = choose|b: int, k: int|
        0 <= b < objs.len() && 0 <= k < box_items(objs[b], nodes[objs[b].node as int].kind).len()
            && paint_upto(objs, nodes, objs.len() as int)[i] == #[trigger] box_items(
            objs[b],
            nodes[objs[b].node as int].kind,
        )[k];
    crate::layout::lemma_script_and_style_not_laid_out(view, dom, rules, a, b);
}

proof fn lemma_box_items_agree(o1: LayoutObject, o2: LayoutObject, node: NodeKind)
    requires
        o1.kind == o2.kind,
        o1.style == o2.style,
        o1.point == o2.point,
        o1.size == o2.size,
        o1.kind == LayoutObjectKind::Text ==> lines_view(o1.lines@) == lines_view(o2.lines@),
    ensures
        box_items(o1, node) == box_items(o2, node),
{
    if o1.kind == LayoutObjectKind::Text {
        assert(lines_view(o1.lines@).len() == lines_view(o2.lines@).len());
        assert forall|k: int| 0 <= k < o1.lines@.len() implies o1.lines@[k]@ == o2.lines@[k]@ by {
            assert(lines_view(o1.lines@)[k] == lines_view(o2.lines@)[k]);
        }
        assert(box_items(o1, node) =~= box_items(o2, node));
    }
}

proof fn lemma_paint_upto_agree(o1: Seq<LayoutObject>, o2: Seq<LayoutObject>, nodes: Seq<Node>, n: int)
    requires
        boxes_agree(o1, o2),
        n <= o1.len(),
    ensures
        paint_upto(o1, nodes, n) == paint_upto(o2, nodes, n),
    decreases n,
{
    if n > 0 {
        lemma_paint_upto_agree(o1, o2, nodes, n - 1);
        let b = n - 1;
        assert(o1[b].node == o2[b].node);
        lemma_box_items_agree(o1[b], o2[b], nodes[o1[b].node as int].kind);
    }
}

/// Painting two box trees that agree box for box gives the same list.
pub proof fn lemma_painted_agree(o1: Seq<LayoutObject>, o2: Seq<LayoutObject>, nodes: Seq<Node>)
    requires
        boxes_agree(o1, o2),
    ensures
        painted(o1, nodes) == painted(o2, nodes),
{
    lemma_paint_upto_agree(o1, o2, nodes, o1.len() as int);
}

} // verus!
