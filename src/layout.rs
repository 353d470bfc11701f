//! The box tree: which nodes are laid out, with what style, and where.
//!
//! Boxes are kept in an arena in document order. Box `0` stands for the
//! document node; every other box names its parent box, which stands before
//! it, and lists its children in order.
use crate::css::{resolved_style, Rule, StyleSheet};
use crate::dom::{Document, ElementKind, Node, NodeKind};
use crate::lines::{split_newlines, split_text_lines, wrap, wrap_text};
use crate::style::{ComputedStyle, DisplayType, WhiteSpace};
use vstd::prelude::*;
use vstd::string::StrSliceExecFns;

verus! {

/// Width of one character of medium text.
pub const CHAR_WIDTH: u64 = 8;

/// Height of one line of medium text, leading included.
pub const LINE_HEIGHT: u64 = 20;

/// Size of a text field.
pub const INPUT_WIDTH: u64 = 200;

pub const INPUT_HEIGHT: u64 = 20;

/// Size of an image box.
pub const IMAGE_WIDTH: u64 = 64;

pub const IMAGE_HEIGHT: u64 = 64;

/// Width of the content area a page is laid out in by default.
pub const CONTENT_AREA_WIDTH: u64 = 590;

#[derive(Debug, Clone, Copy, PartialEq, Eq, Structural)]
pub struct LayoutPoint {
    pub x: u64,
    pub y: u64,
}

#[derive(Debug, Clone, Copy, PartialEq, Eq, Structural)]
pub struct LayoutSize {
    pub width: u64,
    pub height: u64,
}

#[derive(Debug, Clone, Copy, PartialEq, Eq, Structural)]
pub enum LayoutObjectKind {
    Block,
    Inline,
    Text,
}

/// One box of the tree.
#[derive(Debug)]
pub struct LayoutObject {
    pub kind: LayoutObjectKind,
    /// The document node this box was made for.
    pub node: usize,
    pub parent: Option<usize>,
    pub children: Vec<usize>,
    pub style: ComputedStyle,
    /// The width the box's inline content may fill before it wraps.
    pub avail: u64,
    /// For a text box, its lines after wrapping.
    pub lines: Vec<String>,
    /// Position relative to the parent box.
    pub offset: LayoutPoint,
    /// Position on the page.
    pub point: LayoutPoint,
    pub size: LayoutSize,
}

// ---------------------------------------------------------------------------
// Arithmetic that saturates at the largest coordinate.
pub open spec fn sat(v: int) -> u64 {
    if v > u64::MAX {
        u64::MAX
    } else if v < 0 {
        0
    } else {
        v as u64
    }
}

pub(crate) fn sat_add(a: u64, b: u64) -> (r: u64)
    ensures
        r == sat(a + b),
{
    a.saturating_add(b)
}

pub(crate) fn sat_mul(a: u64, b: u64) -> (r: u64)
    ensures
        r == sat(a * b),
{
    match a.checked_mul(b) {
        Some(v) => v,
        None => u64::MAX,
    }
}

// ---------------------------------------------------------------------------
// Which nodes get boxes, and with what style.
pub open spec fn parent_index(nodes: Seq<Node>, i: int) -> int {
    match nodes[i].parent {
        Some(p) => p as int,
        None => -1,
    }
}

/// The resolved style of node `i`: its matching declarations, defaulted
/// against the resolved style of its parent.
pub open spec fn node_style(nodes: Seq<Node>, rules: Seq<Rule>, i: int) -> ComputedStyle
    decreases i,
{
    let p = parent_index(nodes, i);
    if 0 <= p < i {
        resolved_style(rules, nodes[i].kind, Some(node_style(nodes, rules, p)))
    } else {
        resolved_style(rules, nodes[i].kind, None)
    }
}

/// Node `i` or one of its ancestors resolves to `display: none`.
pub open spec fn is_hidden(nodes: Seq<Node>, rules: Seq<Rule>, i: int) -> bool
    decreases i,
{
    let p = parent_index(nodes, i);
    node_style(nodes, rules, i).display == Some(DisplayType::DisplayNone) || (0 <= p < i
        && is_hidden(nodes, rules, p))
}

pub open spec fn box_kind(node: NodeKind, style: ComputedStyle) -> LayoutObjectKind {
    match node {
        NodeKind::Text(_) => LayoutObjectKind::Text,
        _ => if style.display == Some(DisplayType::Block) {
            LayoutObjectKind::Block
        } else {
            LayoutObjectKind::Inline
        },
    }
}

/// Among the first `box_of.len()` nodes, exactly the visible ones have a
/// box, and each box carries its node's style, kind and parent box.
#[verifier::opaque]
pub open spec fn mirrors_nodes(
    objs: Seq<LayoutObject>,
    box_of: Seq<Option<usize>>,
    nodes: Seq<Node>,
    rules: Seq<Rule>,
) -> bool {
    &&& forall|k: int|
        #![trigger box_of[k]]
        0 <= k < box_of.len() ==> ((box_of[k] is Some) <==> !is_hidden(nodes, rules, k))
    &&& forall|k: int|
        #![trigger box_of[k]]
        0 <= k < box_of.len() && box_of[k] is Some ==> {
            &&& box_of[k].unwrap() < objs.len()
            &&& objs[box_of[k].unwrap() as int].node == k
        }
    &&& forall|b: int|
        #![trigger objs[b]]
        0 <= b < objs.len() ==> {
            let o = objs[b];
            &&& o.node < box_of.len()
            &&& box_of[o.node as int] == Some(b as usize)
            &&& o.style == node_style(nodes, rules, o.node as int)
            &&& o.kind == box_kind(nodes[o.node as int].kind, o.style)
            &&& (b > 0 ==> o.parent is Some && o.parent.unwrap() < b && o.parent == box_of[parent_index(
                nodes,
                o.node as int,
            )])
        }
}

/// Boxes follow document order.
#[verifier::opaque]
pub open spec fn in_document_order(objs: Seq<LayoutObject>) -> bool {
    forall|a: int, b: int|
        #![trigger objs[a], objs[b]]
        0 <= a < b < objs.len() ==> objs[a].node < objs[b].node
}

/// Each box lists, in order, exactly the boxes that name it as parent.
#[verifier::opaque]
pub open spec fn children_ok(objs: Seq<LayoutObject>) -> bool {
    &&& forall|b: int, j: int|
        #![trigger objs[b].children@[j]]
        0 <= b < objs.len() && 0 <= j < objs[b].children@.len() ==> {
            let c = objs[b].children@[j];
            &&& b < c < objs.len()
            &&& objs[c as int].parent == Some(b as usize)
        }
    &&& forall|b: int, j: int, k: int|
        #![trigger objs[b].children@[j], objs[b].children@[k]]
        0 <= b < objs.len() && 0 <= j < k < objs[b].children@.len() ==> objs[b].children@[j]
            < objs[b].children@[k]
    &&& forall|c: int|
        #![trigger objs[c].parent]
        0 < c < objs.len() ==> objs[objs[c].parent.unwrap() as int].children@.contains(c as usize)
}

/// The boxes mirror the visible nodes among the first `box_of.len()` nodes.
pub open spec fn mirrors(
    objs: Seq<LayoutObject>,
    box_of: Seq<Option<usize>>,
    nodes: Seq<Node>,
    rules: Seq<Rule>,
) -> bool {
    &&& box_of.len() <= nodes.len()
    &&& mirrors_nodes(objs, box_of, nodes, rules)
    &&& in_document_order(objs)
    &&& children_ok(objs)
}

/// The boxes mirror all the visible nodes; box `0` is the document's.
pub open spec fn structure_ok(
    objs: Seq<LayoutObject>,
    box_of: Seq<Option<usize>>,
    nodes: Seq<Node>,
    rules: Seq<Rule>,
) -> bool {
    &&& mirrors(objs, box_of, nodes, rules)
    &&& box_of.len() == nodes.len()
    &&& objs.len() >= 1
    &&& objs[0].node == 0
    &&& objs[0].parent is None
}

proof fn lemma_rules_skip_non_elements(style: ComputedStyle, rules: Seq<Rule>, node: NodeKind)
    requires
        !(node is Element),
    ensures
        crate::css::apply_rules(style, rules, node) == style,
    decreases rules.len(),
{
    if rules.len() > 0 {
        lemma_rules_skip_non_elements(style, rules.drop_first(), node);
    }
}

proof fn lemma_mirrors_empty(nodes: Seq<Node>, rules: Seq<Rule>)
    ensures
        mirrors(Seq::<LayoutObject>::empty(), Seq::<Option<usize>>::empty(), nodes, rules),
{
    reveal(mirrors_nodes);
    reveal(in_document_order);
    reveal(children_ok);
}

/// A visible node's parent has a box, standing before the boxes made so far.
proof fn lemma_parent_box(
    objs: Seq<LayoutObject>,
    box_of: Seq<Option<usize>>,
    nodes: Seq<Node>,
    rules: Seq<Rule>,
    p: int,
)
    requires
        mirrors(objs, box_of, nodes, rules),
        0 <= p < box_of.len(),
        !is_hidden(nodes, rules, p),
    ensures
        box_of[p] is Some,
        box_of[p].unwrap() < objs.len(),
{
    reveal(mirrors_nodes);
    reveal(in_document_order);
    reveal(children_ok);
}

proof fn lemma_push_hidden(
    objs: Seq<LayoutObject>,
    box_of: Seq<Option<usize>>,
    nodes: Seq<Node>,
    rules: Seq<Rule>,
)
    requires
        mirrors(objs, box_of, nodes, rules),
        box_of.len() < nodes.len(),
        is_hidden(nodes, rules, box_of.len() as int),
        forall|k: int| 0 < k < nodes.len() ==> 0 <= #[trigger] parent_index(nodes, k) < k,
        objs.len() > 0 ==> objs[0].node == 0,
    ensures
        mirrors(objs, box_of.push(None), nodes, rules),
{
    reveal(mirrors_nodes);
    reveal(in_document_order);
    reveal(children_ok);
    let nb = box_of.push(None);
    assert forall|b: int| 0 <= b < objs.len() implies #[trigger] nb[objs[b].node as int] == Some(
        b as usize,
    ) && (b > 0 ==> objs[b].parent == nb[parent_index(nodes, objs[b].node as int)]) by {
        assert(objs[b].node < box_of.len());
        if b > 0 {
            assert(objs[0].node < objs[b].node);
        }
    }
}

/// What pushing a new last box `b` onto `objs` (and `b` onto the children of
/// `pb`) leaves unchanged.
pub open spec fn pushed_box(objs: Seq<LayoutObject>, new_objs: Seq<LayoutObject>, pb: Option<usize>) -> bool {
    &&& new_objs.len() == objs.len() + 1
    &&& new_objs.len() <= usize::MAX
    &&& new_objs.last().parent == pb
    &&& new_objs.last().children@.len() == 0
    &&& forall|k: int|
        #![trigger new_objs[k]]
        0 <= k < objs.len() ==> {
            &&& new_objs[k].node == objs[k].node
            &&& new_objs[k].parent == objs[k].parent
            &&& new_objs[k].style == objs[k].style
            &&& new_objs[k].kind == objs[k].kind
            &&& new_objs[k].children@ == if pb == Some(k as usize) {
                objs[k].children@.push(objs.len() as usize)
            } else {
                objs[k].children@
            }
        }
}

proof fn lemma_push_children(objs: Seq<LayoutObject>, new_objs: Seq<LayoutObject>, pb: Option<usize>)
    requires
        children_ok(objs),
        pushed_box(objs, new_objs, pb),
        forall|c: int|
            0 < c < objs.len() ==> (#[trigger] objs[c]).parent is Some && objs[c].parent.unwrap() < c,
        objs.len() == 0 ==> pb is None,
        objs.len() > 0 ==> pb is Some && pb.unwrap() < objs.len(),
    ensures
        children_ok(new_objs),
{
    reveal(children_ok);
    let b = objs.len() as int;
    assert forall|c: int| 0 < c < new_objs.len() implies #[trigger] new_objs[new_objs[c].parent.unwrap() as int].children@.contains(
        c as usize,
    ) by {
        if c == b {
            let p = pb.unwrap() as int;
            assert(new_objs[p].children@.last() == c as usize);
        } else {
            let p = objs[c].parent.unwrap() as int;
            assert(objs[p].children@.contains(c as usize));
            let j = choose|j: int| 0 <= j < objs[p].children@.len() && objs[p].children@[j] == c as usize;
            assert(new_objs[p].children@[j] == c as usize);
        }
    }
    assert forall|q: int, j: int|
        0 <= q < new_objs.len() && 0 <= j < new_objs[q].children@.len() implies {
            let c = #[trigger] new_objs[q].children@[j];
            &&& q < c < new_objs.len()
            &&& new_objs[c as int].parent == Some(q as usize)
        } by {
        if q < b && j < objs[q].children@.len() {
            assert(new_objs[q].children@[j] == objs[q].children@[j]);
            let c = objs[q].children@[j] as int;
            assert(new_objs[c].parent == objs[c].parent);
        } else if q < b {
            assert(new_objs[q].children@[j] == b);
        } else {
            assert(new_objs[q].children@.len() == 0);
        }
    }
    assert forall|q: int, j: int, k: int|
        0 <= q < new_objs.len() && 0 <= j < k < new_objs[q].children@.len() implies #[trigger] new_objs[q].children@[j]
            < #[trigger] new_objs[q].children@[k] by {
        if q < b && k < objs[q].children@.len() {
            assert(new_objs[q].children@[j] == objs[q].children@[j]);
            assert(new_objs[q].children@[k] == objs[q].children@[k]);
        } else if q < b {
            assert(new_objs[q].children@[j] == objs[q].children@[j]);
            assert(new_objs[q].children@[k] == b);
        } else {
            assert(new_objs[q].children@.len() == 0);
        }
    }
}

proof fn lemma_push_order(
    objs: Seq<LayoutObject>,
    new_objs: Seq<LayoutObject>,
    box_of: Seq<Option<usize>>,
    nodes: Seq<Node>,
    rules: Seq<Rule>,
    pb: Option<usize>,
)
    requires
        in_document_order(objs),
        mirrors_nodes(objs, box_of, nodes, rules),
        pushed_box(objs, new_objs, pb),
        new_objs.last().node == box_of.len(),
    ensures
        in_document_order(new_objs),
{
    reveal(in_document_order);
    reveal(mirrors_nodes);
    let b = objs.len() as int;
    assert forall|q: int, r: int|
        0 <= q < r < new_objs.len() implies #[trigger] new_objs[q].node < #[trigger] new_objs[r].node by {
        if r < b {
            assert(objs[q].node < objs[r].node);
        } else {
            assert(objs[q].node < box_of.len());
        }
    }
}

#[verifier::rlimit(40)]
proof fn lemma_push_nodes(
    objs: Seq<LayoutObject>,
    new_objs: Seq<LayoutObject>,
    box_of: Seq<Option<usize>>,
    nodes: Seq<Node>,
    rules: Seq<Rule>,
    pb: Option<usize>,
)
    requires
        mirrors_nodes(objs, box_of, nodes, rules),
        in_document_order(objs),
        box_of.len() < nodes.len(),
        !is_hidden(nodes, rules, box_of.len() as int),
        forall|k: int| 0 < k < nodes.len() ==> 0 <= #[trigger] parent_index(nodes, k) < k,
        objs.len() > 0 ==> objs[0].node == 0,
        objs.len() == 0 ==> pb is None && box_of.len() == 0,
        objs.len() > 0 ==> {
            let p = parent_index(nodes, box_of.len() as int);
            &&& 0 <= p < box_of.len()
            &&& pb == box_of[p]
            &&& pb is Some
            &&& pb.unwrap() < objs.len()
        },
        pushed_box(objs, new_objs, pb),
        new_objs.last().node == box_of.len(),
        new_objs.last().style == node_style(nodes, rules, box_of.len() as int),
        new_objs.last().kind == box_kind(nodes[box_of.len() as int].kind, new_objs.last().style),
    ensures
        mirrors_nodes(new_objs, box_of.push(Some(objs.len() as usize)), nodes, rules),
{
    reveal(mirrors_nodes);
    reveal(in_document_order);
    let b = objs.len() as int;
    let nb = box_of.push(Some(b as usize));
    assert forall|k: int| 0 <= k < nb.len() && nb[k] is Some implies {
        &&& nb[k].unwrap() < new_objs.len()
        &&& new_objs[nb[k].unwrap() as int].node == k
    } by {
        if k < box_of.len() {
            let q = box_of[k].unwrap() as int;
            assert(q < objs.len());
            assert(new_objs[q].node == objs[q].node);
        } else {
            assert(nb[k] == Some(b as usize));
        }
    }
    assert forall|q: int| 0 <= q < new_objs.len() implies {
        let o = #[trigger] new_objs[q];
        &&& o.node < nb.len()
        &&& nb[o.node as int] == Some(q as usize)
        &&& o.style == node_style(nodes, rules, o.node as int)
        &&& o.kind == box_kind(nodes[o.node as int].kind, o.style)
        &&& (q > 0 ==> o.parent is Some && o.parent.unwrap() < q && o.parent == nb[parent_index(
            nodes,
            o.node as int,
        )])
    } by {
        if q < b {
            let o = objs[q];
            assert(o.node < box_of.len());
            if q > 0 {
                assert(objs[0].node < o.node);
            }
        }
    }
}

/// Resolves every node's style and makes a box for each visible node.
fn build_boxes(dom: &Document, sheet: &StyleSheet) -> (r: (Vec<LayoutObject>, Vec<Option<usize>>))
    requires
        dom.wf(),
    ensures
        structure_ok(r.0@, r.1@, dom.nodes@, sheet.rules@),
{
    let ghost nodes = dom.nodes@;
    let ghost rules = sheet.rules@;
    let n = dom.nodes.len();
    let mut styles: Vec<ComputedStyle> = Vec::new();
    let mut hidden: Vec<bool> = Vec::new();
    let mut box_of: Vec<Option<usize>> = Vec::new();
    let mut objs: Vec<LayoutObject> = Vec::new();
    let mut i: usize = 0;
    proof {
        lemma_mirrors_empty(nodes, rules);
    }
    while i < n
        invariant
            dom.wf(),
            nodes == dom.nodes@,
            rules == sheet.rules@,
            n == nodes.len(),
            i <= n,
            styles@.len() == i,
            hidden@.len() == i,
            box_of@.len() == i,
            forall|k: int| 0 <= k < i ==> #[trigger] styles@[k] == node_style(nodes, rules, k),
            forall|k: int| 0 <= k < i ==> #[trigger] hidden@[k] == is_hidden(nodes, rules, k),
            mirrors(objs@, box_of@, nodes, rules),
            i == 0 ==> objs@.len() == 0,
            i >= 1 ==> objs@.len() >= 1 && objs@[0].node == 0 && objs@[0].parent is None,
        decreases n - i,
    {
        let node = &dom.nodes[i];
        let (parent_style, parent_hidden, parent_box) = match node.parent {
            Some(p) => (Some(styles[p]), hidden[p], box_of[p]),
            None => (None, false, None),
        };
        proof {
            if i > 0 {
                assert(nodes[i as int].parent is Some);
            }
        }
        let ghost pidx = parent_index(nodes, i as int);
        let st = sheet.resolve(&node.kind, parent_style);
        let h = st.display == Some(DisplayType::DisplayNone) || parent_hidden;
        proof {
            assert(st == node_style(nodes, rules, i as int));
            assert(h == is_hidden(nodes, rules, i as int));
            if i == 0 {
                lemma_rules_skip_non_elements(ComputedStyle::empty(), rules, nodes[0].kind);
                assert(!h);
            }
        }
        styles.push(st);
        hidden.push(h);
        if h {
            proof {
                assert forall|k: int| 0 < k < nodes.len() implies 0 <= #[trigger] parent_index(nodes, k) < k by {
                    assert(dom.nodes@[k].parent is Some);
                }
                lemma_push_hidden(objs@, box_of@, nodes, rules);
            }
            box_of.push(None);
        } else {
            proof {
                if i > 0 {
                    lemma_parent_box(objs@, box_of@, nodes, rules, pidx);
                } else {
                    assert(objs@.len() == 0);
                }
            }
            let b = objs.len();
            let kind = match &node.kind {
                NodeKind::Text(_) => LayoutObjectKind::Text,
                _ => if st.display == Some(DisplayType::Block) {
                    LayoutObjectKind::Block
                } else {
                    LayoutObjectKind::Inline
                },
            };
            let ghost old_objs = objs@;
            objs.push(
                LayoutObject {
                    kind,
                    node: i,
                    parent: parent_box,
                    children: Vec::new(),
                    style: st,
                    avail: 0,
                    lines: Vec::new(),
                    offset: LayoutPoint { x: 0, y: 0 },
                    point: LayoutPoint { x: 0, y: 0 },
                    size: LayoutSize { width: 0, height: 0 },
                },
            );
            if let Some(pb) = parent_box {
                objs[pb].children.push(b);
            }
            let _len = objs.len();
            proof {
                assert forall|k: int| 0 < k < nodes.len() implies 0 <= #[trigger] parent_index(nodes, k) < k by {
                    assert(dom.nodes@[k].parent is Some);
                }
                assert(pushed_box(old_objs, objs@, parent_box));
                assert forall|c: int| 0 < c < old_objs.len() implies (#[trigger] old_objs[c]).parent is Some
                    && old_objs[c].parent.unwrap() < c by {
                    reveal(mirrors_nodes);
                }
                lemma_push_children(old_objs, objs@, parent_box);
                lemma_push_order(old_objs, objs@, box_of@, nodes, rules, parent_box);
                lemma_push_nodes(old_objs, objs@, box_of@, nodes, rules, parent_box);
            }
            box_of.push(Some(b));
        }
        i = i + 1;
    }
    (objs, box_of)
}

// ---------------------------------------------------------------------------
// Sizes that do not depend on where the children go.
/// An explicit (non-zero) length, or the fallback.
pub open spec fn explicit_or(v: Option<u64>, fallback: u64) -> u64 {
    match v {
        Some(x) => if x > 0 {
            x
        } else {
            fallback
        },
        None => fallback,
    }
}

fn explicit_or_exec(v: Option<u64>, fallback: u64) -> (r: u64)
    ensures
        r == explicit_or(v, fallback),
{
    match v {
        Some(x) => if x > 0 {
            x
        } else {
            fallback
        },
        None => fallback,
    }
}

/// The width box `b` may fill: its parent's, or the viewport's for the root.
pub open spec fn parent_avail(objs: Seq<LayoutObject>, viewport: u64, b: int) -> u64 {
    if b == 0 {
        viewport
    } else {
        objs[objs[b].parent.unwrap() as int].avail
    }
}

/// The fixed size of a replaced element: a text field or an image.
pub open spec fn replaced_size(node: NodeKind) -> Option<LayoutSize> {
    match node {
        NodeKind::Element(e) => if e.kind == ElementKind::Input {
            Some(LayoutSize { width: INPUT_WIDTH, height: INPUT_HEIGHT })
        } else if e.kind == ElementKind::Img {
            Some(LayoutSize { width: IMAGE_WIDTH, height: IMAGE_HEIGHT })
        } else {
            None
        },
        _ => None,
    }
}

pub open spec fn text_of(node: NodeKind) -> Seq<char> {
    match node {
        NodeKind::Text(t) => t@,
        _ => Seq::empty(),
    }
}

/// Horizontal advance of one character in this style.
pub open spec fn char_advance(style: ComputedStyle) -> u64 {
    (CHAR_WIDTH * style.font_size.unwrap().spec_ratio()) as u64
}

/// Vertical advance of one line in this style.
pub open spec fn line_advance(style: ComputedStyle) -> u64 {
    (LINE_HEIGHT * style.font_size.unwrap().spec_ratio()) as u64
}

/// How many characters fit on a line `avail` wide (at least one, at most
/// what an index can count).
pub open spec fn max_chars(avail: u64, style: ComputedStyle) -> int {
    let m = avail / char_advance(style);
    if m < 1 {
        1
    } else if m > usize::MAX {
        usize::MAX as int
    } else {
        m as int
    }
}

/// The lines a text is drawn in: split at newlines when preformatted,
/// wrapped at spaces otherwise.
pub open spec fn text_lines(text: Seq<char>, style: ComputedStyle, avail: u64) -> Seq<Seq<char>> {
    if style.white_space == Some(WhiteSpace::Pre) {
        split_newlines(text)
    } else {
        wrap(text, max_chars(avail, style))
    }
}

pub open spec fn longest(lines: Seq<Seq<char>>) -> nat
    decreases lines.len(),
{
    if lines.len() == 0 {
        0
    } else {
        let rest = longest(lines.drop_last());
        if lines.last().len() > rest {
            lines.last().len()
        } else {
            rest
        }
    }
}

pub open spec fn lines_view(v: Seq<String>) -> Seq<Seq<char>> {
    v.map_values(|l: String| l@)
}

/// Avail, lines, and the sizes that follow from the box's own content.
pub open spec fn base_ok(objs: Seq<LayoutObject>, nodes: Seq<Node>, viewport: u64, b: int) -> bool {
    let o = objs[b];
    let pa = parent_avail(objs, viewport, b);
    match o.kind {
        LayoutObjectKind::Block => {
            &&& o.size.width == explicit_or(o.style.width, pa)
            &&& o.avail == o.size.width
        },
        LayoutObjectKind::Text => {
            let lines = text_lines(text_of(nodes[o.node as int].kind), o.style, pa);
            &&& o.avail == pa
            &&& lines_view(o.lines@) == lines
            &&& o.size.width == sat(longest(lines) * char_advance(o.style))
            &&& o.size.height == sat(lines.len() * line_advance(o.style))
        },
        LayoutObjectKind::Inline => {
            &&& o.avail == pa
            &&& (replaced_size(nodes[o.node as int].kind) matches Some(sz) ==> {
                &&& o.size.width == explicit_or(o.style.width, sz.width)
                &&& o.size.height == explicit_or(o.style.height, sz.height)
            })
        },
    }
}

/// The box fields that layout does not change.
pub open spec fn same_skeleton(a: Seq<LayoutObject>, b: Seq<LayoutObject>) -> bool {
    &&& a.len() == b.len()
    &&& forall|k: int|
        #![trigger b[k]]
        0 <= k < a.len() ==> {
            &&& b[k].node == a[k].node
            &&& b[k].parent == a[k].parent
            &&& b[k].children@ == a[k].children@
            &&& b[k].style == a[k].style
            &&& b[k].kind == a[k].kind
        }
}

proof fn lemma_skeleton_keeps_structure(
    a: Seq<LayoutObject>,
    b: Seq<LayoutObject>,
    box_of: Seq<Option<usize>>,
    nodes: Seq<Node>,
    rules: Seq<Rule>,
)
    requires
        structure_ok(a, box_of, nodes, rules),
        same_skeleton(a, b),
    ensures
        structure_ok(b, box_of, nodes, rules),
{
    reveal(mirrors_nodes);
    reveal(in_document_order);
    reveal(children_ok);
    assert forall|q: int, r: int| 0 <= q < r < b.len() implies #[trigger] b[q].node < #[trigger] b[r].node by {
        assert(a[q].node < a[r].node);
    }
    assert forall|q: int, j: int, k: int|
        0 <= q < b.len() && 0 <= j < k < b[q].children@.len() implies #[trigger] b[q].children@[j]
            < #[trigger] b[q].children@[k] by {
        assert(a[q].children@[j] < a[q].children@[k]);
    }
    assert forall|q: int, j: int| 0 <= q < b.len() && 0 <= j < b[q].children@.len() implies {
        let c = #[trigger] b[q].children@[j];
        &&& q < c < b.len()
        &&& b[c as int].parent == Some(q as usize)
    } by {
        assert(a[q].children@[j] == b[q].children@[j]);
        let c = a[q].children@[j] as int;
        assert(a[c].parent == b[c].parent);
    }
    assert forall|c: int| 0 < c < b.len() implies #[trigger] b[b[c].parent.unwrap() as int].children@.contains(
        c as usize,
    ) by {
        assert(a[c].parent == b[c].parent);
        assert(a[a[c].parent.unwrap() as int].children@.contains(c as usize));
    }
}

/// What the structure says of one box.
pub(crate) proof fn lemma_box_facts(
    objs: Seq<LayoutObject>,
    box_of: Seq<Option<usize>>,
    nodes: Seq<Node>,
    rules: Seq<Rule>,
    b: int,
)
    requires
        structure_ok(objs, box_of, nodes, rules),
        0 <= b < objs.len(),
    ensures
        objs[b].node < nodes.len(),
        objs[b].style == node_style(nodes, rules, objs[b].node as int),
        objs[b].style.is_resolved(),
        objs[b].kind == box_kind(nodes[objs[b].node as int].kind, objs[b].style),
        b > 0 ==> objs[b].parent is Some && objs[b].parent.unwrap() < b,
        b == 0 ==> objs[b].parent is None,
        forall|j: int|
            0 <= j < objs[b].children@.len() ==> b < #[trigger] objs[b].children@[j] < objs.len()
                && objs[objs[b].children@[j] as int].parent == Some(b as usize),
        forall|j: int, k: int|
            0 <= j < k < objs[b].children@.len() ==> #[trigger] objs[b].children@[j]
                < #[trigger] objs[b].children@[k],
{
    reveal(mirrors_nodes);
    reveal(children_ok);
    assert(objs[b].node < nodes.len());
}

fn longest_line(lines: &Vec<String>) -> (r: usize)
    ensures
        r == longest(lines_view(lines@)),
{
    let mut best: usize = 0;
    let mut i: usize = 0;
    while i < lines.len()
        invariant
            i <= lines@.len(),
            best == longest(lines_view(lines@.subrange(0, i as int))),
        decreases lines@.len() - i,
    {
        let l = lines[i].as_str().unicode_len();
        proof {
            let pre = lines_view(lines@.subrange(0, i + 1));
            assert(pre.drop_last() =~= lines_view(lines@.subrange(0, i as int)));
        }
        if l > best {
            best = l;
        }
        i = i + 1;
    }
    assert(lines@.subrange(0, lines@.len() as int) =~= lines@);
    best
}

/// Lays out the text of a text box.
fn text_box(text: &str, style: &ComputedStyle, avail: u64) -> (r: (Vec<String>, LayoutSize))
    requires
        style.is_resolved(),
    ensures
        lines_view(r.0@) == text_lines(text@, *style, avail),
        r.1.width == sat(longest(text_lines(text@, *style, avail)) * char_advance(*style)),
        r.1.height == sat(text_lines(text@, *style, avail).len() * line_advance(*style)),
{
    let ratio = style.font_size.unwrap().ratio();
    let advance = CHAR_WIDTH * ratio;
    let lines = if style.white_space == Some(WhiteSpace::Pre) {
        split_text_lines(text)
    } else {
        let m = avail / advance;
        let max: usize = if m < 1 {
            1
        } else if m > usize::MAX as u64 {
            usize::MAX
        } else {
            m as usize
        };
        proof {
            assert(max as int == max_chars(avail, *style));
        }
        wrap_text(text, max)
    };
    let widest = longest_line(&lines);
    let width = sat_mul(widest as u64, advance);
    let height = sat_mul(lines.len() as u64, LINE_HEIGHT * ratio);
    (lines, LayoutSize { width, height })
}

fn replaced_size_exec(node: &NodeKind) -> (r: Option<LayoutSize>)
    ensures
        r == replaced_size(*node),
{
    match node {
        NodeKind::Element(e) => if e.kind == ElementKind::Input {
            Some(LayoutSize { width: INPUT_WIDTH, height: INPUT_HEIGHT })
        } else if e.kind == ElementKind::Img {
            Some(LayoutSize { width: IMAGE_WIDTH, height: IMAGE_HEIGHT })
        } else {
            None
        },
        _ => None,
    }
}

/// Gives each box, parents first, its avail, its lines and the sizes that
/// follow from its own content.
fn size_boxes(
    objs: &mut Vec<LayoutObject>,
    dom: &Document,
    viewport: u64,
    Ghost(box_of): Ghost<Seq<Option<usize>>>,
    Ghost(rules): Ghost<Seq<Rule>>,
)
    requires
        structure_ok(old(objs)@, box_of, dom.nodes@, rules),
    ensures
        same_skeleton(old(objs)@, final(objs)@),
        forall|b: int| 0 <= b < final(objs)@.len() ==> base_ok(final(objs)@, dom.nodes@, viewport, b),
{
    let ghost nodes = dom.nodes@;
    let ghost start = objs@;
    let n = objs.len();
    let mut b: usize = 0;
    while b < n
        invariant
            n == objs@.len(),
            b <= n,
            nodes == dom.nodes@,
            structure_ok(start, box_of, nodes, rules),
            same_skeleton(start, objs@),
            forall|c: int| 0 <= c < b ==> base_ok(objs@, nodes, viewport, c),
        decreases n - b,
    {
        proof {
            lemma_skeleton_keeps_structure(start, objs@, box_of, nodes, rules);
            lemma_box_facts(objs@, box_of, nodes, rules, b as int);
        }
        let ghost before = objs@;
        let pa = if b == 0 {
            viewport
        } else {
            let p = objs[b].parent.unwrap();
            objs[p].avail
        };
        let node_idx = objs[b].node;
        let style = objs[b].style;
        match objs[b].kind {
            LayoutObjectKind::Block => {
                let w = explicit_or_exec(style.width, pa);
                objs[b].size.width = w;
                objs[b].avail = w;
            },
            LayoutObjectKind::Text => {
                let (lines, sz) = match &dom.nodes[node_idx].kind {
                    NodeKind::Text(t) => text_box(t.as_str(), &style, pa),
                    _ => (Vec::new(), LayoutSize { width: 0, height: 0 }),
                };
                objs[b].avail = pa;
                objs[b].lines = lines;
                objs[b].size = sz;
            },
            LayoutObjectKind::Inline => {
                objs[b].avail = pa;
                match replaced_size_exec(&dom.nodes[node_idx].kind) {
                    Some(sz) => {
                        objs[b].size = LayoutSize {
                            width: explicit_or_exec(style.width, sz.width),
                            height: explicit_or_exec(style.height, sz.height),
                        };
                    },
                    None => {},
                }
            },
        }
        proof {
            assert forall|c: int| 0 <= c < b implies base_ok(objs@, nodes, viewport, c) by {
                assert(before[c] == objs@[c]);
                if c > 0 {
                    lemma_box_facts(before, box_of, nodes, rules, c);
                    let p = before[c].parent.unwrap() as int;
                    assert(before[p] == objs@[p]);
                }
                assert(base_ok(before, nodes, viewport, c));
            }
        }
        b = b + 1;
    }
}

// ---------------------------------------------------------------------------
// Where children go inside their parent, and the sizes that follow.
/// The space above a block box.
pub open spec fn top_margin(o: LayoutObject) -> u64 {
    if o.kind == LayoutObjectKind::Block {
        o.style.margin.unwrap().top
    } else {
        0
    }
}

/// The offset of the `j`-th child of box `b`: the first child starts at the
/// top left corner; an inline-level box that follows an inline-level box
/// goes right after it on the same line; anything else starts below its
/// previous sibling. Block boxes keep their top margin above them.
pub open spec fn flow_offset(objs: Seq<LayoutObject>, b: int, j: int) -> LayoutPoint {
    let ch = objs[b].children@;
    let c = objs[ch[j] as int];
    if j == 0 {
        LayoutPoint { x: 0, y: top_margin(c) }
    } else {
        let p = objs[ch[j - 1] as int];
        if c.kind != LayoutObjectKind::Block && p.kind != LayoutObjectKind::Block {
            LayoutPoint { x: sat(p.offset.x + p.size.width), y: p.offset.y }
        } else {
            LayoutPoint { x: 0, y: sat(sat(p.offset.y + p.size.height) + top_margin(c)) }
        }
    }
}

pub open spec fn offsets_ok(objs: Seq<LayoutObject>, b: int) -> bool {
    forall|j: int|
        0 <= j < objs[b].children@.len() ==> #[trigger] objs[objs[b].children@[j] as int].offset
            == flow_offset(objs, b, j)
}

/// How far the children of box `b` reach: the far corner of the last one.
pub open spec fn extent(objs: Seq<LayoutObject>, b: int) -> LayoutSize {
    let ch = objs[b].children@;
    if ch.len() == 0 {
        LayoutSize { width: 0, height: 0 }
    } else {
        let l = objs[ch.last() as int];
        LayoutSize { width: sat(l.offset.x + l.size.width), height: sat(l.offset.y + l.size.height) }
    }
}

/// The sizes that follow from the children: a block's height, and both
/// sizes of an inline box that is not replaced content.
pub open spec fn flow_size_ok(objs: Seq<LayoutObject>, nodes: Seq<Node>, b: int) -> bool {
    let o = objs[b];
    let e = extent(objs, b);
    match o.kind {
        LayoutObjectKind::Block => o.size.height == explicit_or(o.style.height, e.height),
        LayoutObjectKind::Inline => replaced_size(nodes[o.node as int].kind) is None ==> {
            &&& o.size.width == explicit_or(o.style.width, e.width)
            &&& o.size.height == explicit_or(o.style.height, e.height)
        },
        LayoutObjectKind::Text => true,
    }
}

fn top_margin_exec(o: &LayoutObject) -> (r: u64)
    requires
        o.style.is_resolved(),
    ensures
        r == top_margin(*o),
{
    if o.kind == LayoutObjectKind::Block {
        o.style.margin.unwrap().top
    } else {
        0
    }
}

/// The child links of the boxes, as the structure gives them.
pub open spec fn child_links(objs: Seq<LayoutObject>) -> bool {
    &&& forall|c: int| 0 <= c < objs.len() ==> (#[trigger] objs[c]).style.is_resolved()
    &&& forall|c: int, j: int|
        0 <= c < objs.len() && 0 <= j < objs[c].children@.len() ==> c < #[trigger] objs[c].children@[j]
            < objs.len() && objs[objs[c].children@[j] as int].parent == Some(c as usize)
}

proof fn lemma_child_links(
    objs: Seq<LayoutObject>,
    box_of: Seq<Option<usize>>,
    nodes: Seq<Node>,
    rules: Seq<Rule>,
)
    requires
        structure_ok(objs, box_of, nodes, rules),
    ensures
        child_links(objs),
{
    assert forall|c: int| 0 <= c < objs.len() implies (#[trigger] objs[c]).style.is_resolved() by {
        lemma_box_facts(objs, box_of, nodes, rules, c);
    }
    assert forall|c: int, j: int|
        0 <= c < objs.len() && 0 <= j < objs[c].children@.len() implies c < #[trigger] objs[c].children@[j]
            < objs.len() && objs[objs[c].children@[j] as int].parent == Some(c as usize) by {
        lemma_box_facts(objs, box_of, nodes, rules, c);
    }
}

/// Moving the children of `b` and resizing `b` leaves the flow of every
/// later box as it was.
proof fn lemma_flow_frame(before: Seq<LayoutObject>, after: Seq<LayoutObject>, nodes: Seq<Node>, b: int)
    requires
        child_links(before),
        after.len() == before.len(),
        0 <= b < before.len(),
        forall|k: int|
            #![trigger after[k]]
            0 <= k < before.len() ==> {
                &&& after[k].kind == before[k].kind
                &&& after[k].style == before[k].style
                &&& after[k].node == before[k].node
                &&& after[k].parent == before[k].parent
                &&& after[k].children == before[k].children
                &&& (k != b ==> after[k].size == before[k].size)
                &&& (before[k].parent != Some(b as usize) ==> after[k].offset == before[k].offset)
            },
    ensures
        forall|c: int|
            b < c < before.len() && flow_size_ok(before, nodes, c) ==> flow_size_ok(after, nodes, c),
        forall|c: int| b < c < before.len() && offsets_ok(before, c) ==> offsets_ok(after, c),
{
    assert forall|c: int| b < c < before.len() && flow_size_ok(before, nodes, c) implies flow_size_ok(
        after,
        nodes,
        c,
    ) by {
        let ch = before[c].children@;
        assert(after[c].children@ == ch);
        if ch.len() > 0 {
            let l = ch.last() as int;
            assert(ch[ch.len() - 1] == ch.last());
            assert(c < l < before.len());
            assert(after[l].offset == before[l].offset);
        }
        assert(extent(after, c) == extent(before, c));
    }
    assert forall|c: int| b < c < before.len() && offsets_ok(before, c) implies offsets_ok(after, c) by {
        let ch = before[c].children@;
        assert(after[c].children@ == ch);
        assert forall|j: int| 0 <= j < ch.len() implies #[trigger] after[after[c].children@[j] as int].offset
            == flow_offset(after, c, j) by {
            assert(c < ch[j] < before.len());
            assert(after[ch[j] as int].offset == before[ch[j] as int].offset);
            if j > 0 {
                assert(c < ch[j - 1] < before.len());
                assert(after[ch[j - 1] as int].offset == before[ch[j - 1] as int].offset);
            }
            assert(before[before[c].children@[j] as int].offset == flow_offset(before, c, j));
        }
    }
}

/// One step of the flow pass keeps what the pass has built.
proof fn lemma_flow_step(
    before: Seq<LayoutObject>,
    after: Seq<LayoutObject>,
    box_of: Seq<Option<usize>>,
    nodes: Seq<Node>,
    rules: Seq<Rule>,
    viewport: u64,
    b: int,
)
    requires
        structure_ok(before, box_of, nodes, rules),
        after.len() == before.len(),
        0 <= b < before.len(),
        forall|k: int|
            #![trigger after[k]]
            0 <= k < before.len() ==> {
                &&& after[k].kind == before[k].kind
                &&& after[k].style == before[k].style
                &&& after[k].node == before[k].node
                &&& after[k].parent == before[k].parent
                &&& after[k].children == before[k].children
                &&& after[k].avail == before[k].avail
                &&& after[k].lines == before[k].lines
                &&& (k != b ==> after[k].size == before[k].size)
                &&& (before[k].parent != Some(b as usize) ==> after[k].offset == before[k].offset)
            },
        match before[b].kind {
            LayoutObjectKind::Block => after[b].size.width == before[b].size.width,
            LayoutObjectKind::Text => after[b].size == before[b].size,
            LayoutObjectKind::Inline => after[b].size == before[b].size || replaced_size(
                nodes[before[b].node as int].kind,
            ) is None,
        },
        forall|c: int| 0 <= c < before.len() ==> base_ok(before, nodes, viewport, c),
        forall|c: int| b < c < before.len() ==> flow_size_ok(before, nodes, c),
        forall|c: int| b < c < before.len() ==> offsets_ok(before, c),
        flow_size_ok(after, nodes, b),
        offsets_ok(after, b),
    ensures
        forall|c: int| 0 <= c < before.len() ==> base_ok(after, nodes, viewport, c),
        forall|c: int| b <= c < before.len() ==> flow_size_ok(after, nodes, c),
        forall|c: int| b <= c < before.len() ==> offsets_ok(after, c),
{
    lemma_child_links(before, box_of, nodes, rules);
    lemma_flow_frame(before, after, nodes, b);
    assert forall|c: int| 0 <= c < before.len() implies base_ok(after, nodes, viewport, c) by {
        assert(base_ok(before, nodes, viewport, c));
        if c > 0 {
            lemma_box_facts(before, box_of, nodes, rules, c);
            let p = before[c].parent.unwrap() as int;
            assert(after[p].avail == before[p].avail);
        }
    }
}

/// Places the children of each box inside it, deepest boxes first, and
/// sizes each box from its children.
fn flow_boxes(
    objs: &mut Vec<LayoutObject>,
    dom: &Document,
    viewport: u64,
    Ghost(box_of): Ghost<Seq<Option<usize>>>,
    Ghost(rules): Ghost<Seq<Rule>>,
)
    requires
        structure_ok(old(objs)@, box_of, dom.nodes@, rules),
        forall|b: int| 0 <= b < old(objs)@.len() ==> base_ok(old(objs)@, dom.nodes@, viewport, b),
    ensures
        same_skeleton(old(objs)@, final(objs)@),
        forall|b: int| 0 <= b < final(objs)@.len() ==> base_ok(final(objs)@, dom.nodes@, viewport, b),
        forall|b: int| 0 <= b < final(objs)@.len() ==> flow_size_ok(final(objs)@, dom.nodes@, b),
        forall|b: int| 0 <= b < final(objs)@.len() ==> offsets_ok(final(objs)@, b),
{
    let ghost nodes = dom.nodes@;
    let ghost start = objs@;
    let n = objs.len();
    let mut i: usize = n;
    while i > 0
        invariant
            n == objs@.len(),
            i <= n,
            nodes == dom.nodes@,
            structure_ok(start, box_of, nodes, rules),
            same_skeleton(start, objs@),
            forall|c: int| 0 <= c < n ==> base_ok(objs@, nodes, viewport, c),
            forall|c: int| i <= c < n ==> flow_size_ok(objs@, nodes, c),
            forall|c: int| i <= c < n ==> offsets_ok(objs@, c),
        decreases i,
    {
        let b = i - 1;
        proof {
            lemma_skeleton_keeps_structure(start, objs@, box_of, nodes, rules);
            lemma_box_facts(objs@, box_of, nodes, rules, b as int);
        }
        let ghost before = objs@;
        proof {
            lemma_child_links(before, box_of, nodes, rules);
        }
        let ghost ch = objs@[b as int].children@;
        let nkids = objs[b].children.len();
        let mut j: usize = 0;
        while j < nkids
            invariant
                n == objs@.len(),
                b < n,
                nkids == ch.len(),
                j <= nkids,
                before.len() == n,
                ch == before[b as int].children@,
                forall|k: int| 0 <= k < n ==> (#[trigger] before[k]).style.is_resolved(),
                forall|k: int| 0 <= k < ch.len() ==> b < #[trigger] ch[k] < n && before[ch[k] as int].parent == Some(b),
                forall|k: int, l: int| 0 <= k < l < ch.len() ==> #[trigger] ch[k] < #[trigger] ch[l],
                forall|k: int|
                    #![trigger objs@[k]]
                    0 <= k < n ==> {
                        &&& objs@[k].size == before[k].size
                        &&& objs@[k].avail == before[k].avail
                        &&& objs@[k].lines == before[k].lines
                        &&& objs@[k].kind == before[k].kind
                        &&& objs@[k].style == before[k].style
                        &&& objs@[k].node == before[k].node
                        &&& objs@[k].parent == before[k].parent
                        &&& objs@[k].children == before[k].children
                        &&& objs@[k].point == before[k].point
                        &&& (before[k].parent != Some(b) ==> objs@[k].offset == before[k].offset)
                    },
                forall|k: int| 0 <= k < j ==> #[trigger] objs@[ch[k] as int].offset == flow_offset(objs@, b as int, k),
            decreases nkids - j,
        {
            let c = objs[b].children[j];
            let off = if j == 0 {
                LayoutPoint { x: 0, y: top_margin_exec(&objs[c]) }
            } else {
                let p = objs[b].children[j - 1];
                if objs[c].kind != LayoutObjectKind::Block && objs[p].kind != LayoutObjectKind::Block {
                    LayoutPoint { x: sat_add(objs[p].offset.x, objs[p].size.width), y: objs[p].offset.y }
                } else {
                    LayoutPoint {
                        x: 0,
                        y: sat_add(sat_add(objs[p].offset.y, objs[p].size.height), top_margin_exec(&objs[c])),
                    }
                }
            };
            let ghost mid = objs@;
            objs[c].offset = off;
            proof {
                assert forall|k: int| 0 <= k < j + 1 implies #[trigger] objs@[ch[k] as int].offset == flow_offset(
                    objs@,
                    b as int,
                    k,
                ) by {
                    assert(objs@[b as int].children@ == ch);
                    if k < j {
                        assert(ch[k] < ch[j as int]);
                        if k > 0 {
                            assert(ch[k - 1] < ch[j as int]);
                        }
                        assert(flow_offset(objs@, b as int, k) == flow_offset(mid, b as int, k));
                    } else if k > 0 {
                        assert(ch[k - 1] < ch[j as int]);
                        assert(flow_offset(objs@, b as int, k) == flow_offset(mid, b as int, k));
                    } else {
                        assert(flow_offset(objs@, b as int, k) == flow_offset(mid, b as int, k));
                    }
                }
            }
            j = j + 1;
        }
        let ext = if nkids == 0 {
            LayoutSize { width: 0, height: 0 }
        } else {
            let l = objs[b].children[nkids - 1];
            LayoutSize {
                width: sat_add(objs[l].offset.x, objs[l].size.width),
                height: sat_add(objs[l].offset.y, objs[l].size.height),
            }
        };
        proof {
            if nkids > 0 {
                assert(ch[nkids - 1] == ch.last());
            }
            assert(ext == extent(objs@, b as int));
        }
        let ghost placed = objs@;
        let style = objs[b].style;
        match objs[b].kind {
            LayoutObjectKind::Block => {
                objs[b].size.height = explicit_or_exec(style.height, ext.height);
            },
            LayoutObjectKind::Inline => {
                let node_idx = objs[b].node;
                if replaced_size_exec(&dom.nodes[node_idx].kind).is_none() {
                    objs[b].size = LayoutSize {
                        width: explicit_or_exec(style.width, ext.width),
                        height: explicit_or_exec(style.height, ext.height),
                    };
                }
            },
            LayoutObjectKind::Text => {},
        }
        proof {
            assert forall|k: int| 0 <= k < n implies #[trigger] objs@[k].children == placed[k].children
                && objs@[k].offset == placed[k].offset by {}
            assert(objs@[b as int].children@ == ch);
            assert(extent(objs@, b as int) == extent(placed, b as int));
            assert(offsets_ok(objs@, b as int)) by {
                assert forall|j: int| 0 <= j < ch.len() implies #[trigger] objs@[objs@[b as int].children@[j] as int].offset
                    == flow_offset(objs@, b as int, j) by {
                    assert(placed[ch[j] as int].offset == flow_offset(placed, b as int, j));
                    assert(b < ch[j]);
                    if j > 0 {
                        assert(b < ch[j - 1]);
                    }
                    assert(flow_offset(objs@, b as int, j) == flow_offset(placed, b as int, j));
                }
            }
            assert(flow_size_ok(objs@, nodes, b as int));
            lemma_flow_step(before, objs@, box_of, nodes, rules, viewport, b as int);
        }
        i = i - 1;
    }
}

// ---------------------------------------------------------------------------
// Page positions, and the finished tree.
/// The root sits at the page origin; every other box sits at its offset
/// from its parent's position.
pub open spec fn point_ok(objs: Seq<LayoutObject>, b: int) -> bool {
    if b == 0 {
        objs[0].point == LayoutPoint { x: 0, y: 0 }
    } else {
        let p = objs[objs[b].parent.unwrap() as int];
        objs[b].point == LayoutPoint {
            x: sat(p.point.x + objs[b].offset.x),
            y: sat(p.point.y + objs[b].offset.y),
        }
    }
}

/// Every box of the tree obeys the layout rules.
pub open spec fn geometry_ok(objs: Seq<LayoutObject>, nodes: Seq<Node>, viewport: u64) -> bool {
    &&& forall|b: int| 0 <= b < objs.len() ==> base_ok(objs, nodes, viewport, b)
    &&& forall|b: int| 0 <= b < objs.len() ==> flow_size_ok(objs, nodes, b)
    &&& forall|b: int| 0 <= b < objs.len() ==> offsets_ok(objs, b)
    &&& forall|b: int| 0 <= b < objs.len() ==> point_ok(objs, b)
}

/// Setting page positions keeps the other layout rules.
proof fn lemma_place_keeps(
    start: Seq<LayoutObject>,
    objs: Seq<LayoutObject>,
    box_of: Seq<Option<usize>>,
    nodes: Seq<Node>,
    rules: Seq<Rule>,
    viewport: u64,
    c: int,
)
    requires
        structure_ok(start, box_of, nodes, rules),
        same_skeleton(start, objs),
        forall|k: int|
            #![trigger objs[k]]
            0 <= k < start.len() ==> {
                &&& objs[k].size == start[k].size
                &&& objs[k].avail == start[k].avail
                &&& objs[k].lines == start[k].lines
                &&& objs[k].offset == start[k].offset
            },
        forall|b: int| 0 <= b < start.len() ==> base_ok(start, nodes, viewport, b),
        forall|b: int| 0 <= b < start.len() ==> flow_size_ok(start, nodes, b),
        forall|b: int| 0 <= b < start.len() ==> offsets_ok(start, b),
        0 <= c < start.len(),
    ensures
        base_ok(objs, nodes, viewport, c),
        flow_size_ok(objs, nodes, c),
        offsets_ok(objs, c),
{
    lemma_box_facts(start, box_of, nodes, rules, c);
    assert(base_ok(start, nodes, viewport, c));
    assert(flow_size_ok(start, nodes, c));
    assert(offsets_ok(start, c));
    if c > 0 {
        let p = start[c].parent.unwrap() as int;
        assert(objs[p].avail == start[p].avail);
    }
    let ch = start[c].children@;
    assert(objs[c].children@ == ch);
    if ch.len() > 0 {
        assert(ch[ch.len() - 1] == ch.last());
        assert(objs[ch.last() as int].offset == start[ch.last() as int].offset);
    }
    assert(extent(objs, c) == extent(start, c));
    assert forall|j: int| 0 <= j < ch.len() implies #[trigger] objs[objs[c].children@[j] as int].offset
        == flow_offset(objs, c, j) by {
        assert(start[start[c].children@[j] as int].offset == flow_offset(start, c, j));
        assert(objs[ch[j] as int].offset == start[ch[j] as int].offset);
        if j > 0 {
            assert(objs[ch[j - 1] as int].offset == start[ch[j - 1] as int].offset);
        }
    }
}

/// Sets each box's page position from its parent's, parents first.
fn place_boxes(
    objs: &mut Vec<LayoutObject>,
    dom: &Document,
    viewport: u64,
    Ghost(box_of): Ghost<Seq<Option<usize>>>,
    Ghost(rules): Ghost<Seq<Rule>>,
)
    requires
        structure_ok(old(objs)@, box_of, dom.nodes@, rules),
        forall|b: int| 0 <= b < old(objs)@.len() ==> base_ok(old(objs)@, dom.nodes@, viewport, b),
        forall|b: int| 0 <= b < old(objs)@.len() ==> flow_size_ok(old(objs)@, dom.nodes@, b),
        forall|b: int| 0 <= b < old(objs)@.len() ==> offsets_ok(old(objs)@, b),
    ensures
        same_skeleton(old(objs)@, final(objs)@),
        geometry_ok(final(objs)@, dom.nodes@, viewport),
{
    let ghost nodes = dom.nodes@;
    let ghost start = objs@;
    let n = objs.len();
    let mut b: usize = 0;
    while b < n
        invariant
            n == objs@.len(),
            b <= n,
            nodes == dom.nodes@,
            structure_ok(start, box_of, nodes, rules),
            same_skeleton(start, objs@),
            forall|k: int|
                #![trigger objs@[k]]
                0 <= k < n ==> {
                    &&& objs@[k].size == start[k].size
                    &&& objs@[k].avail == start[k].avail
                    &&& objs@[k].lines == start[k].lines
                    &&& objs@[k].offset == start[k].offset
                },
            forall|c: int| 0 <= c < b ==> point_ok(objs@, c),
        decreases n - b,
    {
        proof {
            lemma_skeleton_keeps_structure(start, objs@, box_of, nodes, rules);
            lemma_box_facts(objs@, box_of, nodes, rules, b as int);
        }
        let ghost before = objs@;
        let pt = if b == 0 {
            LayoutPoint { x: 0, y: 0 }
        } else {
            let p = objs[b].parent.unwrap();
            LayoutPoint {
                x: sat_add(objs[p].point.x, objs[b].offset.x),
                y: sat_add(objs[p].point.y, objs[b].offset.y),
            }
        };
        objs[b].point = pt;
        proof {
            assert forall|c: int| 0 <= c < b + 1 implies point_ok(objs@, c) by {
                if c > 0 {
                    lemma_box_facts(before, box_of, nodes, rules, c);
                }
                if c < b {
                    assert(point_ok(before, c));
                }
            }
        }
        b = b + 1;
    }
    proof {
        assert forall|c: int| 0 <= c < n implies #[trigger] base_ok(objs@, nodes, viewport, c) by {
            lemma_place_keeps(start, objs@, box_of, nodes, rules, viewport, c);
        }
        assert forall|c: int| 0 <= c < n implies #[trigger] flow_size_ok(objs@, nodes, c) by {
            lemma_place_keeps(start, objs@, box_of, nodes, rules, viewport, c);
        }
        assert forall|c: int| 0 <= c < n implies #[trigger] offsets_ok(objs@, c) by {
            lemma_place_keeps(start, objs@, box_of, nodes, rules, viewport, c);
        }
        assert(forall|c: int| 0 <= c < n ==> #[trigger] point_ok(objs@, c));
    }
}

/// The laid-out box tree of a document.
#[derive(Debug)]
pub struct LayoutView {
    pub objects: Vec<LayoutObject>,
    /// For each document node, its box, if it has one.
    pub box_of: Vec<Option<usize>>,
    pub viewport_width: u64,
}

impl LayoutView {
    /// The tree mirrors the visible nodes of `nodes` styled by `rules`, and
    /// obeys the layout rules.
    pub open spec fn laid_out(&self, nodes: Seq<Node>, rules: Seq<Rule>) -> bool {
        &&& structure_ok(self.objects@, self.box_of@, nodes, rules)
        &&& geometry_ok(self.objects@, nodes, self.viewport_width)
    }

    /// Builds the box tree of `dom` under `sheet`, laid out in a viewport
    /// `viewport_width` wide.
    pub fn new(dom: &Document, sheet: &StyleSheet, viewport_width: u64) -> (r: LayoutView)
        requires
            dom.wf(),
        ensures
            r.laid_out(dom.nodes@, sheet.rules@),
            r.viewport_width == viewport_width,
    {
        let (mut objs, box_of) = build_boxes(dom, sheet);
        let ghost s0 = objs@;
        size_boxes(&mut objs, dom, viewport_width, Ghost(box_of@), Ghost(sheet.rules@));
        proof {
            lemma_skeleton_keeps_structure(s0, objs@, box_of@, dom.nodes@, sheet.rules@);
        }
        let ghost s1 = objs@;
        flow_boxes(&mut objs, dom, viewport_width, Ghost(box_of@), Ghost(sheet.rules@));
        proof {
            lemma_skeleton_keeps_structure(s1, objs@, box_of@, dom.nodes@, sheet.rules@);
        }
        let ghost s2 = objs@;
        place_boxes(&mut objs, dom, viewport_width, Ghost(box_of@), Ghost(sheet.rules@));
        proof {
            lemma_skeleton_keeps_structure(s2, objs@, box_of@, dom.nodes@, sheet.rules@);
        }
        LayoutView { objects: objs, box_of, viewport_width }
    }

    pub fn len(&self) -> (r: usize)
        ensures
            r == self.objects@.len(),
    {
        self.objects.len()
    }

    /// The box that is hit at `(x, y)`: of all boxes whose rectangle holds the
    /// point, the last in document order, which is the deepest.
    pub fn find_node_by_position(&self, x: i64, y: i64) -> (r: Option<usize>)
        ensures
            r matches Some(b) ==> {
                &&& b < self.objects@.len()
                &&& box_contains(self.objects@[b as int], x as int, y as int)
                &&& forall|c: int|
                    b < c < self.objects@.len() ==> !box_contains(
                        #[trigger] self.objects@[c],
                        x as int,
                        y as int,
                    )
            },
            r is None ==> forall|c: int|
                0 <= c < self.objects@.len() ==> !box_contains(#[trigger] self.objects@[c], x as int, y as int),
    {
        let mut i = self.objects.len();
        while i > 0
            invariant
                i <= self.objects@.len(),
                forall|c: int|
                    i <= c < self.objects@.len() ==> !box_contains(
                        #[trigger] self.objects@[c],
                        x as int,
                        y as int,
                    ),
            decreases i,
        {
            let o = &self.objects[i - 1];
            if contains_point(o.point, o.size, x, y) {
                return Some(i - 1);
            }
            i = i - 1;
        }
        None
    }
}

/// The rectangle of box `o`, edges included, holds `(x, y)`.
pub open spec fn box_contains(o: LayoutObject, x: int, y: int) -> bool {
    &&& o.point.x <= x <= o.point.x + o.size.width
    &&& o.point.y <= y <= o.point.y + o.size.height
}

fn contains_point(p: LayoutPoint, s: LayoutSize, x: i64, y: i64) -> (r: bool)
    ensures
        r == (p.x <= x <= p.x + s.width && p.y <= y <= p.y + s.height),
{
    if x < 0 || y < 0 {
        return false;
    }
    let ux = x as u64;
    let uy = y as u64;
    ux >= p.x && ux - p.x <= s.width && uy >= p.y && uy - p.y <= s.height
}

/// Everything under a hidden node is hidden.
proof fn lemma_hidden_below(dom: Document, rules: Seq<Rule>, a: int, k: int)
    requires
        dom.wf(),
        0 <= k < dom.nodes@.len(),
        dom.is_ancestor_or_self(a, k),
        is_hidden(dom.nodes@, rules, a),
    ensures
        is_hidden(dom.nodes@, rules, k),
    decreases k,
{
    if a != k {
        let p = dom.parent_of(k);
        assert(dom.nodes@[k].parent is Some);
        lemma_hidden_below(dom, rules, a, p);
    }
}

/// No box stands for a `script` or `style` element that no rule gives a
/// display, nor for anything inside one.
pub proof fn lemma_script_and_style_not_laid_out(
    view: LayoutView,
    dom: Document,
    rules: Seq<Rule>,
    a: int,
    b: int,
)
    requires
        dom.wf(),
        view.laid_out(dom.nodes@, rules),
        0 <= a < dom.nodes@.len(),
        dom.nodes@[a].kind matches NodeKind::Element(e) && (e.kind == ElementKind::Script || e.kind
            == ElementKind::Style),
        crate::css::cascaded(rules, dom.nodes@[a].kind).display is None,
        0 <= b < view.objects@.len(),
    ensures
        !dom.is_ancestor_or_self(a, view.objects@[b].node as int),
{
    let nodes = dom.nodes@;
    let p = parent_index(nodes, a);
    let parent = if 0 <= p < a {
        Some(node_style(nodes, rules, p))
    } else {
        None
    };
    crate::css::lemma_script_and_style_are_hidden(rules, nodes[a].kind, parent);
    assert(is_hidden(nodes, rules, a));
    reveal(mirrors_nodes);
    let k = view.objects@[b].node as int;
    assert(view.box_of@[k] == Some(b as usize));
    if dom.is_ancestor_or_self(a, k) {
        lemma_hidden_below(dom, rules, a, k);
    }
}

// ---------------------------------------------------------------------------
// The layout rules leave no choice: two trees that obey them for the same
// document, rules and viewport agree box for box.
/// Two box trees agree on everything painting reads.
pub open spec fn boxes_agree(o1: Seq<LayoutObject>, o2: Seq<LayoutObject>) -> bool {
    &&& o1.len() == o2.len()
    &&& forall|b: int|
        #![trigger o1[b], o2[b]]
        0 <= b < o1.len() ==> {
            &&& o1[b].node == o2[b].node
            &&& o1[b].kind == o2[b].kind
            &&& o1[b].style == o2[b].style
            &&& o1[b].point == o2[b].point
            &&& o1[b].size == o2[b].size
            &&& (o1[b].kind == LayoutObjectKind::Text ==> lines_view(o1[b].lines@) == lines_view(
                o2[b].lines@,
            ))
        }
}

proof fn lemma_nodes_agree(
    o1: Seq<LayoutObject>,
    o2: Seq<LayoutObject>,
    bo1: Seq<Option<usize>>,
    bo2: Seq<Option<usize>>,
    nodes: Seq<Node>,
    rules: Seq<Rule>,
    b: int,
)
    requires
        structure_ok(o1, bo1, nodes, rules),
        structure_ok(o2, bo2, nodes, rules),
        0 <= b < o1.len(),
        b < o2.len(),
    ensures
        o1[b].node == o2[b].node,
    decreases b,
{
    reveal(mirrors_nodes);
    reveal(in_document_order);
    let k1 = o1[b].node as int;
    let k2 = o2[b].node as int;
    if k1 < k2 {
        let c = bo2[k1].unwrap() as int;
        assert(o2[c].node == k1);
        if c >= b {
            assert(c != b);
            assert(o2[b].node < o2[c].node);
        }
        lemma_nodes_agree(o1, o2, bo1, bo2, nodes, rules, c);
        assert(o1[c].node < o1[b].node);
    } else if k2 < k1 {
        let c = bo1[k2].unwrap() as int;
        assert(o1[c].node == k2);
        if c >= b {
            assert(c != b);
            assert(o1[b].node < o1[c].node);
        }
        lemma_nodes_agree(o1, o2, bo1, bo2, nodes, rules, c);
        assert(o2[c].node < o2[b].node);
    }
}

proof fn lemma_lengths_agree(
    o1: Seq<LayoutObject>,
    o2: Seq<LayoutObject>,
    bo1: Seq<Option<usize>>,
    bo2: Seq<Option<usize>>,
    nodes: Seq<Node>,
    rules: Seq<Rule>,
)
    requires
        structure_ok(o1, bo1, nodes, rules),
        structure_ok(o2, bo2, nodes, rules),
    ensures
        o1.len() == o2.len(),
{
    reveal(mirrors_nodes);
    reveal(in_document_order);
    if o1.len() < o2.len() {
        let l = o1.len() as int;
        let k = o2[l].node as int;
        let c = bo1[k].unwrap() as int;
        lemma_nodes_agree(o1, o2, bo1, bo2, nodes, rules, c);
        assert(o2[c].node < o2[l].node);
    }
    if o2.len() < o1.len() {
        let l = o2.len() as int;
        let k = o1[l].node as int;
        let c = bo2[k].unwrap() as int;
        lemma_nodes_agree(o1, o2, bo1, bo2, nodes, rules, c);
        assert(o1[c].node < o1[l].node);
    }
}

proof fn lemma_box_of_agree(
    o1: Seq<LayoutObject>,
    o2: Seq<LayoutObject>,
    bo1: Seq<Option<usize>>,
    bo2: Seq<Option<usize>>,
    nodes: Seq<Node>,
    rules: Seq<Rule>,
)
    requires
        structure_ok(o1, bo1, nodes, rules),
        structure_ok(o2, bo2, nodes, rules),
        o1.len() == o2.len(),
    ensures
        bo1 == bo2,
        forall|b: int| 0 <= b < o1.len() ==> #[trigger] o1[b].node == o2[b].node,
{
    assert forall|b: int| 0 <= b < o1.len() implies #[trigger] o1[b].node == o2[b].node by {
        lemma_nodes_agree(o1, o2, bo1, bo2, nodes, rules, b);
    }
    reveal(mirrors_nodes);
    assert forall|k: int| 0 <= k < bo1.len() implies bo1[k] == bo2[k] by {
        if bo1[k] is Some {
            let c = bo1[k].unwrap() as int;
            assert(o1[c].node == o2[c].node);
        }
    }
    assert(bo1 =~= bo2);
}

proof fn lemma_children_agree(
    o1: Seq<LayoutObject>,
    o2: Seq<LayoutObject>,
    bo: Seq<Option<usize>>,
    nodes: Seq<Node>,
    rules: Seq<Rule>,
    b: int,
)
    requires
        structure_ok(o1, bo, nodes, rules),
        structure_ok(o2, bo, nodes, rules),
        o1.len() == o2.len(),
        forall|c: int| 0 <= c < o1.len() ==> #[trigger] o1[c].parent == o2[c].parent,
        0 <= b < o1.len(),
    ensures
        o1[b].children@ == o2[b].children@,
{
    reveal(children_ok);
    let s1 = o1[b].children@;
    let s2 = o2[b].children@;
    assert forall|x: usize| s1.contains(x) implies s2.contains(x) by {
        let j = choose|j: int| 0 <= j < s1.len() && s1[j] == x;
        assert(o1[x as int].parent == Some(b as usize));
        assert(o1[x as int].parent == o2[x as int].parent);
        assert(o2[o2[x as int].parent.unwrap() as int].children@.contains(x));
    }
    assert forall|x: usize| s2.contains(x) implies s1.contains(x) by {
        let j = choose|j: int| 0 <= j < s2.len() && s2[j] == x;
        assert(o2[x as int].parent == Some(b as usize));
        assert(o1[x as int].parent == o2[x as int].parent);
        assert(o1[o1[x as int].parent.unwrap() as int].children@.contains(x));
    }
    lemma_sorted_same_members(s1, s2);
}

proof fn lemma_structures_agree(
    o1: Seq<LayoutObject>,
    o2: Seq<LayoutObject>,
    bo1: Seq<Option<usize>>,
    bo2: Seq<Option<usize>>,
    nodes: Seq<Node>,
    rules: Seq<Rule>,
)
    requires
        structure_ok(o1, bo1, nodes, rules),
        structure_ok(o2, bo2, nodes, rules),
    ensures
        o1.len() == o2.len(),
        bo1 == bo2,
        forall|b: int|
            #![trigger o1[b], o2[b]]
            0 <= b < o1.len() ==> {
                &&& o1[b].node == o2[b].node
                &&& o1[b].style == o2[b].style
                &&& o1[b].kind == o2[b].kind
                &&& o1[b].parent == o2[b].parent
                &&& o1[b].children@ == o2[b].children@
            },
{
    lemma_lengths_agree(o1, o2, bo1, bo2, nodes, rules);
    lemma_box_of_agree(o1, o2, bo1, bo2, nodes, rules);
    assert forall|b: int| 0 <= b < o1.len() implies #[trigger] o1[b].parent == o2[b].parent && o1[b].style
        == o2[b].style && o1[b].kind == o2[b].kind by {
        assert(o1[b].node == o2[b].node);
        lemma_box_facts(o1, bo1, nodes, rules, b);
        lemma_box_facts(o2, bo2, nodes, rules, b);
        if b > 0 {
            reveal(mirrors_nodes);
        }
    }
    assert forall|b: int| 0 <= b < o1.len() implies o1[b].children@ == o2[b].children@ by {
        lemma_children_agree(o1, o2, bo1, nodes, rules, b);
    }
}

/// Two strictly increasing sequences with the same members are equal.
proof fn lemma_sorted_same_members(s1: Seq<usize>, s2: Seq<usize>)
    requires
        forall|j: int, k: int| 0 <= j < k < s1.len() ==> #[trigger] s1[j] < #[trigger] s1[k],
        forall|j: int, k: int| 0 <= j < k < s2.len() ==> #[trigger] s2[j] < #[trigger] s2[k],
        forall|x: usize| s1.contains(x) <==> s2.contains(x),
    ensures
        s1 == s2,
    decreases s1.len(),
{
    if s1.len() == 0 {
        if s2.len() > 0 {
            assert(s2.contains(s2[0]));
        }
        assert(s1 =~= s2);
    } else {
        assert(s1.contains(s1[0]));
        assert(s2.len() > 0);
        assert(s2.contains(s2[0]));
        let j2 = choose|j: int| 0 <= j < s2.len() && s2[j] == s1[0];
        let j1 = choose|j: int| 0 <= j < s1.len() && s1[j] == s2[0];
        if j2 > 0 {
            assert(s2[0] < s2[j2]);
            if j1 > 0 {
                assert(s1[0] < s1[j1]);
            }
        }
        assert(s1[0] == s2[0]);
        let t1 = s1.drop_first();
        let t2 = s2.drop_first();
        assert forall|x: usize| t1.contains(x) <==> t2.contains(x) by {
            if t1.contains(x) {
                let j = choose|j: int| 0 <= j < t1.len() && t1[j] == x;
                assert(s1[0] < s1[j + 1]);
                assert(s2.contains(x));
                let k = choose|k: int| 0 <= k < s2.len() && s2[k] == x;
                assert(k != 0);
                assert(t2[k - 1] == x);
            }
            if t2.contains(x) {
                let j = choose|j: int| 0 <= j < t2.len() && t2[j] == x;
                assert(s2[0] < s2[j + 1]);
                assert(s1.contains(x));
                let k = choose|k: int| 0 <= k < s1.len() && s1[k] == x;
                assert(k != 0);
                assert(t1[k - 1] == x);
            }
        }
        assert forall|j: int, k: int| 0 <= j < k < t1.len() implies #[trigger] t1[j] < #[trigger] t1[k] by {
            assert(s1[j + 1] < s1[k + 1]);
        }
        assert forall|j: int, k: int| 0 <= j < k < t2.len() implies #[trigger] t2[j] < #[trigger] t2[k] by {
            assert(s2[j + 1] < s2[k + 1]);
        }
        lemma_sorted_same_members(t1, t2);
        assert(s1.len() == s2.len());
        assert forall|i: int| 0 <= i < s1.len() implies s1[i] == s2[i] by {
            if i > 0 {
                assert(s1[i] == t1[i - 1]);
                assert(s2[i] == t2[i - 1]);
            }
        }
        assert(s1 =~= s2);
    }
}

/// Two trees with the same structure, both laid out for the same
/// document, rules and viewport.
pub open spec fn twin_layouts(
    o1: Seq<LayoutObject>,
    o2: Seq<LayoutObject>,
    bo: Seq<Option<usize>>,
    nodes: Seq<Node>,
    rules: Seq<Rule>,
    viewport: u64,
) -> bool {
    &&& structure_ok(o1, bo, nodes, rules)
    &&& structure_ok(o2, bo, nodes, rules)
    &&& geometry_ok(o1, nodes, viewport)
    &&& geometry_ok(o2, nodes, viewport)
    &&& o1.len() == o2.len()
    &&& o1.len() <= usize::MAX
    &&& forall|b: int|
        #![trigger o1[b], o2[b]]
        0 <= b < o1.len() ==> {
            &&& o1[b].node == o2[b].node
            &&& o1[b].style == o2[b].style
            &&& o1[b].kind == o2[b].kind
            &&& o1[b].parent == o2[b].parent
            &&& o1[b].children@ == o2[b].children@
        }
}

proof fn lemma_base_agree(
    o1: Seq<LayoutObject>,
    o2: Seq<LayoutObject>,
    bo: Seq<Option<usize>>,
    nodes: Seq<Node>,
    rules: Seq<Rule>,
    viewport: u64,
    b: int,
)
    requires
        twin_layouts(o1, o2, bo, nodes, rules, viewport),
        0 <= b < o1.len(),
    ensures
        o1[b].avail == o2[b].avail,
        lines_view(o1[b].lines@) == lines_view(o2[b].lines@) || o1[b].kind != LayoutObjectKind::Text,
        o1[b].kind == LayoutObjectKind::Block ==> o1[b].size.width == o2[b].size.width,
        o1[b].kind == LayoutObjectKind::Text ==> o1[b].size == o2[b].size,
        o1[b].kind == LayoutObjectKind::Inline && replaced_size(nodes[o1[b].node as int].kind) is Some
            ==> o1[b].size == o2[b].size,
    decreases b,
{
    lemma_box_facts(o1, bo, nodes, rules, b);
    assert(o1[b].node == o2[b].node);
    if b > 0 {
        let p = o1[b].parent.unwrap() as int;
        lemma_base_agree(o1, o2, bo, nodes, rules, viewport, p);
        assert(o2[b].parent == o1[b].parent);
    }
    assert(parent_avail(o1, viewport, b) == parent_avail(o2, viewport, b));
    assert(base_ok(o1, nodes, viewport, b));
    assert(base_ok(o2, nodes, viewport, b));
}

proof fn lemma_offsets_agree(
    o1: Seq<LayoutObject>,
    o2: Seq<LayoutObject>,
    bo: Seq<Option<usize>>,
    nodes: Seq<Node>,
    rules: Seq<Rule>,
    viewport: u64,
    b: int,
    j: int,
)
    requires
        twin_layouts(o1, o2, bo, nodes, rules, viewport),
        0 <= b < o1.len(),
        0 <= j < o1[b].children@.len(),
        forall|k: int|
            0 <= k < o1[b].children@.len() ==> o1[o1[b].children@[k] as int].size
                == #[trigger] o2[o1[b].children@[k] as int].size,
    ensures
        o1[o1[b].children@[j] as int].offset == o2[o1[b].children@[j] as int].offset,
    decreases j,
{
    lemma_box_facts(o1, bo, nodes, rules, b);
    let ch = o1[b].children@;
    assert(o2[b].children@ == ch);
    assert(offsets_ok(o1, b));
    assert(offsets_ok(o2, b));
    assert(o1[ch[j] as int].offset == flow_offset(o1, b, j));
    assert(o2[o2[b].children@[j] as int].offset == flow_offset(o2, b, j));
    let c = ch[j] as int;
    assert(o1[c].kind == o2[c].kind && o1[c].style == o2[c].style);
    if j > 0 {
        lemma_offsets_agree(o1, o2, bo, nodes, rules, viewport, b, j - 1);
        let q = ch[j - 1] as int;
        assert(o1[q].kind == o2[q].kind);
        assert(o1[q].size == o2[q].size);
    }
}

proof fn lemma_flow_agree(
    o1: Seq<LayoutObject>,
    o2: Seq<LayoutObject>,
    bo: Seq<Option<usize>>,
    nodes: Seq<Node>,
    rules: Seq<Rule>,
    viewport: u64,
    b: int,
)
    requires
        twin_layouts(o1, o2, bo, nodes, rules, viewport),
        0 <= b < o1.len(),
    ensures
        o1[b].size == o2[b].size,
        forall|j: int|
            0 <= j < o1[b].children@.len() ==> o1[o1[b].children@[j] as int].offset
                == #[trigger] o2[o1[b].children@[j] as int].offset,
    decreases o1.len() - b,
{
    lemma_box_facts(o1, bo, nodes, rules, b);
    let ch = o1[b].children@;
    assert forall|k: int| 0 <= k < ch.len() implies o1[ch[k] as int].size == #[trigger] o2[ch[k] as int].size by {
        lemma_flow_agree(o1, o2, bo, nodes, rules, viewport, ch[k] as int);
    }
    assert forall|j: int| 0 <= j < ch.len() implies o1[ch[j] as int].offset == #[trigger] o2[ch[j] as int].offset by {
        lemma_offsets_agree(o1, o2, bo, nodes, rules, viewport, b, j);
    }
    lemma_base_agree(o1, o2, bo, nodes, rules, viewport, b);
    assert(o2[b].children@ == ch);
    if ch.len() > 0 {
        assert(ch[ch.len() - 1] == ch.last());
        let l = ch.last() as int;
        assert(o1[l].offset == o2[l].offset);
        assert(o1[l].size == o2[l].size);
    }
    assert(extent(o1, b) == extent(o2, b));
    assert(flow_size_ok(o1, nodes, b));
    assert(flow_size_ok(o2, nodes, b));
    assert(o1[b].node == o2[b].node);
}

proof fn lemma_points_agree(
    o1: Seq<LayoutObject>,
    o2: Seq<LayoutObject>,
    bo: Seq<Option<usize>>,
    nodes: Seq<Node>,
    rules: Seq<Rule>,
    viewport: u64,
    b: int,
)
    requires
        twin_layouts(o1, o2, bo, nodes, rules, viewport),
        0 <= b < o1.len(),
    ensures
        o1[b].point == o2[b].point,
    decreases b,
{
    lemma_box_facts(o1, bo, nodes, rules, b);
    assert(point_ok(o1, b));
    assert(point_ok(o2, b));
    if b > 0 {
        let p = o1[b].parent.unwrap() as int;
        lemma_points_agree(o1, o2, bo, nodes, rules, viewport, p);
        reveal(children_ok);
        assert(o1[p].children@.contains(b as usize));
        let j = choose|j: int| 0 <= j < o1[p].children@.len() && o1[p].children@[j] == b as usize;
        lemma_flow_agree(o1, o2, bo, nodes, rules, viewport, p);
        assert(o1[o1[p].children@[j] as int].offset == o2[o1[p].children@[j] as int].offset);
        assert(o2[b].parent == o1[b].parent);
    }
}

/// Two box trees laid out for the same document, rules and viewport agree
/// on every box.
pub proof fn lemma_layout_unique(v1: LayoutView, v2: LayoutView, nodes: Seq<Node>, rules: Seq<Rule>)
    requires
        v1.laid_out(nodes, rules),
        v2.laid_out(nodes, rules),
        v1.viewport_width == v2.viewport_width,
    ensures
        boxes_agree(v1.objects@, v2.objects@),
{
    let o1 = v1.objects@;
    let o2 = v2.objects@;
    lemma_structures_agree(o1, o2, v1.box_of@, v2.box_of@, nodes, rules);
    let vp = v1.viewport_width;
    assert(o1.len() == v1.objects.len());
    assert(twin_layouts(o1, o2, v1.box_of@, nodes, rules, vp));
    assert forall|b: int| #![trigger o1[b], o2[b]] 0 <= b < o1.len() implies {
        &&& o1[b].node == o2[b].node
        &&& o1[b].kind == o2[b].kind
        &&& o1[b].style == o2[b].style
        &&& o1[b].point == o2[b].point
        &&& o1[b].size == o2[b].size
        &&& (o1[b].kind == LayoutObjectKind::Text ==> lines_view(o1[b].lines@) == lines_view(
            o2[b].lines@,
        ))
    } by {
        lemma_points_agree(o1, o2, v1.box_of@, nodes, rules, vp, b);
        lemma_flow_agree(o1, o2, v1.box_of@, nodes, rules, vp, b);
        lemma_base_agree(o1, o2, v1.box_of@, nodes, rules, vp, b);
    }
}

} // verus!
