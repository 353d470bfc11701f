//! A page: the session state that drives parsing, script settling, layout
//! and painting, and that answers clicks and key presses.
use crate::css::StyleSheet;
use crate::display_item::{items_view, painted, paint, DisplayItem};
use crate::dom::{attribute_value, Document, ElementKind, NodeKind};
use crate::css_parse::{rules_view, sheet_rules, style_text_upto};
use crate::error::Error;
use crate::html::html_document;
use crate::http::HttpResponse;
use crate::layout::{box_contains, LayoutView, CONTENT_AREA_WIDTH};
use crate::text::{push_char, str_eq};
use vstd::prelude::*;
use vstd::string::StrSliceExecFns;
use vstd::string::StringExecFns;

verus! {

/// The most times scripts may change a document before the page gives up
/// waiting for it to settle.
pub const MAX_SCRIPT_ROUNDS: usize = 16;

/// A resource fetched out of band for a page, keyed by its source URL.
#[derive(Debug, Clone, PartialEq, Eq)]
pub struct Subresource {
    pub src: String,
    pub resource: String,
}

impl Subresource {
    /// A resource not fetched yet.
    pub fn new(src: String) -> (r: Subresource)
        ensures
            r.src@ == src@,
            r.resource@ == Seq::<char>::empty(),
    {
        Subresource { src, resource: String::new() }
    }
}

/// Node `i` of `doc` is a text field.
pub open spec fn is_input_node(doc: Document, i: int) -> bool {
    &&& 0 <= i < doc.nodes@.len()
    &&& doc.nodes@[i].kind matches NodeKind::Element(e) && e.kind == ElementKind::Input
}

/// The current value of node `i`, if it is an element with one.
pub open spec fn value_of(doc: Document, i: int) -> Option<Seq<char>> {
    match doc.nodes@[i].kind {
        NodeKind::Element(e) => match e.value {
            Some(v) => Some(v@),
            None => None,
        },
        _ => None,
    }
}

/// The kind and attribute views of element `i`.
pub open spec fn element_kind_and_attributes(doc: Document, i: int) -> Option<(ElementKind, Seq<(Seq<char>, Seq<char>)>)> {
    match doc.nodes@[i].kind {
        NodeKind::Element(e) => Some((e.kind, e.attributes@.map_values(|a: crate::dom::Attribute| (a.name@, a.value@)))),
        _ => None,
    }
}

/// A key that deletes the last character.
pub open spec fn is_delete_key(key: char) -> bool {
    key == '\u{7f}' || key == '\u{8}'
}

/// A key that types itself: a printable ASCII character or a space.
pub open spec fn is_typing_key(key: char) -> bool {
    ' ' <= key <= '~'
}

/// The value a text field holds after `key` is pressed on it.
pub open spec fn edited(value: Seq<char>, key: char) -> Seq<char> {
    if is_delete_key(key) {
        if value.len() == 0 {
            value
        } else {
            value.drop_last()
        }
    } else if is_typing_key(key) {
        value.push(key)
    } else {
        value
    }
}

/// A script run over a document reports a changed document, or `None` when it
/// left the document alone. `m` measures how much change a script still has
/// in it when every change it makes lowers `m`.
pub open spec fn shrinks<F: Fn(&Document) -> Option<Document>>(
    script: F,
    m: spec_fn(Document) -> nat,
) -> bool {
    forall|d: Document, n: Document| #[trigger] call_ensures(script, (&d,), Some(n)) ==> m(n) < m(d)
}

/// Each document of `ds` is the change the script reported on the one before.
pub open spec fn script_chain<F: Fn(&Document) -> Option<Document>>(script: F, ds: Seq<Document>) -> bool {
    forall|k: int| 0 <= k < ds.len() - 1 ==> #[trigger] call_ensures(script, (&ds[k],), Some(ds[k + 1]))
}

/// `to` is reached from `from` by exactly `n` changes of the script.
pub open spec fn reached_by<F: Fn(&Document) -> Option<Document>>(
    script: F,
    from: Document,
    to: Document,
    n: nat,
) -> bool {
    exists|ds: Seq<Document>|
        ds.len() == n + 1 && ds[0] == from && ds.last() == to && #[trigger] script_chain(script, ds)
}

/// Runs `script` over the document until a run leaves it alone, at most
/// `MAX_SCRIPT_ROUNDS` times. Returns the settled document and the number of
/// changes, or, when every allowed run changed it, the last document.
pub fn settle<F: Fn(&Document) -> Option<Document>>(dom: Document, script: &F) -> (r: (
    Document,
    usize,
    bool,
))
    requires
        dom.wf(),
        forall|d: &Document| d.wf() ==> #[trigger] call_requires(*script, (d,)),
        forall|d: &Document, o: Option<Document>|
            d.wf() && #[trigger] call_ensures(*script, (d,), o) ==> (o matches Some(n) ==> n.wf()),
    ensures
        r.0.wf(),
        r.1 <= MAX_SCRIPT_ROUNDS,
        r.2 ==> call_ensures(*script, (&r.0,), None),
        !r.2 ==> r.1 == MAX_SCRIPT_ROUNDS,
        reached_by(*script, dom, r.0, r.1 as nat),
        forall|m: spec_fn(Document) -> nat|
            shrinks(*script, m) && m(dom) < MAX_SCRIPT_ROUNDS ==> r.2 && r.1 <= m(dom),
{
    let ghost start = dom;
    let mut cur = dom;
    let mut rounds: usize = 0;
    let ghost mut trace: Seq<Document> = seq![start];
    assert(script_chain(*script, trace));
    while rounds < MAX_SCRIPT_ROUNDS
        invariant
            cur.wf(),
            rounds <= MAX_SCRIPT_ROUNDS,
            forall|d: &Document| d.wf() ==> #[trigger] call_requires(*script, (d,)),
            forall|d: &Document, o: Option<Document>|
                d.wf() && #[trigger] call_ensures(*script, (d,), o) ==> (o matches Some(n) ==> n.wf()),
            forall|m: spec_fn(Document) -> nat| shrinks(*script, m) ==> m(cur) + rounds <= m(start),
            trace.len() == rounds + 1,
            start == dom,
            trace[0] == start,
            trace.last() == cur,
            script_chain(*script, trace),
        decreases MAX_SCRIPT_ROUNDS - rounds,
    {
        match script(&cur) {
            None => {
                assert(script_chain(*script, trace));
                assert(reached_by(*script, dom, cur, rounds as nat));
                return (cur, rounds, true);
            },
            Some(next) => {
                proof {
                    assert forall|m: spec_fn(Document) -> nat| shrinks(*script, m) implies m(next) + rounds
                        + 1 <= m(start) by {
                        assert(call_ensures(*script, (&cur,), Some(next)));
                    }
                    let t2 = trace.push(next);
                    assert forall|k: int| 0 <= k < t2.len() - 1 implies #[trigger] call_ensures(
                        *script,
                        (&t2[k],),
                        Some(t2[k + 1]),
                    ) by {
                        if k < trace.len() - 1 {
                            assert(t2[k] == trace[k] && t2[k + 1] == trace[k + 1]);
                        } else {
                            assert(t2[k] == cur && t2[k + 1] == next);
                        }
                    }
                    trace = t2;
                }
                cur = next;
                rounds = rounds + 1;
            },
        }
    }
    assert(script_chain(*script, trace));
    assert(reached_by(*script, dom, cur, rounds as nat));
    (cur, rounds, false)
}

/// A page.
#[derive(Debug)]
pub struct Page {
    pub dom: Option<Document>,
    pub style: Option<StyleSheet>,
    pub layout_view: Option<LayoutView>,
    pub subresources: Vec<Subresource>,
    pub display_items: Vec<DisplayItem>,
    /// Whether the last script run changed the document.
    pub modified: bool,
    /// The text field that receives key presses, by node index.
    pub focused_input: Option<usize>,
    pub viewport_width: u64,
}

impl Page {
    /// The document is well formed; a box tree stands for nodes of the
    /// current document, with resolved styles; at most one text field, which
    /// exists, has focus.
    pub open spec fn wf(&self) -> bool {
        &&& (self.dom matches Some(d) ==> d.wf())
        &&& (self.layout_view matches Some(v) ==> {
            &&& self.dom is Some
            &&& self.style is Some
            &&& boxes_fit(v, self.dom.unwrap().nodes@)
        })
        &&& (self.focused_input matches Some(i) ==> self.dom is Some && is_input_node(
            self.dom.unwrap(),
            i as int,
        ))
    }

    /// The box tree is the layout of the current document and style sheet.
    pub open spec fn laid_out_now(&self) -> bool {
        &&& self.dom is Some
        &&& self.style is Some
        &&& self.layout_view matches Some(v) && v.laid_out(
            self.dom.unwrap().nodes@,
            self.style.unwrap().rules@,
        )
        &&& self.layout_view.unwrap().viewport_width == self.viewport_width
    }

    /// The display list is what painting the current box tree gives.
    pub open spec fn painted_now(&self) -> bool {
        self.layout_view matches Some(v) && items_view(self.display_items@) == painted(
            v.objects@,
            self.dom.unwrap().nodes@,
        )
    }

    pub fn new() -> (r: Page)
        ensures
            r.wf(),
            r.dom is None,
            r.style is None,
            r.layout_view is None,
            r.display_items@.len() == 0,
            r.subresources@.len() == 0,
            r.focused_input is None,
            !r.modified,
            r.viewport_width == CONTENT_AREA_WIDTH,
    {
        Page {
            dom: None,
            style: None,
            layout_view: None,
            subresources: Vec::new(),
            display_items: Vec::new(),
            modified: false,
            focused_input: None,
            viewport_width: CONTENT_AREA_WIDTH,
        }
    }

    /// Rebuilds the box tree from the current document and style sheet; does
    /// nothing when either is missing.
    fn set_layout_view(&mut self)
        requires
            old(self).wf(),
        ensures
            final(self).wf(),
            final(self).dom == old(self).dom,
            final(self).style == old(self).style,
            final(self).display_items == old(self).display_items,
            final(self).focused_input == old(self).focused_input,
            final(self).subresources == old(self).subresources,
            final(self).viewport_width == old(self).viewport_width,
            final(self).modified == old(self).modified,
            old(self).dom is Some && old(self).style is Some ==> final(self).laid_out_now(),
            !(old(self).dom is Some && old(self).style is Some) ==> final(self).layout_view
                == old(self).layout_view,
    {
        match (&self.dom, &self.style) {
            (Some(dom), Some(style)) => {
                let view = LayoutView::new(dom, style, self.viewport_width);
                proof {
                    lemma_boxes_paintable(view, dom.nodes@, style.rules@);
                }
                self.layout_view = Some(view);
            },
            _ => {},
        }
    }

    /// Replaces the display list with the painting of the box tree, if any.
    fn paint_tree(&mut self)
        requires
            old(self).wf(),
        ensures
            final(self).wf(),
            final(self).dom == old(self).dom,
            final(self).style == old(self).style,
            final(self).layout_view == old(self).layout_view,
            final(self).focused_input == old(self).focused_input,
            final(self).subresources == old(self).subresources,
            final(self).viewport_width == old(self).viewport_width,
            final(self).modified == old(self).modified,
            old(self).layout_view is Some ==> final(self).painted_now(),
            old(self).laid_out_now() ==> final(self).laid_out_now(),
            old(self).layout_view is None ==> final(self).display_items == old(self).display_items,
    {
        match (&self.layout_view, &self.dom) {
            (Some(view), Some(dom)) => {
                self.display_items = paint(view, dom);
            },
            _ => {},
        }
    }

    /// Lays out and paints the current document again, without parsing or
    /// running scripts: what makes edits to text fields visible.
    pub fn refresh_display(&mut self)
        requires
            old(self).wf(),
        ensures
            final(self).wf(),
            final(self).dom == old(self).dom,
            final(self).style == old(self).style,
            final(self).focused_input == old(self).focused_input,
            final(self).subresources == old(self).subresources,
            final(self).viewport_width == old(self).viewport_width,
            final(self).modified == old(self).modified,
            old(self).dom is Some && old(self).style is Some ==> final(self).painted_now()
                && final(self).laid_out_now(),
            !(old(self).dom is Some && old(self).style is Some) ==> final(self).display_items
                == old(self).display_items && final(self).layout_view == old(self).layout_view,
    {
        self.set_layout_view();
        self.paint_tree();
    }

    /// Loads a response: reads its body into a document, runs `script` until
    /// the document settles, then lays out and paints it. A page whose scripts
    /// keep changing the document for `MAX_SCRIPT_ROUNDS` runs is left as it
    /// was, and the error says so.
    pub fn receive_response_with_script<F: Fn(&Document) -> Option<Document>>(
        &mut self,
        response: HttpResponse,
        script: F,
    ) -> (r: Result<(), Error>)
        requires
            old(self).wf(),
            forall|d: &Document| d.wf() ==> #[trigger] call_requires(script, (d,)),
            forall|d: &Document, o: Option<Document>|
                d.wf() && #[trigger] call_ensures(script, (d,), o) ==> (o matches Some(n) ==> n.wf()),
        ensures
            final(self).wf(),
            r is Ok ==> {
                &&& final(self).dom matches Some(d) && call_ensures(script, (&d,), None)
                &&& exists|d0: Document, k: nat|
                    d0.view() == html_document(response.body@) && #[trigger] reached_by(
                        script,
                        d0,
                        final(self).dom.unwrap(),
                        k,
                    )
                &&& final(self).style matches Some(st) && rules_view(st.rules@) == sheet_rules(
                    style_text_upto(final(self).dom.unwrap().nodes@, final(self).dom.unwrap().nodes@.len() as int),
                )
                &&& final(self).laid_out_now()
                &&& final(self).painted_now()
                &&& final(self).focused_input is None
                &&& !final(self).modified
                &&& final(self).subresources == old(self).subresources
            },
            r is Err ==> *final(self) == *old(self),
            r matches Err(e) ==> e is Other,
            (forall|d: &Document, o: Option<Document>| #[trigger] call_ensures(script, (d,), o) ==> o is None)
                ==> r is Ok,
            forall|m: spec_fn(Document) -> nat|
                shrinks(script, m) && (forall|d: Document|
                    d.view() == html_document(response.body@) ==> #[trigger] m(d) < MAX_SCRIPT_ROUNDS)
                    ==> r is Ok,
    {
        let dom = crate::html::parse_html(response.body.as_str());
        let ghost parsed = dom;
        let (dom, rounds, settled) = settle(dom, &script);
        proof {
            if forall|d: &Document, o: Option<Document>| #[trigger] call_ensures(script, (d,), o) ==> o is None {
                let m = |d: Document| 0nat;
                assert(shrinks(script, m));
            }
            assert forall|m: spec_fn(Document) -> nat|
                shrinks(script, m) && (forall|d: Document|
                    d.view() == html_document(response.body@) ==> #[trigger] m(d) < MAX_SCRIPT_ROUNDS)
                    implies settled by {
                assert(m(parsed) < MAX_SCRIPT_ROUNDS);
            }
        }
        if !settled {
            return Err(Error::Other(String::from_str("scripts did not settle")));
        }
        let sheet = crate::css_parse::parse_stylesheet(crate::css_parse::style_text(&dom).as_str());
        self.dom = Some(dom);
        self.style = Some(sheet);
        self.layout_view = None;
        self.focused_input = None;
        self.modified = false;
        self.set_layout_view();
        self.paint_tree();
        proof {
            assert(reached_by(script, parsed, self.dom.unwrap(), rounds as nat));
        }
        Ok(())
    }

    /// Loads a response whose document runs no scripts: the page shows the
    /// document the body reads as, styled by the style sheet its `style`
    /// elements hold.
    pub fn receive_response(&mut self, response: HttpResponse)
        requires
            old(self).wf(),
        ensures
            final(self).wf(),
            final(self).dom matches Some(d) && d.view() == html_document(response.body@),
            final(self).style matches Some(st) && rules_view(st.rules@) == sheet_rules(
                style_text_upto(final(self).dom.unwrap().nodes@, final(self).dom.unwrap().nodes@.len() as int),
            ),
            !final(self).modified,
            final(self).laid_out_now(),
            final(self).painted_now(),
            final(self).focused_input is None,
            final(self).subresources == old(self).subresources,
    {
        let no_script = |d: &Document| -> (o: Option<Document>)
            ensures
                o is None,
            { None };
        let ghost body = response.body@;
        let r = self.receive_response_with_script(response, no_script);
        proof {
            assert(r is Ok);
            let (d0, k) = choose|d0: Document, k: nat|
                d0.view() == html_document(body) && #[trigger] reached_by(
                    no_script,
                    d0,
                    self.dom.unwrap(),
                    k,
                );
            let ds = choose|ds: Seq<Document>|
                ds.len() == k + 1 && ds[0] == d0 && ds.last() == self.dom.unwrap() && #[trigger] script_chain(
                    no_script,
                    ds,
                );
            if k > 0 {
                assert(call_ensures(no_script, (&ds[0],), Some(ds[1])));
            }
        }
    }

    /// A click at `position`, relative to the content area. A click on a text
    /// field focuses it. Any other click clears the focus, and a click on a
    /// node whose parent is a link returns the link's target.
    pub fn clicked(&mut self, position: (i64, i64)) -> (r: Option<String>)
        requires
            old(self).wf(),
        ensures
            final(self).wf(),
            final(self).dom == old(self).dom,
            final(self).style == old(self).style,
            final(self).layout_view == old(self).layout_view,
            final(self).display_items == old(self).display_items,
            final(self).subresources == old(self).subresources,
            final(self).modified == old(self).modified,
            final(self).viewport_width == old(self).viewport_width,
            ({
                let hit = hit_node(*old(self), position.0 as int, position.1 as int);
                let dom = old(self).dom.unwrap();
                &&& (hit is Some && is_input_node(dom, hit.unwrap())) ==> final(self).focused_input
                    == Some(hit.unwrap() as usize) && r is None
                &&& !(hit is Some && is_input_node(dom, hit.unwrap())) ==> final(self).focused_input is None
                &&& (hit is Some && !is_input_node(dom, hit.unwrap())) ==> opt_str_view(r) == link_target(
                    dom,
                    hit.unwrap(),
                )
                &&& hit is None ==> r is None
            }),
    {
        let (dom, view) = match (&self.dom, &self.layout_view) {
            (Some(d), Some(v)) => (d, v),
            _ => {
                self.focused_input = None;
                return None;
            },
        };
        let b = match view.find_node_by_position(position.0, position.1) {
            Some(b) => b,
            None => {
                self.focused_input = None;
                return None;
            },
        };
        proof {
            let x = position.0 as int;
            let y = position.1 as int;
            let objs = view.objects@;
            let c = choose|c: int|
                0 <= c < objs.len() && box_contains(objs[c], x, y) && forall|e: int|
                    c < e < objs.len() ==> !box_contains(#[trigger] objs[e], x, y);
            if c < b {
                assert(!box_contains(objs[b as int], x, y));
            }
            if b < c {
                assert(!box_contains(objs[c], x, y));
            }
            assert(c == b);
        }
        let n = view.objects[b].node;
        let is_input = match &dom.nodes[n].kind {
            NodeKind::Element(e) => e.kind == ElementKind::Input,
            _ => false,
        };
        if is_input {
            self.focused_input = Some(n);
            return None;
        }
        let target = link_target_exec(dom, n);
        self.focused_input = None;
        target
    }

    /// A key press for the focused text field: a delete key removes the last
    /// character (nothing, when the value is empty), a printable ASCII
    /// character or a space is appended, and any other key is ignored.
    /// Returns whether the key was applied to a focused text field.
    pub fn handle_input(&mut self, key: char) -> (r: bool)
        requires
            old(self).wf(),
        ensures
            final(self).wf(),
            r == (old(self).focused_input is Some && (is_delete_key(key) || is_typing_key(key))),
            final(self).style == old(self).style,
            final(self).layout_view == old(self).layout_view,
            final(self).display_items == old(self).display_items,
            final(self).focused_input == old(self).focused_input,
            final(self).subresources == old(self).subresources,
            final(self).modified == old(self).modified,
            final(self).viewport_width == old(self).viewport_width,
            !r ==> final(self).dom == old(self).dom,
            r ==> {
                let i = old(self).focused_input.unwrap() as int;
                let before = old(self).dom.unwrap();
                let after = final(self).dom.unwrap();
                &&& final(self).dom is Some
                &&& after.nodes@.len() == before.nodes@.len()
                &&& value_of(after, i) == Some(
                    edited(
                        match value_of(before, i) {
                            Some(v) => v,
                            None => Seq::empty(),
                        },
                        key,
                    ),
                )
                &&& after.nodes@[i].parent == before.nodes@[i].parent
                &&& element_kind_and_attributes(after, i) == element_kind_and_attributes(before, i)
                &&& forall|k: int|
                    0 <= k < before.nodes@.len() && k != i ==> after.nodes@[k] == before.nodes@[k]
            },
    {
        let i = match self.focused_input {
            Some(i) => i,
            None => return false,
        };
        if !(key == '\u{7f}' || key == '\u{8}' || (' ' <= key && key <= '~')) {
            return false;
        }
        match &mut self.dom {
            Some(dom) => edit_value(dom, i, key),
            None => {},
        }
        true
    }

    pub fn has_focused_input(&self) -> (r: bool)
        ensures
            r == self.focused_input is Some,
    {
        self.focused_input.is_some()
    }

    /// Registers a resource to fetch out of band.
    pub fn push_url_for_subresource(&mut self, src: String)
        ensures
            final(self).subresources@.len() == old(self).subresources@.len() + 1,
            final(self).subresources@.last().src@ == src@,
            final(self).subresources@.last().resource@ == Seq::<char>::empty(),
            final(self).subresources@.drop_last() == old(self).subresources@,
            final(self).dom == old(self).dom,
            final(self).style == old(self).style,
            final(self).layout_view == old(self).layout_view,
            final(self).display_items == old(self).display_items,
            final(self).focused_input == old(self).focused_input,
    {
        self.subresources.push(Subresource::new(src));
        assert(self.subresources@.drop_last() =~= old(self).subresources@);
    }

    /// The bytes fetched for `src`: those of the first resource registered
    /// under it, or nothing when there is none.
    pub fn subresource(&self, src: String) -> (r: String)
        ensures
            r@ == subresource_of(self.subresources@, src@),
    {
        let mut i: usize = 0;
        assert(self.subresources@.skip(0) =~= self.subresources@);
        while i < self.subresources.len()
            invariant
                i <= self.subresources@.len(),
                subresource_of(self.subresources@, src@) == subresource_of(
                    self.subresources@.skip(i as int),
                    src@,
                ),
            decreases self.subresources@.len() - i,
        {
            let ghost rest = self.subresources@.skip(i as int);
            assert(rest.drop_first() =~= self.subresources@.skip(i + 1));
            if str_eq(self.subresources[i].src.as_str(), src.as_str()) {
                return self.subresources[i].resource.clone();
            }
            i = i + 1;
        }
        String::new()
    }

    /// A copy of the current display list.
    pub fn display_items(&self) -> (r: Vec<DisplayItem>)
        ensures
            items_view(r@) == items_view(self.display_items@),
    {
        let mut out: Vec<DisplayItem> = Vec::new();
        let mut i: usize = 0;
        while i < self.display_items.len()
            invariant
                i <= self.display_items@.len(),
                items_view(out@) =~= items_view(self.display_items@.subrange(0, i as int)),
            decreases self.display_items@.len() - i,
        {
            let ghost prev = out@;
            out.push(self.display_items[i].duplicate());
            proof {
                assert(items_view(out@) =~= items_view(prev).push(self.display_items@[i as int].view()));
            }
            i = i + 1;
            assert(items_view(out@) =~= items_view(self.display_items@.subrange(0, i as int)));
        }
        assert(self.display_items@.subrange(0, i as int) =~= self.display_items@);
        out
    }

    /// Empties the display list.
    pub fn clear_display_items(&mut self)
        ensures
            final(self).display_items@.len() == 0,
            final(self).dom == old(self).dom,
            final(self).style == old(self).style,
            final(self).layout_view == old(self).layout_view,
            final(self).focused_input == old(self).focused_input,
            final(self).subresources == old(self).subresources,
    {
        self.display_items = Vec::new();
    }
}

/// The resource registered first under `src`, or nothing.
pub open spec fn subresource_of(subs: Seq<Subresource>, src: Seq<char>) -> Seq<char>
    decreases subs.len(),
{
    if subs.len() == 0 {
        Seq::empty()
    } else if subs[0].src@ == src {
        subs[0].resource@
    } else {
        subresource_of(subs.drop_first(), src)
    }
}

pub open spec fn opt_str_view(s: Option<String>) -> Option<Seq<char>> {
    match s {
        Some(v) => Some(v@),
        None => None,
    }
}

/// The document node hit at `(x, y)`: that of the deepest box containing it.
pub open spec fn hit_node(page: Page, x: int, y: int) -> Option<int> {
    match page.layout_view {
        Some(v) => if exists|b: int| 0 <= b < v.objects@.len() && box_contains(v.objects@[b], x, y) {
            let b = choose|b: int|
                0 <= b < v.objects@.len() && box_contains(v.objects@[b], x, y) && forall|c: int|
                    b < c < v.objects@.len() ==> !box_contains(#[trigger] v.objects@[c], x, y);
            Some(v.objects@[b].node as int)
        } else {
            None
        },
        None => None,
    }
}

/// Where a click on node `n` leads: the `href` of its parent, when that is a link.
pub open spec fn link_target(doc: Document, n: int) -> Option<Seq<char>> {
    match doc.nodes@[n].parent {
        Some(p) => match doc.nodes@[p as int].kind {
            NodeKind::Element(e) => if e.kind == ElementKind::A {
                attribute_value(e.attributes@, "href"@)
            } else {
                None
            },
            _ => None,
        },
        None => None,
    }
}

fn link_target_exec(doc: &Document, n: usize) -> (r: Option<String>)
    requires
        doc.wf(),
        n < doc.nodes@.len(),
    ensures
        opt_str_view(r) == link_target(*doc, n as int),
{
    match doc.nodes[n].parent {
        Some(p) => match &doc.nodes[p].kind {
            NodeKind::Element(e) => if e.kind == ElementKind::A {
                e.get_attribute("href")
            } else {
                None
            },
            _ => None,
        },
        None => None,
    }
}

/// Applies `key` to the value of text field `i`.
fn edit_value(doc: &mut Document, i: usize, key: char)
    requires
        old(doc).wf(),
        is_input_node(*old(doc), i as int),
    ensures
        final(doc).wf(),
        final(doc).nodes@.len() == old(doc).nodes@.len(),
        is_input_node(*final(doc), i as int),
        value_of(*final(doc), i as int) == Some(
            edited(
                match value_of(*old(doc), i as int) {
                    Some(v) => v,
                    None => Seq::empty(),
                },
                key,
            ),
        ),
        forall|k: int|
            0 <= k < old(doc).nodes@.len() && k != i ==> final(doc).nodes@[k] == old(doc).nodes@[k],
        forall|k: int| 0 <= k < old(doc).nodes@.len() ==> final(doc).nodes@[k].parent == old(doc).nodes@[k].parent,
        element_kind_and_attributes(*final(doc), i as int) == element_kind_and_attributes(*old(doc), i as int),
{
    match &mut doc.nodes[i].kind {
        NodeKind::Element(e) => {
            let current = match &e.value {
                Some(v) => v.clone(),
                None => String::new(),
            };
            let next = if key == '\u{7f}' || key == '\u{8}' {
                let n = current.as_str().unicode_len();
                if n == 0 {
                    current
                } else {
                    String::from_str(current.as_str().substring_char(0, n - 1))
                }
            } else if ' ' <= key && key <= '~' {
                let mut v = current;
                push_char(&mut v, key);
                v
            } else {
                current
            };
            e.value = Some(next);
        },
        _ => {},
    }
}

/// Every box stands for a node of `nodes` and has a resolved style.
pub open spec fn boxes_fit(view: LayoutView, nodes: Seq<crate::dom::Node>) -> bool {
    forall|b: int|
        0 <= b < view.objects@.len() ==> (#[trigger] view.objects@[b]).node < nodes.len()
            && view.objects@[b].style.is_resolved()
}

proof fn lemma_boxes_paintable(view: LayoutView, nodes: Seq<crate::dom::Node>, rules: Seq<crate::css::Rule>)
    requires
        view.laid_out(nodes, rules),
    ensures
        boxes_fit(view, nodes),
{
    assert forall|b: int| 0 <= b < view.objects@.len() implies (#[trigger] view.objects@[b]).node
        < nodes.len() && view.objects@[b].style.is_resolved() by {
        crate::layout::lemma_box_facts(view.objects@, view.box_of@, nodes, rules, b);
    }
}

/// Two pages that hold the same document, style sheet and viewport, each
/// with its box tree laid out afresh and painted, show the same display
/// list: refreshing twice with nothing changed in between shows what one
/// refresh showed.
pub proof fn lemma_refresh_is_idempotent(p1: Page, p2: Page)
    requires
        p1.laid_out_now(),
        p1.painted_now(),
        p2.laid_out_now(),
        p2.painted_now(),
        p1.dom == p2.dom,
        p1.style == p2.style,
        p1.viewport_width == p2.viewport_width,
    ensures
        items_view(p1.display_items@) == items_view(p2.display_items@),
{
    let v1 = p1.layout_view.unwrap();
    let v2 = p2.layout_view.unwrap();
    let nodes = p1.dom.unwrap().nodes@;
    crate::layout::lemma_layout_unique(v1, v2, nodes, p1.style.unwrap().rules@);
    crate::display_item::lemma_painted_agree(v1.objects@, v2.objects@, nodes);
}

} // verus!
