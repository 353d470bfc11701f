//! A forgiving HTML reader that builds a document tree.
//!
//! Tags, attributes (quoted or bare) and text are recognised; comments and
//! declarations are skipped; the content of `script` and `style` elements is
//! kept as raw text; whitespace-only text is dropped. End tags close the
//! nearest open element of their kind, and stray end tags are ignored.
use crate::dom::{attributes_view, node_data, Attribute, Document, Element, ElementKind, Node, NodeData, NodeKind, NodeView};
use crate::text::{collect, str_eq, to_chars};
use vstd::prelude::*;

verus! {

pub open spec fn is_space(c: char) -> bool {
    c == ' ' || c == '\n' || c == '\t' || c == '\r'
}

pub(crate) fn is_space_exec(c: char) -> (r: bool)
    ensures
        r == is_space(c),
{
    c == ' ' || c == '\n' || c == '\t' || c == '\r'
}

/// The kind of element a tag name stands for.
pub open spec fn kind_of_name(name: Seq<char>) -> ElementKind {
    if name == "html"@ {
        ElementKind::Html
    } else if name == "head"@ {
        ElementKind::Head
    } else if name == "style"@ {
        ElementKind::Style
    } else if name == "script"@ {
        ElementKind::Script
    } else if name == "body"@ {
        ElementKind::Body
    } else if name == "h1"@ {
        ElementKind::H1
    } else if name == "h2"@ {
        ElementKind::H2
    } else if name == "p"@ {
        ElementKind::P
    } else if name == "pre"@ {
        ElementKind::Pre
    } else if name == "a"@ {
        ElementKind::A
    } else if name == "img"@ {
        ElementKind::Img
    } else if name == "input"@ {
        ElementKind::Input
    } else if name == "div"@ {
        ElementKind::Div
    } else if name == "span"@ {
        ElementKind::Span
    } else if name == "ul"@ {
        ElementKind::Ul
    } else if name == "li"@ {
        ElementKind::Li
    } else {
        ElementKind::Unknown
    }
}

/// The kind of element a tag name stands for.
pub(crate) fn element_kind_from_name(name: &str) -> (r: ElementKind)
    ensures
        r == kind_of_name(name@),
{
    if str_eq(name, "html") {
        ElementKind::Html
    } else if str_eq(name, "head") {
        ElementKind::Head
    } else if str_eq(name, "style") {
        ElementKind::Style
    } else if str_eq(name, "script") {
        ElementKind::Script
    } else if str_eq(name, "body") {
        ElementKind::Body
    } else if str_eq(name, "h1") {
        ElementKind::H1
    } else if str_eq(name, "h2") {
        ElementKind::H2
    } else if str_eq(name, "p") {
        ElementKind::P
    } else if str_eq(name, "pre") {
        ElementKind::Pre
    } else if str_eq(name, "a") {
        ElementKind::A
    } else if str_eq(name, "img") {
        ElementKind::Img
    } else if str_eq(name, "input") {
        ElementKind::Input
    } else if str_eq(name, "div") {
        ElementKind::Div
    } else if str_eq(name, "span") {
        ElementKind::Span
    } else if str_eq(name, "ul") {
        ElementKind::Ul
    } else if str_eq(name, "li") {
        ElementKind::Li
    } else {
        ElementKind::Unknown
    }
}

/// Elements that never have content.
pub open spec fn is_void(kind: ElementKind) -> bool {
    kind == ElementKind::Img || kind == ElementKind::Input
}

fn is_void_exec(kind: ElementKind) -> (r: bool)
    ensures
        r == is_void(kind),
{
    kind == ElementKind::Img || kind == ElementKind::Input
}

/// The characters a scan stops at.
#[derive(Clone, Copy, PartialEq, Eq, Structural)]
pub enum Stop {
    /// `>`
    TagEnd,
    /// `>` or a space, after `</`.
    EndTagName,
    /// `>`, `/` or a space, after `<`.
    StartTagName,
    /// `=`, `>`, `/` or a space.
    AttrName,
    /// The closing quote.
    Quote(char),
    /// `>` or a space, in an unquoted value.
    BareValue,
    /// `<`
    TagOpen,
}

pub open spec fn stops(k: Stop, c: char) -> bool {
    match k {
        Stop::TagEnd => c == '>',
        Stop::EndTagName => c == '>' || is_space(c),
        Stop::StartTagName => c == '>' || c == '/' || is_space(c),
        Stop::AttrName => c == '=' || c == '>' || c == '/' || is_space(c),
        Stop::Quote(q) => c == q,
        Stop::BareValue => c == '>' || is_space(c),
        Stop::TagOpen => c == '<',
    }
}

fn stops_exec(k: Stop, c: char) -> (r: bool)
    ensures
        r == stops(k, c),
{
    match k {
        Stop::TagEnd => c == '>',
        Stop::EndTagName => c == '>' || is_space_exec(c),
        Stop::StartTagName => c == '>' || c == '/' || is_space_exec(c),
        Stop::AttrName => c == '=' || c == '>' || c == '/' || is_space_exec(c),
        Stop::Quote(q) => c == q,
        Stop::BareValue => c == '>' || is_space_exec(c),
        Stop::TagOpen => c == '<',
    }
}

/// The first index at or after `i` whose character stops `k`, or the length.
pub open spec fn scan(cs: Seq<char>, i: int, k: Stop) -> int
    decreases cs.len() - i,
{
    if i < 0 || i >= cs.len() || stops(k, cs[i]) {
        i
    } else {
        scan(cs, i + 1, k)
    }
}

fn scan_exec(cs: &Vec<char>, from: usize, k: Stop) -> (r: usize)
    requires
        from <= cs@.len(),
    ensures
        r == scan(cs@, from as int, k),
        from <= r <= cs@.len(),
{
    let mut i = from;
    while i < cs.len() && !stops_exec(k, cs[i])
        invariant
            from <= i <= cs@.len(),
            scan(cs@, from as int, k) == scan(cs@, i as int, k),
        decreases cs@.len() - i,
    {
        i = i + 1;
    }
    i
}

/// The end of raw text that starts at `q`: the next `</`, or the length.
pub open spec fn raw_end(cs: Seq<char>, q: int) -> int
    decreases cs.len() - q,
{
    if q < 0 || q >= cs.len() || (cs[q] == '<' && q + 1 < cs.len() && cs[q + 1] == '/') {
        q
    } else {
        raw_end(cs, q + 1)
    }
}

fn raw_end_exec(cs: &Vec<char>, from: usize) -> (r: usize)
    requires
        from <= cs@.len(),
    ensures
        r == raw_end(cs@, from as int),
        from <= r <= cs@.len(),
{
    let mut q = from;
    while q < cs.len() && !(cs[q] == '<' && q + 1 < cs.len() && cs[q + 1] == '/')
        invariant
            from <= q <= cs@.len(),
            raw_end(cs@, from as int) == raw_end(cs@, q as int),
        decreases cs@.len() - q,
    {
        q = q + 1;
    }
    q
}

/// `cs[from..to]` is all spaces.
pub open spec fn all_space(cs: Seq<char>, from: int, to: int) -> bool {
    forall|m: int| from <= m < to ==> is_space(#[trigger] cs[m])
}

fn all_space_exec(cs: &Vec<char>, from: usize, to: usize) -> (r: bool)
    requires
        from <= to <= cs@.len(),
    ensures
        r == all_space(cs@, from as int, to as int),
{
    let mut i = from;
    while i < to
        invariant
            from <= i <= to <= cs@.len(),
            all_space(cs@, from as int, i as int),
        decreases to - i,
    {
        if !is_space_exec(cs[i]) {
            return false;
        }
        i = i + 1;
    }
    true
}

/// The value of an attribute whose name ends at `q`, and where reading goes
/// on after it.
pub open spec fn attr_value(cs: Seq<char>, q: int) -> (Seq<char>, int) {
    let n = cs.len();
    if 0 <= q < n && cs[q] == '=' {
        let q1 = q + 1;
        if q1 < n && (cs[q1] == '"' || cs[q1] == '\'') {
            let v = q1 + 1;
            let e = scan(cs, v, Stop::Quote(cs[q1]));
            (cs.subrange(v, e), if e < n {
                e + 1
            } else {
                e
            })
        } else {
            let e = scan(cs, q1, Stop::BareValue);
            (cs.subrange(q1, e), e)
        }
    } else {
        (Seq::empty(), q)
    }
}

/// The attributes of a start tag from `p` on: their `(name, value)` pairs,
/// whether a `/` marked the tag self-closing, and where the tag's `>` (or
/// the end of the text) is.
pub open spec fn attrs_from(cs: Seq<char>, p: int) -> (Seq<(Seq<char>, Seq<char>)>, bool, int)
    decreases cs.len() - p,
{
    if p < 0 || p >= cs.len() || cs[p] == '>' {
        (Seq::empty(), false, p)
    } else if is_space(cs[p]) {
        attrs_from(cs, p + 1)
    } else if cs[p] == '/' {
        let r = attrs_from(cs, p + 1);
        (r.0, true, r.2)
    } else {
        let q = scan(cs, p, Stop::AttrName);
        let v = attr_value(cs, q);
        let next = if v.1 == p {
            p + 1
        } else {
            v.1
        };
        if p < next <= cs.len() {
            let r = attrs_from(cs, next);
            (seq![(cs.subrange(p, q), v.0)] + r.0, r.1, r.2)
        } else {
            (Seq::empty(), false, p)
        }
    }
}

proof fn lemma_scan_bounds(cs: Seq<char>, i: int, k: Stop)
    requires
        0 <= i <= cs.len(),
    ensures
        i <= scan(cs, i, k) <= cs.len(),
    decreases cs.len() - i,
{
    if i < cs.len() && !stops(k, cs[i]) {
        lemma_scan_bounds(cs, i + 1, k);
    }
}

proof fn lemma_attrs_bounds(cs: Seq<char>, p: int)
    requires
        0 <= p <= cs.len(),
    ensures
        p <= attrs_from(cs, p).2 <= cs.len(),
    decreases cs.len() - p,
{
    if p < cs.len() && cs[p] != '>' {
        if is_space(cs[p]) || cs[p] == '/' {
            lemma_attrs_bounds(cs, p + 1);
        } else {
            let q = scan(cs, p, Stop::AttrName);
            lemma_scan_bounds(cs, p, Stop::AttrName);
            let v = attr_value(cs, q);
            if q < cs.len() && cs[q] == '=' {
                if q + 1 < cs.len() && (cs[q + 1] == '"' || cs[q + 1] == '\'') {
                    lemma_scan_bounds(cs, q + 2, Stop::Quote(cs[q + 1]));
                } else {
                    lemma_scan_bounds(cs, q + 1, Stop::BareValue);
                }
            }
            let next = if v.1 == p {
                p + 1
            } else {
                v.1
            };
            lemma_attrs_bounds(cs, next);
        }
    }
}

/// Reads one attribute that starts at `p`.
fn read_attribute(cs: &Vec<char>, p: usize) -> (r: (Attribute, usize))
    requires
        p < cs@.len(),
    ensures
        ({
            let q = scan(cs@, p as int, Stop::AttrName);
            let v = attr_value(cs@, q);
            &&& r.0.name@ == cs@.subrange(p as int, q)
            &&& r.0.value@ == v.0
            &&& r.1 == if v.1 == p {
                p + 1
            } else {
                v.1
            }
            &&& p < r.1 <= cs@.len()
        }),
{
    let n = cs.len();
    let q = scan_exec(cs, p, Stop::AttrName);
    let name = collect(cs, p, q);
    let mut value = String::new();
    let mut e = q;
    if q < n && cs[q] == '=' {
        let q1 = q + 1;
        if q1 < n && (cs[q1] == '"' || cs[q1] == '\'') {
            let v = q1 + 1;
            let end = scan_exec(cs, v, Stop::Quote(cs[q1]));
            value = collect(cs, v, end);
            e = if end < n {
                end + 1
            } else {
                end
            };
        } else {
            let end = scan_exec(cs, q1, Stop::BareValue);
            value = collect(cs, q1, end);
            e = end;
        }
    }
    let next = if e == p {
        p + 1
    } else {
        e
    };
    (Attribute::new(name, value), next)
}

// ---------------------------------------------------------------------------
// The stack of open elements always runs down the path from the root to the
// last node appended, so appending under its top keeps document order.
proof fn lemma_ancestor_push(doc: Document, new_doc: Document, a: int, i: int)
    requires
        new_doc.nodes@.len() == doc.nodes@.len() + 1,
        forall|k: int| 0 <= k < doc.nodes@.len() ==> #[trigger] new_doc.nodes@[k] == doc.nodes@[k],
        0 <= i < doc.nodes@.len(),
    ensures
        new_doc.is_ancestor_or_self(a, i) == doc.is_ancestor_or_self(a, i),
    decreases i,
{
    if a != i && 0 < i && 0 <= doc.parent_of(i) < i {
        lemma_ancestor_push(doc, new_doc, a, doc.parent_of(i));
    }
}

proof fn lemma_ancestor_trans(doc: Document, a: int, b: int, c: int)
    requires
        doc.is_ancestor_or_self(a, b),
        doc.is_ancestor_or_self(b, c),
    ensures
        doc.is_ancestor_or_self(a, c),
    decreases c,
{
    if b != c {
        lemma_ancestor_trans(doc, a, b, doc.parent_of(c));
    }
}

pub open spec fn stack_ok(doc: Document, stack: Seq<usize>) -> bool {
    &&& doc.wf()
    &&& stack.len() >= 1
    &&& stack[0] == 0
    &&& forall|k: int|
        0 <= k < stack.len() ==> #[trigger] stack[k] < doc.nodes@.len() && !(
        doc.nodes@[stack[k] as int].kind is Text)
    &&& forall|j: int, k: int|
        0 <= j <= k < stack.len() ==> doc.is_ancestor_or_self(
            #[trigger] stack[j] as int,
            #[trigger] stack[k] as int,
        )
    &&& doc.is_ancestor_or_self(stack.last() as int, doc.nodes@.len() - 1)
}

/// Appending a node under the innermost open element, which becomes open
/// itself when `open`. A full arena is left as it is.
pub open spec fn doc_append(doc: Seq<NodeView>, stack: Seq<usize>, data: NodeData, open: bool) -> (
    Seq<NodeView>,
    Seq<usize>,
) {
    if doc.len() >= usize::MAX {
        (doc, stack)
    } else {
        (
            doc.push(NodeView { data, parent: Some(stack.last()) }),
            if open {
                stack.push(doc.len() as usize)
            } else {
                stack
            },
        )
    }
}

/// Closing the innermost open element of `kind` among `stack[1..=k]`, with
/// everything opened after it.
pub open spec fn close_from(doc: Seq<NodeView>, stack: Seq<usize>, kind: ElementKind, k: int) -> Seq<usize>
    decreases k,
{
    if k <= 0 {
        stack
    } else if doc[stack[k] as int].data matches NodeData::Element(ek, _, _) && ek == kind {
        stack.subrange(0, k)
    } else {
        close_from(doc, stack, kind, k - 1)
    }
}

/// One token read at `pos`: where reading goes on, the document, and the
/// stack of open elements after it.
pub open spec fn html_step(cs: Seq<char>, pos: int, doc: Seq<NodeView>, stack: Seq<usize>) -> (
    int,
    Seq<NodeView>,
    Seq<usize>,
) {
    let n = cs.len();
    if cs[pos] == '<' && pos + 1 < n && cs[pos + 1] == '/' {
        let start = pos + 2;
        let p = scan(cs, start, Stop::EndTagName);
        let p2 = scan(cs, p, Stop::TagEnd);
        (
            if p2 < n {
                p2 + 1
            } else {
                n as int
            },
            doc,
            close_from(doc, stack, kind_of_name(cs.subrange(start, p)), stack.len() - 1),
        )
    } else if cs[pos] == '<' && pos + 1 < n && cs[pos + 1] == '!' {
        let p = scan(cs, pos + 2, Stop::TagEnd);
        (
            if p < n {
                p + 1
            } else {
                n as int
            },
            doc,
            stack,
        )
    } else if cs[pos] == '<' {
        let start = pos + 1;
        let p = scan(cs, start, Stop::StartTagName);
        let kind = kind_of_name(cs.subrange(start, p));
        let a = attrs_from(cs, p);
        let open = !a.1 && !is_void(kind);
        let s1 = doc_append(doc, stack, NodeData::Element(kind, a.0, None), open);
        let pos1 = if a.2 < n {
            a.2 + 1
        } else {
            n as int
        };
        if open && (kind == ElementKind::Script || kind == ElementKind::Style) {
            let q = raw_end(cs, pos1);
            let s2 = if q > pos1 {
                doc_append(s1.0, s1.1, NodeData::Text(cs.subrange(pos1, q)), false)
            } else {
                s1
            };
            (q, s2.0, s2.1)
        } else {
            (pos1, s1.0, s1.1)
        }
    } else {
        let q = scan(cs, pos, Stop::TagOpen);
        let s1 = if !all_space(cs, pos, q) {
            doc_append(doc, stack, NodeData::Text(cs.subrange(pos, q)), false)
        } else {
            (doc, stack)
        };
        (
            if q > pos {
                q
            } else {
                q + 1
            },
            s1.0,
            s1.1,
        )
    }
}

/// The document read from `pos` on, given the document and open elements so far.
pub open spec fn html_from(cs: Seq<char>, pos: int, doc: Seq<NodeView>, stack: Seq<usize>) -> Seq<NodeView>
    decreases cs.len() - pos,
{
    if pos < 0 || pos >= cs.len() {
        doc
    } else {
        let st = html_step(cs, pos, doc, stack);
        if pos < st.0 <= cs.len() {
            html_from(cs, st.0, st.1, st.2)
        } else {
            doc
        }
    }
}

/// The document tree an HTML text reads as.
pub open spec fn html_document(text: Seq<char>) -> Seq<NodeView> {
    html_from(text, 0, seq![NodeView { data: NodeData::Document, parent: None }], seq![0usize])
}

/// Appends `kind` under the innermost open element; when `open`, the new
/// node becomes the innermost open element.
fn append_node(doc: &mut Document, stack: &mut Vec<usize>, kind: NodeKind, open: bool)
    requires
        stack_ok(*old(doc), old(stack)@),
        !(kind is Document),
        open ==> !(kind is Text),
    ensures
        stack_ok(*final(doc), final(stack)@),
        (final(doc).view(), final(stack)@) == doc_append(old(doc).view(), old(stack)@, node_data(kind), open),
{
    if doc.nodes.len() == usize::MAX {
        return;
    }
    let top = stack[stack.len() - 1];
    let ghost old_doc = *doc;
    let ghost old_stack = stack@;
    let ghost pushed = Node { kind, parent: Some(top) };
    let n = doc.append(top, kind);
    proof {
        assert(doc.view() =~= old_doc.view().push(pushed.view()));
        assert forall|j: int, k: int| 0 <= j <= k < old_stack.len() implies doc.is_ancestor_or_self(
            #[trigger] old_stack[j] as int,
            #[trigger] old_stack[k] as int,
        ) by {
            lemma_ancestor_push(old_doc, *doc, old_stack[j] as int, old_stack[k] as int);
        }
        lemma_ancestor_push(old_doc, *doc, top as int, top as int);
        assert(doc.is_ancestor_or_self(top as int, n as int));
    }
    if open {
        stack.push(n);
        proof {
            assert forall|j: int, k: int| 0 <= j <= k < stack@.len() implies doc.is_ancestor_or_self(
                #[trigger] stack@[j] as int,
                #[trigger] stack@[k] as int,
            ) by {
                if k == stack@.len() - 1 && j < k {
                    lemma_ancestor_push(old_doc, *doc, old_stack[j] as int, top as int);
                    lemma_ancestor_trans(*doc, stack@[j] as int, top as int, n as int);
                }
            }
        }
    }
}

/// Closes the innermost open element of `kind`, with every element opened
/// after it; does nothing when none is open.
fn close_element(doc: &Document, stack: &mut Vec<usize>, kind: ElementKind)
    requires
        stack_ok(*doc, old(stack)@),
    ensures
        stack_ok(*doc, final(stack)@),
        final(stack)@ == close_from(doc.view(), old(stack)@, kind, old(stack)@.len() - 1),
{
    let mut k = stack.len() - 1;
    let ghost start = stack@;
    while k > 0
        invariant
            stack_ok(*doc, stack@),
            stack@ == start,
            start == old(stack)@,
            k < stack@.len(),
            close_from(doc.view(), start, kind, start.len() - 1) == close_from(doc.view(), start, kind, k as int),
        decreases k,
    {
        assert(doc.view()[stack@[k as int] as int] == doc.nodes@[stack@[k as int] as int].view());
        let matches = match &doc.nodes[stack[k]].kind {
            NodeKind::Element(e) => e.kind == kind,
            _ => false,
        };
        if matches {
            let ghost old_stack = stack@;
            proof {
                let d = doc.nodes@[stack@[k as int] as int];
                assert(d.kind is Element);
                assert(doc.view()[stack@[k as int] as int].data matches NodeData::Element(ek, _, _) && ek == kind);
                assert(close_from(doc.view(), start, kind, k as int) == start.subrange(0, k as int));
            }
            stack.truncate(k);
            proof {
                let last = (doc.nodes@.len() - 1) as int;
                lemma_ancestor_trans(*doc, stack@.last() as int, old_stack.last() as int, last);
                assert forall|i: int| 0 <= i < stack@.len() implies #[trigger] stack@[i] < doc.nodes@.len()
                    && !(doc.nodes@[stack@[i] as int].kind is Text) by {
                    assert(stack@[i] == old_stack[i]);
                }
                assert forall|i: int, j: int| 0 <= i <= j < stack@.len() implies doc.is_ancestor_or_self(
                    #[trigger] stack@[i] as int,
                    #[trigger] stack@[j] as int,
                ) by {
                    assert(stack@[i] == old_stack[i] && stack@[j] == old_stack[j]);
                }
                assert(stack@.last() == old_stack[k - 1]);
                assert(stack@ =~= start.subrange(0, k as int));
            }
            return;
        }
        k = k - 1;
    }
}

/// Reads the token at `pos`.
fn parse_step(cs: &Vec<char>, pos: usize, doc: &mut Document, stack: &mut Vec<usize>) -> (r: usize)
    requires
        pos < cs@.len(),
        stack_ok(*old(doc), old(stack)@),
    ensures
        stack_ok(*final(doc), final(stack)@),
        (r as int, final(doc).view(), final(stack)@) == html_step(cs@, pos as int, old(doc).view(), old(stack)@),
        pos < r <= cs@.len(),
{
    let n = cs.len();
    if cs[pos] == '<' && pos + 1 < n && cs[pos + 1] == '/' {
        // An end tag.
        let start = pos + 2;
        let p = scan_exec(cs, start, Stop::EndTagName);
        let name = collect(cs, start, p);
        let p2 = scan_exec(cs, p, Stop::TagEnd);
        close_element(doc, stack, element_kind_from_name(name.as_str()));
        if p2 < n {
            p2 + 1
        } else {
            n
        }
    } else if cs[pos] == '<' && pos + 1 < n && cs[pos + 1] == '!' {
        // A comment or a declaration.
        let p = scan_exec(cs, pos + 2, Stop::TagEnd);
        if p < n {
            p + 1
        } else {
            n
        }
    } else if cs[pos] == '<' {
        // A start tag.
        let start = pos + 1;
        let mut p = scan_exec(cs, start, Stop::StartTagName);
        let kind = element_kind_from_name(collect(cs, start, p).as_str());
        let p0 = p;
        let mut attributes: Vec<Attribute> = Vec::new();
        let mut self_closing = false;
        proof {
            lemma_attrs_bounds(cs@, p0 as int);
        }
        while p < n && cs[p] != '>'
            invariant
                n == cs@.len(),
                p0 <= p <= n,
                ({
                    let whole = attrs_from(cs@, p0 as int);
                    let rest = attrs_from(cs@, p as int);
                    &&& attributes_view(attributes@) + rest.0 == whole.0
                    &&& (self_closing || rest.1) == whole.1
                    &&& rest.2 == whole.2
                }),
            decreases n - p,
        {
            let ghost rest = attrs_from(cs@, p as int);
            if is_space_exec(cs[p]) {
                p = p + 1;
            } else if cs[p] == '/' {
                self_closing = true;
                p = p + 1;
            } else {
                let (attr, next) = read_attribute(cs, p);
                let ghost before = attributes@;
                attributes.push(attr);
                proof {
                    assert(attributes_view(attributes@) =~= attributes_view(before).push(
                        (attr.name@, attr.value@),
                    ));
                    let r2 = attrs_from(cs@, next as int);
                    assert(rest.0 == seq![(attr.name@, attr.value@)] + r2.0);
                    assert(attributes_view(attributes@) + r2.0 =~= attributes_view(before) + rest.0);
                }
                p = next;
            }
        }
        let ghost whole = attrs_from(cs@, p0 as int);
        assert(attributes_view(attributes@) =~= whole.0);
        let open = !self_closing && !is_void_exec(kind);
        let ghost attrs = attributes@;
        append_node(doc, stack, NodeKind::Element(Element::new(kind, attributes)), open);
        let pos1 = if p < n {
            p + 1
        } else {
            n
        };
        if open && (kind == ElementKind::Script || kind == ElementKind::Style) {
            // Raw text up to the next end tag.
            let q = raw_end_exec(cs, pos1);
            if q > pos1 {
                append_node(doc, stack, NodeKind::Text(collect(cs, pos1, q)), false);
            }
            q
        } else {
            pos1
        }
    } else {
        // Text up to the next tag.
        let q = scan_exec(cs, pos, Stop::TagOpen);
        if !all_space_exec(cs, pos, q) {
            append_node(doc, stack, NodeKind::Text(collect(cs, pos, q)), false);
        }
        if q > pos {
            q
        } else {
            q + 1
        }
    }
}

/// Reads an HTML text into a document tree.
pub fn parse_html(html: &str) -> (r: Document)
    ensures
        r.wf(),
        r.view() == html_document(html@),
{
    let cs = to_chars(html);
    let n = cs.len();
    let mut doc = Document::new();
    let mut stack: Vec<usize> = Vec::new();
    stack.push(0);
    let mut pos: usize = 0;
    assert(stack@ =~= seq![0usize]);
    while pos < n
        invariant
            n == cs@.len(),
            cs@ == html@,
            pos <= n,
            stack_ok(doc, stack@),
            html_from(cs@, pos as int, doc.view(), stack@) == html_document(html@),
        decreases n - pos,
    {
        pos = parse_step(&cs, pos, &mut doc, &mut stack);
    }
    doc
}

} // verus!
