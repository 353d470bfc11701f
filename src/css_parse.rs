//! Reading style sheets: `selector, ... { property: value; ... }` rules with
//! type, class and id selectors. Properties and values this engine does not
//! know are skipped.
use crate::css::{Declaration, Rule, Selector, StyleSheet};
use crate::dom::{Document, ElementKind, NodeKind};
use crate::style::{BoxInfo, Color, DisplayType, FontSize, TextDecoration, WhiteSpace};
use crate::html::{is_space, is_space_exec, kind_of_name};
use crate::text::{collect, str_eq, to_chars};
use vstd::prelude::*;
use vstd::string::StrSliceExecFns;
use vstd::string::StringExecFns;

verus! {

/// The text of the style elements among the first `n` nodes, each piece
/// followed by a newline.
pub open spec fn style_text_upto(nodes: Seq<crate::dom::Node>, n: int) -> Seq<char>
    decreases n,
{
    if n <= 1 {
        Seq::empty()
    } else {
        let rest = style_text_upto(nodes, n - 1);
        let node = nodes[n - 1];
        match node.kind {
            NodeKind::Text(t) => match nodes[node.parent.unwrap() as int].kind {
                NodeKind::Element(e) => if e.kind == ElementKind::Style {
                    rest + t@ + seq!['\n']
                } else {
                    rest
                },
                _ => rest,
            },
            _ => rest,
        }
    }
}

/// The text of every `style` element of `doc`, in document order.
pub fn style_text(doc: &Document) -> (r: String)
    requires
        doc.wf(),
    ensures
        r@ == style_text_upto(doc.nodes@, doc.nodes@.len() as int),
{
    let mut out = String::new();
    let mut i: usize = 1;
    proof {
        reveal_strlit("\n");
    }
    while i < doc.nodes.len()
        invariant
            doc.wf(),
            1 <= i <= doc.nodes@.len(),
            out@ == style_text_upto(doc.nodes@, i as int),
            "\n"@ == seq!['\n'],
        decreases doc.nodes@.len() - i,
    {
        if let NodeKind::Text(t) = &doc.nodes[i].kind {
            let p = doc.nodes[i].parent.unwrap();
            if let NodeKind::Element(e) = &doc.nodes[p].kind {
                if e.kind == ElementKind::Style {
                    out.append(t.as_str());
                    out.append("\n");
                }
            }
        }
        i = i + 1;
    }
    out
}

/// Where `cs[a..b]` starts once leading blanks are dropped.
pub open spec fn trim_start(cs: Seq<char>, a: int, b: int) -> int
    decreases b - a,
{
    if a < b && is_space(cs[a]) {
        trim_start(cs, a + 1, b)
    } else {
        a
    }
}

/// Where `cs[a..b]` ends once trailing blanks are dropped.
pub open spec fn trim_end(cs: Seq<char>, a: int, b: int) -> int
    decreases b - a,
{
    if a < b && is_space(cs[b - 1]) {
        trim_end(cs, a, b - 1)
    } else {
        b
    }
}

/// `cs[a..b]` without blanks at either end.
pub open spec fn trimmed_text(cs: Seq<char>, a: int, b: int) -> Seq<char> {
    let ta = trim_start(cs, a, b);
    cs.subrange(ta, trim_end(cs, ta, b))
}

/// `cs[from..to]` without blanks at either end, as a string.
fn trimmed(cs: &Vec<char>, from: usize, to: usize) -> (r: String)
    requires
        from <= to <= cs@.len(),
    ensures
        r@ == trimmed_text(cs@, from as int, to as int),
{
    let mut a = from;
    while a < to && is_space_exec(cs[a])
        invariant
            from <= a <= to <= cs@.len(),
            trim_start(cs@, from as int, to as int) == trim_start(cs@, a as int, to as int),
        decreases to - a,
    {
        a = a + 1;
    }
    let mut b = to;
    while b > a && is_space_exec(cs[b - 1])
        invariant
            from <= a <= b <= to <= cs@.len(),
            trim_end(cs@, a as int, to as int) == trim_end(cs@, a as int, b as int),
        decreases b - a,
    {
        b = b - 1;
    }
    collect(cs, a, b)
}

/// The first index in `i..to` holding `c`, or `to`.
pub open spec fn find_in(cs: Seq<char>, i: int, to: int, c: char) -> int
    decreases to - i,
{
    if i >= to || cs[i] == c {
        i
    } else {
        find_in(cs, i + 1, to, c)
    }
}

fn find_exec(cs: &Vec<char>, from: usize, to: usize, c: char) -> (r: usize)
    requires
        from <= to <= cs@.len(),
    ensures
        r == find_in(cs@, from as int, to as int, c),
        from <= r <= to,
{
    let mut i = from;
    while i < to && cs[i] != c
        invariant
            from <= i <= to <= cs@.len(),
            find_in(cs@, from as int, to as int, c) == find_in(cs@, i as int, to as int, c),
        decreases to - i,
    {
        i = i + 1;
    }
    i
}

pub open spec fn is_digit(c: char) -> bool {
    '0' <= c <= '9'
}

/// Where the run of digits that starts at `i` ends.
pub open spec fn digits_end(s: Seq<char>, i: int) -> int
    decreases s.len() - i,
{
    if i < 0 || i >= s.len() || !is_digit(s[i]) {
        i
    } else {
        digits_end(s, i + 1)
    }
}

/// The value of a run of decimal digits.
pub open spec fn decimal_value(d: Seq<char>) -> int
    decreases d.len(),
{
    if d.len() == 0 {
        0
    } else {
        decimal_value(d.drop_last()) * 10 + ((d.last() as u32) as int - 48)
    }
}

proof fn lemma_digits_end(s: Seq<char>, j: int, i: int)
    requires
        0 <= j <= i <= s.len(),
        forall|m: int| j <= m < i ==> is_digit(#[trigger] s[m]),
        i == s.len() || !is_digit(s[i]),
    ensures
        digits_end(s, j) == i,
    decreases i - j,
{
    if j < i {
        lemma_digits_end(s, j + 1, i);
    }
}

/// A length in pixels: digits, optionally followed by `px`. Values too
/// large for a `u64` saturate.
pub fn parse_length(s: &str) -> (r: Option<u64>)
    ensures
        ({
            let k = digits_end(s@, 0);
            &&& r is Some <==> (k > 0 && (k == s@.len() || s@.subrange(k, s@.len() as int) == "px"@))
            &&& r matches Some(v) ==> v == crate::layout::sat(decimal_value(s@.subrange(0, k)))
        }),
{
    let cs = to_chars(s);
    let mut v: u64 = 0;
    let mut i: usize = 0;
    while i < cs.len() && '0' <= cs[i] && cs[i] <= '9'
        invariant
            i <= cs@.len(),
            cs@ == s@,
            forall|m: int| 0 <= m < i ==> is_digit(#[trigger] cs@[m]),
            v == crate::layout::sat(decimal_value(cs@.subrange(0, i as int))),
        decreases cs@.len() - i,
    {
        let d = (cs[i] as u32 - '0' as u32) as u64;
        proof {
            let pre = cs@.subrange(0, i as int);
            let next = cs@.subrange(0, i + 1);
            assert(next.drop_last() =~= pre);
            assert(decimal_value(next) == decimal_value(pre) * 10 + d);
            assert(decimal_value(pre) >= 0) by {
                lemma_decimal_nonneg(pre);
            }
        }
        v = match v.checked_mul(10) {
            Some(t) => t.saturating_add(d),
            None => u64::MAX,
        };
        i = i + 1;
    }
    proof {
        lemma_digits_end(cs@, 0, i as int);
    }
    if i == 0 {
        return None;
    }
    let rest = collect(&cs, i, cs.len());
    if rest.as_str().unicode_len() == 0 || str_eq(rest.as_str(), "px") {
        Some(v)
    } else {
        None
    }
}

proof fn lemma_decimal_nonneg(d: Seq<char>)
    requires
        forall|m: int| 0 <= m < d.len() ==> is_digit(#[trigger] d[m]),
    ensures
        decimal_value(d) >= 0,
    decreases d.len(),
{
    if d.len() > 0 {
        lemma_decimal_nonneg(d.drop_last());
    }
}

/// The value of a hexadecimal digit, or `-1` for any other character.
pub open spec fn hex_val(c: char) -> int {
    if '0' <= c <= '9' {
        (c as u32) as int - 48
    } else if 'a' <= c <= 'f' {
        (c as u32) as int - 87
    } else if 'A' <= c <= 'F' {
        (c as u32) as int - 55
    } else {
        -1
    }
}

/// The value of a run of hexadecimal digits.
pub open spec fn hex_value(d: Seq<char>) -> int
    decreases d.len(),
{
    if d.len() == 0 {
        0
    } else {
        hex_value(d.drop_last()) * 16 + hex_val(d.last())
    }
}

/// The colours known by name.
pub open spec fn named_color(s: Seq<char>) -> Option<u32> {
    if s == "black"@ {
        Some(0)
    } else if s == "white"@ {
        Some(0xffffff)
    } else if s == "red"@ {
        Some(0xff0000)
    } else if s == "green"@ {
        Some(0x008000)
    } else if s == "blue"@ {
        Some(0x0000ff)
    } else if s == "yellow"@ {
        Some(0xffff00)
    } else if s == "gray"@ || s == "grey"@ {
        Some(0x808080)
    } else if s == "orange"@ {
        Some(0xffa500)
    } else if s == "purple"@ {
        Some(0x800080)
    } else {
        None
    }
}

fn hex_digit(c: char) -> (r: Option<u32>)
    ensures
        hex_val(c) >= 0 ==> r == Some(hex_val(c) as u32),
        hex_val(c) < 0 ==> r is None,
        r matches Some(d) ==> d < 16,
{
    if '0' <= c && c <= '9' {
        Some(c as u32 - '0' as u32)
    } else if 'a' <= c && c <= 'f' {
        Some(c as u32 - 'a' as u32 + 10)
    } else if 'A' <= c && c <= 'F' {
        Some(c as u32 - 'A' as u32 + 10)
    } else {
        None
    }
}

/// A colour: `#rrggbb`, or one of a few names.
pub fn parse_color(s: &str) -> (r: Option<Color>)
    ensures
        s@.len() == 7 && s@[0] == '#' ==> {
            &&& (r is Some <==> forall|m: int| 1 <= m < 7 ==> hex_val(#[trigger] s@[m]) >= 0)
            &&& (r matches Some(c) ==> c.code == hex_value(s@.subrange(1, 7)))
        },
        !(s@.len() == 7 && s@[0] == '#') ==> r == match named_color(s@) {
            Some(code) => Some(Color { code }),
            None => None,
        },
{
    let cs = to_chars(s);
    if cs.len() == 7 && cs[0] == '#' {
        let mut code: u32 = 0;
        let mut i: usize = 1;
        while i < 7
            invariant
                cs@.len() == 7,
                cs@ == s@,
                cs@[0] == '#',
                1 <= i <= 7,
                code < digits_bound(i as int),
                code == hex_value(cs@.subrange(1, i as int)),
                forall|m: int| 1 <= m < i ==> hex_val(#[trigger] cs@[m]) >= 0,
            decreases 7 - i,
        {
            match hex_digit(cs[i]) {
                Some(d) => {
                    proof {
                        let next = cs@.subrange(1, i + 1);
                        assert(next.drop_last() =~= cs@.subrange(1, i as int));
                    }
                    code = code * 16 + d;
                },
                None => {
                    return None;
                },
            }
            i = i + 1;
        }
        return Some(Color::from_code(code));
    }
    if str_eq(s, "black") {
        Some(Color::black())
    } else if str_eq(s, "white") {
        Some(Color::white())
    } else if str_eq(s, "red") {
        Some(Color::from_code(0xff0000))
    } else if str_eq(s, "green") {
        Some(Color::from_code(0x008000))
    } else if str_eq(s, "blue") {
        Some(Color::from_code(0x0000ff))
    } else if str_eq(s, "yellow") {
        Some(Color::from_code(0xffff00))
    } else if str_eq(s, "gray") || str_eq(s, "grey") {
        Some(Color::from_code(0x808080))
    } else if str_eq(s, "orange") {
        Some(Color::from_code(0xffa500))
    } else if str_eq(s, "purple") {
        Some(Color::from_code(0x800080))
    } else {
        None
    }
}

/// A bound on a value read from `i - 1` hexadecimal digits.
spec fn digits_bound(i: int) -> int {
    if i <= 1 {
        1
    } else if i == 2 {
        0x10
    } else if i == 3 {
        0x100
    } else if i == 4 {
        0x1000
    } else if i == 5 {
        0x10000
    } else if i == 6 {
        0x100000
    } else {
        0x1000000
    }
}

/// The length `s` reads as: digits, optionally followed by `px`.
pub open spec fn length_of(s: Seq<char>) -> Option<u64> {
    let k = digits_end(s, 0);
    if k > 0 && (k == s.len() || s.subrange(k, s.len() as int) == "px"@) {
        Some(crate::layout::sat(decimal_value(s.subrange(0, k))))
    } else {
        None
    }
}

/// The colour `s` reads as.
pub open spec fn color_of(s: Seq<char>) -> Option<Color> {
    if s.len() == 7 && s[0] == '#' {
        if forall|m: int| 1 <= m < 7 ==> hex_val(#[trigger] s[m]) >= 0 {
            Some(Color { code: hex_value(s.subrange(1, 7)) as u32 })
        } else {
            None
        }
    } else {
        match named_color(s) {
            Some(code) => Some(Color { code }),
            None => None,
        }
    }
}

pub open spec fn display_of(s: Seq<char>) -> Option<DisplayType> {
    if s == "block"@ {
        Some(DisplayType::Block)
    } else if s == "inline"@ {
        Some(DisplayType::Inline)
    } else if s == "none"@ {
        Some(DisplayType::DisplayNone)
    } else {
        None
    }
}

pub open spec fn option_map_color(c: Option<Color>, f: spec_fn(Color) -> Declaration) -> Option<Declaration> {
    match c {
        Some(v) => Some(f(v)),
        None => None,
    }
}

pub open spec fn option_map_length(n: Option<u64>, f: spec_fn(u64) -> Declaration) -> Option<Declaration> {
    match n {
        Some(v) => Some(f(v)),
        None => None,
    }
}

/// The declaration `name: value` reads as, if this engine knows it.
pub open spec fn declaration_of(name: Seq<char>, value: Seq<char>) -> Option<Declaration> {
    if name == "background-color"@ {
        match color_of(value) {
            Some(c) => Some(Declaration::BackgroundColor(c)),
            None => None,
        }
    } else if name == "color"@ {
        match color_of(value) {
            Some(c) => Some(Declaration::Color(c)),
            None => None,
        }
    } else if name == "display"@ {
        match display_of(value) {
            Some(d) => Some(Declaration::Display(d)),
            None => None,
        }
    } else if name == "font-size"@ {
        if value == "medium"@ {
            Some(Declaration::FontSize(FontSize::Medium))
        } else if value == "x-large"@ {
            Some(Declaration::FontSize(FontSize::XLarge))
        } else if value == "xx-large"@ {
            Some(Declaration::FontSize(FontSize::XXLarge))
        } else {
            match length_of(value) {
                Some(n) => Some(Declaration::FontSize(FontSize::spec_from_number(n))),
                None => None,
            }
        }
    } else if name == "width"@ {
        match length_of(value) {
            Some(n) => Some(Declaration::Width(n)),
            None => None,
        }
    } else if name == "height"@ {
        match length_of(value) {
            Some(n) => Some(Declaration::Height(n)),
            None => None,
        }
    } else if name == "margin"@ {
        match length_of(value) {
            Some(n) => Some(Declaration::Margin(BoxInfo { top: n, right: n, left: n, bottom: n })),
            None => None,
        }
    } else if name == "padding"@ {
        match length_of(value) {
            Some(n) => Some(Declaration::Padding(BoxInfo { top: n, right: n, left: n, bottom: n })),
            None => None,
        }
    } else if name == "text-decoration"@ {
        if value == "none"@ {
            Some(Declaration::TextDecoration(TextDecoration::NoDecoration))
        } else if value == "underline"@ {
            Some(Declaration::TextDecoration(TextDecoration::Underline))
        } else {
            None
        }
    } else if name == "white-space"@ {
        if value == "normal"@ {
            Some(Declaration::WhiteSpace(WhiteSpace::Normal))
        } else if value == "pre"@ {
            Some(Declaration::WhiteSpace(WhiteSpace::Pre))
        } else {
            None
        }
    } else {
        None
    }
}

fn length_exec(s: &str) -> (r: Option<u64>)
    ensures
        r == length_of(s@),
{
    parse_length(s)
}

fn color_exec(s: &str) -> (r: Option<Color>)
    ensures
        r == color_of(s@),
{
    let r = parse_color(s);
    proof {
        if s@.len() == 7 && s@[0] == '#' {
            if r is Some {
                assert(r == Some(Color { code: hex_value(s@.subrange(1, 7)) as u32 }));
            }
        }
    }
    r
}

/// The declaration `name: value`, if this engine knows it.
fn parse_declaration(name: &str, value: &str) -> (r: Option<Declaration>)
    ensures
        r == declaration_of(name@, value@),
{
    if str_eq(name, "background-color") {
        match color_exec(value) {
            Some(c) => Some(Declaration::BackgroundColor(c)),
            None => None,
        }
    } else if str_eq(name, "color") {
        match color_exec(value) {
            Some(c) => Some(Declaration::Color(c)),
            None => None,
        }
    } else if str_eq(name, "display") {
        match DisplayType::from_str(value) {
            Ok(d) => Some(Declaration::Display(d)),
            Err(_) => None,
        }
    } else if str_eq(name, "font-size") {
        if str_eq(value, "medium") {
            Some(Declaration::FontSize(FontSize::Medium))
        } else if str_eq(value, "x-large") {
            Some(Declaration::FontSize(FontSize::XLarge))
        } else if str_eq(value, "xx-large") {
            Some(Declaration::FontSize(FontSize::XXLarge))
        } else {
            match length_exec(value) {
                Some(n) => Some(Declaration::FontSize(FontSize::from_number(n))),
                None => None,
            }
        }
    } else if str_eq(name, "width") {
        match length_exec(value) {
            Some(n) => Some(Declaration::Width(n)),
            None => None,
        }
    } else if str_eq(name, "height") {
        match length_exec(value) {
            Some(n) => Some(Declaration::Height(n)),
            None => None,
        }
    } else if str_eq(name, "margin") {
        match length_exec(value) {
            Some(n) => Some(Declaration::Margin(BoxInfo::new(n, n, n, n))),
            None => None,
        }
    } else if str_eq(name, "padding") {
        match length_exec(value) {
            Some(n) => Some(Declaration::Padding(BoxInfo::new(n, n, n, n))),
            None => None,
        }
    } else if str_eq(name, "text-decoration") {
        if str_eq(value, "none") {
            Some(Declaration::TextDecoration(TextDecoration::NoDecoration))
        } else if str_eq(value, "underline") {
            Some(Declaration::TextDecoration(TextDecoration::Underline))
        } else {
            None
        }
    } else if str_eq(name, "white-space") {
        if str_eq(value, "normal") {
            Some(Declaration::WhiteSpace(WhiteSpace::Normal))
        } else if str_eq(value, "pre") {
            Some(Declaration::WhiteSpace(WhiteSpace::Pre))
        } else {
            None
        }
    } else {
        None
    }
}

/// A selector seen with its name as a character sequence.
pub enum SelectorView {
    Type(ElementKind),
    Class(Seq<char>),
    Id(Seq<char>),
}

pub open spec fn selector_view(s: Selector) -> SelectorView {
    match s {
        Selector::Type(k) => SelectorView::Type(k),
        Selector::Class(c) => SelectorView::Class(c@),
        Selector::Id(c) => SelectorView::Id(c@),
    }
}

/// The rules of a sheet, each as its selector and declarations.
pub open spec fn rules_view(rules: Seq<Rule>) -> Seq<(SelectorView, Seq<Declaration>)> {
    rules.map_values(|r: Rule| (selector_view(r.selector), r.declarations@))
}

/// The selector `s` reads as: `.class`, `#id`, or a known element name.
pub open spec fn selector_of(s: Seq<char>) -> Option<SelectorView> {
    if s.len() == 0 {
        None
    } else if s[0] == '.' || s[0] == '#' {
        if s.len() == 1 {
            None
        } else if s[0] == '.' {
            Some(SelectorView::Class(s.subrange(1, s.len() as int)))
        } else {
            Some(SelectorView::Id(s.subrange(1, s.len() as int)))
        }
    } else if kind_of_name(s) == ElementKind::Unknown {
        None
    } else {
        Some(SelectorView::Type(kind_of_name(s)))
    }
}

/// A selector: `.class`, `#id`, or an element name.
fn parse_selector(s: &str) -> (r: Option<Selector>)
    ensures
        match r {
            Some(sel) => selector_of(s@) == Some(selector_view(sel)),
            None => selector_of(s@) is None,
        },
{
    let n = s.unicode_len();
    if n == 0 {
        return None;
    }
    let first = s.get_char(0);
    if first == '.' || first == '#' {
        if n == 1 {
            return None;
        }
        let rest = String::from_str(s.substring_char(1, n));
        if first == '.' {
            Some(Selector::Class(rest))
        } else {
            Some(Selector::Id(rest))
        }
    } else {
        let kind = crate::html::element_kind_from_name(s);
        if kind == ElementKind::Unknown {
            None
        } else {
            Some(Selector::Type(kind))
        }
    }
}

/// The declarations `cs[p..to]` holds, separated by `;`.
pub open spec fn decls_from(cs: Seq<char>, p: int, to: int) -> Seq<Declaration>
    decreases to - p,
{
    if p >= to {
        Seq::empty()
    } else {
        let end = find_in(cs, p, to, ';');
        let colon = find_in(cs, p, end, ':');
        let d = if colon < end {
            declaration_of(trimmed_text(cs, p, colon), trimmed_text(cs, colon + 1, end))
        } else {
            None
        };
        let next = if end < to {
            end + 1
        } else {
            end
        };
        let here = match d {
            Some(v) => seq![v],
            None => Seq::empty(),
        };
        if p < next <= to {
            here + decls_from(cs, next, to)
        } else {
            here
        }
    }
}

proof fn lemma_find_bounds(cs: Seq<char>, i: int, to: int, c: char)
    requires
        i <= to,
    ensures
        i <= find_in(cs, i, to, c) <= to,
    decreases to - i,
{
    if i < to && cs[i] != c {
        lemma_find_bounds(cs, i + 1, to, c);
    }
}

/// The declarations in `cs[from..to]`, separated by `;`.
fn parse_declarations(cs: &Vec<char>, from: usize, to: usize) -> (r: Vec<Declaration>)
    requires
        from <= to <= cs@.len(),
    ensures
        r@ == decls_from(cs@, from as int, to as int),
{
    let mut out: Vec<Declaration> = Vec::new();
    let mut p = from;
    while p < to
        invariant
            from <= p <= to <= cs@.len(),
            out@ + decls_from(cs@, p as int, to as int) == decls_from(cs@, from as int, to as int),
        decreases to - p,
    {
        let end = find_exec(cs, p, to, ';');
        let colon = find_exec(cs, p, end, ':');
        let ghost before = out@;
        if colon < end {
            let name = trimmed(cs, p, colon);
            let value = trimmed(cs, colon + 1, end);
            if let Some(d) = parse_declaration(name.as_str(), value.as_str()) {
                out.push(d);
            }
        }
        let next = if end < to {
            end + 1
        } else {
            end
        };
        proof {
            let d = if colon < end {
                declaration_of(trimmed_text(cs@, p as int, colon as int), trimmed_text(cs@, colon + 1, end as int))
            } else {
                None
            };
            let here = match d {
                Some(v) => seq![v],
                None => Seq::<Declaration>::empty(),
            };
            assert(out@ =~= before + here);
            assert(decls_from(cs@, p as int, to as int) == here + decls_from(cs@, next as int, to as int));
            assert(out@ + decls_from(cs@, next as int, to as int) =~= before + decls_from(cs@, p as int, to as int));
        }
        p = next;
    }
    out
}

/// The rules a comma-separated selector list `cs[s..sel_end]` gives, each
/// with the declarations `ds`.
pub open spec fn selector_rules(cs: Seq<char>, s: int, sel_end: int, ds: Seq<Declaration>) -> Seq<
    (SelectorView, Seq<Declaration>),
>
    decreases sel_end - s,
{
    if s >= sel_end {
        Seq::empty()
    } else {
        let e = find_in(cs, s, sel_end, ',');
        let here = match selector_of(trimmed_text(cs, s, e)) {
            Some(sel) => seq![(sel, ds)],
            None => Seq::empty(),
        };
        let next = if e < sel_end {
            e + 1
        } else {
            e
        };
        if s < next <= sel_end {
            here + selector_rules(cs, next, sel_end, ds)
        } else {
            here
        }
    }
}

/// The rules of the style sheet text `cs` from `p` on.
pub open spec fn sheet_from(cs: Seq<char>, p: int) -> Seq<(SelectorView, Seq<Declaration>)>
    decreases cs.len() - p,
{
    let n = cs.len() as int;
    if p < 0 || p >= n {
        Seq::empty()
    } else {
        let brace = find_in(cs, p, n, '{');
        if brace >= n {
            Seq::empty()
        } else {
            let close = find_in(cs, brace + 1, n, '}');
            let rules = selector_rules(cs, p, brace, decls_from(cs, brace + 1, close));
            let next = if close < n {
                close + 1
            } else {
                close
            };
            if p < next <= n {
                rules + sheet_from(cs, next)
            } else {
                rules
            }
        }
    }
}

/// The rules a style sheet text reads as.
pub open spec fn sheet_rules(text: Seq<char>) -> Seq<(SelectorView, Seq<Declaration>)> {
    sheet_from(text, 0)
}

/// Reads a style sheet. A rule with several selectors gives one rule per
/// selector, in order; selectors and declarations this engine does not know
/// are skipped.
pub fn parse_stylesheet(text: &str) -> (r: StyleSheet)
    ensures
        rules_view(r.rules@) == sheet_rules(text@),
{
    let cs = to_chars(text);
    let n = cs.len();
    let mut sheet = StyleSheet::new();
    let mut p: usize = 0;
    assert(rules_view(sheet.rules@) =~= Seq::empty());
    while p < n
        invariant
            n == cs@.len(),
            cs@ == text@,
            p <= n,
            rules_view(sheet.rules@) + sheet_from(cs@, p as int) == sheet_rules(text@),
        decreases n - p,
    {
        let brace = find_exec(&cs, p, n, '{');
        if brace >= n {
            assert(rules_view(sheet.rules@) + sheet_from(cs@, p as int) =~= rules_view(sheet.rules@));
            assert(sheet_from(cs@, n as int) =~= Seq::empty());
            assert(rules_view(sheet.rules@) + sheet_from(cs@, n as int) =~= rules_view(sheet.rules@));
            p = n;
            continue;
        }
        let body_start = brace + 1;
        let close = find_exec(&cs, body_start, n, '}');
        let ghost ds = decls_from(cs@, body_start as int, close as int);
        let ghost at_start = rules_view(sheet.rules@);
        let mut s = p;
        while s < brace
            invariant
                n == cs@.len(),
                p <= s <= brace < n,
                body_start == brace + 1,
                body_start <= close <= n,
                ds == decls_from(cs@, body_start as int, close as int),
                rules_view(sheet.rules@) + selector_rules(cs@, s as int, brace as int, ds) == at_start
                    + selector_rules(cs@, p as int, brace as int, ds),
            decreases brace - s,
        {
            let e = find_exec(&cs, s, brace, ',');
            let name = trimmed(&cs, s, e);
            let ghost before = rules_view(sheet.rules@);
            let next = if e < brace {
                e + 1
            } else {
                e
            };
            match parse_selector(name.as_str()) {
                Some(selector) => {
                    let declarations = parse_declarations(&cs, body_start, close);
                    let ghost sv = selector_view(selector);
                    let ghost old_rules = sheet.rules@;
                    sheet.push_rule(Rule::new(selector, declarations));
                    proof {
                        assert(rules_view(sheet.rules@) =~= rules_view(old_rules).push((sv, ds)));
                        assert(selector_rules(cs@, s as int, brace as int, ds) == seq![(sv, ds)]
                            + selector_rules(cs@, next as int, brace as int, ds));
                        assert(rules_view(sheet.rules@) + selector_rules(cs@, next as int, brace as int, ds)
                            =~= before + selector_rules(cs@, s as int, brace as int, ds));
                    }
                },
                None => {
                    proof {
                        assert(selector_rules(cs@, s as int, brace as int, ds) == Seq::<
                            (SelectorView, Seq<Declaration>),
                        >::empty() + selector_rules(cs@, next as int, brace as int, ds));
                        assert(selector_rules(cs@, s as int, brace as int, ds) =~= selector_rules(
                            cs@,
                            next as int,
                            brace as int,
                            ds,
                        ));
                    }
                },
            }
            s = next;
        }
        let next = if close < n {
            close + 1
        } else {
            close
        };
        proof {
            assert(selector_rules(cs@, brace as int, brace as int, ds) =~= Seq::empty());
            assert(sheet_from(cs@, p as int) == selector_rules(cs@, p as int, brace as int, ds) + sheet_from(
                cs@,
                next as int,
            ));
            assert(rules_view(sheet.rules@) + sheet_from(cs@, next as int) =~= at_start + sheet_from(
                cs@,
                p as int,
            ));
        }
        p = next;
    }
    assert(rules_view(sheet.rules@) + sheet_from(cs@, p as int) =~= rules_view(sheet.rules@));
    sheet
}

} // verus!
