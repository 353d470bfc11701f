//! Style rules, the declarations they carry, and the cascade that layers the
//! matching declarations of a node before defaulting completes its style.
use crate::dom::{attribute_value, Element, ElementKind, NodeKind};
use crate::style::{
    default_font_size, default_text_decoration, BoxInfo, Color, ComputedStyle, DisplayType, FontSize,
    TextDecoration, WhiteSpace,
};
use crate::text::str_eq;
use vstd::prelude::*;

verus! {

/// One property set to one value.
#[derive(Debug, Clone, Copy, PartialEq, Eq, Structural)]
pub enum Declaration {
    BackgroundColor(Color),
    Color(Color),
    Display(DisplayType),
    FontSize(FontSize),
    Height(u64),
    Width(u64),
    Margin(BoxInfo),
    Padding(BoxInfo),
    TextDecoration(TextDecoration),
    WhiteSpace(WhiteSpace),
}

/// `style` with one declaration laid over it.
pub open spec fn apply_declaration(style: ComputedStyle, d: Declaration) -> ComputedStyle {
    match d {
        Declaration::BackgroundColor(c) => ComputedStyle { background_color: Some(c), ..style },
        Declaration::Color(c) => ComputedStyle { color: Some(c), ..style },
        Declaration::Display(v) => ComputedStyle { display: Some(v), ..style },
        Declaration::FontSize(v) => ComputedStyle { font_size: Some(v), ..style },
        Declaration::Height(v) => ComputedStyle { height: Some(v), ..style },
        Declaration::Width(v) => ComputedStyle { width: Some(v), ..style },
        Declaration::Margin(v) => ComputedStyle { margin: Some(v), ..style },
        Declaration::Padding(v) => ComputedStyle { padding: Some(v), ..style },
        Declaration::TextDecoration(v) => ComputedStyle { text_decoration: Some(v), ..style },
        Declaration::WhiteSpace(v) => ComputedStyle { white_space: Some(v), ..style },
    }
}

/// `style` with the declarations laid over it in order: a later one wins.
pub open spec fn apply_declarations(style: ComputedStyle, ds: Seq<Declaration>) -> ComputedStyle
    decreases ds.len(),
{
    if ds.len() == 0 {
        style
    } else {
        apply_declarations(apply_declaration(style, ds[0]), ds.drop_first())
    }
}

/// Lays one declaration over a style.
pub fn apply_one(style: &mut ComputedStyle, d: Declaration)
    ensures
        *final(style) == apply_declaration(*old(style), d),
{
    match d {
        Declaration::BackgroundColor(c) => style.set_background_color(c),
        Declaration::Color(c) => style.set_color(c),
        Declaration::Display(v) => style.set_display(v),
        Declaration::FontSize(v) => style.set_font_size(v),
        Declaration::Height(v) => style.set_height(v),
        Declaration::Width(v) => style.set_width(v),
        Declaration::Margin(v) => style.set_margin(v),
        Declaration::Padding(v) => style.set_padding(v),
        Declaration::TextDecoration(v) => style.set_text_decoration(v),
        Declaration::WhiteSpace(v) => style.set_white_space(v),
    }
}

/// Lays declarations over a style in order.
pub fn apply_all(style: &mut ComputedStyle, ds: &Vec<Declaration>)
    ensures
        *final(style) == apply_declarations(*old(style), ds@),
{
    let mut i: usize = 0;
    let ghost start = *style;
    assert(ds@.skip(0) =~= ds@);
    while i < ds.len()
        invariant
            i <= ds@.len(),
            apply_declarations(start, ds@) == apply_declarations(*style, ds@.skip(i as int)),
        decreases ds@.len() - i,
    {
        let ghost rest = ds@.skip(i as int);
        assert(rest.drop_first() =~= ds@.skip(i + 1));
        apply_one(style, ds[i]);
        i = i + 1;
    }
}

/// What a rule applies to.
#[derive(Debug)]
pub enum Selector {
    /// Every element of a kind.
    Type(crate::dom::ElementKind),
    /// Elements whose `class` attribute is this name.
    Class(String),
    /// Elements whose `id` attribute is this name.
    Id(String),
}

pub open spec fn selector_matches(sel: Selector, node: NodeKind) -> bool {
    match node {
        NodeKind::Element(e) => match sel {
            Selector::Type(k) => e.kind == k,
            Selector::Class(c) => attribute_value(e.attributes@, "class"@) == Some(c@),
            Selector::Id(c) => attribute_value(e.attributes@, "id"@) == Some(c@),
        },
        _ => false,
    }
}

fn attribute_is(e: &Element, name: &str, expected: &String) -> (r: bool)
    ensures
        r == (attribute_value(e.attributes@, name@) == Some(expected@)),
{
    match e.get_attribute(name) {
        Some(v) => str_eq(v.as_str(), expected.as_str()),
        None => false,
    }
}

impl Selector {
    pub fn matches(&self, node: &NodeKind) -> (r: bool)
        ensures
            r == selector_matches(*self, *node),
    {
        match node {
            NodeKind::Element(e) => match self {
                Selector::Type(k) => e.kind == *k,
                Selector::Class(c) => attribute_is(e, "class", c),
                Selector::Id(c) => attribute_is(e, "id", c),
            },
            _ => false,
        }
    }
}

/// A selector with the declarations it brings.
#[derive(Debug)]
pub struct Rule {
    pub selector: Selector,
    pub declarations: Vec<Declaration>,
}

impl Rule {
    pub fn new(selector: Selector, declarations: Vec<Declaration>) -> (r: Rule)
        ensures
            r.selector == selector,
            r.declarations@ == declarations@,
    {
        Rule { selector, declarations }
    }
}

/// `style` with the declarations of every rule that matches `node` laid over
/// it, rule by rule in order.
pub open spec fn apply_rules(style: ComputedStyle, rules: Seq<Rule>, node: NodeKind) -> ComputedStyle
    decreases rules.len(),
{
    if rules.len() == 0 {
        style
    } else {
        let next = if selector_matches(rules[0].selector, node) {
            apply_declarations(style, rules[0].declarations@)
        } else {
            style
        };
        apply_rules(next, rules.drop_first(), node)
    }
}

/// An ordered set of rules.
#[derive(Debug)]
pub struct StyleSheet {
    pub rules: Vec<Rule>,
}

/// The resolved style of `node` under the rules, given its parent's resolved style.
pub open spec fn resolved_style(rules: Seq<Rule>, node: NodeKind, parent: Option<ComputedStyle>) -> ComputedStyle {
    ComputedStyle::defaulted(apply_rules(ComputedStyle::empty(), rules, node), node, parent)
}

impl StyleSheet {
    pub fn new() -> (r: StyleSheet)
        ensures
            r.rules@.len() == 0,
    {
        StyleSheet { rules: Vec::new() }
    }

    pub fn push_rule(&mut self, rule: Rule)
        ensures
            final(self).rules@ == old(self).rules@.push(rule),
    {
        self.rules.push(rule);
    }

    /// Lays the declarations of the matching rules over `style`.
    pub fn cascade(&self, style: &mut ComputedStyle, node: &NodeKind)
        ensures
            *final(style) == apply_rules(*old(style), self.rules@, *node),
    {
        let mut i: usize = 0;
        let ghost start = *style;
        assert(self.rules@.skip(0) =~= self.rules@);
        while i < self.rules.len()
            invariant
                i <= self.rules@.len(),
                apply_rules(start, self.rules@, *node) == apply_rules(
                    *style,
                    self.rules@.skip(i as int),
                    *node,
                ),
            decreases self.rules@.len() - i,
        {
            let ghost rest = self.rules@.skip(i as int);
            assert(rest.drop_first() =~= self.rules@.skip(i + 1));
            if self.rules[i].selector.matches(node) {
                apply_all(style, &self.rules[i].declarations);
            }
            i = i + 1;
        }
    }

    /// The full style of `node`: its matching declarations, then defaulting
    /// against the parent's resolved style.
    pub fn resolve(&self, node: &NodeKind, parent_style: Option<ComputedStyle>) -> (r: ComputedStyle)
        requires
            parent_style matches Some(p) ==> p.is_resolved(),
        ensures
            r == resolved_style(self.rules@, *node, parent_style),
            r.is_resolved(),
    {
        let mut style = ComputedStyle::new();
        self.cascade(&mut style, node);
        style.defaulting(node, parent_style);
        style
    }
}

/// The matched declarations of `node`, before defaulting.
pub open spec fn cascaded(rules: Seq<Rule>, node: NodeKind) -> ComputedStyle {
    apply_rules(ComputedStyle::empty(), rules, node)
}

/// A `script` or `style` element that no rule gives a display resolves to
/// `display: none`.
pub proof fn lemma_script_and_style_are_hidden(
    rules: Seq<Rule>,
    node: NodeKind,
    parent: Option<ComputedStyle>,
)
    requires
        node matches NodeKind::Element(e) && (e.kind == ElementKind::Script || e.kind
            == ElementKind::Style),
        cascaded(rules, node).display is None,
    ensures
        resolved_style(rules, node, parent).display == Some(DisplayType::DisplayNone),
{
}

/// With no font size of its own and a parent at medium size (or no parent),
/// an `h1` resolves to extra-extra-large, an `h2` to extra-large, and any
/// other element to medium.
pub proof fn lemma_heading_font_sizes(rules: Seq<Rule>, node: NodeKind, parent: Option<ComputedStyle>)
    requires
        node is Element,
        cascaded(rules, node).font_size is None,
        parent matches Some(p) ==> p.font_size == Some(FontSize::Medium),
    ensures
        resolved_style(rules, node, parent).font_size == Some(
            match node {
                NodeKind::Element(e) => if e.kind == ElementKind::H1 {
                    FontSize::XXLarge
                } else if e.kind == ElementKind::H2 {
                    FontSize::XLarge
                } else {
                    FontSize::Medium
                },
                _ => FontSize::Medium,
            },
        ),
{
}

/// A link with no text decoration of its own is underlined, whatever its
/// parent's decoration.
pub proof fn lemma_links_are_underlined(rules: Seq<Rule>, node: NodeKind, parent: Option<ComputedStyle>)
    requires
        node matches NodeKind::Element(e) && e.kind == ElementKind::A,
        cascaded(rules, node).text_decoration is None,
        parent matches Some(p) ==> p.is_resolved(),
    ensures
        resolved_style(rules, node, parent).text_decoration == Some(TextDecoration::Underline),
{
}

/// An inherited property that a node does not set takes its parent's
/// resolved value when that value differs from the initial one, and the
/// initial value otherwise: black for colour, white for background, the
/// node's default size for font size, and the node's default decoration.
pub proof fn lemma_inheritance(rules: Seq<Rule>, node: NodeKind, p: ComputedStyle)
    requires
        p.is_resolved(),
    ensures
        cascaded(rules, node).color is None ==> resolved_style(rules, node, Some(p)).color == Some(
            if p.color.unwrap() != Color::spec_black() {
                p.color.unwrap()
            } else {
                Color::spec_black()
            },
        ),
        cascaded(rules, node).background_color is None ==> resolved_style(
            rules,
            node,
            Some(p),
        ).background_color == Some(
            if p.background_color.unwrap() != Color::spec_white() {
                p.background_color.unwrap()
            } else {
                Color::spec_white()
            },
        ),
        cascaded(rules, node).font_size is None ==> resolved_style(rules, node, Some(p)).font_size
            == Some(
            if p.font_size.unwrap() != FontSize::Medium {
                p.font_size.unwrap()
            } else {
                default_font_size(node)
            },
        ),
        cascaded(rules, node).text_decoration is None ==> resolved_style(
            rules,
            node,
            Some(p),
        ).text_decoration == Some(
            if p.text_decoration.unwrap() != TextDecoration::NoDecoration {
                p.text_decoration.unwrap()
            } else {
                default_text_decoration(node)
            },
        ),
{
}

} // verus!
