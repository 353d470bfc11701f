//! Computed styles and the defaulting rules that complete them.
use crate::dom::{ElementKind, NodeKind};
use crate::error::Error;
use crate::text::str_eq;
use vstd::prelude::*;
use vstd::string::StringExecFns;

verus! {

/// An RGB colour packed as `0xRRGGBB`.
#[derive(Debug, Clone, Copy, PartialEq, Eq, Structural)]
pub struct Color {
    pub code: u32,
}

impl Color {
    pub open spec fn spec_white() -> Color {
        Color { code: 0xffffff }
    }

    pub open spec fn spec_black() -> Color {
        Color { code: 0 }
    }

    #[verifier::when_used_as_spec(spec_white)]
    pub fn white() -> (r: Color)
        ensures
            r == Color::spec_white(),
    {
        Color { code: 0xffffff }
    }

    #[verifier::when_used_as_spec(spec_black)]
    pub fn black() -> (r: Color)
        ensures
            r == Color::spec_black(),
    {
        Color { code: 0 }
    }

    pub fn from_code(code: u32) -> (r: Color)
        ensures
            r.code == code,
    {
        Color { code }
    }
}

/// How a box takes part in layout.
#[derive(Debug, Clone, Copy, PartialEq, Eq, Structural)]
pub enum DisplayType {
    Block,
    Inline,
    DisplayNone,
}

/// The three font sizes this engine draws.
#[derive(Debug, Clone, Copy, PartialEq, Eq, Structural)]
pub enum FontSize {
    Medium,
    XLarge,
    XXLarge,
}

#[derive(Debug, Clone, Copy, PartialEq, Eq, Structural)]
pub enum TextDecoration {
    NoDecoration,
    Underline,
}

#[derive(Debug, Clone, Copy, PartialEq, Eq, Structural)]
pub enum WhiteSpace {
    Normal,
    Pre,
}

/// Four insets around a box, in pixels.
#[derive(Debug, Clone, Copy, PartialEq, Eq, Structural)]
pub struct BoxInfo {
    pub top: u64,
    pub right: u64,
    pub left: u64,
    pub bottom: u64,
}

impl BoxInfo {
    pub fn new(top: u64, right: u64, left: u64, bottom: u64) -> (r: BoxInfo)
        ensures
            r == (BoxInfo { top, right, left, bottom }),
    {
        BoxInfo { top, right, left, bottom }
    }

    pub fn top(&self) -> (r: u64)
        ensures
            r == self.top,
    {
        self.top
    }

    pub fn right(&self) -> (r: u64)
        ensures
            r == self.right,
    {
        self.right
    }

    pub fn left(&self) -> (r: u64)
        ensures
            r == self.left,
    {
        self.left
    }

    pub fn bottom(&self) -> (r: u64)
        ensures
            r == self.bottom,
    {
        self.bottom
    }
}

pub open spec fn zero_box() -> BoxInfo {
    BoxInfo { top: 0, right: 0, left: 0, bottom: 0 }
}

/// The display a node gets when no declaration sets one.
pub open spec fn default_display(node: NodeKind) -> DisplayType {
    match node {
        NodeKind::Document => DisplayType::Block,
        NodeKind::Element(e) => if e.kind == ElementKind::Script || e.kind == ElementKind::Style {
            DisplayType::DisplayNone
        } else if e.kind.spec_is_block() {
            DisplayType::Block
        } else {
            DisplayType::Inline
        },
        NodeKind::Text(_) => DisplayType::Inline,
    }
}

/// The font size a node gets when neither a declaration nor its parent sets one.
pub open spec fn default_font_size(node: NodeKind) -> FontSize {
    match node {
        NodeKind::Element(e) => if e.kind == ElementKind::H1 {
            FontSize::XXLarge
        } else if e.kind == ElementKind::H2 {
            FontSize::XLarge
        } else {
            FontSize::Medium
        },
        _ => FontSize::Medium,
    }
}

pub open spec fn default_text_decoration(node: NodeKind) -> TextDecoration {
    match node {
        NodeKind::Element(e) => if e.kind == ElementKind::A {
            TextDecoration::Underline
        } else {
            TextDecoration::NoDecoration
        },
        _ => TextDecoration::NoDecoration,
    }
}

pub open spec fn default_white_space(node: NodeKind) -> WhiteSpace {
    match node {
        NodeKind::Element(e) => if e.kind == ElementKind::Pre {
            WhiteSpace::Pre
        } else {
            WhiteSpace::Normal
        },
        _ => WhiteSpace::Normal,
    }
}

impl DisplayType {
    /// The user-agent display of a node.
    pub fn default(node: &NodeKind) -> (r: DisplayType)
        ensures
            r == default_display(*node),
    {
        match node {
            NodeKind::Document => DisplayType::Block,
            NodeKind::Element(e) => {
                if e.kind == ElementKind::Script || e.kind == ElementKind::Style {
                    return DisplayType::DisplayNone;
                }
                if e.kind.is_block_element() {
                    DisplayType::Block
                } else {
                    DisplayType::Inline
                }
            },
            NodeKind::Text(_) => DisplayType::Inline,
        }
    }

    /// Reads a `display` keyword.
    pub fn from_str(s: &str) -> (r: Result<DisplayType, Error>)
        ensures
            s@ == "block"@ <==> r == Ok::<DisplayType, Error>(DisplayType::Block),
            s@ == "inline"@ <==> r == Ok::<DisplayType, Error>(DisplayType::Inline),
            s@ == "none"@ <==> r == Ok::<DisplayType, Error>(DisplayType::DisplayNone),
            r is Err <==> (s@ != "block"@ && s@ != "inline"@ && s@ != "none"@),
            r matches Err(e) ==> e is UnexpectedInput,
    {
        proof {
            reveal_strlit("block");
            reveal_strlit("inline");
            reveal_strlit("none");
            assert("block"@.len() == 5 && "inline"@.len() == 6 && "none"@.len() == 4);
        }
        if str_eq(s, "block") {
            Ok(DisplayType::Block)
        } else if str_eq(s, "inline") {
            Ok(DisplayType::Inline)
        } else if str_eq(s, "none") {
            Ok(DisplayType::DisplayNone)
        } else {
            Err(Error::UnexpectedInput(String::from_str("unsupported display value: ").concat(s)))
        }
    }
}

impl FontSize {
    /// The user-agent font size of a node.
    pub fn default(node: &NodeKind) -> (r: FontSize)
        ensures
            r == default_font_size(*node),
    {
        match node {
            NodeKind::Element(e) => {
                if e.kind == ElementKind::H1 {
                    FontSize::XXLarge
                } else if e.kind == ElementKind::H2 {
                    FontSize::XLarge
                } else {
                    FontSize::Medium
                }
            },
            _ => FontSize::Medium,
        }
    }

    pub open spec fn spec_from_number(size: u64) -> FontSize {
        if size <= 12 {
            FontSize::Medium
        } else if size <= 18 {
            FontSize::XLarge
        } else {
            FontSize::XXLarge
        }
    }

    /// Classifies a numeric pixel size.
    pub fn from_number(size: u64) -> (r: FontSize)
        ensures
            r == FontSize::spec_from_number(size),
    {
        if size <= 12 {
            FontSize::Medium
        } else if size <= 18 {
            FontSize::XLarge
        } else {
            FontSize::XXLarge
        }
    }

    pub open spec fn spec_ratio(self) -> u64 {
        match self {
            FontSize::Medium => 1,
            FontSize::XLarge => 2,
            FontSize::XXLarge => 3,
        }
    }

    /// How many times larger than medium text this size is drawn.
    pub fn ratio(&self) -> (r: u64)
        ensures
            r == self.spec_ratio(),
            1 <= r <= 3,
    {
        match self {
            FontSize::Medium => 1,
            FontSize::XLarge => 2,
            FontSize::XXLarge => 3,
        }
    }
}

impl TextDecoration {
    pub fn default(node: &NodeKind) -> (r: TextDecoration)
        ensures
            r == default_text_decoration(*node),
    {
        match node {
            NodeKind::Element(e) => {
                if e.kind == ElementKind::A {
                    TextDecoration::Underline
                } else {
                    TextDecoration::NoDecoration
                }
            },
            _ => TextDecoration::NoDecoration,
        }
    }
}

impl WhiteSpace {
    pub fn default(node: &NodeKind) -> (r: WhiteSpace)
        ensures
            r == default_white_space(*node),
    {
        match node {
            NodeKind::Element(e) => {
                if e.kind == ElementKind::P {
                    WhiteSpace::Normal
                } else if e.kind == ElementKind::Pre {
                    WhiteSpace::Pre
                } else {
                    WhiteSpace::Normal
                }
            },
            _ => WhiteSpace::Normal,
        }
    }
}

/// The value an inherited property resolves to: the node's own value if set,
/// else the parent's value when it differs from the property's initial value,
/// else the node's default.
pub open spec fn inherited<T>(own: Option<T>, parent: Option<T>, initial: T, default: T) -> T {
    match own {
        Some(v) => v,
        None => match parent {
            Some(pv) => if pv != initial {
                pv
            } else {
                default
            },
            None => default,
        },
    }
}

/// The value a non-inherited property resolves to.
pub open spec fn or_initial<T>(own: Option<T>, initial: T) -> T {
    match own {
        Some(v) => v,
        None => initial,
    }
}

/// The style of one node. A field is `None` until a declaration or the
/// defaulting pass sets it.
#[derive(Debug, Clone, Copy, PartialEq, Eq, Structural)]
pub struct ComputedStyle {
    pub background_color: Option<Color>,
    pub color: Option<Color>,
    pub display: Option<DisplayType>,
    pub font_size: Option<FontSize>,
    pub height: Option<u64>,
    pub margin: Option<BoxInfo>,
    pub padding: Option<BoxInfo>,
    pub text_decoration: Option<TextDecoration>,
    pub white_space: Option<WhiteSpace>,
    pub width: Option<u64>,
}

/// The parent's resolved properties, when there is a parent.
pub open spec fn parent_background(parent: Option<ComputedStyle>) -> Option<Color> {
    match parent {
        Some(p) => p.background_color,
        None => None,
    }
}

pub open spec fn parent_color(parent: Option<ComputedStyle>) -> Option<Color> {
    match parent {
        Some(p) => p.color,
        None => None,
    }
}

pub open spec fn parent_font_size(parent: Option<ComputedStyle>) -> Option<FontSize> {
    match parent {
        Some(p) => p.font_size,
        None => None,
    }
}

pub open spec fn parent_text_decoration(parent: Option<ComputedStyle>) -> Option<TextDecoration> {
    match parent {
        Some(p) => p.text_decoration,
        None => None,
    }
}

fn inherit_color(own: Option<Color>, parent: Option<Color>, initial: Color) -> (r: Color)
    ensures
        r == inherited(own, parent, initial, initial),
{
    match own {
        Some(v) => v,
        None => match parent {
            Some(pv) => if pv != initial {
                pv
            } else {
                initial
            },
            None => initial,
        },
    }
}

fn inherit_font_size(own: Option<FontSize>, parent: Option<FontSize>, default: FontSize) -> (r: FontSize)
    ensures
        r == inherited(own, parent, FontSize::Medium, default),
{
    match own {
        Some(v) => v,
        None => match parent {
            Some(pv) => if pv != FontSize::Medium {
                pv
            } else {
                default
            },
            None => default,
        },
    }
}

fn inherit_text_decoration(
    own: Option<TextDecoration>,
    parent: Option<TextDecoration>,
    default: TextDecoration,
) -> (r: TextDecoration)
    ensures
        r == inherited(own, parent, TextDecoration::NoDecoration, default),
{
    match own {
        Some(v) => v,
        None => match parent {
            Some(pv) => if pv != TextDecoration::NoDecoration {
                pv
            } else {
                default
            },
            None => default,
        },
    }
}

impl ComputedStyle {
    /// Every property is set.
    pub open spec fn is_resolved(&self) -> bool {
        &&& self.background_color is Some
        &&& self.color is Some
        &&& self.display is Some
        &&& self.font_size is Some
        &&& self.height is Some
        &&& self.margin is Some
        &&& self.padding is Some
        &&& self.text_decoration is Some
        &&& self.white_space is Some
        &&& self.width is Some
    }

    pub open spec fn empty() -> ComputedStyle {
        ComputedStyle {
            background_color: None,
            color: None,
            display: None,
            font_size: None,
            height: None,
            margin: None,
            padding: None,
            text_decoration: None,
            white_space: None,
            width: None,
        }
    }

    /// What defaulting makes of `own` for `node`, under `parent`.
    pub open spec fn defaulted(own: ComputedStyle, node: NodeKind, parent: Option<ComputedStyle>) -> ComputedStyle {
        ComputedStyle {
            background_color: Some(
                inherited(
                    own.background_color,
                    parent_background(parent),
                    Color::spec_white(),
                    Color::spec_white(),
                ),
            ),
            color: Some(
                inherited(own.color, parent_color(parent), Color::spec_black(), Color::spec_black()),
            ),
            display: Some(or_initial(own.display, default_display(node))),
            font_size: Some(
                inherited(
                    own.font_size,
                    parent_font_size(parent),
                    FontSize::Medium,
                    default_font_size(node),
                ),
            ),
            height: Some(or_initial(own.height, 0)),
            margin: Some(or_initial(own.margin, zero_box())),
            padding: Some(or_initial(own.padding, zero_box())),
            text_decoration: Some(
                inherited(
                    own.text_decoration,
                    parent_text_decoration(parent),
                    TextDecoration::NoDecoration,
                    default_text_decoration(node),
                ),
            ),
            white_space: Some(or_initial(own.white_space, default_white_space(node))),
            width: Some(or_initial(own.width, 0)),
        }
    }

    /// A style with no property set.
    pub fn new() -> (r: ComputedStyle)
        ensures
            r == ComputedStyle::empty(),
    {
        ComputedStyle {
            background_color: None,
            color: None,
            display: None,
            font_size: None,
            height: None,
            margin: None,
            padding: None,
            text_decoration: None,
            white_space: None,
            width: None,
        }
    }

    /// Fills every unset property: inherited ones from the parent when the
    /// parent's value is not the initial one, the others from the node's kind.
    pub fn defaulting(&mut self, node: &NodeKind, parent_style: Option<ComputedStyle>)
        requires
            parent_style matches Some(p) ==> p.is_resolved(),
        ensures
            *final(self) == ComputedStyle::defaulted(*old(self), *node, parent_style),
            final(self).is_resolved(),
    {
        let (pbg, pcolor, pfont, pdeco) = match parent_style {
            Some(p) => (p.background_color, p.color, p.font_size, p.text_decoration),
            None => (None, None, None, None),
        };
        let background_color = inherit_color(self.background_color, pbg, Color::white());
        let color = inherit_color(self.color, pcolor, Color::black());
        let font_size = inherit_font_size(self.font_size, pfont, FontSize::default(node));
        let text_decoration = inherit_text_decoration(
            self.text_decoration,
            pdeco,
            TextDecoration::default(node),
        );
        let display = match self.display {
            Some(d) => d,
            None => DisplayType::default(node),
        };
        let white_space = match self.white_space {
            Some(w) => w,
            None => WhiteSpace::default(node),
        };
        let height = match self.height {
            Some(h) => h,
            None => 0,
        };
        let width = match self.width {
            Some(w) => w,
            None => 0,
        };
        let margin = match self.margin {
            Some(m) => m,
            None => BoxInfo::new(0, 0, 0, 0),
        };
        let padding = match self.padding {
            Some(m) => m,
            None => BoxInfo::new(0, 0, 0, 0),
        };
        *self = ComputedStyle {
            background_color: Some(background_color),
            color: Some(color),
            display: Some(display),
            font_size: Some(font_size),
            height: Some(height),
            margin: Some(margin),
            padding: Some(padding),
            text_decoration: Some(text_decoration),
            white_space: Some(white_space),
            width: Some(width),
        };
    }

    pub fn set_background_color(&mut self, color: Color)
        ensures
            *final(self) == (ComputedStyle { background_color: Some(color), ..*old(self) }),
    {
        self.background_color = Some(color);
    }

    pub fn background_color(&self) -> (r: Color)
        requires
            self.background_color is Some,
        ensures
            self.background_color == Some(r),
    {
        self.background_color.unwrap()
    }

    pub fn set_color(&mut self, color: Color)
        ensures
            *final(self) == (ComputedStyle { color: Some(color), ..*old(self) }),
    {
        self.color = Some(color);
    }

    pub fn color(&self) -> (r: Color)
        requires
            self.color is Some,
        ensures
            self.color == Some(r),
    {
        self.color.unwrap()
    }

    pub fn set_height(&mut self, height: u64)
        ensures
            *final(self) == (ComputedStyle { height: Some(height), ..*old(self) }),
    {
        self.height = Some(height);
    }

    pub fn height(&self) -> (r: u64)
        requires
            self.height is Some,
        ensures
            self.height == Some(r),
    {
        self.height.unwrap()
    }

    pub fn set_display(&mut self, display: DisplayType)
        ensures
            *final(self) == (ComputedStyle { display: Some(display), ..*old(self) }),
    {
        self.display = Some(display);
    }

    pub fn display(&self) -> (r: DisplayType)
        requires
            self.display is Some,
        ensures
            self.display == Some(r),
    {
        self.display.unwrap()
    }

    pub fn set_width(&mut self, width: u64)
        ensures
            *final(self) == (ComputedStyle { width: Some(width), ..*old(self) }),
    {
        self.width = Some(width);
    }

    pub fn width(&self) -> (r: u64)
        requires
            self.width is Some,
        ensures
            self.width == Some(r),
    {
        self.width.unwrap()
    }

    pub fn set_margin(&mut self, margin: BoxInfo)
        ensures
            *final(self) == (ComputedStyle { margin: Some(margin), ..*old(self) }),
    {
        self.margin = Some(margin);
    }

    pub fn margin(&self) -> (r: BoxInfo)
        requires
            self.margin is Some,
        ensures
            self.margin == Some(r),
    {
        self.margin.unwrap()
    }

    pub fn set_padding(&mut self, padding: BoxInfo)
        ensures
            *final(self) == (ComputedStyle { padding: Some(padding), ..*old(self) }),
    {
        self.padding = Some(padding);
    }

    pub fn padding(&self) -> (r: BoxInfo)
        requires
            self.padding is Some,
        ensures
            self.padding == Some(r),
    {
        self.padding.unwrap()
    }

    pub fn font_size(&self) -> (r: FontSize)
        requires
            self.font_size is Some,
        ensures
            self.font_size == Some(r),
    {
        self.font_size.unwrap()
    }

    pub fn set_font_size(&mut self, font_size: FontSize)
        ensures
            *final(self) == (ComputedStyle { font_size: Some(font_size), ..*old(self) }),
    {
        self.font_size = Some(font_size);
    }

    pub fn set_text_decoration(&mut self, text_decoration: TextDecoration)
        ensures
            *final(self) == (ComputedStyle { text_decoration: Some(text_decoration), ..*old(self) }),
    {
        self.text_decoration = Some(text_decoration);
    }

    pub fn set_white_space(&mut self, white_space: WhiteSpace)
        ensures
            *final(self) == (ComputedStyle { white_space: Some(white_space), ..*old(self) }),
    {
        self.white_space = Some(white_space);
    }

    pub fn white_space(&self) -> (r: WhiteSpace)
        requires
            self.white_space is Some,
        ensures
            self.white_space == Some(r),
    {
        self.white_space.unwrap()
    }

    pub fn text_decoration(&self) -> (r: TextDecoration)
        requires
            self.text_decoration is Some,
        ensures
            self.text_decoration == Some(r),
    {
        self.text_decoration.unwrap()
    }

    pub fn margin_top(&self) -> (r: u64)
        requires
            self.margin is Some,
        ensures
            r == self.margin.unwrap().top,
    {
        self.margin().top
    }

    pub fn margin_left(&self) -> (r: u64)
        requires
            self.margin is Some,
        ensures
            r == self.margin.unwrap().left,
    {
        self.margin().left
    }

    pub fn margin_right(&self) -> (r: u64)
        requires
            self.margin is Some,
        ensures
            r == self.margin.unwrap().right,
    {
        self.margin().right
    }

    pub fn margin_bottom(&self) -> (r: u64)
        requires
            self.margin is Some,
        ensures
            r == self.margin.unwrap().bottom,
    {
        self.margin().bottom
    }

    pub fn padding_top(&self) -> (r: u64)
        requires
            self.padding is Some,
        ensures
            r == self.padding.unwrap().top,
    {
        self.padding().top
    }

    pub fn padding_left(&self) -> (r: u64)
        requires
            self.padding is Some,
        ensures
            r == self.padding.unwrap().left,
    {
        self.padding().left
    }

    pub fn padding_right(&self) -> (r: u64)
        requires
            self.padding is Some,
        ensures
            r == self.padding.unwrap().right,
    {
        self.padding().right
    }

    pub fn padding_bottom(&self) -> (r: u64)
        requires
            self.padding is Some,
        ensures
            r == self.padding.unwrap().bottom,
    {
        self.padding().bottom
    }
}

} // verus!
