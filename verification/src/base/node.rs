use vstd::prelude::*;
use vstd::string::StringExecFns;

verus! {

/// Unique identifier for a node in the tree.
pub type NodeId = u32;

/// Axis-aligned rectangle.
#[derive(Clone, Copy, PartialEq, Eq, Debug, Structural)]
pub struct Rect {
    pub x: u16,
    pub y: u16,
    pub width: u16,
    pub height: u16,
}

impl Rect {
    pub fn new(x: u16, y: u16, width: u16, height: u16) -> (r: Self)
        ensures
            r == (Rect { x, y, width, height }),
    {
        Rect { x, y, width, height }
    }

    pub fn zero() -> (r: Self)
        ensures
            r == (Rect { x: 0, y: 0, width: 0, height: 0 }),
    {
        Rect { x: 0, y: 0, width: 0, height: 0 }
    }
}

/// Positions and sizes a node relative to its parent (or the screen).
///
/// `min` and `max` are proportional (0.0..1.0) attachment points, each
/// coordinate held as the bit pattern of an IEEE-754 single-precision number.
/// `offset` is a cell fine-tune: (left, top, right, bottom).
#[derive(Clone, Copy, Debug)]
pub struct Anchor {
    pub min: (u32, u32),
    pub max: (u32, u32),
    pub offset: (i16, i16, i16, i16),
}

/// Bit pattern of the single-precision number 1.0.
pub const ONE_BITS: u32 = 0x3f80_0000u32;

impl Anchor {
    /// Fill the entire parent area: from (0.0, 0.0) to (1.0, 1.0) with no offset.
    pub fn fill() -> (a: Self)
        ensures
            a == (Anchor { min: (0, 0), max: (ONE_BITS, ONE_BITS), offset: (0, 0, 0, 0) }),
    {
        Anchor { min: (0, 0), max: (ONE_BITS, ONE_BITS), offset: (0, 0, 0, 0) }
    }
}

/// Text alignment within a node.
#[derive(Clone, Copy, PartialEq, Eq, Debug, Structural)]
pub enum TextAlign {
    Left,
    Center,
    Right,
}

/// Interaction state for focusable nodes.
#[derive(Clone, Copy, PartialEq, Eq, Debug, Structural)]
pub enum Interaction {
    Idle,
    Focused,
    Pressed,
}

/// Border drawing style for panels.
#[derive(Clone, Copy, PartialEq, Eq, Debug, Structural)]
pub enum BorderStyle {
    Single,
    Rounded,
    Double,
    Heavy,
    Ascii,
}

/// Visual style for progress bars.
#[derive(Clone, Copy, PartialEq, Eq, Debug, Structural)]
pub enum ProgressStyle {
    /// Smooth block characters
    Smooth,
    /// Classic ASCII: [####....]
    Classic,
    /// Dot style
    Dot,
}

/// Animation style for spinners.
#[derive(Clone, Copy, PartialEq, Eq, Debug, Structural)]
pub enum SpinnerStyle {
    Dots,
    Line,
    Block,
    Circle,
}

/// Visual style applied to a node.
#[derive(Clone, Copy, Debug)]
pub struct Style {
    pub fg: Option<(u8, u8, u8)>,
    pub bg: Option<(u8, u8, u8)>,
    pub bold: bool,
    pub dim: bool,
    pub italic: bool,
    pub underline: bool,
    pub strikethrough: bool,
}

/// The style with no colors and no attributes.
pub open spec fn plain_style() -> Style {
    Style {
        fg: None,
        bg: None,
        bold: false,
        dim: false,
        italic: false,
        underline: false,
        strikethrough: false,
    }
}

impl Style {
    pub fn new() -> (s: Self)
        ensures
            s == plain_style(),
    {
        Style {
            fg: None,
            bg: None,
            bold: false,
            dim: false,
            italic: false,
            underline: false,
            strikethrough: false,
        }
    }

    pub fn fg(r: u8, g: u8, b: u8) -> (s: Self)
        ensures
            s == (Style { fg: Some((r, g, b)), ..plain_style() }),
    {
        Style { fg: Some((r, g, b)), ..Style::new() }
    }

    pub fn dim() -> (s: Self)
        ensures
            s == (Style { dim: true, ..plain_style() }),
    {
        Style { dim: true, ..Style::new() }
    }
}

/// What a node displays. Determines rendering behavior.
///
/// Fractional quantities (progress value, spinner and typewriter clocks and
/// speeds) are held as bit patterns of IEEE-754 single-precision numbers.
#[derive(Debug)]
#[allow(inconsistent_fields)]
pub enum Content {
    /// Invisible layout container.
    Container,
    /// Static text.
    Text(String),
    /// Clickable button with a label.
    Button(String),
    /// Bordered panel.
    Panel { title: Option<String>, border: BorderStyle, shadow: bool },
    /// Horizontal separator line.
    Separator { label: Option<String> },
    /// Progress indicator.
    Progress {
        value: u32,
        style: ProgressStyle,
        fg_fill: (u8, u8, u8),
        fg_empty: (u8, u8, u8),
        gradient_end: Option<(u8, u8, u8)>,
        show_label: bool,
    },
    /// Animated spinner.
    Spinner { style: SpinnerStyle, elapsed: u32, speed: u32, label: Option<String> },
    /// Text input field.
    TextInput { value: String, cursor: usize, max_len: usize, placeholder: String },
    /// Typewriter-animated text.
    AnimatedText { text: String, speed: u32, elapsed: u32 },
}

/// A node in the UI tree. Owns all its data inline.
#[derive(Debug)]
pub struct Node {
    pub id: NodeId,
    pub rect: Rect,
    pub anchor: Option<Anchor>,
    pub style: Style,
    pub content: Content,
    pub align: TextAlign,
    pub parent: Option<NodeId>,
    pub children: Vec<NodeId>,
    pub focusable: bool,
    pub interaction: Interaction,
    pub z_index: i16,
    pub visible: bool,
}

/// Mathematical view of a node: its data with the children as a sequence.
pub struct NodeView {
    pub id: NodeId,
    pub rect: Rect,
    pub anchor: Option<Anchor>,
    pub style: Style,
    pub content: Content,
    pub align: TextAlign,
    pub parent: Option<NodeId>,
    pub children: Seq<NodeId>,
    pub focusable: bool,
    pub interaction: Interaction,
    pub z_index: i16,
    pub visible: bool,
}

impl View for Node {
    type V = NodeView;

    open spec fn view(&self) -> NodeView {
        NodeView {
            id: self.id,
            rect: self.rect,
            anchor: self.anchor,
            style: self.style,
            content: self.content,
            align: self.align,
            parent: self.parent,
            children: self.children@,
            focusable: self.focusable,
            interaction: self.interaction,
            z_index: self.z_index,
            visible: self.visible,
        }
    }
}

/// A freshly built node holding `content`: no id, no parent, no children,
/// default style, left-aligned, visible, not focusable.
pub open spec fn fresh_node(n: Node, content: Content) -> bool {
    &&& n.spec_id() == 0
    &&& n.rect == Rect::spec_zero()
    &&& n.anchor is None
    &&& n.style == plain_style()
    &&& n.content == content
    &&& n.align == TextAlign::Left
    &&& n.parent is None
    &&& n.spec_children() == Seq::<NodeId>::empty()
    &&& !n.focusable
    &&& n.interaction == Interaction::Idle
    &&& n.z_index == 0
    &&& n.visible
}

impl Rect {
    pub open spec fn spec_zero() -> Rect {
        Rect { x: 0, y: 0, width: 0, height: 0 }
    }
}

/// Same node except for its content.
pub open spec fn same_but_content(a: Node, b: Node) -> bool {
    &&& a.spec_id() == b.spec_id()
    &&& a.rect == b.rect
    &&& a.anchor == b.anchor
    &&& a.style == b.style
    &&& a.align == b.align
    &&& a.parent == b.parent
    &&& a.spec_children() == b.spec_children()
    &&& a.focusable == b.focusable
    &&& a.interaction == b.interaction
    &&& a.z_index == b.z_index
    &&& a.visible == b.visible
}

// Constructors

impl Node {
    fn base(content: Content) -> (n: Self)
        ensures
            fresh_node(n, content),
    {
        Node {
            id: 0,
            rect: Rect::zero(),
            anchor: None,
            style: Style::new(),
            content,
            align: TextAlign::Left,
            parent: None,
            children: Vec::new(),
            focusable: false,
            interaction: Interaction::Idle,
            z_index: 0,
            visible: true,
        }
    }

    /// The id the node was given when it was added to a context.
    pub open spec fn spec_id(&self) -> NodeId {
        self.id
    }

    /// The ids of the node's children, in insertion order.
    pub open spec fn spec_children(&self) -> Seq<NodeId> {
        self.children@
    }

    pub fn container() -> (n: Self)
        ensures
            fresh_node(n, Content::Container),
    {
        Self::base(Content::Container)
    }

    pub fn text(value: &str) -> (n: Self)
        ensures
            fresh_node(n, n.content),
            n.content matches Content::Text(s) && s@ == value@,
    {
        Self::base(Content::Text(String::from_str(value)))
    }

    pub fn button(label: &str) -> (n: Self)
        ensures
            n.content matches Content::Button(s) && s@ == label@,
            fresh_node(Node { focusable: false, ..n }, n.content),
            n.focusable,
    {
        let mut n = Self::base(Content::Button(String::from_str(label)));
        n.focusable = true;
        n.interaction = Interaction::Idle;
        n
    }

    pub fn panel(title: &str) -> (n: Self)
        ensures
            fresh_node(n, n.content),
            n.content matches Content::Panel { title: Some(t), border, shadow } && t@ == title@
                && border == BorderStyle::Single && !shadow,
    {
        Self::base(
            Content::Panel {
                title: Some(String::from_str(title)),
                border: BorderStyle::Single,
                shadow: false,
            },
        )
    }

    pub fn panel_untitled() -> (n: Self)
        ensures
            fresh_node(n, Content::Panel { title: None, border: BorderStyle::Single, shadow: false }),
    {
        Self::base(Content::Panel { title: None, border: BorderStyle::Single, shadow: false })
    }

    pub fn separator() -> (n: Self)
        ensures
            fresh_node(n, Content::Separator { label: None }),
    {
        Self::base(Content::Separator { label: None })
    }

    pub fn separator_labeled(label: &str) -> (n: Self)
        ensures
            fresh_node(n, n.content),
            n.content matches Content::Separator { label: Some(l) } && l@ == label@,
    {
        Self::base(Content::Separator { label: Some(String::from_str(label)) })
    }

    /// A progress bar whose value is the bit pattern `value_bits`, which the
    /// caller has already clamped to 0.0..=1.0.
    pub fn progress_raw(value_bits: u32, style: ProgressStyle) -> (n: Self)
        ensures
            fresh_node(
                n,
                Content::Progress {
                    value: value_bits,
                    style,
                    fg_fill: (80, 200, 120),
                    fg_empty: (50, 50, 60),
                    gradient_end: None,
                    show_label: false,
                },
            ),
    {
        Self::base(
            Content::Progress {
                value: value_bits,
                style,
                fg_fill: (80, 200, 120),
                fg_empty: (50, 50, 60),
                gradient_end: None,
                show_label: false,
            },
        )
    }

    /// A spinner at clock 0.0 with speed 1.0 and no label.
    pub fn spinner(style: SpinnerStyle) -> (n: Self)
        ensures
            fresh_node(n, Content::Spinner { style, elapsed: 0, speed: ONE_BITS, label: None }),
    {
        Self::base(Content::Spinner { style, elapsed: 0, speed: ONE_BITS, label: None })
    }

    pub fn text_input(placeholder: &str, max_len: usize) -> (n: Self)
        ensures
            n.content matches Content::TextInput { value, cursor, max_len: m, placeholder: p }
                && value@.len() == 0 && cursor == 0 && m == max_len && p@ == placeholder@,
            fresh_node(Node { focusable: false, ..n }, n.content),
            n.focusable,
    {
        let mut n = Self::base(
            Content::TextInput {
                value: String::new(),
                cursor: 0,
                max_len,
                placeholder: String::from_str(placeholder),
            },
        );
        n.focusable = true;
        n
    }

    /// Typewriter text at clock 0.0 with speed given as a bit pattern.
    pub fn animated_text_raw(text: &str, speed_bits: u32) -> (n: Self)
        ensures
            fresh_node(n, n.content),
            n.content matches Content::AnimatedText { text: t, speed, elapsed } && t@ == text@
                && speed == speed_bits && elapsed == 0,
    {
        Self::base(
            Content::AnimatedText { text: String::from_str(text), speed: speed_bits, elapsed: 0 },
        )
    }
}

// Builder methods (chainable)

impl Node {
    pub fn anchor(self, anchor: Anchor) -> (n: Self)
        ensures
            n == (Node { anchor: Some(anchor), ..self }),
    {
        let mut s = self;
        s.anchor = Some(anchor);
        s
    }

    pub fn with_style(self, style: Style) -> (n: Self)
        ensures
            n == (Node { style, ..self }),
    {
        let mut s = self;
        s.style = style;
        s
    }

    pub fn fg(self, r: u8, g: u8, b: u8) -> (n: Self)
        ensures
            n == (Node { style: Style { fg: Some((r, g, b)), ..self.style }, ..self }),
    {
        let mut s = self;
        s.style.fg = Some((r, g, b));
        s
    }

    pub fn bg(self, r: u8, g: u8, b: u8) -> (n: Self)
        ensures
            n == (Node { style: Style { bg: Some((r, g, b)), ..self.style }, ..self }),
    {
        let mut s = self;
        s.style.bg = Some((r, g, b));
        s
    }

    pub fn bold(self) -> (n: Self)
        ensures
            n == (Node { style: Style { bold: true, ..self.style }, ..self }),
    {
        let mut s = self;
        s.style.bold = true;
        s
    }

    pub fn dim(self) -> (n: Self)
        ensures
            n == (Node { style: Style { dim: true, ..self.style }, ..self }),
    {
        let mut s = self;
        s.style.dim = true;
        s
    }

    pub fn italic(self) -> (n: Self)
        ensures
            n == (Node { style: Style { italic: true, ..self.style }, ..self }),
    {
        let mut s = self;
        s.style.italic = true;
        s
    }

    pub fn underline(self) -> (n: Self)
        ensures
            n == (Node { style: Style { underline: true, ..self.style }, ..self }),
    {
        let mut s = self;
        s.style.underline = true;
        s
    }

    pub fn center(self) -> (n: Self)
        ensures
            n == (Node { align: TextAlign::Center, ..self }),
    {
        let mut s = self;
        s.align = TextAlign::Center;
        s
    }

    pub fn right(self) -> (n: Self)
        ensures
            n == (Node { align: TextAlign::Right, ..self }),
    {
        let mut s = self;
        s.align = TextAlign::Right;
        s
    }

    pub fn z(self, z: i16) -> (n: Self)
        ensures
            n == (Node { z_index: z, ..self }),
    {
        let mut s = self;
        s.z_index = z;
        s
    }

    pub fn hidden(self) -> (n: Self)
        ensures
            n == (Node { visible: false, ..self }),
    {
        let mut s = self;
        s.visible = false;
        s
    }

    // Panel-specific builders

    /// Sets the border style of a panel; any other node is returned unchanged.
    pub fn border(self, style: BorderStyle) -> (n: Self)
        ensures
            same_but_content(n, self),
            n.content == (match self.content {
                Content::Panel { title, border: _, shadow } => Content::Panel {
                    title,
                    border: style,
                    shadow,
                },
                c => c,
            }),
    {
        let mut s = self;
        let c = match s.content {
            Content::Panel { title, border: _, shadow } => Content::Panel {
                title,
                border: style,
                shadow,
            },
            c => c,
        };
        s.content = c;
        s
    }

    /// Gives a panel a drop shadow; any other node is returned unchanged.
    pub fn shadow(self) -> (n: Self)
        ensures
            same_but_content(n, self),
            n.content == (match self.content {
                Content::Panel { title, border, shadow: _ } => Content::Panel {
                    title,
                    border,
                    shadow: true,
                },
                c => c,
            }),
    {
        let mut s = self;
        let c = match s.content {
            Content::Panel { title, border, shadow: _ } => Content::Panel {
                title,
                border,
                shadow: true,
            },
            c => c,
        };
        s.content = c;
        s
    }

    // Progress-specific builders

    /// Sets the gradient end color of a progress bar; other nodes unchanged.
    pub fn gradient(self, end: (u8, u8, u8)) -> (n: Self)
        ensures
            same_but_content(n, self),
            n.content == (match self.content {
                Content::Progress {
                    value,
                    style,
                    fg_fill,
                    fg_empty,
                    gradient_end: _,
                    show_label,
                } => Content::Progress {
                    value,
                    style,
                    fg_fill,
                    fg_empty,
                    gradient_end: Some(end),
                    show_label,
                },
                c => c,
            }),
    {
        let mut s = self;
        let c = match s.content {
            Content::Progress { value, style, fg_fill, fg_empty, gradient_end: _, show_label } =>
                Content::Progress {
                value,
                style,
                fg_fill,
                fg_empty,
                gradient_end: Some(end),
                show_label,
            },
            c => c,
        };
        s.content = c;
        s
    }

    /// Shows the percentage label of a progress bar; other nodes unchanged.
    pub fn label(self) -> (n: Self)
        ensures
            same_but_content(n, self),
            n.content == (match self.content {
                Content::Progress {
                    value,
                    style,
                    fg_fill,
                    fg_empty,
                    gradient_end,
                    show_label: _,
                } => Content::Progress {
                    value,
                    style,
                    fg_fill,
                    fg_empty,
                    gradient_end,
                    show_label: true,
                },
                c => c,
            }),
    {
        let mut s = self;
        let c = match s.content {
            Content::Progress { value, style, fg_fill, fg_empty, gradient_end, show_label: _ } =>
                Content::Progress {
                value,
                style,
                fg_fill,
                fg_empty,
                gradient_end,
                show_label: true,
            },
            c => c,
        };
        s.content = c;
        s
    }

    /// Sets the fill and empty colors of a progress bar; other nodes unchanged.
    pub fn colors(self, fill: (u8, u8, u8), empty: (u8, u8, u8)) -> (n: Self)
        ensures
            same_but_content(n, self),
            n.content == (match self.content {
                Content::Progress {
                    value,
                    style,
                    fg_fill: _,
                    fg_empty: _,
                    gradient_end,
                    show_label,
                } => Content::Progress {
                    value,
                    style,
                    fg_fill: fill,
                    fg_empty: empty,
                    gradient_end,
                    show_label,
                },
                c => c,
            }),
    {
        let mut s = self;
        let c = match s.content {
            Content::Progress { value, style, fg_fill: _, fg_empty: _, gradient_end, show_label } =>
                Content::Progress {
                value,
                style,
                fg_fill: fill,
                fg_empty: empty,
                gradient_end,
                show_label,
            },
            c => c,
        };
        s.content = c;
        s
    }

    // Spinner-specific builders

    /// Sets the label of a spinner; other nodes unchanged.
    pub fn with_label(self, text: &str) -> (n: Self)
        ensures
            same_but_content(n, self),
            match self.content {
                Content::Spinner { style, elapsed, speed, label: _ } => n.content matches Content::Spinner {
                    style: s2,
                    elapsed: e2,
                    speed: v2,
                    label: Some(l),
                } && s2 == style && e2 == elapsed && v2 == speed && l@ == text@,
                c => n.content == c,
            },
    {
        let mut s = self;
        let c = match s.content {
            Content::Spinner { style, elapsed, speed, label: _ } => Content::Spinner {
                style,
                elapsed,
                speed,
                label: Some(String::from_str(text)),
            },
            c => c,
        };
        s.content = c;
        s
    }
}

// Accessor helpers

impl Node {
    pub fn id(&self) -> (r: NodeId)
        ensures
            r == self.spec_id(),
    {
        self.id
    }

    pub fn children(&self) -> (r: &[NodeId])
        ensures
            r@ == self.spec_children(),
    {
        self.children.as_slice()
    }

    pub fn is_container(&self) -> (r: bool)
        ensures
            r == (self.content is Container),
    {
        match self.content {
            Content::Container => true,
            _ => false,
        }
    }

    pub fn is_button(&self) -> (r: bool)
        ensures
            r == (self.content is Button),
    {
        match self.content {
            Content::Button(_) => true,
            _ => false,
        }
    }

    pub fn button_label(&self) -> (r: Option<&str>)
        ensures
            match self.content {
                Content::Button(label) => r matches Some(s) && s@ == label@,
                _ => r is None,
            },
    {
        match &self.content {
            Content::Button(label) => Some(label.as_str()),
            _ => None,
        }
    }

    pub fn text_value(&self) -> (r: Option<&str>)
        ensures
            match self.content {
                Content::Text(v) => r matches Some(s) && s@ == v@,
                _ => r is None,
            },
    {
        match &self.content {
            Content::Text(v) => Some(v.as_str()),
            _ => None,
        }
    }

    /// Replaces the text of a text node; other nodes are left unchanged.
    pub fn set_text(&mut self, value: &str)
        ensures
            same_but_content(*final(self), *old(self)),
            match old(self).content {
                Content::Text(_) => final(self).content matches Content::Text(v) && v@ == value@,
                c => final(self).content == c,
            },
    {
        let is_text = match &self.content {
            Content::Text(_) => true,
            _ => false,
        };
        if is_text {
            self.content = Content::Text(String::from_str(value));
        }
    }

    /// Sets the value of a progress bar to the bit pattern `value_bits`, which
    /// the caller has already clamped; other nodes are left unchanged.
    pub fn set_progress_raw(&mut self, value_bits: u32)
        ensures
            same_but_content(*final(self), *old(self)),
            final(self).content == (match old(self).content {
                Content::Progress {
                    value: _,
                    style,
                    fg_fill,
                    fg_empty,
                    gradient_end,
                    show_label,
                } => Content::Progress {
                    value: value_bits,
                    style,
                    fg_fill,
                    fg_empty,
                    gradient_end,
                    show_label,
                },
                c => c,
            }),
    {
        let is_progress = match &self.content {
            Content::Progress { .. } => true,
            _ => false,
        };
        if is_progress {
            let c = match &self.content {
                Content::Progress { value: _, style, fg_fill, fg_empty, gradient_end, show_label } =>
                    Content::Progress {
                    value: value_bits,
                    style: *style,
                    fg_fill: *fg_fill,
                    fg_empty: *fg_empty,
                    gradient_end: *gradient_end,
                    show_label: *show_label,
                },
                _ => Content::Container,
            };
            self.content = c;
        }
    }
}

} // verus!
