//! Nodes: what one element of the scene is, looks like and reacts to.
use vstd::prelude::*;

use crate::gpu::image_atlas::ImageHandle;
use crate::gpu::instance::{SHAPE_KIND_GLASS, SHAPE_KIND_IMAGE, SHAPE_KIND_RECT};
use crate::layout::{Align, Axis, Justify, LayoutStyle, Len, Overflow};
use crate::scalar::{
    cent, one, one_s, pair, quad, splat2, splat4, units, zero, zero_s, Scalar,
};
use crate::signal::Signal;

verus! {

// --- identifiers -----------------------------------------------------------

/// Names a node of a tree. Stays valid while other nodes come and go; once
/// its own node is removed it never names another.
#[derive(Copy, Clone, Debug, PartialEq, Eq, Hash, Structural)]
pub struct NodeId {
    index: u32,
    generation: u32,
}

impl NodeId {
    /// The slot it points at.
    pub closed spec fn slot(self) -> nat {
        self.index as nat
    }

    /// The generation of that slot it was issued for.
    pub closed spec fn issue(self) -> u32 {
        self.generation
    }

    /// The identifier of one generation of one slot.
    pub closed spec fn of(index: u32, generation: u32) -> NodeId {
        NodeId { index, generation }
    }

    pub(crate) fn make(index: u32, generation: u32) -> (r: NodeId)
        ensures
            r == NodeId::of(index, generation),
    {
        NodeId { index, generation }
    }

    pub(crate) fn slot_index(self) -> (r: u32)
        ensures
            r == self.slot(),
    {
        self.index
    }

    pub(crate) fn issue_number(self) -> (r: u32)
        ensures
            r == self.issue(),
    {
        self.generation
    }

    pub(crate) fn equals(self, other: NodeId) -> (r: bool)
        ensures
            r == (self == other),
    {
        self.index == other.index && self.generation == other.generation
    }
}

/// An identifier is determined by its slot and its generation.
pub broadcast proof fn id_is_slot_and_issue(a: NodeId, b: NodeId)
    ensures
        #![trigger a.slot(), b.slot()]
        a == b <==> a.slot() == b.slot() && a.issue() == b.issue(),
{
}

pub broadcast proof fn id_parts(index: u32, generation: u32)
    ensures
        (#[trigger] NodeId::of(index, generation)).slot() == index,
        NodeId::of(index, generation).issue() == generation,
{
}

// --- small enums -----------------------------------------------------------

/// Which axis a scrollbar belongs to.
#[derive(Copy, Clone, Debug, PartialEq, Eq, Structural)]
pub enum ScrollAxis {
    X,
    Y,
}

impl ScrollAxis {
    /// Position of the axis in an `[x, y]` pair.
    pub open spec fn position(self) -> int {
        match self {
            ScrollAxis::X => 0,
            ScrollAxis::Y => 1,
        }
    }

    pub fn index(self) -> (r: usize)
        ensures
            r == self.position(),
    {
        match self {
            ScrollAxis::X => 0,
            ScrollAxis::Y => 1,
        }
    }
}

/// The edge a scrollbar sits at: `End` is right or bottom, `Start` is left or
/// top.
#[derive(Copy, Clone, Debug, PartialEq, Eq, Structural)]
pub enum BarSide {
    Start,
    End,
}

/// What a node paints.
#[derive(Copy, Clone, Debug, PartialEq, Eq, Structural)]
pub enum ShapeKind {
    Rect,
    Glass,
    Text,
    Image,
}

impl ShapeKind {
    /// The kind as the shaders number it. Text reaches the GPU as glyphs, so
    /// a text node itself counts as a rectangle.
    pub open spec fn code(self) -> u32 {
        match self {
            ShapeKind::Rect => SHAPE_KIND_RECT,
            ShapeKind::Glass => SHAPE_KIND_GLASS,
            ShapeKind::Text => SHAPE_KIND_RECT,
            ShapeKind::Image => SHAPE_KIND_IMAGE,
        }
    }

    pub fn as_u32(self) -> (r: u32)
        ensures
            r == self.code(),
    {
        match self {
            ShapeKind::Rect => SHAPE_KIND_RECT,
            ShapeKind::Glass => SHAPE_KIND_GLASS,
            ShapeKind::Text => SHAPE_KIND_RECT,
            ShapeKind::Image => SHAPE_KIND_IMAGE,
        }
    }
}

/// A window operation that a press on the node starts.
#[derive(Copy, Clone, Debug, PartialEq, Eq, Structural)]
pub enum WindowAction {
    /// Move the window with the pointer.
    DragMove,
    /// Leave the program.
    Close,
    Minimize,
    ToggleMaximize,
}

/// The flags a node keeps up to date with the pointer.
#[derive(Copy, Clone, Debug)]
pub struct NodeInteract {
    pub hover: Option<Signal<bool>>,
    pub pressed: Option<Signal<bool>>,
    pub focused: Option<Signal<bool>>,
}

impl NodeInteract {
    pub open spec fn inert() -> NodeInteract {
        NodeInteract { hover: None, pressed: None, focused: None }
    }

    pub open spec fn listens(self) -> bool {
        self.hover is Some || self.pressed is Some || self.focused is Some
    }

    /// Whether any flag is kept.
    pub fn is_any(&self) -> (r: bool)
        ensures
            r == self.listens(),
    {
        self.hover.is_some() || self.pressed.is_some() || self.focused.is_some()
    }
}

impl Default for NodeInteract {
    fn default() -> (r: Self)
        ensures
            r == NodeInteract::inert(),
    {
        NodeInteract { hover: None, pressed: None, focused: None }
    }
}

// --- style -----------------------------------------------------------------

/// How a node is painted. Lengths are logical pixels.
#[derive(Copy, Clone, Debug)]
pub struct ShapeStyle<S> {
    pub color: [S; 4],
    pub border_color: [S; 4],
    pub border_width: S,
    pub border_radius: [S; 4],
    pub shadow_color: [S; 4],
    pub shadow_offset: [S; 2],
    pub shadow_blur: S,
    pub shadow_opacity: S,
    pub opacity: S,
    pub kind: ShapeKind,
    /// Glass only: backdrop blur radius.
    pub blur_amount: S,
    /// Glass only: how far the rim bends the backdrop.
    pub refraction: S,
    /// Glass only: how far the surface scatters the backdrop.
    pub roughness: S,
}

impl<S: Scalar> ShapeStyle<S> {
    /// Fully transparent, without border or shadow: a bare container paints
    /// nothing.
    pub open spec fn plain() -> ShapeStyle<S> {
        ShapeStyle {
            color: quad(zero_s()),
            border_color: [zero_s(), zero_s(), zero_s(), one_s()],
            border_width: zero_s(),
            border_radius: quad(zero_s()),
            shadow_color: [zero_s(), zero_s(), zero_s(), one_s()],
            shadow_offset: pair(zero_s()),
            shadow_blur: zero_s(),
            shadow_opacity: zero_s(),
            opacity: one_s(),
            kind: ShapeKind::Rect,
            blur_amount: S::rat(12, 1),
            refraction: zero_s(),
            roughness: zero_s(),
        }
    }
}

impl<S: Scalar> Default for ShapeStyle<S> {
    fn default() -> (r: Self)
        ensures
            r == ShapeStyle::<S>::plain(),
    {
        let black: [S; 4] = [zero(), zero(), zero(), one()];
        ShapeStyle {
            color: splat4(zero()),
            border_color: black,
            border_width: zero(),
            border_radius: splat4(zero()),
            shadow_color: black,
            shadow_offset: splat2(zero()),
            shadow_blur: zero(),
            shadow_opacity: zero(),
            opacity: one(),
            kind: ShapeKind::Rect,
            blur_amount: units(12),
            refraction: zero(),
            roughness: zero(),
        }
    }
}

/// How a node's scrollbars look and behave. Lengths are logical pixels.
#[derive(Copy, Clone, Debug)]
pub struct ScrollbarStyle<S> {
    pub track_color: [S; 4],
    pub thumb_color: [S; 4],
    pub thumb_hover_color: [S; 4],
    pub thumb_active_color: [S; 4],
    pub thickness: S,
    pub min_thumb: S,
    pub margin: S,
    pub radius: S,
    pub y_side: BarSide,
    pub x_side: BarSide,
    pub fade_seconds: S,
    /// Scrolling alone does not show the bar, only the pointer does.
    pub auto_hide: bool,
    /// The bar never fades.
    pub always_visible: bool,
}

pub open spec fn white_s<S: Scalar>(alpha: i64) -> [S; 4] {
    [one_s(), one_s(), one_s(), S::rat(alpha, 100)]
}

/// White at `alpha` hundredths.
pub fn white<S: Scalar>(alpha: i64) -> (r: [S; 4])
    ensures
        r == white_s::<S>(alpha),
{
    [one(), one(), one(), cent(alpha)]
}

impl<S: Scalar> ScrollbarStyle<S> {
    pub open spec fn plain() -> ScrollbarStyle<S> {
        ScrollbarStyle {
            track_color: white_s(10),
            thumb_color: white_s(45),
            thumb_hover_color: white_s(65),
            thumb_active_color: white_s(85),
            thickness: S::rat(4, 1),
            min_thumb: S::rat(24, 1),
            margin: S::rat(4, 1),
            radius: S::rat(2, 1),
            y_side: BarSide::End,
            x_side: BarSide::End,
            fade_seconds: S::rat(80, 100),
            auto_hide: false,
            always_visible: false,
        }
    }

    pub fn track_color(self, c: [S; 4]) -> (r: Self)
        ensures
            r == (ScrollbarStyle { track_color: c, ..self }),
    {
        ScrollbarStyle { track_color: c, ..self }
    }

    pub fn thumb_color(self, c: [S; 4]) -> (r: Self)
        ensures
            r == (ScrollbarStyle { thumb_color: c, ..self }),
    {
        ScrollbarStyle { thumb_color: c, ..self }
    }

    pub fn thumb_hover_color(self, c: [S; 4]) -> (r: Self)
        ensures
            r == (ScrollbarStyle { thumb_hover_color: c, ..self }),
    {
        ScrollbarStyle { thumb_hover_color: c, ..self }
    }

    pub fn thumb_active_color(self, c: [S; 4]) -> (r: Self)
        ensures
            r == (ScrollbarStyle { thumb_active_color: c, ..self }),
    {
        ScrollbarStyle { thumb_active_color: c, ..self }
    }

    pub fn thickness(self, px: S) -> (r: Self)
        ensures
            r == (ScrollbarStyle { thickness: px, ..self }),
    {
        ScrollbarStyle { thickness: px, ..self }
    }

    pub fn min_thumb(self, px: S) -> (r: Self)
        ensures
            r == (ScrollbarStyle { min_thumb: px, ..self }),
    {
        ScrollbarStyle { min_thumb: px, ..self }
    }

    pub fn margin(self, px: S) -> (r: Self)
        ensures
            r == (ScrollbarStyle { margin: px, ..self }),
    {
        ScrollbarStyle { margin: px, ..self }
    }

    pub fn radius(self, px: S) -> (r: Self)
        ensures
            r == (ScrollbarStyle { radius: px, ..self }),
    {
        ScrollbarStyle { radius: px, ..self }
    }

    pub fn y_side(self, side: BarSide) -> (r: Self)
        ensures
            r == (ScrollbarStyle { y_side: side, ..self }),
    {
        ScrollbarStyle { y_side: side, ..self }
    }

    pub fn x_side(self, side: BarSide) -> (r: Self)
        ensures
            r == (ScrollbarStyle { x_side: side, ..self }),
    {
        ScrollbarStyle { x_side: side, ..self }
    }

    /// Fade time, never negative.
    pub fn fade(self, seconds: S) -> (r: Self)
        ensures
            r == (ScrollbarStyle { fade_seconds: seconds.hi(zero_s()), ..self }),
    {
        ScrollbarStyle { fade_seconds: seconds.larger(zero()), ..self }
    }

    pub fn auto_hide(self, on: bool) -> (r: Self)
        ensures
            r == (ScrollbarStyle { auto_hide: on, ..self }),
    {
        ScrollbarStyle { auto_hide: on, ..self }
    }

    pub fn always_visible(self, on: bool) -> (r: Self)
        ensures
            r == (ScrollbarStyle { always_visible: on, ..self }),
    {
        ScrollbarStyle { always_visible: on, ..self }
    }
}

impl<S: Scalar> Default for ScrollbarStyle<S> {
    fn default() -> (r: Self)
        ensures
            r == ScrollbarStyle::<S>::plain(),
    {
        ScrollbarStyle {
            track_color: white(10),
            thumb_color: white(45),
            thumb_hover_color: white(65),
            thumb_active_color: white(85),
            thickness: units(4),
            min_thumb: units(24),
            margin: units(4),
            radius: units(2),
            y_side: BarSide::End,
            x_side: BarSide::End,
            fade_seconds: cent(80),
            auto_hide: false,
            always_visible: false,
        }
    }
}

// --- scroll state ----------------------------------------------------------

/// Where a scroll container is and where it is heading. Input moves `target`;
/// each tick eases `current`, which is what is painted, toward it.
#[derive(Copy, Clone, Debug)]
pub struct ScrollState<S> {
    pub current: [S; 2],
    pub target: [S; 2],
    /// Ease rate: higher is snappier.
    pub stiffness: S,
    /// Whether `target` may leave the content's range.
    pub overscroll: bool,
    /// Opacity of the bars between zero and one.
    pub bar_alpha: S,
    pub style: ScrollbarStyle<S>,
    /// Pointer over the bar, by axis.
    pub bar_hover: [bool; 2],
    /// Thumb held, by axis.
    pub bar_active: [bool; 2],
}

impl<S: Scalar> ScrollState<S> {
    /// At the origin, at rest, bars faded out.
    pub open spec fn rest() -> ScrollState<S> {
        ScrollState {
            current: pair(zero_s()),
            target: pair(zero_s()),
            stiffness: S::rat(12, 1),
            overscroll: false,
            bar_alpha: zero_s(),
            style: ScrollbarStyle::plain(),
            bar_hover: [false, false],
            bar_active: [false, false],
        }
    }

    pub open spec fn held(self) -> bool {
        self.bar_active[0] || self.bar_active[1]
    }

    pub open spec fn hovered(self) -> bool {
        self.bar_hover[0] || self.bar_hover[1]
    }

    /// Whether a thumb is being dragged on either axis.
    pub fn dragging(&self) -> (r: bool)
        ensures
            r == self.held(),
    {
        self.bar_active[0] || self.bar_active[1]
    }
}

impl<S: Scalar> Default for ScrollState<S> {
    fn default() -> (r: Self)
        ensures
            r == ScrollState::<S>::rest(),
    {
        ScrollState {
            current: splat2(zero()),
            target: splat2(zero()),
            stiffness: units(12),
            overscroll: false,
            bar_alpha: zero(),
            style: ScrollbarStyle::default(),
            bar_hover: [false, false],
            bar_active: [false, false],
        }
    }
}

/// The state a node has, or the one it would be given.
pub open spec fn state_or_rest<S: Scalar>(s: Option<ScrollState<S>>) -> ScrollState<S> {
    match s {
        Some(s) => s,
        None => ScrollState::rest(),
    }
}

pub fn state_or_default<S: Scalar>(s: Option<ScrollState<S>>) -> (r: ScrollState<S>)
    ensures
        r == state_or_rest(s),
{
    match s {
        Some(s) => s,
        None => ScrollState::default(),
    }
}

// --- nodes -----------------------------------------------------------------

/// A text node's content.
#[derive(Clone, Debug)]
pub struct NodeText<S> {
    pub content: String,
    pub font_size: S,
    pub line_height: S,
}

/// One element of the scene.
#[derive(Clone, Debug)]
pub struct Node<S> {
    pub style: ShapeStyle<S>,
    pub layout: LayoutStyle<S>,
    /// `[x, y, w, h]` after layout, in physical pixels.
    pub rect: [S; 4],
    /// Extent of the children, in physical pixels.
    pub content_size: [S; 2],
    pub scroll: Option<ScrollState<S>>,
    pub visible: bool,
    pub children: Vec<NodeId>,
    pub interact: NodeInteract,
    pub text: Option<NodeText<S>>,
    pub image: Option<ImageHandle>,
    pub window_action: Option<WindowAction>,
}

impl<S: Scalar> Node<S> {
    /// A visible, inert node with the given style, text and image.
    pub open spec fn plain(
        style: ShapeStyle<S>,
        text: Option<NodeText<S>>,
        image: Option<ImageHandle>,
        children: Vec<NodeId>,
    ) -> Node<S> {
        Node {
            style,
            layout: LayoutStyle::plain(),
            rect: quad(zero_s()),
            content_size: pair(zero_s()),
            scroll: None,
            visible: true,
            children,
            interact: NodeInteract::inert(),
            text,
            image,
            window_action: None,
        }
    }

    /// A transparent rectangle.
    pub fn rect() -> (r: NodeBuilder<S>)
        ensures
            r.built().children@.len() == 0,
            r.built() == Node::<S>::plain(ShapeStyle::plain(), None, None, r.built().children),
    {
        NodeBuilder {
            node: Node {
                style: ShapeStyle::default(),
                layout: LayoutStyle::default(),
                rect: splat4(zero()),
                content_size: splat2(zero()),
                scroll: None,
                visible: true,
                children: Vec::new(),
                interact: NodeInteract::default(),
                text: None,
                image: None,
                window_action: None,
            },
        }
    }

    /// A frosted pane with a faint white tint.
    pub fn glass() -> (r: NodeBuilder<S>)
        ensures
            r.built().children@.len() == 0,
            r.built() == Node::<S>::plain(
                ShapeStyle { kind: ShapeKind::Glass, color: white_s(8), ..ShapeStyle::plain() },
                None,
                None,
                r.built().children,
            ),
    {
        let mut b = Node::rect();
        b.node.style.kind = ShapeKind::Glass;
        b.node.style.color = white(8);
        b
    }

    /// A line of text, with a line height of five quarters of its size.
    pub fn text(content: String, font_size: S) -> (r: NodeBuilder<S>)
        ensures
            r.built().children@.len() == 0,
            r.built() == Node::<S>::plain(
                ShapeStyle { kind: ShapeKind::Text, ..ShapeStyle::plain() },
                Some(NodeText {
                    content,
                    font_size,
                    line_height: font_size.prod(S::rat(125, 100)),
                }),
                None,
                r.built().children,
            ),
    {
        let mut b = Node::rect();
        b.node.style.kind = ShapeKind::Text;
        b.node.text = Some(
            NodeText { content, font_size, line_height: font_size.times(cent(125)) },
        );
        b
    }

    /// An image from the atlas, untinted.
    pub fn image(handle: ImageHandle) -> (r: NodeBuilder<S>)
        ensures
            r.built().children@.len() == 0,
            r.built() == Node::<S>::plain(
                ShapeStyle { kind: ShapeKind::Image, color: quad(one_s()), ..ShapeStyle::plain() },
                None,
                Some(handle),
                r.built().children,
            ),
    {
        let mut b = Node::rect();
        b.node.style.kind = ShapeKind::Image;
        b.node.style.color = splat4(one());
        b.node.image = Some(handle);
        b
    }
}

/// Describes a node before it is added to a tree.
pub struct NodeBuilder<S> {
    node: Node<S>,
}

impl<S: Scalar> NodeBuilder<S> {
    /// The node described so far.
    pub closed spec fn built(self) -> Node<S> {
        self.node
    }

    pub fn layout_axis(self, a: Axis) -> (r: Self)
        ensures
            r.built() == (Node {
                layout: LayoutStyle { axis: a, ..self.built().layout },
                ..self.built()
            }),
    {
        let mut b = self;
        b.node.layout.axis = a;
        b
    }

    pub fn layout_width(self, w: Len<S>) -> (r: Self)
        ensures
            r.built() == (Node {
                layout: LayoutStyle { width: w, ..self.built().layout },
                ..self.built()
            }),
    {
        let mut b = self;
        b.node.layout.width = w;
        b
    }

    pub fn layout_height(self, h: Len<S>) -> (r: Self)
        ensures
            r.built() == (Node {
                layout: LayoutStyle { height: h, ..self.built().layout },
                ..self.built()
            }),
    {
        let mut b = self;
        b.node.layout.height = h;
        b
    }

    pub fn layout_size(self, w: Len<S>, h: Len<S>) -> (r: Self)
        ensures
            r.built() == (Node {
                layout: LayoutStyle { width: w, height: h, ..self.built().layout },
                ..self.built()
            }),
    {
        let mut b = self;
        b.node.layout.width = w;
        b.node.layout.height = h;
        b
    }

    pub fn layout_padding(self, p: [S; 4]) -> (r: Self)
        ensures
            r.built() == (Node {
                layout: LayoutStyle { padding: p, ..self.built().layout },
                ..self.built()
            }),
    {
        let mut b = self;
        b.node.layout.padding = p;
        b
    }

    pub fn layout_gap(self, g: S) -> (r: Self)
        ensures
            r.built() == (Node {
                layout: LayoutStyle { gap: g, ..self.built().layout },
                ..self.built()
            }),
    {
        let mut b = self;
        b.node.layout.gap = g;
        b
    }

    pub fn layout_justify(self, j: Justify) -> (r: Self)
        ensures
            r.built() == (Node {
                layout: LayoutStyle { justify: j, ..self.built().layout },
                ..self.built()
            }),
    {
        let mut b = self;
        b.node.layout.justify = j;
        b
    }

    pub fn layout_align(self, a: Align) -> (r: Self)
        ensures
            r.built() == (Node {
                layout: LayoutStyle { align: a, ..self.built().layout },
                ..self.built()
            }),
    {
        let mut b = self;
        b.node.layout.align = a;
        b
    }

    /// Place outside the flow, at an offset from the parent.
    pub fn layout_abs(self, x: S, y: S) -> (r: Self)
        ensures
            r.built() == (Node {
                layout: LayoutStyle { abs: Some([x, y]), ..self.built().layout },
                ..self.built()
            }),
    {
        let mut b = self;
        b.node.layout.abs = Some([x, y]);
        b
    }

    pub fn overflow(self, ox: Overflow, oy: Overflow) -> (r: Self)
        ensures
            r.built() == (Node {
                layout: LayoutStyle { overflow_x: ox, overflow_y: oy, ..self.built().layout },
                ..self.built()
            }),
    {
        let mut b = self;
        b.node.layout.overflow_x = ox;
        b.node.layout.overflow_y = oy;
        b
    }

    pub fn overflow_x(self, o: Overflow) -> (r: Self)
        ensures
            r.built() == (Node {
                layout: LayoutStyle { overflow_x: o, ..self.built().layout },
                ..self.built()
            }),
    {
        let mut b = self;
        b.node.layout.overflow_x = o;
        b
    }

    pub fn overflow_y(self, o: Overflow) -> (r: Self)
        ensures
            r.built() == (Node {
                layout: LayoutStyle { overflow_y: o, ..self.built().layout },
                ..self.built()
            }),
    {
        let mut b = self;
        b.node.layout.overflow_y = o;
        b
    }

    /// Scroll on both axes.
    pub fn scroll(self) -> (r: Self)
        ensures
            r.built() == (Node {
                layout: LayoutStyle { overflow_x: Overflow::Scroll, overflow_y: Overflow::Scroll, ..self.built().layout },
                ..self.built()
            }),
    {
        self.overflow(Overflow::Scroll, Overflow::Scroll)
    }

    /// Scroll sideways.
    pub fn scroll_x(self) -> (r: Self)
        ensures
            r.built() == (Node {
                layout: LayoutStyle { overflow_x: Overflow::Scroll, ..self.built().layout },
                ..self.built()
            }),
    {
        self.overflow_x(Overflow::Scroll)
    }

    /// Scroll up and down.
    pub fn scroll_y(self) -> (r: Self)
        ensures
            r.built() == (Node {
                layout: LayoutStyle { overflow_y: Overflow::Scroll, ..self.built().layout },
                ..self.built()
            }),
    {
        self.overflow_y(Overflow::Scroll)
    }

    /// Cut children at the edges.
    pub fn clip(self) -> (r: Self)
        ensures
            r.built() == (Node {
                layout: LayoutStyle { overflow_x: Overflow::Hidden, overflow_y: Overflow::Hidden, ..self.built().layout },
                ..self.built()
            }),
    {
        self.overflow(Overflow::Hidden, Overflow::Hidden)
    }

    /// Ease rate of scrolling, never negative. Kept only if the node scrolls
    /// by the time it is added to a tree.
    pub fn scroll_smoothness(self, k: S) -> (r: Self)
        ensures
            r.built() == (Node {
                scroll: Some(ScrollState { stiffness: k.hi(zero_s()), ..state_or_rest(self.built().scroll) }),
                ..self.built()
            }),
    {
        let mut b = self;
        b.node.scroll = Some(ScrollState { stiffness: k.larger(zero()), ..state_or_default(b.node.scroll) });
        b
    }

    /// Whether scrolling may pass the ends of the content.
    pub fn overscroll(self, on: bool) -> (r: Self)
        ensures
            r.built() == (Node {
                scroll: Some(ScrollState { overscroll: on, ..state_or_rest(self.built().scroll) }),
                ..self.built()
            }),
    {
        let mut b = self;
        b.node.scroll = Some(ScrollState { overscroll: on, ..state_or_default(b.node.scroll) });
        b
    }

    /// Replace the look of the scrollbars.
    pub fn scrollbar_style(self, style: ScrollbarStyle<S>) -> (r: Self)
        ensures
            r.built() == (Node {
                scroll: Some(ScrollState { style, ..state_or_rest(self.built().scroll) }),
                ..self.built()
            }),
    {
        let mut b = self;
        b.node.scroll = Some(ScrollState { style, ..state_or_default(b.node.scroll) });
        b
    }

    /// Adjust the look of the scrollbars.
    pub fn scrollbar<F: FnOnce(ScrollbarStyle<S>) -> ScrollbarStyle<S>>(self, f: F) -> (r: Self)
        requires
            f.requires((state_or_rest(self.built().scroll).style,)),
        ensures
            r.built().scroll is Some,
            f.ensures(
                (state_or_rest(self.built().scroll).style,),
                r.built().scroll->Some_0.style,
            ),
            r.built() == (Node {
                scroll: Some(ScrollState {
                    style: r.built().scroll->Some_0.style,
                    ..state_or_rest(self.built().scroll)
                }),
                ..self.built()
            }),
    {
        let mut b = self;
        let s: ScrollState<S> = state_or_default(b.node.scroll);
        let style: ScrollbarStyle<S> = f(s.style);
        b.node.scroll = Some(ScrollState { style, ..s });
        b
    }

    pub fn color(self, rgba: [S; 4]) -> (r: Self)
        ensures
            r.built() == (Node {
                style: ShapeStyle { color: rgba, ..self.built().style },
                ..self.built()
            }),
    {
        let mut b = self;
        b.node.style.color = rgba;
        b
    }

    pub fn rgb(self, red: S, green: S, blue: S) -> (r: Self)
        ensures
            r.built() == (Node {
                style: ShapeStyle { color: [red, green, blue, one_s()], ..self.built().style },
                ..self.built()
            }),
    {
        let mut b = self;
        b.node.style.color = [red, green, blue, one()];
        b
    }

    pub fn rgba(self, red: S, green: S, blue: S, alpha: S) -> (r: Self)
        ensures
            r.built() == (Node {
                style: ShapeStyle { color: [red, green, blue, alpha], ..self.built().style },
                ..self.built()
            }),
    {
        let mut b = self;
        b.node.style.color = [red, green, blue, alpha];
        b
    }

    /// Round all four corners alike.
    pub fn radius(self, px: S) -> (r: Self)
        ensures
            r.built() == (Node {
                style: ShapeStyle { border_radius: quad(px), ..self.built().style },
                ..self.built()
            }),
    {
        let mut b = self;
        b.node.style.border_radius = splat4(px);
        b
    }

    pub fn radii(self, tl: S, tr: S, bl: S, br: S) -> (r: Self)
        ensures
            r.built() == (Node {
                style: ShapeStyle { border_radius: [tl, tr, bl, br], ..self.built().style },
                ..self.built()
            }),
    {
        let mut b = self;
        b.node.style.border_radius = [tl, tr, bl, br];
        b
    }

    pub fn border(self, width: S, color: [S; 4]) -> (r: Self)
        ensures
            r.built() == (Node {
                style: ShapeStyle { border_width: width, border_color: color, ..self.built().style },
                ..self.built()
            }),
    {
        let mut b = self;
        b.node.style.border_width = width;
        b.node.style.border_color = color;
        b
    }

    pub fn shadow(self, offset: [S; 2], blur: S, color: [S; 4], opacity: S) -> (r: Self)
        ensures
            r.built() == (Node {
                style: ShapeStyle { shadow_offset: offset, shadow_blur: blur, shadow_color: color, shadow_opacity: opacity, ..self.built().style },
                ..self.built()
            }),
    {
        let mut b = self;
        b.node.style.shadow_offset = offset;
        b.node.style.shadow_blur = blur;
        b.node.style.shadow_color = color;
        b.node.style.shadow_opacity = opacity;
        b
    }

    pub fn opacity(self, o: S) -> (r: Self)
        ensures
            r.built() == (Node {
                style: ShapeStyle { opacity: o, ..self.built().style },
                ..self.built()
            }),
    {
        let mut b = self;
        b.node.style.opacity = o;
        b
    }

    pub fn kind(self, kind: ShapeKind) -> (r: Self)
        ensures
            r.built() == (Node {
                style: ShapeStyle { kind, ..self.built().style },
                ..self.built()
            }),
    {
        let mut b = self;
        b.node.style.kind = kind;
        b
    }

    /// Backdrop blur of a glass node.
    pub fn blur(self, px: S) -> (r: Self)
        ensures
            r.built() == (Node {
                style: ShapeStyle { blur_amount: px, ..self.built().style },
                ..self.built()
            }),
    {
        let mut b = self;
        b.node.style.blur_amount = px;
        b
    }

    /// Rim refraction of a glass node.
    pub fn refraction(self, px: S) -> (r: Self)
        ensures
            r.built() == (Node {
                style: ShapeStyle { refraction: px, ..self.built().style },
                ..self.built()
            }),
    {
        let mut b = self;
        b.node.style.refraction = px;
        b
    }

    /// Frost of a glass node.
    pub fn roughness(self, px: S) -> (r: Self)
        ensures
            r.built() == (Node {
                style: ShapeStyle { roughness: px, ..self.built().style },
                ..self.built()
            }),
    {
        let mut b = self;
        b.node.style.roughness = px;
        b
    }

    /// Neither painted nor hit, children included.
    pub fn hidden(self) -> (r: Self)
        ensures
            r.built() == (Node { visible: false, ..self.built() }),
    {
        let mut b = self;
        b.node.visible = false;
        b
    }

    /// Line height of a text node; nothing on any other.
    pub fn line_height(self, h: S) -> (r: Self)
        ensures
            r.built() == (Node {
                text: match self.built().text {
                    Some(t) => Some(NodeText { line_height: h, ..t }),
                    None => None,
                },
                ..self.built()
            }),
    {
        let mut b = self;
        if let Some(t) = b.node.text.as_mut() {
            t.line_height = h;
        }
        b
    }

    pub fn on_hover(self, signal: Signal<bool>) -> (r: Self)
        ensures
            r.built() == (Node {
                interact: NodeInteract { hover: Some(signal), ..self.built().interact },
                ..self.built()
            }),
    {
        let mut b = self;
        b.node.interact.hover = Some(signal);
        b
    }

    pub fn on_press(self, signal: Signal<bool>) -> (r: Self)
        ensures
            r.built() == (Node {
                interact: NodeInteract { pressed: Some(signal), ..self.built().interact },
                ..self.built()
            }),
    {
        let mut b = self;
        b.node.interact.pressed = Some(signal);
        b
    }

    pub fn on_focus(self, signal: Signal<bool>) -> (r: Self)
        ensures
            r.built() == (Node {
                interact: NodeInteract { focused: Some(signal), ..self.built().interact },
                ..self.built()
            }),
    {
        let mut b = self;
        b.node.interact.focused = Some(signal);
        b
    }

    /// The window operation a press starts.
    pub fn window_action(self, action: WindowAction) -> (r: Self)
        ensures
            r.built() == (Node { window_action: Some(action), ..self.built() }),
    {
        let mut b = self;
        b.node.window_action = Some(action);
        b
    }

    pub fn build(self) -> (r: Node<S>)
        ensures
            r == self.built(),
    {
        self.node
    }
}

} // verus!
