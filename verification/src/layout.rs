//! Sizing and alignment intent, as nodes declare it.
use vstd::prelude::*;

use crate::scalar::{eqv2, same2, splat4, zero, zero_s, quad, Scalar};

verus! {

/// The direction children are laid out in.
#[derive(Copy, Clone, Debug, PartialEq, Eq, Structural)]
pub enum Axis {
    Row,
    Column,
}

/// Distribution of children along the main axis.
#[derive(Copy, Clone, Debug, PartialEq, Eq, Structural)]
pub enum Justify {
    Start,
    Center,
    End,
}

/// Placement of children across the main axis.
#[derive(Copy, Clone, Debug, PartialEq, Eq, Structural)]
pub enum Align {
    Start,
    Center,
    End,
}

/// What happens to content that exceeds a node's rect on one axis.
#[derive(Copy, Clone, Debug, PartialEq, Eq, Structural)]
pub enum Overflow {
    Visible,
    Hidden,
    Scroll,
}

impl Overflow {
    pub open spec fn is_scroll(self) -> bool {
        self is Scroll
    }

    /// Hidden and scrolled content is cut at the edge.
    pub open spec fn is_clip(self) -> bool {
        self !is Visible
    }

    pub fn scrolls(self) -> (r: bool)
        ensures
            r == self.is_scroll(),
    {
        matches!(self, Overflow::Scroll)
    }

    pub fn clips(self) -> (r: bool)
        ensures
            r == self.is_clip(),
    {
        !matches!(self, Overflow::Visible)
    }
}

/// A length along one axis.
#[derive(Copy, Clone, Debug)]
pub enum Len<S> {
    /// A fixed number of pixels.
    Px(S),
    /// A share of the space that is left.
    Fill,
    /// As much as the content needs.
    Auto,
}

impl<S: Scalar> Len<S> {
    pub open spec fn eqv(self, other: Len<S>) -> bool {
        match (self, other) {
            (Len::Px(a), Len::Px(b)) => a.eqv(b),
            (Len::Fill, Len::Fill) => true,
            (Len::Auto, Len::Auto) => true,
            _ => false,
        }
    }

    pub fn same(self, other: Len<S>) -> (r: bool)
        ensures
            r == self.eqv(other),
    {
        match (self, other) {
            (Len::Px(a), Len::Px(b)) => a.same(b),
            (Len::Fill, Len::Fill) => true,
            (Len::Auto, Len::Auto) => true,
            _ => false,
        }
    }
}

/// A node's declared layout.
#[derive(Copy, Clone, Debug)]
pub struct LayoutStyle<S> {
    pub axis: Axis,
    pub width: Len<S>,
    pub height: Len<S>,
    /// Top, right, bottom, left.
    pub padding: [S; 4],
    pub gap: S,
    pub justify: Justify,
    pub align: Align,
    /// Position relative to the parent, outside the flow.
    pub abs: Option<[S; 2]>,
    pub overflow_x: Overflow,
    pub overflow_y: Overflow,
}

pub open spec fn abs_eqv<S: Scalar>(a: Option<[S; 2]>, b: Option<[S; 2]>) -> bool {
    match (a, b) {
        (Some(x), Some(y)) => eqv2(x, y),
        (None, None) => true,
        _ => false,
    }
}

pub fn abs_same<S: Scalar>(a: Option<[S; 2]>, b: Option<[S; 2]>) -> (r: bool)
    ensures
        r == abs_eqv(a, b),
{
    match (a, b) {
        (Some(x), Some(y)) => same2(x, y),
        (None, None) => true,
        _ => false,
    }
}

impl<S: Scalar> LayoutStyle<S> {
    /// A column that fits its content, with nothing between or around it.
    pub open spec fn plain() -> LayoutStyle<S> {
        LayoutStyle {
            axis: Axis::Column,
            width: Len::Auto,
            height: Len::Auto,
            padding: quad(zero_s()),
            gap: zero_s(),
            justify: Justify::Start,
            align: Align::Start,
            abs: None,
            overflow_x: Overflow::Visible,
            overflow_y: Overflow::Visible,
        }
    }

    /// Whether either axis scrolls.
    pub open spec fn is_scroll(self) -> bool {
        self.overflow_x.is_scroll() || self.overflow_y.is_scroll()
    }

    /// Whether either axis cuts its content.
    pub open spec fn is_clip(self) -> bool {
        self.overflow_x.is_clip() || self.overflow_y.is_clip()
    }

    pub fn scrolls(&self) -> (r: bool)
        ensures
            r == self.is_scroll(),
    {
        self.overflow_x.scrolls() || self.overflow_y.scrolls()
    }

    pub fn clips(&self) -> (r: bool)
        ensures
            r == self.is_clip(),
    {
        self.overflow_x.clips() || self.overflow_y.clips()
    }
}

impl<S: Scalar> Default for LayoutStyle<S> {
    fn default() -> (r: Self)
        ensures
            r == LayoutStyle::<S>::plain(),
    {
        LayoutStyle {
            axis: Axis::Column,
            width: Len::Auto,
            height: Len::Auto,
            padding: splat4(zero()),
            gap: zero(),
            justify: Justify::Start,
            align: Align::Start,
            abs: None,
            overflow_x: Overflow::Visible,
            overflow_y: Overflow::Visible,
        }
    }
}

} // verus!
