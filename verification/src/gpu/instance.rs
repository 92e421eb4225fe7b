//! The per-shape record that is uploaded to the GPU.
use vstd::prelude::*;

use crate::scalar::{one, one_s, pair, quad, splat2, splat4, zero, zero_s, Scalar};

verus! {

/// A filled rectangle.
pub const SHAPE_KIND_RECT: u32 = 0;

/// A rectangle that shows the blurred backdrop.
pub const SHAPE_KIND_GLASS: u32 = 1;

/// A glyph, sampled from the coverage atlas and tinted.
pub const SHAPE_KIND_GLYPH: u32 = 2;

/// An image, sampled from the colour atlas and tinted.
pub const SHAPE_KIND_IMAGE: u32 = 3;

/// One shape as the shaders read it.
#[derive(Copy, Clone, Debug)]
pub struct ShapeInstance<S> {
    pub color: [S; 4],
    pub border_color: [S; 4],
    pub shadow_color: [S; 4],
    /// Top left, top right, bottom left, bottom right.
    pub border_radius: [S; 4],
    /// Glass: blur and refraction in pixels. Glyph and image: the rectangle
    /// in the atlas. Plain rectangles ignore it.
    pub backdrop_uv_rect: [S; 4],
    /// Pixels outside `[min_x, min_y, max_x, max_y]` are discarded.
    pub clip_rect: [S; 4],
    /// Top-left corner, pixels.
    pub position: [S; 2],
    pub size: [S; 2],
    pub shadow_offset: [S; 2],
    pub shape_kind: u32,
    pub roughness: S,
    pub border_width: S,
    pub shadow_blur: S,
    pub shadow_opacity: S,
    pub opacity: S,
}

/// The clip rectangle that cuts nothing.
pub open spec fn no_clip_s<S: Scalar>() -> [S; 4] {
    [zero_s::<S>().diff(S::huge()), zero_s::<S>().diff(S::huge()), S::huge(), S::huge()]
}

pub fn no_clip<S: Scalar>() -> (r: [S; 4])
    ensures
        r == no_clip_s::<S>(),
{
    let far: S = S::far();
    let near: S = zero::<S>().minus(far);
    [near, near, far, far]
}

impl<S: Scalar> ShapeInstance<S> {
    /// An opaque white rectangle of no size, without border or shadow.
    pub open spec fn base() -> ShapeInstance<S> {
        ShapeInstance {
            color: quad(one_s()),
            border_color: [zero_s(), zero_s(), zero_s(), one_s()],
            shadow_color: [zero_s(), zero_s(), zero_s(), one_s()],
            border_radius: quad(zero_s()),
            backdrop_uv_rect: quad(zero_s()),
            clip_rect: no_clip_s(),
            position: pair(zero_s()),
            size: pair(zero_s()),
            shadow_offset: pair(zero_s()),
            shape_kind: SHAPE_KIND_RECT,
            roughness: zero_s(),
            border_width: zero_s(),
            shadow_blur: zero_s(),
            shadow_opacity: zero_s(),
            opacity: one_s(),
        }
    }

    /// A filled rectangle with equal corners.
    pub fn rounded_rect(position: [S; 2], size: [S; 2], radius: S, color: [S; 4]) -> (r: Self)
        ensures
            r == (ShapeInstance {
                color,
                position,
                size,
                border_radius: quad(radius),
                ..ShapeInstance::base()
            }),
    {
        ShapeInstance { color, position, size, border_radius: splat4(radius), ..Default::default() }
    }

    /// Whether two records are the same in every field.
    pub fn identical(&self, other: &ShapeInstance<S>) -> (r: bool)
        ensures
            r == (*self == *other),
    {
        identical4(self.color, other.color) && identical4(self.border_color, other.border_color)
            && identical4(self.shadow_color, other.shadow_color) && identical4(
            self.border_radius,
            other.border_radius,
        ) && identical4(self.backdrop_uv_rect, other.backdrop_uv_rect) && identical4(
            self.clip_rect,
            other.clip_rect,
        ) && identical2(self.position, other.position) && identical2(self.size, other.size)
            && identical2(self.shadow_offset, other.shadow_offset) && self.shape_kind
            == other.shape_kind && self.roughness.identical(other.roughness)
            && self.border_width.identical(other.border_width) && self.shadow_blur.identical(
            other.shadow_blur,
        ) && self.shadow_opacity.identical(other.shadow_opacity) && self.opacity.identical(
            other.opacity,
        )
    }
}

impl<S: Scalar> Default for ShapeInstance<S> {
    fn default() -> (r: Self)
        ensures
            r == ShapeInstance::<S>::base(),
    {
        let black: [S; 4] = [zero(), zero(), zero(), one()];
        ShapeInstance {
            color: splat4(one()),
            border_color: black,
            shadow_color: black,
            border_radius: splat4(zero()),
            backdrop_uv_rect: splat4(zero()),
            clip_rect: no_clip(),
            position: splat2(zero()),
            size: splat2(zero()),
            shadow_offset: splat2(zero()),
            shape_kind: SHAPE_KIND_RECT,
            roughness: zero(),
            border_width: zero(),
            shadow_blur: zero(),
            shadow_opacity: zero(),
            opacity: one(),
        }
    }
}

fn identical2<S: Scalar>(a: [S; 2], b: [S; 2]) -> (r: bool)
    ensures
        r == (a == b),
{
    let r: bool = a[0].identical(b[0]) && a[1].identical(b[1]);
    assert(r ==> a =~= b);
    assert(a == b ==> r);
    r
}

fn identical4<S: Scalar>(a: [S; 4], b: [S; 4]) -> (r: bool)
    ensures
        r == (a == b),
{
    let r: bool = a[0].identical(b[0]) && a[1].identical(b[1]) && a[2].identical(b[2])
        && a[3].identical(b[3]);
    assert(r ==> a =~= b);
    assert(a == b ==> r);
    r
}

/// What every shader needs to know of the frame.
#[derive(Copy, Clone, Debug)]
pub struct FrameUniform<S> {
    /// Surface size in pixels.
    pub screen_size: [S; 2],
    /// Deepest level of the backdrop pyramid that may be sampled.
    pub max_backdrop_lod: S,
}

impl<S: Scalar> FrameUniform<S> {
    /// The uniform of a surface and its pyramid.
    pub fn of(width: u32, height: u32, mip_count: u32) -> (r: Self)
        requires
            mip_count >= 1,
        ensures
            r == (FrameUniform {
                screen_size: [S::cnt(width as u64), S::cnt(height as u64)],
                max_backdrop_lod: S::cnt((mip_count - 1) as u64),
            }),
    {
        FrameUniform {
            screen_size: [S::count(width as u64), S::count(height as u64)],
            max_backdrop_lod: S::count((mip_count - 1) as u64),
        }
    }
}

} // verus!
