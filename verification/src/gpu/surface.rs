//! Choices about the window's surface.
use vstd::prelude::*;

use crate::scalar::{zero, zero_s, Scalar};

verus! {

/// Pixel formats the choice tells apart.
#[derive(Copy, Clone, Debug, PartialEq, Eq, Structural)]
pub enum SurfaceFormat {
    Rgba8UnormSrgb,
    Bgra8UnormSrgb,
    Bgra8Unorm,
    Other,
}

impl SurfaceFormat {
    /// Whether the shaders' output is stored as it should be.
    pub open spec fn preferred(self) -> bool {
        self is Rgba8UnormSrgb || self is Bgra8UnormSrgb
    }

    /// Whether blue comes first in memory.
    pub open spec fn swapped(self) -> bool {
        self is Bgra8UnormSrgb || self is Bgra8Unorm
    }

    pub fn is_bgra(self) -> (r: bool)
        ensures
            r == self.swapped(),
    {
        matches!(self, SurfaceFormat::Bgra8UnormSrgb | SurfaceFormat::Bgra8Unorm)
    }
}

/// Ways the window is blended with what is behind it.
#[derive(Copy, Clone, Debug, PartialEq, Eq, Structural)]
pub enum AlphaMode {
    PreMultiplied,
    Other,
}

/// The first preferred format, or the first of all if none is preferred.
pub fn pick_format(formats: &[SurfaceFormat]) -> (r: usize)
    requires
        formats@.len() > 0,
    ensures
        r < formats@.len(),
        if exists|i: int| 0 <= i < formats@.len() && (#[trigger] formats@[i]).preferred() {
            formats@[r as int].preferred() && forall|i: int|
                0 <= i < r ==> !(#[trigger] formats@[i]).preferred()
        } else {
            r == 0
        },
{
    let mut i: usize = 0;
    while i < formats.len()
        invariant
            i <= formats.len(),
            forall|j: int| 0 <= j < i ==> !(#[trigger] formats@[j]).preferred(),
        decreases formats.len() - i,
    {
        if matches!(formats[i], SurfaceFormat::Rgba8UnormSrgb | SurfaceFormat::Bgra8UnormSrgb) {
            assert(formats@[i as int].preferred());
            return i;
        }
        i = i + 1;
    }
    0
}

/// The first premultiplied mode, or the first of all if there is none.
pub fn pick_alpha(modes: &[AlphaMode]) -> (r: usize)
    requires
        modes@.len() > 0,
    ensures
        r < modes@.len(),
        if exists|i: int| 0 <= i < modes@.len() && #[trigger] modes@[i] == AlphaMode::PreMultiplied {
            modes@[r as int] == AlphaMode::PreMultiplied && forall|i: int|
                0 <= i < r ==> #[trigger] modes@[i] != AlphaMode::PreMultiplied
        } else {
            r == 0
        },
{
    let mut i: usize = 0;
    while i < modes.len()
        invariant
            i <= modes.len(),
            forall|j: int| 0 <= j < i ==> #[trigger] modes@[j] != AlphaMode::PreMultiplied,
        decreases modes.len() - i,
    {
        if matches!(modes[i], AlphaMode::PreMultiplied) {
            assert(modes@[i as int] == AlphaMode::PreMultiplied);
            return i;
        }
        i = i + 1;
    }
    0
}

/// What asking the surface for a frame came to.
#[derive(Copy, Clone, Debug, PartialEq, Eq, Structural)]
pub enum SurfaceStatus {
    Success,
    Suboptimal,
    Outdated,
    Lost,
    Timeout,
    Occluded,
    Validation,
}

/// What to do about it.
#[derive(Copy, Clone, Debug, PartialEq, Eq, Structural)]
pub enum FrameAction {
    /// Draw and present.
    Draw,
    /// Set the surface up again and leave this frame out.
    Reconfigure,
    /// Leave this frame out.
    Skip,
    /// Leave this frame out and report an error.
    Report,
}

pub open spec fn action_for(s: SurfaceStatus) -> FrameAction {
    match s {
        SurfaceStatus::Success | SurfaceStatus::Suboptimal => FrameAction::Draw,
        SurfaceStatus::Outdated | SurfaceStatus::Lost => FrameAction::Reconfigure,
        SurfaceStatus::Timeout | SurfaceStatus::Occluded => FrameAction::Skip,
        SurfaceStatus::Validation => FrameAction::Report,
    }
}

pub fn frame_action(s: SurfaceStatus) -> (r: FrameAction)
    ensures
        r == action_for(s),
{
    match s {
        SurfaceStatus::Success | SurfaceStatus::Suboptimal => FrameAction::Draw,
        SurfaceStatus::Outdated | SurfaceStatus::Lost => FrameAction::Reconfigure,
        SurfaceStatus::Timeout | SurfaceStatus::Occluded => FrameAction::Skip,
        SurfaceStatus::Validation => FrameAction::Report,
    }
}

/// The size of a texture that follows the surface.
#[derive(Copy, Clone, Debug, PartialEq, Eq, Structural)]
pub struct TextureSize {
    pub width: u32,
    pub height: u32,
}

impl TextureSize {
    /// Follow the surface to another size. Returns whether the texture has to
    /// be made again.
    pub fn resize(&mut self, width: u32, height: u32) -> (r: bool)
        ensures
            *final(self) == (TextureSize { width, height }),
            r == (*old(self) != *final(self)),
    {
        if self.width == width && self.height == height {
            return false;
        }
        self.width = width;
        self.height = height;
        true
    }

    /// The extent to allocate: no side is less than a pixel.
    pub fn extent(&self) -> (r: (u32, u32))
        ensures
            r.0 == (if self.width < 1 {
                1
            } else {
                self.width
            }),
            r.1 == (if self.height < 1 {
                1
            } else {
                self.height
            }),
    {
        (
            if self.width < 1 {
                1
            } else {
                self.width
            },
            if self.height < 1 {
                1
            } else {
                self.height
            },
        )
    }

    /// Bytes at four bytes a pixel.
    pub fn memory_bytes(&self) -> (r: u64)
        requires
            self.width * self.height * 4 <= u64::MAX,
        ensures
            r == self.width * self.height * 4,
    {
        assert(self.width * self.height <= 0xffff_ffff * 0xffff_ffff) by (nonlinear_arith)
            requires
                self.width <= 0xffff_ffff,
                self.height <= 0xffff_ffff,
        ;
        self.width as u64 * self.height as u64 * 4
    }
}

/// What the corner-rounding pass needs to know.
#[derive(Copy, Clone, Debug)]
pub struct RoundUniform<S> {
    pub screen: [S; 2],
    pub radius: S,
}

/// The uniform for a surface whose corners are rounded by `radius`, never
/// negative.
pub fn round_uniform<S: Scalar>(size: TextureSize, radius: S) -> (r: RoundUniform<S>)
    ensures
        r == (RoundUniform {
            screen: [S::cnt(size.width as u64), S::cnt(size.height as u64)],
            radius: radius.hi(zero_s()),
        }),
{
    RoundUniform {
        screen: [S::count(size.width as u64), S::count(size.height as u64)],
        radius: radius.larger(zero()),
    }
}

} // verus!
