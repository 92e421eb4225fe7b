//! Memory held by the renderer.
use vstd::prelude::*;

verus! {

/// Bytes allocated, by purpose. These are capacities, not what is in use.
#[derive(Copy, Clone, Debug, PartialEq, Eq, Structural)]
pub struct MemoryReport {
    pub instance_buffer: u64,
    pub overlay_buffer: u64,
    pub prev_instances_cpu: u64,
    pub blur_textures: u64,
    pub overdraw_textures: u64,
    pub timing: u64,
    pub params_buffers: u64,
}

impl MemoryReport {
    /// Everything together.
    pub open spec fn sum(self) -> int {
        self.instance_buffer + self.overlay_buffer + self.prev_instances_cpu + self.blur_textures
            + self.overdraw_textures + self.timing + self.params_buffers
    }

    pub fn total(&self) -> (r: u64)
        requires
            self.sum() <= u64::MAX,
        ensures
            r == self.sum(),
    {
        self.instance_buffer + self.overlay_buffer + self.prev_instances_cpu + self.blur_textures
            + self.overdraw_textures + self.timing + self.params_buffers
    }

    /// Whether the report is that of a renderer.
    ///
    /// Buffers count their capacity in records of `stride` bytes; the copy of
    /// the list is held to the range. The blur keeps three textures of four
    /// bytes a pixel, the overdraw counter one of eight; timing keeps one
    /// resolve and two readback buffers of 256 bytes.
    pub open spec fn accounts(
        self,
        instance_capacity: u64,
        overlay_capacity: u64,
        prev_capacity: u64,
        stride: u64,
        blur: (u32, u32),
        overdraw: (u32, u32),
        timing: bool,
    ) -> bool {
        &&& self.instance_buffer == instance_capacity * stride
        &&& self.overlay_buffer == overlay_capacity * stride
        &&& self.prev_instances_cpu == if prev_capacity * stride <= u64::MAX {
            prev_capacity * stride
        } else {
            u64::MAX as int
        }
        &&& self.blur_textures == blur.0 * blur.1 * 12
        &&& self.overdraw_textures == overdraw.0 * overdraw.1 * 8
        &&& self.timing == if timing {
            768int
        } else {
            0int
        }
        &&& self.params_buffers == 32
    }

    /// The report of a renderer.
    pub fn of(
        instance_capacity: u64,
        overlay_capacity: u64,
        prev_capacity: u64,
        stride: u64,
        blur: (u32, u32),
        overdraw: (u32, u32),
        timing: bool,
    ) -> (r: MemoryReport)
        requires
            instance_capacity * stride <= u64::MAX,
            overlay_capacity * stride <= u64::MAX,
            blur.0 * blur.1 * 12 <= u64::MAX,
            overdraw.0 * overdraw.1 * 8 <= u64::MAX,
        ensures
            r.accounts(
                instance_capacity,
                overlay_capacity,
                prev_capacity,
                stride,
                blur,
                overdraw,
                timing,
            ),
    {
        assert(blur.0 * blur.1 <= 0xffff_ffff * 0xffff_ffff) by (nonlinear_arith)
            requires
                blur.0 <= 0xffff_ffff,
                blur.1 <= 0xffff_ffff,
        ;
        assert(overdraw.0 * overdraw.1 <= 0xffff_ffff * 0xffff_ffff) by (nonlinear_arith)
            requires
                overdraw.0 <= 0xffff_ffff,
                overdraw.1 <= 0xffff_ffff,
        ;
        assert(prev_capacity * stride <= 0xffff_ffff_ffff_ffff * 0xffff_ffff_ffff_ffff)
            by (nonlinear_arith)
            requires
                prev_capacity <= 0xffff_ffff_ffff_ffff,
                stride <= 0xffff_ffff_ffff_ffff,
        ;
        let blur_px: u64 = blur.0 as u64 * blur.1 as u64;
        let overdraw_px: u64 = overdraw.0 as u64 * overdraw.1 as u64;
        let copy_bytes: u128 = prev_capacity as u128 * stride as u128;
        MemoryReport {
            instance_buffer: instance_capacity * stride,
            overlay_buffer: overlay_capacity * stride,
            prev_instances_cpu: if copy_bytes <= u64::MAX as u128 {
                copy_bytes as u64
            } else {
                u64::MAX
            },
            blur_textures: blur_px * 4 * 3,
            overdraw_textures: overdraw_px * 8,
            timing: if timing {
                768
            } else {
                0
            },
            params_buffers: 32,
        }
    }
}

impl Default for MemoryReport {
    fn default() -> (r: Self)
        ensures
            r.sum() == 0,
    {
        MemoryReport {
            instance_buffer: 0,
            overlay_buffer: 0,
            prev_instances_cpu: 0,
            blur_textures: 0,
            overdraw_textures: 0,
            timing: 0,
            params_buffers: 0,
        }
    }
}

} // verus!
