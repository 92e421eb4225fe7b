//! What holds of images: where they are put, and how their pixels are read.
use vstd::prelude::*;

use crate::gpu::image_atlas::{
    apart, images_apart, placed, to_rgba, uploadable, AtlasView, AtlasWrite, ImageHandle, PADDING,
};
use crate::gpu::memory::MemoryReport;
use crate::gpu::instance::ShapeInstance;
use crate::scalar::{one_s, zero_s, Fixed, Scalar};

verus! {

/// Whether a pixel belongs to an image or its border.
pub open spec fn covers(w: AtlasWrite, x: int, y: int) -> bool {
    &&& w.x - PADDING <= x < w.x + w.width + PADDING
    &&& w.y - PADDING <= y < w.y + w.height + PADDING
}

/// Images are apart exactly when no pixel belongs to both, borders included.
pub proof fn apart_images_share_no_pixel(a: AtlasWrite, b: AtlasWrite)
    ensures
        images_apart(a, b) <==> forall|x: int, y: int|
            !(#[trigger] covers(a, x, y) && covers(b, x, y)),
{
    if !images_apart(a, b) {
        let x = if a.x < b.x {
            b.x - PADDING
        } else {
            a.x - PADDING
        };
        let y = if a.y < b.y {
            b.y - PADDING
        } else {
            a.y - PADDING
        };
        assert(covers(a, x, y) && covers(b, x, y));
    }
}

/// Whether a pixel belongs to a rectangle, right and bottom edges excluded.
pub open spec fn holds(q: (i32, i32, i32, i32), x: int, y: int) -> bool {
    q.0 <= x < q.2 && q.1 <= y < q.3
}

/// Rectangles that are not empty are apart exactly when they share no pixel.
pub proof fn apart_rectangles_share_no_pixel(a: (i32, i32, i32, i32), b: (i32, i32, i32, i32))
    requires
        a.0 < a.2 && a.1 < a.3,
        b.0 < b.2 && b.1 < b.3,
    ensures
        apart(a, b) <==> forall|x: int, y: int| !(#[trigger] holds(a, x, y) && holds(b, x, y)),
{
    if !apart(a, b) {
        let x = if a.0 < b.0 {
            b.0 as int
        } else {
            a.0 as int
        };
        let y = if a.1 < b.1 {
            b.1 as int
        } else {
            a.1 as int
        };
        assert(holds(a, x, y) && holds(b, x, y));
    }
}

/// An image in a rectangle that has room for its border lies in it, border and
/// all, at the size it has; without a rectangle it has no place.
pub proof fn images_lie_in_their_rectangle(
    handle: u32,
    w: u32,
    h: u32,
    q: (i32, i32, i32, i32),
    x: int,
    y: int,
)
    requires
        0 <= q.0 <= q.2,
        0 <= q.1 <= q.3,
        w > 0,
        h > 0,
        q.2 - q.0 >= w + 2 * PADDING,
        q.3 - q.1 >= h + 2 * PADDING,
    ensures
        placed(handle, w, h, None) is None,
        ({
            let p = placed(handle, w, h, Some(q))->Some_0;
            &&& placed(handle, w, h, Some(q)) is Some
            &&& p.handle == ImageHandle(handle)
            &&& p.width == w && p.height == h
            &&& covers(p, x, y) ==> holds(q, x, y)
            &&& covers(p, q.0 as int, q.1 as int)
        }),
{
}

/// What can go into an atlas has pixels, all of them, and room for its border;
/// what fits a texture fits a larger one.
pub proof fn larger_textures_take_more(w: u32, h: u32, len: nat, size: u32, larger: u32)
    requires
        size <= larger,
    ensures
        uploadable(w, h, len, size) ==> uploadable(w, h, len, larger),
        uploadable(w, h, len, size) ==> len > 0 && len % 4 == 0 && w < size && h < size,
        w > 0 && h > 0 && len == w * h * 4 && w + 2 * PADDING <= size && h + 2 * PADDING <= size
            ==> uploadable(w, h, len, size),
{
    assert(w > 0 && h > 0 ==> w * h > 0) by (nonlinear_arith);
}

/// An image that is taken in is found under the next number, with its size,
/// and the number after that comes next.
pub proof fn uploads_are_numbered<S: Scalar>(a: AtlasView<S>, w: AtlasWrite)
    requires
        a.next_handle < u32::MAX,
    ensures
        a.uploaded(w).writes[a.next_handle] == w,
        a.uploaded(w).entries[a.next_handle].width == w.width,
        a.uploaded(w).entries[a.next_handle].height == w.height,
        a.uploaded(w).next_handle == a.next_handle + 1,
        a.uploaded(w).size == a.size,
{
}

/// Pixels keep their colours: true colour channel by channel, grey as three
/// equal channels; alpha is the file's where it has one, and full where not.
pub proof fn pixels_keep_their_colours(data: Seq<u8>, k: int)
    requires
        0 <= k,
    ensures
        to_rgba(6, 8, data) == Some(data),
        ({
            let out = to_rgba(2, 8, data)->Some_0;
            &&& to_rgba(2, 8, data) is Some
            &&& 3 * k + 3 <= data.len() ==> {
                &&& 4 * k + 4 <= out.len()
                &&& out[4 * k] == data[3 * k]
                &&& out[4 * k + 1] == data[3 * k + 1]
                &&& out[4 * k + 2] == data[3 * k + 2]
                &&& out[4 * k + 3] == 255
            }
        }),
        ({
            let out = to_rgba(0, 8, data)->Some_0;
            &&& to_rgba(0, 8, data) is Some
            &&& k < data.len() ==> {
                &&& out.len() == 4 * data.len()
                &&& out[4 * k] == data[k]
                &&& out[4 * k + 1] == data[k]
                &&& out[4 * k + 2] == data[k]
                &&& out[4 * k + 3] == 255
            }
        }),
        ({
            let out = to_rgba(4, 8, data)->Some_0;
            &&& to_rgba(4, 8, data) is Some
            &&& 2 * k + 2 <= data.len() ==> {
                &&& 4 * k + 4 <= out.len()
                &&& out[4 * k] == data[2 * k]
                &&& out[4 * k + 1] == data[2 * k]
                &&& out[4 * k + 2] == data[2 * k]
                &&& out[4 * k + 3] == data[2 * k + 1]
            }
        }),
        to_rgba(3, 8, data) is None,
        to_rgba(6, 16, data) is None,
{
}

/// Everything a report lists counts towards its total.
pub proof fn every_part_counts(r: MemoryReport, more: u64)
    requires
        r.instance_buffer + more <= u64::MAX,
        r.overlay_buffer + more <= u64::MAX,
        r.prev_instances_cpu + more <= u64::MAX,
        r.blur_textures + more <= u64::MAX,
        r.overdraw_textures + more <= u64::MAX,
        r.timing + more <= u64::MAX,
        r.params_buffers + more <= u64::MAX,
    ensures
        ({
            let a = MemoryReport { instance_buffer: (r.instance_buffer + more) as u64, ..r };
            let b = MemoryReport { overlay_buffer: (r.overlay_buffer + more) as u64, ..r };
            let c = MemoryReport { prev_instances_cpu: (r.prev_instances_cpu + more) as u64, ..r };
            let d = MemoryReport { blur_textures: (r.blur_textures + more) as u64, ..r };
            let e = MemoryReport { overdraw_textures: (r.overdraw_textures + more) as u64, ..r };
            let f = MemoryReport { timing: (r.timing + more) as u64, ..r };
            let g = MemoryReport { params_buffers: (r.params_buffers + more) as u64, ..r };
            let all = r.sum() + more;
            &&& a.sum() == all && b.sum() == all && c.sum() == all && d.sum() == all
            &&& e.sum() == all && f.sum() == all && g.sum() == all
        }),
{
}

/// Of one surface the blur's textures take three bytes to every two of the
/// overdraw counter's, twelve to a pixel; buffers take what they have room for,
/// the overlay's by the measure of the list's; and timing takes nothing where
/// there is none.
pub proof fn memory_goes_by_size(
    r: MemoryReport,
    list: u64,
    overlay: u64,
    copy: u64,
    stride: u64,
    size: (u32, u32),
    timing: bool,
)
    requires
        r.accounts(list, overlay, copy, stride, size, size, timing),
    ensures
        2 * r.blur_textures == 3 * r.overdraw_textures,
        size == (1u32, 1u32) ==> r.blur_textures == 12,
        r.instance_buffer == list * stride,
        list == overlay ==> r.instance_buffer == r.overlay_buffer,
        copy * stride <= u64::MAX && copy == list ==> r.prev_instances_cpu == r.instance_buffer,
        !timing ==> r.timing == 0,
        timing ==> r.timing > 0,
{
}

/// A shape that nothing is said of is white and opaque, without border or
/// shadow, and not clipped in any place that is on the screen.
pub proof fn bare_shapes_are_white(x: Fixed)
    requires
        -Fixed::huge().raw <= x.raw < Fixed::huge().raw,
    ensures
        ({
            let b = ShapeInstance::<Fixed>::base();
            &&& b.color[0].raw == 65536 && b.color[1].raw == 65536
            &&& b.color[2].raw == 65536 && b.color[3].raw == 65536
            &&& b.opacity.raw == 65536
            &&& b.border_width.raw == 0
            &&& b.shadow_opacity.raw == 0 && b.shadow_blur.raw == 0
            &&& b.clip_rect[0].leq(x) && x.less(b.clip_rect[2])
            &&& b.clip_rect[1].leq(x) && x.less(b.clip_rect[3])
        }),
{
    assert(zero_s::<Fixed>().raw == 0 && one_s::<Fixed>().raw == 65536);
}

} // verus!
