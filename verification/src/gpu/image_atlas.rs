//! The image atlas: where each uploaded image sits in one square texture.
//!
//! The atlas decides places and remembers them under handles; the host keeps
//! the texture and copies pixels to the places it is told. Nothing is ever
//! evicted: once an image does not fit, it is turned away.
use std::collections::HashMap;

use etagere::AtlasAllocator;
use vstd::prelude::*;

use crate::scalar::{one, one_s, Fixed, Scalar};

verus! {

broadcast use vstd::std_specs::hash::group_hash_axioms;

// --- the allocator ---------------------------------------------------------

/// The shelf allocator of the `etagere` crate.
#[verifier::external_type_specification]
#[verifier::external_body]
pub struct ExAtlasAllocator(AtlasAllocator);

/// The rectangles `(min_x, min_y, max_x, max_y)` an allocator has given out.
pub uninterp spec fn atlas_rects(a: AtlasAllocator) -> Set<(i32, i32, i32, i32)>;

/// The edge length of the square an allocator shares out.
pub uninterp spec fn atlas_side(a: AtlasAllocator) -> i32;

/// The rectangle an allocator would give to a request for each size `(w, h)`
/// that it has a place for.
pub uninterp spec fn atlas_offers(a: AtlasAllocator) -> Map<(i32, i32), (i32, i32, i32, i32)>;

/// Whether two rectangles have no pixel in common.
pub open spec fn apart(a: (i32, i32, i32, i32), b: (i32, i32, i32, i32)) -> bool {
    a.2 <= b.0 || b.2 <= a.0 || a.3 <= b.1 || b.3 <= a.1
}

/// `AtlasAllocator::new` on a square: nothing is given out yet. It panics on
/// an edge of zero and on an area beyond `i32`, which are left out.
#[verifier::external_body]
fn new_allocator(side: i32) -> (r: AtlasAllocator)
    requires
        1 <= side,
        side * side <= i32::MAX,
    ensures
        atlas_side(r) == side,
        atlas_rects(r) == Set::<(i32, i32, i32, i32)>::empty(),
{
    AtlasAllocator::new(etagere::size2(side, side))
}

/// `AtlasAllocator::allocate`: a rectangle at least as large as asked, inside
/// the square, apart from all others; or nothing, and nothing changes. Which it
/// is depends on the allocator's shelves and the size asked for alone. Nothing
/// comes back for an empty or oversized request; an untouched allocator has a
/// place for any other. How the shelves decide is left to that crate. The
/// allocator numbers its pieces in 16 bits and uses up to two numbers per
/// rectangle, so the number of rectangles is bounded.
#[verifier::external_body]
fn allocate(a: &mut AtlasAllocator, w: i32, h: i32) -> (r: Option<(i32, i32, i32, i32)>)
    requires
        atlas_rects(*old(a)).finite(),
        atlas_rects(*old(a)).len() < 32767,
    ensures
        atlas_side(*final(a)) == atlas_side(*old(a)),
        match r {
            Some(q) => {
                &&& 0 < w && 0 < h
                &&& 0 <= q.0 && 0 <= q.1
                &&& q.0 + w <= q.2 && q.1 + h <= q.3
                &&& q.2 <= atlas_side(*old(a)) && q.3 <= atlas_side(*old(a))
                &&& forall|p: (i32, i32, i32, i32)| #[trigger]
                    atlas_rects(*old(a)).contains(p) ==> apart(p, q)
                &&& atlas_rects(*final(a)) == atlas_rects(*old(a)).insert(q)
            },
            None => *final(a) == *old(a),
        },
        r == (if atlas_offers(*old(a)).contains_key((w, h)) {
            Some(atlas_offers(*old(a))[(w, h)])
        } else {
            None
        }),
        w <= 0 || h <= 0 || w > atlas_side(*old(a)) || h > atlas_side(*old(a)) ==> r is None,
        atlas_rects(*old(a)) == Set::<(i32, i32, i32, i32)>::empty() && 0 < w <= atlas_side(*old(a))
            && 0 < h <= atlas_side(*old(a)) ==> r is Some,
{
    a.allocate(etagere::size2(w, h)).map(
        |got| (got.rectangle.min.x, got.rectangle.min.y, got.rectangle.max.x, got.rectangle.max.y),
    )
}

// --- PNG -------------------------------------------------------------------

/// A decoded PNG: its header's size, colour type and bit depth (numbered as in
/// the file format), and the bytes of its first frame.
pub struct PngFrame {
    pub width: u32,
    pub height: u32,
    pub color_type: u8,
    pub bit_depth: u8,
    pub data: Vec<u8>,
}

/// What the `png` crate decodes a file to, on a machine whose pointers have the
/// given number of bits: width, height, colour type, bit depth and bytes of the
/// first frame, or nothing if the file is malformed.
pub uninterp spec fn png_frame(bytes: Seq<u8>, pointer_bits: u32) -> Option<
    (u32, u32, u8, u8, Seq<u8>),
>;

/// `png::Decoder` with default options: `read_info`, then `next_frame` into a
/// buffer of `output_buffer_size` bytes, cut to the frame's `buffer_size`. What
/// the file format means is left to that crate.
#[verifier::external_body]
fn decode_png(bytes: &[u8]) -> (r: Option<PngFrame>)
    ensures
        match r {
            Some(f) => png_frame(bytes@, usize::BITS) == Some(
                (f.width, f.height, f.color_type, f.bit_depth, f.data@),
            ),
            None => png_frame(bytes@, usize::BITS) is None,
        },
{
    let mut reader = png::Decoder::new(std::io::Cursor::new(bytes)).read_info().ok()?;
    let (width, height) = (reader.info().width, reader.info().height);
    let color_type = reader.info().color_type as u8;
    let bit_depth = reader.info().bit_depth as u8;
    let mut data = vec![0u8; reader.output_buffer_size()?];
    let frame = reader.next_frame(&mut data).ok()?;
    data.truncate(frame.buffer_size());
    Some(PngFrame { width, height, color_type, bit_depth, data })
}

/// Four channels of eight bits from a frame of eight bits a channel. Grey is
/// spread over the colours; a missing alpha is opaque; left-over bytes are
/// dropped. Other formats are turned away.
pub open spec fn to_rgba(color_type: u8, bit_depth: u8, data: Seq<u8>) -> Option<Seq<u8>> {
    if bit_depth != 8 {
        None
    } else if color_type == 6 {
        Some(data)
    } else if color_type == 2 {
        Some(
            Seq::new(
                (data.len() / 3) * 4,
                |i: int|
                    if i % 4 == 3 {
                        255u8
                    } else {
                        data[(i / 4) * 3 + i % 4]
                    },
            ),
        )
    } else if color_type == 0 {
        Some(
            Seq::new(
                data.len() * 4,
                |i: int|
                    if i % 4 == 3 {
                        255u8
                    } else {
                        data[i / 4]
                    },
            ),
        )
    } else if color_type == 4 {
        Some(
            Seq::new(
                (data.len() / 2) * 4,
                |i: int|
                    if i % 4 == 3 {
                        data[(i / 4) * 2 + 1]
                    } else {
                        data[(i / 4) * 2]
                    },
            ),
        )
    } else {
        None
    }
}

/// The pixels of a frame as RGBA.
pub fn frame_to_rgba(frame: PngFrame) -> (r: Option<Vec<u8>>)
    ensures
        match r {
            Some(px) => to_rgba(frame.color_type, frame.bit_depth, frame.data@) == Some(px@),
            None => to_rgba(frame.color_type, frame.bit_depth, frame.data@) is None,
        },
{
    if frame.bit_depth != 8 {
        return None;
    }
    let data: Vec<u8> = frame.data;
    if frame.color_type == 6 {
        return Some(data);
    }
    let step: usize = if frame.color_type == 2 {
        3
    } else if frame.color_type == 0 {
        1
    } else if frame.color_type == 4 {
        2
    } else {
        return None;
    };
    let ghost want = to_rgba(frame.color_type, frame.bit_depth, data@)->Some_0;
    let mut out: Vec<u8> = Vec::new();
    let mut i: usize = 0;
    while data.len() - i >= step
        invariant
            step == 3 && frame.color_type == 2 || step == 1 && frame.color_type == 0 || step == 2
                && frame.color_type == 4,
            frame.bit_depth == 8,
            want == to_rgba(frame.color_type, frame.bit_depth, data@)->Some_0,
            i <= data.len(),
            i % step == 0,
            out@.len() == (i / step) * 4,
            forall|k: int| 0 <= k < out@.len() ==> out@[k] == want[k],
        decreases data.len() - i,
    {
        let ghost p = i / step;
        assert(i == p * step && (i + step) / step as int == p + 1 && (i + step) % step as int == 0)
            by (nonlinear_arith)
            requires
                i % step == 0,
                p == i / step,
                step > 0,
        ;
        assert(want.len() == (data@.len() / step as nat) * 4);
        assert(p < data@.len() / step as nat) by (nonlinear_arith)
            requires
                i == p * step,
                data@.len() - i >= step,
                step > 0,
        ;
        let red: u8 = data[i];
        let green: u8 = if step == 3 {
            data[i + 1]
        } else {
            red
        };
        let blue: u8 = if step == 3 {
            data[i + 2]
        } else {
            red
        };
        let alpha: u8 = if step == 2 {
            data[i + 1]
        } else {
            255
        };
        out.push(red);
        out.push(green);
        out.push(blue);
        out.push(alpha);
        i = i + step;
    }
    assert(i / step == data@.len() / step as nat) by (nonlinear_arith)
        requires
            i % step == 0,
            0 <= data@.len() - i < step,
            step > 0,
    ;
    assert(out@ =~= want);
    Some(out)
}

// --- the atlas -------------------------------------------------------------

/// Names an uploaded image.
#[derive(Copy, Clone, Debug, PartialEq, Eq, Hash, Structural)]
pub struct ImageHandle(pub u32);

/// Where an image is in the texture.
#[derive(Copy, Clone, Debug)]
pub struct ImageEntry<S> {
    /// `[u0, v0, u1, v1]`, each between zero and one.
    pub uv: [S; 4],
    pub width: u32,
    pub height: u32,
}

/// A copy the host has to make: the image's pixels to this place.
#[derive(Copy, Clone, Debug, PartialEq, Eq, Structural)]
pub struct AtlasWrite {
    pub handle: ImageHandle,
    pub x: u32,
    pub y: u32,
    pub width: u32,
    pub height: u32,
}

/// Transparent pixels around each image, so that filtering never reaches a
/// neighbour.
pub const PADDING: u32 = 1;

/// How many images an atlas can number.
pub const MAX_IMAGES: u32 = 32767;

/// The places of all images.
pub struct ImageAtlas<S> {
    size: u32,
    allocator: AtlasAllocator,
    occupants: HashMap<u32, ImageEntry<S>>,
    next_handle: u32,
    writes: Ghost<Map<u32, AtlasWrite>>,
}

/// The contents of an atlas.
#[verifier::ext_equal]
pub struct AtlasView<S> {
    pub size: u32,
    pub entries: Map<u32, ImageEntry<S>>,
    /// The pixels each image occupies.
    pub writes: Map<u32, AtlasWrite>,
    pub next_handle: u32,
}

/// Whether two images, borders included, have no pixel in common.
pub open spec fn images_apart(a: AtlasWrite, b: AtlasWrite) -> bool {
    a.x + a.width + PADDING <= b.x - PADDING || b.x + b.width + PADDING <= a.x - PADDING || a.y
        + a.height + PADDING <= b.y - PADDING || b.y + b.height + PADDING <= a.y - PADDING
}

/// The texture coordinates of a place.
pub open spec fn uv_of<S: Scalar>(w: AtlasWrite, size: u32) -> [S; 4] {
    let inv = one_s::<S>().quot(S::cnt(size as u64));
    [
        S::cnt(w.x as u64).prod(inv),
        S::cnt(w.y as u64).prod(inv),
        S::cnt((w.x + w.width) as u64).prod(inv),
        S::cnt((w.y + w.height) as u64).prod(inv),
    ]
}

/// Whether pixels can go into an atlas at all: there are some, as many as the
/// size says, and with their border they are no larger than the texture.
pub open spec fn uploadable(w: u32, h: u32, len: nat, size: u32) -> bool {
    &&& w > 0 && h > 0
    &&& len == w * h * 4
    &&& w + 2 * PADDING <= size && h + 2 * PADDING <= size
}

impl<S: Scalar> AtlasView<S> {
    /// Every image has an entry and a place; places are inside the texture and
    /// apart from each other.
    pub open spec fn sound(self) -> bool {
        &&& self.entries.dom() == self.writes.dom()
        &&& forall|k: u32| #[trigger]
            self.writes.contains_key(k) ==> {
                let w = self.writes[k];
                &&& k < self.next_handle
                &&& w.handle == ImageHandle(k)
                &&& PADDING <= w.x && w.x + w.width + PADDING <= self.size
                &&& PADDING <= w.y && w.y + w.height + PADDING <= self.size
                &&& self.entries[k] == ImageEntry::<S> {
                    uv: uv_of(w, self.size),
                    width: w.width,
                    height: w.height,
                }
            }
        &&& forall|j: u32, k: u32|
            #![trigger self.writes.contains_key(j), self.writes.contains_key(k)]
            self.writes.contains_key(j) && self.writes.contains_key(k) && j != k ==> images_apart(
                self.writes[j],
                self.writes[k],
            )
    }

    /// The atlas after one more image.
    pub open spec fn uploaded(self, w: AtlasWrite) -> AtlasView<S> {
        AtlasView {
            entries: self.entries.insert(
                self.next_handle,
                ImageEntry { uv: uv_of(w, self.size), width: w.width, height: w.height },
            ),
            writes: self.writes.insert(self.next_handle, w),
            next_handle: (self.next_handle + 1) as u32,
            ..self
        }
    }
}

/// What an image is told for each answer of the allocator: the place inside the
/// border of the rectangle it got, or nothing.
pub open spec fn placed(
    handle: u32,
    w: u32,
    h: u32,
    got: Option<(i32, i32, i32, i32)>,
) -> Option<AtlasWrite> {
    match got {
        Some(q) => Some(
            AtlasWrite {
                handle: ImageHandle(handle),
                x: (q.0 + PADDING) as u32,
                y: (q.1 + PADDING) as u32,
                width: w,
                height: h,
            },
        ),
        None => None,
    }
}

/// The place of an image in the rectangle it got.
pub fn place(handle: u32, w: u32, h: u32, got: Option<(i32, i32, i32, i32)>) -> (r: Option<
    AtlasWrite,
>)
    requires
        got matches Some(q) ==> 0 <= q.0 < i32::MAX && 0 <= q.1 < i32::MAX,
    ensures
        r == placed(handle, w, h, got),
{
    match got {
        Some(q) => Some(
            AtlasWrite {
                handle: ImageHandle(handle),
                x: (q.0 + 1) as u32,
                y: (q.1 + 1) as u32,
                width: w,
                height: h,
            },
        ),
        None => None,
    }
}

/// Whether `after` is the atlas after an attempt to upload `len` bytes as a
/// `w` by `h` image.
pub open spec fn upload_outcome<S: Scalar>(
    before: AtlasView<S>,
    w: u32,
    h: u32,
    len: nat,
    r: Option<AtlasWrite>,
    after: AtlasView<S>,
) -> bool {
    &&& match r {
        Some(wr) => {
            &&& uploadable(w, h, len, before.size)
            &&& wr.handle == ImageHandle(before.next_handle)
            &&& wr.width == w && wr.height == h
            &&& after == before.uploaded(wr)
        },
        None => after == before,
    }
}

impl<S: Scalar> ImageAtlas<S> {
    pub closed spec fn view(&self) -> AtlasView<S> {
        AtlasView {
            size: self.size,
            entries: self.occupants@,
            writes: self.writes@,
            next_handle: self.next_handle,
        }
    }

    /// Whether a rectangle holds an image with its border.
    closed spec fn covers(self, q: (i32, i32, i32, i32), k: u32) -> bool {
        let w = self.writes@[k];
        &&& q.0 + PADDING == w.x && q.1 + PADDING == w.y
        &&& w.x + w.width + PADDING <= q.2 && w.y + w.height + PADDING <= q.3
    }

    /// The rectangle the allocator has for an image with its border, if any.
    pub closed spec fn offer(self, w: u32, h: u32) -> Option<(i32, i32, i32, i32)> {
        let size = ((w + 2 * PADDING) as i32, (h + 2 * PADDING) as i32);
        if atlas_offers(self.allocator).contains_key(size) {
            Some(atlas_offers(self.allocator)[size])
        } else {
            None
        }
    }

    /// What comes of an upload: nothing if the image cannot go into the atlas
    /// at all, otherwise what the allocator has for it.
    pub open spec fn answer(self, w: u32, h: u32, len: nat) -> Option<AtlasWrite> {
        if uploadable(w, h, len, self@.size) {
            placed(self@.next_handle, w, h, self.offer(w, h))
        } else {
            None
        }
    }

    /// What the atlas keeps.
    pub closed spec fn wf(self) -> bool {
        &&& self@.sound()
        &&& 1 <= self.size && self.size * self.size <= i32::MAX
        &&& atlas_side(self.allocator) == self.size
        &&& atlas_rects(self.allocator).finite()
        &&& atlas_rects(self.allocator).len() <= self.next_handle
        &&& self.next_handle == 0 ==> atlas_rects(self.allocator) == Set::<
            (i32, i32, i32, i32),
        >::empty()
        &&& self.next_handle <= MAX_IMAGES
        &&& forall|k: u32| #[trigger]
            self.writes@.contains_key(k) ==> exists|q: (i32, i32, i32, i32)| #[trigger]
                atlas_rects(self.allocator).contains(q) && self.covers(q, k)
    }

    /// An empty atlas over a square texture.
    pub fn new(size: u32) -> (r: Self)
        requires
            1 <= size,
            size * size <= i32::MAX,
        ensures
            r.wf(),
            r@ == (AtlasView::<S> {
                size,
                entries: Map::empty(),
                writes: Map::empty(),
                next_handle: 0,
            }),
    {
        assert(size <= 46341) by (nonlinear_arith)
            requires
                size * size <= 0x7fff_ffff,
        ;
        let allocator: AtlasAllocator = new_allocator(size as i32);
        ImageAtlas {
            size,
            allocator,
            occupants: HashMap::new(),
            next_handle: 0,
            writes: Ghost(Map::empty()),
        }
    }

    pub fn size(&self) -> (r: u32)
        ensures
            r == self@.size,
    {
        self.size
    }

    /// Where an image is.
    pub fn get(&self, handle: ImageHandle) -> (r: Option<ImageEntry<S>>)
        ensures
            r == (if self@.entries.contains_key(handle.0) {
                Some(self@.entries[handle.0])
            } else {
                None
            }),
    {
        match self.occupants.get(&handle.0) {
            Some(e) => Some(*e),
            None => None,
        }
    }

    /// Bytes of the texture.
    pub fn memory_bytes(&self) -> (r: u64)
        requires
            self.wf(),
        ensures
            r == self@.size * self@.size * 4,
    {
        assert(self.size <= 46341) by (nonlinear_arith)
            requires
                self.size * self.size <= 0x7fff_ffff,
        ;
        assert(self.size * self.size <= 46341 * 46341) by (nonlinear_arith)
            requires
                self.size <= 46341,
        ;
        self.size as u64 * self.size as u64 * 4
    }

    /// Find a place for RGBA pixels, `w * h * 4` bytes in rows from the top.
    /// Nothing comes back if the bytes do not fit the size, if the image with
    /// its border exceeds the texture, or if there is no room left.
    pub fn upload_rgba(&mut self, w: u32, h: u32, rgba: &[u8]) -> (r: Option<AtlasWrite>)
        requires
            old(self).wf(),
            old(self)@.next_handle < MAX_IMAGES,
        ensures
            final(self).wf(),
            final(self)@.sound(),
            upload_outcome(old(self)@, w, h, rgba@.len(), r, final(self)@),
            r == old(self).answer(w, h, rgba@.len()),
            uploadable(w, h, rgba@.len(), old(self)@.size) && old(self)@.next_handle == 0
                ==> r is Some,
            r is None ==> *final(self) == *old(self),
    {
        proof {
            assert(self.size <= 46341) by (nonlinear_arith)
                requires
                    self.size * self.size <= 0x7fff_ffff,
            ;
        }
        if w == 0 || h == 0 {
            return None;
        }
        if w as u64 + 2 > self.size as u64 || h as u64 + 2 > self.size as u64 {
            return None;
        }
        assert(w * h * 4 <= 46341 * 46341 * 4) by (nonlinear_arith)
            requires
                w <= 46341,
                h <= 46341,
        ;
        assert(w as u64 * h as u64 <= 46341 * 46341) by (nonlinear_arith)
            requires
                w <= 46341,
                h <= 46341,
        ;
        if rgba.len() as u64 != w as u64 * h as u64 * 4 {
            return None;
        }
        let ghost before = *self;
        let handle: u32 = self.next_handle;
        let got: Option<(i32, i32, i32, i32)> = allocate(
            &mut self.allocator,
            (w + 2) as i32,
            (h + 2) as i32,
        );
        let wr: AtlasWrite = match place(handle, w, h, got) {
            Some(wr) => wr,
            None => {
                return None;
            },
        };
        let ghost q = got->Some_0;
        let inv: S = one::<S>().over(S::count(self.size as u64));
        let entry: ImageEntry<S> = ImageEntry {
            uv: [
                S::count(wr.x as u64).times(inv),
                S::count(wr.y as u64).times(inv),
                S::count((wr.x + wr.width) as u64).times(inv),
                S::count((wr.y + wr.height) as u64).times(inv),
            ],
            width: w,
            height: h,
        };
        self.next_handle = handle + 1;
        let _ = self.occupants.insert(handle, entry);
        self.writes = Ghost(self.writes@.insert(handle, wr));
        proof {
            assert(self@ == before@.uploaded(wr));
            assert forall|k: u32| #[trigger] self.writes@.contains_key(k) implies exists|
                p: (i32, i32, i32, i32),
            | #[trigger] atlas_rects(self.allocator).contains(p) && self.covers(p, k) by {
                if k == handle {
                    assert(atlas_rects(self.allocator).contains(q));
                    assert(self.covers(q, k));
                } else {
                    assert(before.writes@.contains_key(k));
                    let p = choose|p: (i32, i32, i32, i32)| #[trigger]
                        atlas_rects(before.allocator).contains(p) && before.covers(p, k);
                    assert(atlas_rects(self.allocator).contains(p));
                    assert(self.covers(p, k));
                }
            }
            assert forall|j: u32, k: u32|
                #![trigger self@.writes.contains_key(j), self@.writes.contains_key(k)]
                self@.writes.contains_key(j) && self@.writes.contains_key(k) && j
                    != k implies images_apart(self@.writes[j], self@.writes[k]) by {
                if j == handle {
                    assert(before.writes@.contains_key(k));
                    let p = choose|p: (i32, i32, i32, i32)| #[trigger]
                        atlas_rects(before.allocator).contains(p) && before.covers(p, k);
                    assert(apart(p, q));
                } else if k == handle {
                    assert(before.writes@.contains_key(j));
                    let p = choose|p: (i32, i32, i32, i32)| #[trigger]
                        atlas_rects(before.allocator).contains(p) && before.covers(p, j);
                    assert(apart(p, q));
                } else {
                    assert(before@.writes.contains_key(j) && before@.writes.contains_key(k));
                }
            }
            assert(self@.entries.dom() =~= self@.writes.dom());
            assert forall|k: u32| #[trigger] self@.writes.contains_key(k) implies ({
                let w = self@.writes[k];
                &&& k < self@.next_handle
                &&& w.handle == ImageHandle(k)
                &&& PADDING <= w.x && w.x + w.width + PADDING <= self@.size
                &&& PADDING <= w.y && w.y + w.height + PADDING <= self@.size
                &&& self@.entries[k] == ImageEntry::<S> {
                    uv: uv_of(w, self@.size),
                    width: w.width,
                    height: w.height,
                }
            }) by {
                if k != handle {
                    assert(before@.writes.contains_key(k));
                }
            }
        }
        Some(wr)
    }

    /// Decode a PNG and find a place for it. Also hands back the pixels to
    /// copy there.
    pub fn upload_png(&mut self, bytes: &[u8]) -> (r: Option<(AtlasWrite, Vec<u8>)>)
        requires
            old(self).wf(),
            old(self)@.next_handle < MAX_IMAGES,
        ensures
            final(self).wf(),
            final(self)@.sound(),
            match png_frame(bytes@, usize::BITS) {
                Some(f) => match to_rgba(f.2, f.3, f.4) {
                    Some(px) => {
                        &&& r matches Some(got) ==> got.1@ == px
                        &&& upload_outcome(
                            old(self)@,
                            f.0,
                            f.1,
                            px.len(),
                            match r {
                                Some(got) => Some(got.0),
                                None => None,
                            },
                            final(self)@,
                        )
                        &&& match r {
                            Some(got) => old(self).answer(f.0, f.1, px.len()) == Some(got.0),
                            None => old(self).answer(f.0, f.1, px.len()) is None,
                        }
                        &&& uploadable(f.0, f.1, px.len(), old(self)@.size)
                            && old(self)@.next_handle == 0 ==> r is Some
                    },
                    None => r is None,
                },
                None => r is None,
            },
            r is None ==> *final(self) == *old(self),
    {
        let frame: PngFrame = match decode_png(bytes) {
            Some(f) => f,
            None => {
                return None;
            },
        };
        let w: u32 = frame.width;
        let h: u32 = frame.height;
        let rgba: Vec<u8> = match frame_to_rgba(frame) {
            Some(px) => px,
            None => {
                return None;
            },
        };
        match self.upload_rgba(w, h, rgba.as_slice()) {
            Some(wr) => Some((wr, rgba)),
            None => None,
        }
    }
}

/// An atlas that is kept well is sound: every image has a place of its own
/// inside the texture.
pub proof fn atlas_is_sound<S: Scalar>(a: ImageAtlas<S>)
    requires
        a.wf(),
    ensures
        a@.sound(),
        1 <= a@.size <= 46341,
        a@.next_handle <= MAX_IMAGES,
{
    assert(a.size <= 46341) by (nonlinear_arith)
        requires
            a.size * a.size <= 0x7fff_ffff,
    ;
}

/// No two images of an atlas share a pixel, borders included, and every image
/// is inside the texture.
pub proof fn images_never_overlap<S: Scalar>(a: AtlasView<S>, j: u32, k: u32)
    requires
        a.sound(),
        a.entries.contains_key(j),
        a.entries.contains_key(k),
        j != k,
    ensures
        images_apart(a.writes[j], a.writes[k]),
        a.writes[j].x + a.writes[j].width < a.size,
        a.writes[j].y + a.writes[j].height < a.size,
{
    assert(a.writes.contains_key(j) && a.writes.contains_key(k));
}

/// Uploading keeps what was there: old handles name the same images, and the
/// new handle is new.
pub proof fn uploads_keep_handles<S: Scalar>(a: AtlasView<S>, w: AtlasWrite, k: u32)
    requires
        a.sound(),
        a.next_handle < u32::MAX,
        a.entries.contains_key(k),
    ensures
        a.uploaded(w).entries.contains_key(k),
        a.uploaded(w).entries[k] == a.entries[k],
        k != a.next_handle,
{
    assert(a.writes.contains_key(k));
}

/// In fixed point, texture coordinates lie between zero and one, the far corner
/// not before the near one.
pub proof fn coordinates_stay_in_the_texture(a: AtlasView<Fixed>, k: u32)
    requires
        a.sound(),
        a.size <= 46341,
        a.entries.contains_key(k),
    ensures
        ({
            let uv = a.entries[k].uv;
            &&& 0 <= uv[0].raw <= uv[2].raw <= one_s::<Fixed>().raw
            &&& 0 <= uv[1].raw <= uv[3].raw <= one_s::<Fixed>().raw
        }),
{
    assert(a.writes.contains_key(k));
    let w = a.writes[k];
    lemma_coordinate(w.x as int, a.size);
    lemma_coordinate(w.y as int, a.size);
    lemma_coordinate(w.x + w.width, a.size);
    lemma_coordinate(w.y + w.height, a.size);
    let step = 65536int / (a.size as int);
    assert(w.x * step <= (w.x + w.width) * step) by (nonlinear_arith)
        requires
            step >= 0,
    ;
    assert(w.y * step <= (w.y + w.height) * step) by (nonlinear_arith)
        requires
            step >= 0,
    ;
}

/// Where the texture's size divides the places evenly, texture coordinates name
/// the image's corners: left and top, then right and bottom.
pub proof fn coordinates_name_the_corners(w: AtlasWrite, size: u32)
    requires
        1 <= size <= 46341,
        65536int % (size as int) == 0,
        w.x + w.width <= size,
        w.y + w.height <= size,
    ensures
        uv_of::<Fixed>(w, size)[0].raw * size == w.x * 65536,
        uv_of::<Fixed>(w, size)[1].raw * size == w.y * 65536,
        uv_of::<Fixed>(w, size)[2].raw * size == (w.x + w.width) * 65536,
        uv_of::<Fixed>(w, size)[3].raw * size == (w.y + w.height) * 65536,
{
    lemma_coordinate(w.x as int, size);
    lemma_coordinate(w.y as int, size);
    lemma_coordinate(w.x + w.width, size);
    lemma_coordinate(w.y + w.height, size);
    lemma_even(w.x as int, size);
    lemma_even(w.y as int, size);
    lemma_even(w.x + w.width, size);
    lemma_even(w.y + w.height, size);
}

proof fn lemma_even(x: int, size: u32)
    requires
        1 <= size,
        65536int % (size as int) == 0,
    ensures
        (x * (65536int / (size as int))) * size == x * 65536,
{
    let n = size as int;
    let step = 65536int / n;
    assert(step * n == 65536) by (nonlinear_arith)
        requires
            step == 65536int / n,
            65536int % n == 0,
            n >= 1,
    ;
    assert((x * step) * n == x * (step * n)) by (nonlinear_arith);
}

proof fn lemma_coordinate(x: int, size: u32)
    requires
        0 <= x <= size,
        1 <= size <= 46341,
    ensures
        Fixed::cnt(x as u64).prod(one_s::<Fixed>().quot(Fixed::cnt(size as u64))).raw == x * (65536int
            / (size as int)),
        0 <= x * (65536int / (size as int)) <= 65536,
{
    let inv = one_s::<Fixed>().quot(Fixed::cnt(size as u64));
    let step = 65536int / (size as int);
    assert(one_s::<Fixed>().raw == 65536);
    assert(Fixed::cnt(size as u64).raw == size * 65536);
    assert((65536int * 65536) / (size * 65536) == step) by (nonlinear_arith)
        requires
            step == 65536int / (size as int),
            size >= 1,
    ;
    assert(0 <= step <= 65536) by (nonlinear_arith)
        requires
            step == 65536int / (size as int),
            size >= 1,
    ;
    assert(inv.raw == step);
    assert(0 <= x * step <= 65536) by (nonlinear_arith)
        requires
            step == 65536int / (size as int),
            0 <= x <= size,
            size >= 1,
            step >= 0,
    {
        assert(size * step <= 65536);
        assert(x * step <= size * step);
    }
    let c = Fixed::cnt(x as u64);
    assert(c.raw == x * 65536);
    assert(c.raw * inv.raw == (x * step) * 65536) by (nonlinear_arith)
        requires
            c.raw == x * 65536,
            inv.raw == step,
    ;
}

} // verus!
