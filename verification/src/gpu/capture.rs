//! Reading a frame back: padded rows to packed RGBA.
use vstd::prelude::*;

verus! {

/// Rows of a readback buffer start at multiples of this many bytes.
pub const ROW_ALIGNMENT: u32 = 256;

/// Bytes from one row of a readback buffer to the next.
pub open spec fn pitch(width: u32) -> int {
    ((width * 4 + 255) / 256) * 256
}

/// How a frame of a given size is laid out in its readback buffer.
#[derive(Copy, Clone, Debug, PartialEq, Eq, Structural)]
pub struct ReadbackLayout {
    pub unpadded_bpr: u32,
    pub padded_bpr: u32,
    pub size: u64,
}

/// The layout for a frame.
pub fn readback_layout(width: u32, height: u32) -> (r: ReadbackLayout)
    requires
        pitch(width) <= u32::MAX,
    ensures
        r.unpadded_bpr == width * 4,
        r.padded_bpr == pitch(width),
        r.size == pitch(width) * height,
{
    let unpadded: u32 = width * 4;
    let rows: u32 = unpadded / 256 + if unpadded % 256 == 0 {
        0
    } else {
        1
    };
    let padded: u32 = rows * 256;
    assert(padded * height <= 0xffff_ffff * 0xffff_ffff) by (nonlinear_arith)
        requires
            padded <= 0xffff_ffff,
            height <= 0xffff_ffff,
    ;
    ReadbackLayout {
        unpadded_bpr: unpadded,
        padded_bpr: padded,
        size: padded as u64 * height as u64,
    }
}

/// The channel of the surface that a channel of the result comes from.
pub open spec fn channel(c: int, bgra: bool) -> int {
    if bgra && c == 0 {
        2
    } else if bgra && c == 2 {
        0
    } else {
        c
    }
}

/// Byte `i` of the packed frame.
pub open spec fn packed_byte(view: Seq<u8>, width: u32, bgra: bool, i: int) -> u8 {
    let row = i / (width * 4);
    let at = i % (width * 4);
    view[row * pitch(width) + (at / 4) * 4 + channel(at % 4, bgra)]
}

/// The packed frame: rows without padding, channels in RGBA order.
pub open spec fn packed(view: Seq<u8>, width: u32, height: u32, bgra: bool) -> Seq<u8> {
    Seq::new((width * 4 * height) as nat, |i: int| packed_byte(view, width, bgra, i))
}

proof fn lemma_at(row: int, x: int, c: int, width: int)
    requires
        0 <= row,
        0 <= x < width,
        0 <= c < 4,
    ensures
        ({
            let i = row * (width * 4) + x * 4 + c;
            &&& i / (width * 4) == row
            &&& i % (width * 4) == x * 4 + c
            &&& ((x * 4 + c) / 4) * 4 == x * 4
            &&& (x * 4 + c) % 4 == c
        }),
{
    let n = width * 4;
    let rest = x * 4 + c;
    assert(0 <= rest < n);
    vstd::arithmetic::div_mod::lemma_fundamental_div_mod_converse(row * n + rest, n, row, rest);
}

/// Take the pixels out of a mapped readback buffer. `bgra` says that the
/// surface stores blue first.
pub fn unpad(view: &[u8], width: u32, height: u32, bgra: bool) -> (r: Vec<u8>)
    requires
        pitch(width) <= u32::MAX,
        pitch(width) * height <= view@.len(),
    ensures
        r@ == packed(view@, width, height, bgra),
{
    let layout: ReadbackLayout = readback_layout(width, height);
    let mut out: Vec<u8> = Vec::new();
    let mut row: u32 = 0;
    let padded: usize = layout.padded_bpr as usize;
    while row < height
        invariant
            row <= height,
            padded == pitch(width),
            pitch(width) <= u32::MAX,
            pitch(width) * height <= view@.len(),
            view@.len() == view.len(),
            out@.len() == row * (width * 4),
            forall|i: int|
                0 <= i < out@.len() ==> #[trigger] out@[i] == packed_byte(view@, width, bgra, i),
        decreases height - row,
    {
        assert(row * padded + padded <= view.len()) by (nonlinear_arith)
            requires
                row < height,
                padded * height <= view.len(),
        ;
        let base: usize = row as usize * padded;
        let mut x: u32 = 0;
        while x < width
            invariant
                x <= width,
                row < height,
                padded == pitch(width),
                pitch(width) <= u32::MAX,
                base == row * padded,
                base + padded <= view.len(),
                view@.len() == view.len(),
                out@.len() == row * (width * 4) + x * 4,
                forall|i: int|
                    0 <= i < out@.len() ==> #[trigger] out@[i] == packed_byte(
                        view@,
                        width,
                        bgra,
                        i,
                    ),
            decreases width - x,
        {
            let p: usize = base + x as usize * 4;
            let first: u8 = view[p];
            let third: u8 = view[p + 2];
            proof {
                lemma_at(row as int, x as int, 0, width as int);
                lemma_at(row as int, x as int, 1, width as int);
                lemma_at(row as int, x as int, 2, width as int);
                lemma_at(row as int, x as int, 3, width as int);
            }
            out.push(
                if bgra {
                    third
                } else {
                    first
                },
            );
            out.push(view[p + 1]);
            out.push(
                if bgra {
                    first
                } else {
                    third
                },
            );
            out.push(view[p + 3]);
            x = x + 1;
        }
        assert((row + 1) * (width * 4) == row * (width * 4) + width * 4) by (nonlinear_arith);
        row = row + 1;
    }
    assert(height * (width * 4) == width * 4 * height) by (nonlinear_arith);
    assert(out@ =~= packed(view@, width, height, bgra));
    out
}

/// A frame as the GPU lays it out: rows at the pitch, whatever in between.
pub open spec fn laid_out(px: Seq<u8>, width: u32, height: u32, view: Seq<u8>) -> bool {
    &&& px.len() == width * 4 * height
    &&& forall|row: int, at: int|
        #![trigger view[row * pitch(width) + at]]
        0 <= row < height && 0 <= at < width * 4 ==> view[row * pitch(width) + at] == px[row * (
        width * 4) + at]
}

/// Reading back what was laid out gives the pixels.
pub proof fn readback_round_trip(px: Seq<u8>, width: u32, height: u32, view: Seq<u8>)
    requires
        laid_out(px, width, height, view),
    ensures
        packed(view, width, height, false) == px,
{
    assert forall|i: int| 0 <= i < px.len() implies packed(view, width, height, false)[i] == px[i] by {
        let n = (width * 4) as int;
        assert(n > 0 && 0 <= i / n < height && 0 <= i % n < n && i == (i / n) * n + i % n)
            by (nonlinear_arith)
            requires
                0 <= i < n * height,
                n >= 0,
        ;
        let row = i / n;
        let at = i % n;
        assert((at / 4) * 4 + at % 4 == at);
        assert(view[row * pitch(width) + at] == px[row * n + at]);
        assert(row * pitch(width) + (at / 4) * 4 + at % 4 == row * pitch(width) + at);
    }
    assert(packed(view, width, height, false) =~= px);
}

} // verus!
