//! The backdrop pyramid: how deep it is and how it is filled.
//!
//! Level 0 is what lies under the glass; each further level is half as large
//! and twice as blurred.
use vstd::prelude::*;

verus! {

/// Deepest pyramid: eight levels cover blur radii up to 256 pixels.
pub const MAX_MIPS: u32 = 8;

/// The exponent of the largest power of two that is at most `n`.
pub open spec fn log2_floor(n: nat) -> nat
    decreases n,
{
    if n < 2 {
        0
    } else {
        1 + log2_floor(n / 2)
    }
}

/// `n` halved `times` times, rounding down.
pub open spec fn halved(n: nat, times: nat) -> nat
    decreases times,
{
    if times == 0 {
        n
    } else {
        halved(n / 2, (times - 1) as nat)
    }
}

pub open spec fn larger_of(a: nat, b: nat) -> nat {
    if a < b {
        b
    } else {
        a
    }
}

/// Levels of the pyramid over a surface: the binary logarithm of its longer
/// side, at least one and at most [`MAX_MIPS`].
pub open spec fn mip_levels(width: u32, height: u32) -> nat {
    let levels = log2_floor(larger_of(larger_of(width as nat, height as nat), 1));
    if levels < 1 {
        1
    } else if levels > MAX_MIPS {
        MAX_MIPS as nat
    } else {
        levels
    }
}

pub fn mip_count_for(width: u32, height: u32) -> (r: u32)
    ensures
        r == mip_levels(width, height),
{
    let mut side: u32 = if width < height {
        height
    } else {
        width
    };
    if side < 1 {
        side = 1;
    }
    let ghost whole = side as nat;
    let mut levels: u32 = 0;
    while side >= 2
        invariant
            levels + log2_floor(side as nat) == log2_floor(whole),
            levels + side <= u32::MAX,
        decreases side,
    {
        side = side / 2;
        levels = levels + 1;
    }
    if levels < 1 {
        1
    } else if levels > MAX_MIPS {
        MAX_MIPS
    } else {
        levels
    }
}

/// One step of filling the pyramid: a compute dispatch from one level to the
/// next.
#[derive(Copy, Clone, Debug, PartialEq, Eq, Structural)]
pub struct DownsampleStep {
    /// The level that is read.
    pub source: u32,
    /// The level that is written.
    pub target: u32,
    /// Work groups of eight by eight pixels.
    pub groups_x: u32,
    pub groups_y: u32,
}

/// Groups of eight that cover a side of level `level`; no level is thinner
/// than a pixel.
pub open spec fn groups(side: u32, level: nat) -> nat {
    let len = larger_of(halved(side as nat, level), 1);
    (len + 7) / 8
}

/// The step into level `level`.
pub open spec fn step_into(width: u32, height: u32, level: nat) -> DownsampleStep {
    DownsampleStep {
        source: (level - 1) as u32,
        target: level as u32,
        groups_x: groups(width, level) as u32,
        groups_y: groups(height, level) as u32,
    }
}

proof fn lemma_halved_step(n: nat, k: nat)
    ensures
        halved(n, k + 1) == halved(n, k) / 2,
        halved(n, k) <= n,
    decreases k,
{
    reveal_with_fuel(halved, 2);
    if k > 0 {
        lemma_halved_step(n / 2, (k - 1) as nat);
    }
}

fn groups_for(len: u32) -> (r: u32)
    ensures
        r == (larger_of(len as nat, 1) + 7) / 8,
{
    let side: u32 = if len < 1 {
        1
    } else {
        len
    };
    side / 8 + if side % 8 == 0 {
        0
    } else {
        1
    }
}

/// The steps that fill a pyramid from level 0 down, one for each further
/// level.
pub fn downsample_plan(width: u32, height: u32, mip_count: u32) -> (r: Vec<DownsampleStep>)
    ensures
        r@.len() == (if mip_count == 0 {
            0int
        } else {
            mip_count - 1
        }),
        forall|i: int|
            0 <= i < r@.len() ==> #[trigger] r@[i] == step_into(width, height, (i + 1) as nat),
{
    let mut out: Vec<DownsampleStep> = Vec::new();
    let mut w: u32 = width;
    let mut h: u32 = height;
    let mut level: u32 = 1;
    while level < mip_count
        invariant
            1 <= level,
            level <= mip_count || mip_count == 0 && level == 1,
            out@.len() == level - 1,
            w == halved(width as nat, (level - 1) as nat),
            h == halved(height as nat, (level - 1) as nat),
            forall|i: int|
                0 <= i < out@.len() ==> #[trigger] out@[i] == step_into(
                    width,
                    height,
                    (i + 1) as nat,
                ),
        decreases mip_count - level,
    {
        proof {
            lemma_halved_step(width as nat, (level - 1) as nat);
            lemma_halved_step(height as nat, (level - 1) as nat);
        }
        w = w / 2;
        h = h / 2;
        out.push(
            DownsampleStep {
                source: level - 1,
                target: level,
                groups_x: groups_for(w),
                groups_y: groups_for(h),
            },
        );
        level = level + 1;
    }
    out
}

/// The timestamp slots that step `i` of `count` writes, before and after: the
/// first step begins the timing of the whole and the last one ends it. A step
/// in between writes none.
pub open spec fn slots_of_step(i: nat, count: nat, slots: Option<(u32, u32)>) -> Option<
    (Option<u32>, Option<u32>),
> {
    match slots {
        Some(s) => if i == 0 || i + 1 == count {
            Some(
                (
                    if i == 0 {
                        Some(s.0)
                    } else {
                        None
                    },
                    if i + 1 == count {
                        Some(s.1)
                    } else {
                        None
                    },
                ),
            )
        } else {
            None
        },
        None => None,
    }
}

/// The timestamp slots of a step.
pub fn step_slots(i: usize, count: usize, slots: Option<(u32, u32)>) -> (r: Option<
    (Option<u32>, Option<u32>),
>)
    requires
        i < count,
    ensures
        r == slots_of_step(i as nat, count as nat, slots),
{
    match slots {
        Some(s) => {
            let first: bool = i == 0;
            let last: bool = i == count - 1;
            if !first && !last {
                return None;
            }
            let begin: Option<u32> = if first {
                Some(s.0)
            } else {
                None
            };
            let end: Option<u32> = if last {
                Some(s.1)
            } else {
                None
            };
            Some((begin, end))
        },
        None => None,
    }
}

/// The steps form a chain: each reads what the one before wrote, the first
/// reads level 0, and the last writes the deepest level.
pub proof fn downsampling_is_a_chain(width: u32, height: u32, level: nat)
    requires
        1 <= level < u32::MAX,
    ensures
        step_into(width, height, 1).source == 0,
        step_into(width, height, level + 1).source == step_into(width, height, level).target,
{
}

/// The pyramid always has a level and never more than the cap.
pub proof fn mip_levels_in_range(width: u32, height: u32)
    ensures
        1 <= mip_levels(width, height) <= MAX_MIPS,
{
}

/// A larger surface never has fewer levels.
pub proof fn mip_levels_grow(width: u32, height: u32, wider: u32, higher: u32)
    requires
        width <= wider,
        height <= higher,
    ensures
        mip_levels(width, height) <= mip_levels(wider, higher),
{
    lemma_log2_grows(
        larger_of(larger_of(width as nat, height as nat), 1),
        larger_of(larger_of(wider as nat, higher as nat), 1),
    );
}

proof fn lemma_log2_grows(a: nat, b: nat)
    requires
        a <= b,
    ensures
        log2_floor(a) <= log2_floor(b),
    decreases b,
{
    if a >= 2 {
        lemma_log2_grows(a / 2, b / 2);
    }
}

} // verus!
