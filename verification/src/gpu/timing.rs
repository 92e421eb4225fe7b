//! GPU timestamps and frame statistics.
use vstd::prelude::*;

use crate::scalar::{zero, zero_s, Scalar};

verus! {

/// The passes of a frame that can be timed, in the order they run.
#[derive(Copy, Clone, Debug, PartialEq, Eq, Structural)]
pub enum PassKind {
    Opaque,
    Blur,
    Final,
    OverdrawCount,
    OverdrawCompose,
}

/// Hands out timestamp slots, two to a pass, without gaps.
#[derive(Debug)]
pub struct PassAlloc {
    passes: Vec<PassKind>,
}

impl View for PassAlloc {
    type V = Seq<PassKind>;

    closed spec fn view(&self) -> Seq<PassKind> {
        self.passes@
    }
}

impl PassAlloc {
    pub fn new() -> (r: Self)
        ensures
            r@ == Seq::<PassKind>::empty(),
    {
        PassAlloc { passes: Vec::new() }
    }

    /// The slots for the beginning and the end of a pass.
    pub fn reserve(&mut self, pass: PassKind) -> (r: (u32, u32))
        requires
            old(self)@.len() < 0x4000_0000,
        ensures
            r.0 == 2 * old(self)@.len(),
            r.1 == 2 * old(self)@.len() + 1,
            final(self)@ == old(self)@.push(pass),
    {
        let n: u32 = self.passes.len() as u32;
        self.passes.push(pass);
        (2 * n, 2 * n + 1)
    }

    /// The passes that got slots, in order.
    pub fn passes(&self) -> (r: &[PassKind])
        ensures
            r@ == self@,
    {
        self.passes.as_slice()
    }
}

/// Milliseconds spent, in all and by pass.
#[derive(Copy, Clone, Debug)]
pub struct FrameTiming<S> {
    pub total_ms: S,
    pub opaque_ms: S,
    pub blur_ms: S,
    pub final_ms: S,
    pub overdraw_ms: S,
}

/// Milliseconds between two timestamps; none if they are out of order.
pub open spec fn span_ms<S: Scalar>(begin: u64, end: u64, period_ns: S) -> S {
    let ticks = if end < begin {
        0u64
    } else {
        (end - begin) as u64
    };
    S::cnt(ticks).prod(period_ns).quot(S::rat(1_000_000, 1))
}

pub fn ticks_to_ms<S: Scalar>(begin: u64, end: u64, period_ns: S) -> (r: S)
    ensures
        r == span_ms(begin, end, period_ns),
{
    let ticks: u64 = if end < begin {
        0
    } else {
        end - begin
    };
    S::count(ticks).times(period_ns).over(S::ratio(1_000_000, 1))
}

impl<S: Scalar> FrameTiming<S> {
    pub open spec fn none() -> FrameTiming<S> {
        FrameTiming {
            total_ms: zero_s(),
            opaque_ms: zero_s(),
            blur_ms: zero_s(),
            final_ms: zero_s(),
            overdraw_ms: zero_s(),
        }
    }

    /// Timing with one more pass added to its share.
    pub open spec fn with_pass(self, pass: PassKind, ms: S) -> FrameTiming<S> {
        match pass {
            PassKind::Opaque => FrameTiming { opaque_ms: ms, ..self },
            PassKind::Blur => FrameTiming { blur_ms: ms, ..self },
            PassKind::Final => FrameTiming { final_ms: ms, ..self },
            PassKind::OverdrawCount => FrameTiming { overdraw_ms: self.overdraw_ms.sum(ms), ..self },
            PassKind::OverdrawCompose => FrameTiming {
                overdraw_ms: self.overdraw_ms.sum(ms),
                ..self
            },
        }
    }
}

impl<S: Scalar> Default for FrameTiming<S> {
    fn default() -> (r: Self)
        ensures
            r == FrameTiming::<S>::none(),
    {
        FrameTiming {
            total_ms: zero(),
            opaque_ms: zero(),
            blur_ms: zero(),
            final_ms: zero(),
            overdraw_ms: zero(),
        }
    }
}

/// The timing of the first `k` passes, total left out.
pub open spec fn passes_timed<S: Scalar>(
    passes: Seq<PassKind>,
    ticks: Seq<u64>,
    period_ns: S,
    k: nat,
) -> FrameTiming<S>
    decreases k,
{
    if k == 0 {
        FrameTiming::none()
    } else {
        passes_timed(passes, ticks, period_ns, (k - 1) as nat).with_pass(
            passes[k - 1],
            span_ms(ticks[2 * (k - 1)], ticks[2 * (k - 1) + 1], period_ns),
        )
    }
}

/// Read a frame's timestamps, two to a pass. The total runs from the beginning
/// of the first pass to the end of the last. Without a pass, or with fewer
/// timestamps than that takes, there is nothing to tell.
pub fn read_timing<S: Scalar>(passes: &[PassKind], ticks: &[u64], period_ns: S) -> (r: Option<
    FrameTiming<S>,
>)
    ensures
        r == (if passes@.len() == 0 || ticks@.len() < 2 * passes@.len() {
            None
        } else {
            Some(
                FrameTiming {
                    total_ms: span_ms(ticks@[0], ticks@[2 * passes@.len() - 1], period_ns),
                    ..passes_timed(passes@, ticks@, period_ns, passes@.len())
                },
            )
        }),
{
    let n: usize = passes.len();
    if n == 0 || ticks.len() / 2 < n {
        return None;
    }
    let mut t: FrameTiming<S> = FrameTiming::default();
    let mut k: usize = 0;
    while k < n
        invariant
            k <= n,
            n == passes@.len(),
            2 * n <= ticks.len(),
            t == passes_timed(passes@, ticks@, period_ns, k as nat),
        decreases n - k,
    {
        let ms: S = ticks_to_ms(ticks[2 * k], ticks[2 * k + 1], period_ns);
        match passes[k] {
            PassKind::Opaque => {
                t.opaque_ms = ms;
            },
            PassKind::Blur => {
                t.blur_ms = ms;
            },
            PassKind::Final => {
                t.final_ms = ms;
            },
            PassKind::OverdrawCount => {
                t.overdraw_ms = t.overdraw_ms.plus(ms);
            },
            PassKind::OverdrawCompose => {
                t.overdraw_ms = t.overdraw_ms.plus(ms);
            },
        }
        k = k + 1;
    }
    t.total_ms = ticks_to_ms(ticks[0], ticks[2 * n - 1], period_ns);
    Some(t)
}

/// What a frame took and drew.
#[derive(Copy, Clone, Debug)]
pub struct FrameStats<S> {
    pub cpu_ms: S,
    pub gpu_ms: S,
    pub opaque_ms: S,
    pub blur_ms: S,
    pub final_ms: S,
    pub overdraw_ms: S,
    pub instance_count: u32,
    pub opaque_count: u32,
    pub glass_count: u32,
    pub drawcalls: u32,
    pub dirty_mask: u32,
}

impl<S: Scalar> FrameStats<S> {
    pub open spec fn none() -> FrameStats<S> {
        FrameStats {
            cpu_ms: zero_s(),
            gpu_ms: zero_s(),
            opaque_ms: zero_s(),
            blur_ms: zero_s(),
            final_ms: zero_s(),
            overdraw_ms: zero_s(),
            instance_count: 0,
            opaque_count: 0,
            glass_count: 0,
            drawcalls: 0,
            dirty_mask: 0,
        }
    }
}

impl<S: Scalar> Default for FrameStats<S> {
    fn default() -> (r: Self)
        ensures
            r == FrameStats::<S>::none(),
    {
        FrameStats {
            cpu_ms: zero(),
            gpu_ms: zero(),
            opaque_ms: zero(),
            blur_ms: zero(),
            final_ms: zero(),
            overdraw_ms: zero(),
            instance_count: 0,
            opaque_count: 0,
            glass_count: 0,
            drawcalls: 0,
            dirty_mask: 0,
        }
    }
}

} // verus!
