//! The statistics overlay: one bar to a metric, no text.
use vstd::prelude::*;

use crate::gpu::instance::ShapeInstance;
use crate::gpu::timing::FrameStats;
use crate::scalar::{
    cent, clamp, clamped, one, one_s, quad, splat4, units, zero, zero_s, Scalar,
};

verus! {

/// The metrics as fractions of what is considered a lot: CPU and GPU time of a
/// 60 Hz frame, 256 shapes, 16 draw calls.
pub open spec fn loads<S: Scalar>(s: FrameStats<S>) -> [S; 4] {
    [
        s.cpu_ms.quot(S::rat(166, 10)),
        s.gpu_ms.quot(S::rat(166, 10)),
        S::cnt(s.instance_count as u64).quot(S::rat(256, 1)),
        S::cnt(s.drawcalls as u64).quot(S::rat(16, 1)),
    ]
}

/// Height of a bar and the gap below it.
pub open spec fn bar_step<S: Scalar>() -> S {
    S::rat(10, 1).sum(S::rat(6, 1))
}

/// The panel behind the bars.
pub open spec fn panel<S: Scalar>() -> ShapeInstance<S> {
    let pad2 = S::rat(8, 1).prod(S::rat(2, 1));
    ShapeInstance {
        color: [zero_s(), zero_s(), zero_s(), S::rat(60, 100)],
        position: [S::rat(12, 1), S::rat(12, 1)],
        size: [
            S::rat(200, 1).sum(pad2),
            bar_step::<S>().prod(S::cnt(4)).sum(pad2).diff(S::rat(6, 1)),
        ],
        border_radius: quad(S::rat(6, 1)),
        ..ShapeInstance::base()
    }
}

pub open spec fn bar_at<S: Scalar>(i: u64) -> [S; 2] {
    let origin = S::rat(12, 1);
    [
        origin.sum(S::rat(8, 1)),
        origin.sum(S::rat(8, 1)).sum(S::cnt(i).prod(bar_step())),
    ]
}

/// Green, then yellow from half way, then red from four fifths.
pub open spec fn load_color<S: Scalar>(f: S) -> [S; 4] {
    if f.less(S::rat(50, 100)) {
        [S::rat(30, 100), S::rat(85, 100), S::rat(40, 100), one_s()]
    } else if f.less(S::rat(80, 100)) {
        [S::rat(95, 100), S::rat(80, 100), S::rat(20, 100), one_s()]
    } else {
        [S::rat(95, 100), S::rat(30, 100), S::rat(30, 100), one_s()]
    }
}

/// The bar of one metric: its groove, and its filling unless that is empty.
pub open spec fn bar<S: Scalar>(i: u64, load: S) -> Seq<ShapeInstance<S>> {
    let f = clamped(load, zero_s(), one_s());
    let fill = S::rat(200, 1).prod(f).hi(zero_s());
    let groove = ShapeInstance {
        color: [one_s(), one_s(), one_s(), S::rat(10, 100)],
        position: bar_at(i),
        size: [S::rat(200, 1), S::rat(10, 1)],
        border_radius: quad(S::rat(3, 1)),
        ..ShapeInstance::base()
    };
    if zero_s::<S>().less(fill) {
        seq![
            groove,
            ShapeInstance {
                color: load_color(f),
                position: bar_at(i),
                size: [fill, S::rat(10, 1)],
                border_radius: quad(S::rat(3, 1)),
                ..ShapeInstance::base()
            },
        ]
    } else {
        seq![groove]
    }
}

/// The panel, then the bars of the first `k` metrics.
pub open spec fn gauges<S: Scalar>(s: FrameStats<S>, k: nat) -> Seq<ShapeInstance<S>>
    decreases k,
{
    if k == 0 {
        seq![panel()]
    } else {
        gauges(s, (k - 1) as nat) + bar((k - 1) as u64, loads(s)[k - 1])
    }
}

fn color_for<S: Scalar>(f: S) -> (r: [S; 4])
    ensures
        r == load_color(f),
{
    if f.lt(cent(50)) {
        [cent(30), cent(85), cent(40), one()]
    } else if f.lt(cent(80)) {
        [cent(95), cent(80), cent(20), one()]
    } else {
        [cent(95), cent(30), cent(30), one()]
    }
}

/// The overlay for the last frame's statistics.
pub fn build_hud_instances<S: Scalar>(stats: &FrameStats<S>) -> (r: Vec<ShapeInstance<S>>)
    ensures
        r@ == gauges(*stats, 4),
{
    let metrics: [S; 4] = [
        stats.cpu_ms.over(S::ratio(166, 10)),
        stats.gpu_ms.over(S::ratio(166, 10)),
        S::count(stats.instance_count as u64).over(units(256)),
        S::count(stats.drawcalls as u64).over(units(16)),
    ];
    let bar_w: S = units(200);
    let bar_h: S = units(10);
    let gap: S = units(6);
    let pad: S = units(8);
    let origin: S = units(12);
    let step: S = bar_h.plus(gap);
    let mut out: Vec<ShapeInstance<S>> = Vec::new();
    out.push(
        ShapeInstance {
            color: [zero(), zero(), zero(), cent(60)],
            position: [origin, origin],
            size: [
                bar_w.plus(pad.times(units(2))),
                step.times(S::count(4)).plus(pad.times(units(2))).minus(gap),
            ],
            border_radius: splat4(units(6)),
            ..Default::default()
        },
    );
    assert(out@ =~= gauges(*stats, 0));
    let mut i: usize = 0;
    while i < 4
        invariant
            i <= 4,
            metrics == loads(*stats),
            bar_w == S::rat(200, 1),
            bar_h == S::rat(10, 1),
            pad == S::rat(8, 1),
            origin == S::rat(12, 1),
            step == bar_step::<S>(),
            out@ == gauges(*stats, i as nat),
        decreases 4 - i,
    {
        let at: [S; 2] = [
            origin.plus(pad),
            origin.plus(pad).plus(S::count(i as u64).times(step)),
        ];
        out.push(
            ShapeInstance {
                color: [one(), one(), one(), cent(10)],
                position: at,
                size: [bar_w, bar_h],
                border_radius: splat4(units(3)),
                ..Default::default()
            },
        );
        let f: S = clamp(metrics[i], zero(), one());
        let fill: S = bar_w.times(f).larger(zero());
        if zero::<S>().lt(fill) {
            out.push(
                ShapeInstance {
                    color: color_for(f),
                    position: at,
                    size: [fill, bar_h],
                    border_radius: splat4(units(3)),
                    ..Default::default()
                },
            );
        }
        assert(out@ =~= gauges(*stats, i as nat) + bar(i as u64, loads(*stats)[i as int]));
        i = i + 1;
    }
    out
}

/// The overlay is a panel and four grooves, each filled or not.
pub proof fn hud_size<S: Scalar>(s: FrameStats<S>)
    ensures
        5 <= gauges(s, 4).len() <= 9,
        gauges(s, 4)[0] == panel::<S>(),
{
    reveal_with_fuel(gauges, 5);
}

} // verus!
