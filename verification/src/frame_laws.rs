//! What holds of a frame: what is drawn, how long it took, how it is shown
//! and read back.
use vstd::arithmetic::power2::{lemma2_to64, lemma_pow2_pos, lemma_pow2_unfold, pow2};
use vstd::prelude::*;

use crate::gpu::blur::{groups, halved, larger_of, log2_floor, slots_of_step, step_into};
use crate::gpu::capture::{channel, laid_out, packed, packed_byte, pitch};
use crate::gpu::context::{FramePlan, GpuView};
use crate::gpu::instance::ShapeInstance;
use crate::gpu::surface::{action_for, FrameAction, SurfaceFormat, SurfaceStatus};
use crate::gpu::timing::{passes_timed, span_ms, FrameStats, FrameTiming, PassKind};
use crate::gpu::upload::growth_is_tight;
use crate::hud::{bar, bar_at, gauges, load_color, loads};
use crate::scalar::{clamped, one_s, zero_s, Fixed, Scalar};

verus! {

// --- drawing ---------------------------------------------------------------

/// A renderer holds the list it was given last, room for all of it, and the
/// split into opaque shapes and glass. What else it holds stays.
pub proof fn renderers_hold_their_list<S: Scalar>(
    g: GpuView<S>,
    list: Seq<ShapeInstance<S>>,
    opaque: u32,
    hint: bool,
)
    requires
        opaque <= list.len() <= u32::MAX,
    ensures
        ({
            let h = g.with_instances(list, opaque, hint);
            &&& h.mirror == list
            &&& h.instance_count == list.len()
            &&& h.opaque_count == opaque
            &&& h.glass() == list.len() - opaque
            &&& h.instance_capacity >= list.len()
            &&& h.instance_capacity >= g.instance_capacity
            &&& hint || g.backdrop_dirty <==> h.backdrop_dirty
            &&& h.overlay_count == g.overlay_count
            &&& h.width == g.width
            &&& h.height == g.height
            &&& h.overdraw_mode == g.overdraw_mode
        }),
{
    growth_is_tight(g.instance_capacity as nat, list.len());
}

/// One if there is anything to draw.
pub open spec fn one_call(n: u32) -> int {
    if n > 0 {
        1
    } else {
        0
    }
}

/// A frame draws every shape onto the surface and the overlay over them; the
/// backdrop gets the opaque shapes alone, and the overdraw count all of them.
/// A call is counted for each list that is not empty, two for blurring and one
/// for showing the overdraw.
pub proof fn frames_draw_everything<S: Scalar>(g: GpuView<S>, p: FramePlan)
    requires
        g.wf(),
        g.planned(p),
    ensures
        p.surface.instances == g.mirror.len(),
        p.surface.overlay == g.overlay_count,
        p.backdrop matches Some(b) ==> b.opaque == g.opaque_count,
        p.overdraw matches Some(o) ==> o.instances == g.mirror.len(),
        p.overdraw is Some <==> g.overdraw_mode,
        g.framed().last_drawcalls == p.drawcalls,
        p.drawcalls == one_call(p.surface.instances) + one_call(p.surface.overlay) + (
        match p.backdrop {
            Some(b) => one_call(b.opaque) + 2,
            None => 0,
        }) + (match p.overdraw {
            Some(o) => one_call(o.instances) + 1,
            None => 0,
        }),
{
}

/// A frame changes nothing that it draws, and afterwards the backdrop is fresh
/// if it was made.
pub proof fn frames_keep_what_they_draw<S: Scalar>(g: GpuView<S>)
    ensures
        g.framed().mirror == g.mirror,
        g.framed().opaque_count == g.opaque_count,
        g.framed().overlay_count == g.overlay_count,
        g.framed().overdraw_mode == g.overdraw_mode,
        g.framed().backdrop_dirty ==> g.backdrop_dirty,
        g.backdrop_dirty && g.glass() > 0 ==> !g.framed().backdrop_dirty,
        g.glass() <= 0 ==> g.framed().backdrop_dirty == g.backdrop_dirty,
{
}

/// The statistics tell how many shapes of each sort there are, and where the
/// time of the last frame went.
pub proof fn statistics_tell_the_frame<S: Scalar>(g: GpuView<S>, t: FrameTiming<S>)
    requires
        g.wf(),
        g.last_timing == Some(t),
    ensures
        g.stats().instance_count == g.stats().opaque_count + g.stats().glass_count,
        g.stats().instance_count == g.mirror.len(),
        g.stats().drawcalls == g.last_drawcalls,
        g.stats().gpu_ms == t.total_ms,
        g.stats().opaque_ms == t.opaque_ms,
        g.stats().blur_ms == t.blur_ms,
        g.stats().final_ms == t.final_ms,
        g.stats().overdraw_ms == t.overdraw_ms,
{
}

// --- timing ----------------------------------------------------------------

/// A pass's own entry; both overdraw passes have the same.
pub open spec fn entry<S: Scalar>(t: FrameTiming<S>, pass: PassKind) -> S {
    match pass {
        PassKind::Opaque => t.opaque_ms,
        PassKind::Blur => t.blur_ms,
        PassKind::Final => t.final_ms,
        _ => t.overdraw_ms,
    }
}

/// The entry of the opaque, blur or final pass is the time between its two
/// timestamps.
pub proof fn passes_are_timed_apart<S: Scalar>(
    passes: Seq<PassKind>,
    ticks: Seq<u64>,
    period_ns: S,
    k: nat,
    j: int,
)
    requires
        0 <= j < k <= passes.len(),
        passes[j] is Opaque || passes[j] is Blur || passes[j] is Final,
        forall|i: int| j < i < k ==> #[trigger] passes[i] != passes[j],
    ensures
        entry(passes_timed(passes, ticks, period_ns, k), passes[j]) == span_ms(
            ticks[2 * j],
            ticks[2 * j + 1],
            period_ns,
        ),
    decreases k,
{
    if j < k - 1 {
        passes_are_timed_apart(passes, ticks, period_ns, (k - 1) as nat, j);
        assert(passes[k - 1] != passes[j]);
    }
}

/// Each overdraw pass adds its time to the entry they share; no other pass
/// does.
pub proof fn overdraw_passes_add_up<S: Scalar>(
    passes: Seq<PassKind>,
    ticks: Seq<u64>,
    period_ns: S,
    k: nat,
)
    requires
        0 < k <= passes.len(),
    ensures
        ({
            let before = passes_timed(passes, ticks, period_ns, (k - 1) as nat).overdraw_ms;
            let after = passes_timed(passes, ticks, period_ns, k).overdraw_ms;
            let last = passes[k - 1];
            if last is OverdrawCount || last is OverdrawCompose {
                after == before.sum(span_ms(ticks[2 * k - 2], ticks[2 * k - 1], period_ns))
            } else {
                after == before
            }
        }),
{
}

/// A span is longer the later it ends and shorter the later it begins, is
/// nothing if it ends before it begins, and counts a million nanoseconds as a
/// millisecond.
pub proof fn spans_run_from_begin_to_end(begin: u64, end: u64, later: u64, ms: u32)
    requires
        end <= later,
        later <= 0x7fff_ffff_ffff,
        begin <= 0x7fff_ffff_ffff,
    ensures
        span_ms(begin, end, one_s::<Fixed>()).raw <= span_ms(begin, later, one_s::<Fixed>()).raw,
        span_ms(later, begin, one_s::<Fixed>()).raw <= span_ms(end, begin, one_s::<Fixed>()).raw,
        end <= begin ==> span_ms(begin, end, one_s::<Fixed>()).raw == 0,
        end == begin + ms * 1_000_000 ==> span_ms(begin, end, one_s::<Fixed>()).raw == ms * 65536,
{
    lemma_span(begin, end);
    lemma_span(begin, later);
    lemma_span(later, begin);
    lemma_span(end, begin);
}

proof fn lemma_span(begin: u64, end: u64)
    requires
        begin <= 0x7fff_ffff_ffff,
        end <= 0x7fff_ffff_ffff,
    ensures
        span_ms(begin, end, one_s::<Fixed>()).raw == if end < begin {
            0
        } else {
            ((end - begin) * 65536) / 1_000_000
        },
{
    let n = if end < begin {
        0int
    } else {
        end - begin
    };
    assert(one_s::<Fixed>().raw == 65536);
    assert(Fixed::rat(1_000_000, 1).raw == 65_536_000_000);
    assert(Fixed::cnt(n as u64).raw == n * 65536);
    assert(((n * 65536) * 65536) / 65536 == n * 65536);
    assert(Fixed::cnt(n as u64).prod(one_s()).raw == n * 65536);
    assert(((n * 65536) * 65536) / 65_536_000_000 == (n * 65536) / 1_000_000);
}

// --- gauges ----------------------------------------------------------------

/// Each gauge shows one thing: the CPU's time the first, the GPU's the second,
/// the number of shapes the third and of draw calls the fourth. What the
/// others show does not matter to it.
pub proof fn gauges_show_one_thing_each<S: Scalar>(a: FrameStats<S>, b: FrameStats<S>)
    ensures
        a.cpu_ms == b.cpu_ms ==> loads(a)[0] == loads(b)[0],
        a.gpu_ms == b.gpu_ms ==> loads(a)[1] == loads(b)[1],
        a.instance_count == b.instance_count ==> loads(a)[2] == loads(b)[2],
        a.drawcalls == b.drawcalls ==> loads(a)[3] == loads(b)[3],
{
}

/// More of what a gauge shows is more load, and nothing of it is none.
pub proof fn gauges_rise(a: FrameStats<Fixed>, b: FrameStats<Fixed>)
    ensures
        a.cpu_ms.raw <= b.cpu_ms.raw ==> loads(a)[0].raw <= loads(b)[0].raw,
        a.gpu_ms.raw <= b.gpu_ms.raw ==> loads(a)[1].raw <= loads(b)[1].raw,
        a.instance_count <= b.instance_count ==> loads(a)[2].raw <= loads(b)[2].raw,
        a.drawcalls <= b.drawcalls ==> loads(a)[3].raw <= loads(b)[3].raw,
        a.cpu_ms.raw == 0 ==> loads(a)[0].raw == 0,
        a.gpu_ms.raw == 0 ==> loads(a)[1].raw == 0,
        loads(a)[2].raw == a.instance_count * 256,
        loads(a)[3].raw == a.drawcalls * 4096,
        b.cpu_ms.raw >= 2 * a.cpu_ms.raw >= 65536 ==> loads(b)[0].raw > loads(a)[0].raw,
{
    assert(Fixed::rat(166, 10).raw == 1087897);
    assert(Fixed::rat(256, 1).raw == 16777216);
    assert(Fixed::rat(16, 1).raw == 1048576);
    assert(Fixed::cnt(a.instance_count as u64).raw == a.instance_count * 65536);
    assert(Fixed::cnt(b.instance_count as u64).raw == b.instance_count * 65536);
    assert(Fixed::cnt(a.drawcalls as u64).raw == a.drawcalls * 65536);
    assert(Fixed::cnt(b.drawcalls as u64).raw == b.drawcalls * 65536);
    assert(((a.instance_count * 65536) * 65536) / 16777216 == a.instance_count * 256);
    assert(((a.drawcalls * 65536) * 65536) / 1048576 == a.drawcalls * 4096);
}

/// A gauge is filled in proportion to its load: not at all at no load, wholly
/// at full load and above, and never beyond its groove. The filling lies in
/// the groove, on top of it.
pub proof fn gauges_fill_with_load(i: u64, load: Fixed)
    ensures
        bar(i, load)[0].size[0].raw == 200 * 65536,
        load.raw <= 0 ==> bar(i, load).len() == 1,
        load.raw > 0 ==> bar(i, load).len() == 2,
        load.raw >= 65536 ==> bar(i, load)[1].size == bar(i, load)[0].size,
        0 < load.raw <= 65536 ==> bar(i, load)[1].size[0].raw == 200 * load.raw,
        load.raw > 0 ==> bar(i, load)[1].position == bar(i, load)[0].position,
        load.raw > 0 ==> bar(i, load)[1].size[1] == bar(i, load)[0].size[1],
        bar(i, load)[0].position == bar_at::<Fixed>(i),
{
    assert(zero_s::<Fixed>().raw == 0 && one_s::<Fixed>().raw == 65536);
    assert(Fixed::rat(200, 1).raw == 13107200);
    let f = clamped(load, zero_s(), one_s());
    assert(13107200 * f.raw == (200 * f.raw) * 65536);
    assert((13107200 * f.raw) / 65536 == 200 * f.raw);
    assert(Fixed::rat(200, 1).raw * f.raw == 13107200 * f.raw) by (nonlinear_arith)
        requires
            Fixed::rat(200, 1).raw == 13107200,
    ;
    assert(Fixed::rat(200, 1).prod(f).raw == 200 * f.raw);
}

/// The gauges stand below each other, one left edge to all, with a gap between
/// the bottom of one and the top of the next.
pub proof fn gauges_stand_apart(i: u64, load: Fixed)
    requires
        i < 1000,
    ensures
        bar_at::<Fixed>((i + 1) as u64)[0] == bar_at::<Fixed>(i)[0],
        bar_at::<Fixed>((i + 1) as u64)[1].raw > bar_at::<Fixed>(i)[1].raw + bar(
            i,
            load,
        )[0].size[1].raw,
{
    assert(Fixed::rat(10, 1).raw == 655360 && Fixed::rat(6, 1).raw == 393216);
    assert(crate::hud::bar_step::<Fixed>().raw == 1048576);
    assert(Fixed::rat(12, 1).raw == 786432 && Fixed::rat(8, 1).raw == 524288);
    lemma_place(i);
    lemma_place((i + 1) as u64);
}

proof fn lemma_place(i: u64)
    requires
        i <= 1000,
    ensures
        Fixed::cnt(i).prod(crate::hud::bar_step()).raw == i * 1048576,
{
    assert(Fixed::rat(10, 1).raw == 655360 && Fixed::rat(6, 1).raw == 393216);
    assert(crate::hud::bar_step::<Fixed>().raw == 1048576);
    assert(Fixed::cnt(i).raw == i * 65536);
    assert(((i * 65536) * 1048576) / 65536 == i * 1048576);
    assert(Fixed::cnt(i).raw * crate::hud::bar_step::<Fixed>().raw == (i * 65536) * 1048576)
        by (nonlinear_arith)
        requires
            Fixed::cnt(i).raw == i * 65536,
            crate::hud::bar_step::<Fixed>().raw == 1048576,
    ;
}

/// The colour of a gauge goes from green to red: under a high load there is
/// never more green, nor less red, than under a low one, and green leads below
/// half load and red above it.
pub proof fn gauges_redden(low: Fixed, high: Fixed)
    requires
        low.raw <= high.raw,
    ensures
        load_color(low)[0].raw <= load_color(high)[0].raw,
        load_color(high)[1].raw <= load_color(low)[1].raw,
        low.raw < 32768 ==> load_color(low)[0].raw < load_color(low)[1].raw,
        low.raw >= 32768 ==> load_color(low)[0].raw > load_color(low)[1].raw,
        load_color(low)[3].raw == 65536,
{
    assert(Fixed::rat(50, 100).raw == 32768);
    assert(Fixed::rat(80, 100).raw == 52428);
    assert(Fixed::rat(30, 100).raw == 19660);
    assert(Fixed::rat(85, 100).raw == 55705);
    assert(Fixed::rat(95, 100).raw == 62259);
}

/// The overlay of a frame lists its gauges in order after the panel: the bars
/// of more gauges start with the bars of fewer.
pub proof fn gauges_come_in_order<S: Scalar>(s: FrameStats<S>, k: nat)
    requires
        k < 4,
    ensures
        gauges(s, k).len() < gauges(s, k + 1).len(),
        gauges(s, k + 1).take(gauges(s, k).len() as int) == gauges(s, k),
        gauges(s, k + 1)[gauges(s, k).len() as int].position == bar_at::<S>(k as u64),
{
    assert(gauges(s, k + 1).take(gauges(s, k).len() as int) =~= gauges(s, k));
}

// --- reading back ----------------------------------------------------------

/// Rows start at multiples of 256 bytes, and as close as that lets them.
pub proof fn rows_are_aligned(width: u32)
    ensures
        pitch(width) % 256 == 0,
        width * 4 <= pitch(width) < width * 4 + 256,
{
}

/// A frame that is laid out blue first is read back red first: in every pixel
/// red and blue change places, green and alpha stay.
pub proof fn readback_swaps_red_and_blue(
    px: Seq<u8>,
    width: u32,
    height: u32,
    view: Seq<u8>,
    row: int,
    x: int,
)
    requires
        laid_out(px, width, height, view),
        0 <= row < height,
        0 <= x < width,
    ensures
        ({
            let at = row * (width * 4) + x * 4;
            let out = packed(view, width, height, true);
            &&& out.len() == px.len()
            &&& out[at] == px[at + 2]
            &&& out[at + 1] == px[at + 1]
            &&& out[at + 2] == px[at]
            &&& out[at + 3] == px[at + 3]
        }),
{
    lemma_pixel(px, width, height, view, row, x, 0);
    lemma_pixel(px, width, height, view, row, x, 1);
    lemma_pixel(px, width, height, view, row, x, 2);
    lemma_pixel(px, width, height, view, row, x, 3);
}

proof fn lemma_pixel(
    px: Seq<u8>,
    width: u32,
    height: u32,
    view: Seq<u8>,
    row: int,
    x: int,
    c: int,
)
    requires
        laid_out(px, width, height, view),
        0 <= row < height,
        0 <= x < width,
        0 <= c < 4,
    ensures
        packed(view, width, height, true)[row * (width * 4) + x * 4 + c] == px[row * (width * 4)
            + x * 4 + channel(c, true)],
{
    let n = (width * 4) as int;
    let i = row * n + x * 4 + c;
    assert(0 <= i < n * height) by (nonlinear_arith)
        requires
            i == row * n + x * 4 + c,
            0 <= row < height,
            0 <= x * 4 + c < n,
    ;
    vstd::arithmetic::div_mod::lemma_fundamental_div_mod_converse(i, n, row, x * 4 + c);
    assert((x * 4 + c) / 4 == x && (x * 4 + c) % 4 == c);
    let at = x * 4 + channel(c, true);
    assert(view[row * pitch(width) + at] == px[row * n + at]);
    assert(packed(view, width, height, true)[i] == packed_byte(view, width, true, i));
}

// --- the pyramid -----------------------------------------------------------

/// Halving some times divides by that power of two.
pub proof fn halving_divides(n: nat, times: nat)
    ensures
        halved(n, times) * pow2(times) <= n,
        n < (halved(n, times) + 1) * pow2(times),
    decreases times,
{
    lemma_pow2_pos(times);
    if times == 0 {
        lemma2_to64();
    } else {
        let k = (times - 1) as nat;
        halving_divides(n / 2, k);
        lemma_pow2_unfold(times);
        let h = halved(n / 2, k);
        let p = pow2(k);
        assert(h * (2 * p) == 2 * (h * p)) by (nonlinear_arith);
        assert((h + 1) * (2 * p) == 2 * ((h + 1) * p)) by (nonlinear_arith);
    }
}

/// A surface has as many levels as its side can be halved before nothing is
/// left to halve.
pub proof fn levels_halve_down_to_one(n: nat)
    requires
        n >= 1,
    ensures
        pow2(log2_floor(n)) <= n < pow2(log2_floor(n) + 1),
    decreases n,
{
    lemma2_to64();
    lemma_pow2_unfold(log2_floor(n) + 1);
    if n >= 2 {
        levels_halve_down_to_one(n / 2);
        lemma_pow2_unfold(log2_floor(n));
    }
}

/// The groups of a step cover its level, with no group to spare.
pub proof fn groups_cover_their_level(side: u32, level: nat)
    ensures
        ({
            let len = larger_of(halved(side as nat, level), 1);
            &&& groups(side, level) * 8 >= len
            &&& (groups(side, level) - 1) * 8 < len
        }),
{
}

/// A step covers its level across by its width and down by its height; turning
/// the surface on its side turns the step.
pub proof fn steps_cover_both_sides(width: u32, height: u32, level: nat)
    requires
        1 <= level <= u32::MAX,
    ensures
        ({
            let s = step_into(width, height, level);
            let t = step_into(height, width, level);
            &&& s.groups_x * 8 >= halved(width as nat, level)
            &&& s.groups_y * 8 >= halved(height as nat, level)
            &&& s.groups_x == t.groups_y && s.groups_y == t.groups_x
            &&& s.target == level && s.source == level - 1
        }),
{
    lemma_halves(width as nat, level);
    lemma_halves(height as nat, level);
}

proof fn lemma_halves(n: nat, k: nat)
    ensures
        halved(n, k) <= n,
    decreases k,
{
    if k > 0 {
        lemma_halves(n / 2, (k - 1) as nat);
    }
}

/// Of the steps of a timed chain the first writes the beginning and the last
/// the end, and no other step writes either.
pub proof fn chains_are_timed_at_their_ends(i: nat, count: nat, begin: u32, end: u32)
    requires
        i < count,
    ensures
        slots_of_step(i, count, None) is None,
        ({
            let s = slots_of_step(i, count, Some((begin, end)));
            &&& s is Some <==> i == 0 || i == count - 1
            &&& i == 0 ==> s->Some_0.0 == Some(begin)
            &&& i == count - 1 ==> s->Some_0.1 == Some(end)
            &&& i > 0 && s is Some ==> s->Some_0.0 is None
            &&& i < count - 1 && s is Some ==> s->Some_0.1 is None
        }),
{
}

/// A frame is drawn exactly when the surface gave something to draw on; a
/// surface that is out of date or lost is set up again, one that is busy or
/// out of sight waited for, and only an error is reported.
pub proof fn frames_are_drawn_on_surfaces(s: SurfaceStatus)
    ensures
        action_for(s) is Draw <==> s is Success || s is Suboptimal,
        action_for(s) is Reconfigure <==> s is Outdated || s is Lost,
        action_for(s) is Skip <==> s is Timeout || s is Occluded,
        action_for(s) is Report <==> s is Validation,
{
}

/// The formats to choose are those that store colours as the shaders put them
/// out; blue comes first in those that say so.
pub proof fn formats_are_told_apart(f: SurfaceFormat)
    ensures
        f.preferred() <==> f is Rgba8UnormSrgb || f is Bgra8UnormSrgb,
        f.swapped() <==> f is Bgra8UnormSrgb || f is Bgra8Unorm,
{
}

} // verus!
