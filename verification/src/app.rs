//! The application shell: what every event does to the scene, and what the
//! host is to do about it.
//!
//! The host owns the window, the GPU and the clock. It hands events in, and
//! carries out the [`Action`]s that come back.
use vstd::prelude::*;

use crate::anim::{arrived, drive_changes, driven, Lerp, TickResult, Timeline, TimelineView, Tween};
use crate::binds::{
    binds_keep_nodes, binds_keep_sound, faded, fades_show_their_level, fades_shown,
    last_of_its_node, process_color_binds, pump_animated_displays, pumped, pumping_keeps_sound,
    show_fades, showing_keeps_nodes, shows_level, BindState, MAX_BINDS,
};
use crate::config::AppConfig;
use crate::consistency::same_nodes_stay_consistent;
use crate::dirty;
use crate::flatten::{
    flat_tree, hit_views, FlatEvent, HitEntry, ScrollHit, ScrollHitView, ScrollbarHit,
};
use crate::gpu::context::{GpuContext, GpuView, UploadPlan};
use crate::gpu::instance::{ShapeInstance, SHAPE_KIND_GLASS};
use crate::gpu::memory::MemoryReport;
use crate::gpu::timing::FrameStats;
use crate::hud::{build_hud_instances, gauges, hud_size};
use crate::input::{InputChange, InputState, InputStep};
use crate::node::{NodeId, WindowAction};
use crate::overlay::OverlayView;
use crate::scalar::{one, one_s, zero, zero_s, Scalar};
use crate::scene::{
    binds_valid, fades_valid, ColorBindSlot, OpacityBindSlot, Scene, SceneCtx,
};
use crate::signal::{Cell, Color, Number};
use crate::tree::{fewer_kids_stay_acyclic, TreeView};

verus! {

// --- from paint list to instances ------------------------------------------

/// A shape with its style's lengths in physical pixels. Position and size are
/// physical already; what glass carries in place of atlas coordinates is a
/// length too.
pub open spec fn in_pixels<S: Scalar>(i: ShapeInstance<S>, scale: S) -> ShapeInstance<S> {
    ShapeInstance {
        border_radius: [
            i.border_radius[0].prod(scale),
            i.border_radius[1].prod(scale),
            i.border_radius[2].prod(scale),
            i.border_radius[3].prod(scale),
        ],
        backdrop_uv_rect: if i.shape_kind == SHAPE_KIND_GLASS {
            [
                i.backdrop_uv_rect[0].prod(scale),
                i.backdrop_uv_rect[1].prod(scale),
                i.backdrop_uv_rect[2],
                i.backdrop_uv_rect[3],
            ]
        } else {
            i.backdrop_uv_rect
        },
        shadow_offset: [i.shadow_offset[0].prod(scale), i.shadow_offset[1].prod(scale)],
        roughness: i.roughness.prod(scale),
        border_width: i.border_width.prod(scale),
        shadow_blur: i.shadow_blur.prod(scale),
        ..i
    }
}

fn scaled<S: Scalar>(i: &ShapeInstance<S>, scale: S) -> (r: ShapeInstance<S>)
    ensures
        r == in_pixels(*i, scale),
{
    ShapeInstance {
        border_radius: [
            i.border_radius[0].times(scale),
            i.border_radius[1].times(scale),
            i.border_radius[2].times(scale),
            i.border_radius[3].times(scale),
        ],
        backdrop_uv_rect: if i.shape_kind == SHAPE_KIND_GLASS {
            [
                i.backdrop_uv_rect[0].times(scale),
                i.backdrop_uv_rect[1].times(scale),
                i.backdrop_uv_rect[2],
                i.backdrop_uv_rect[3],
            ]
        } else {
            i.backdrop_uv_rect
        },
        shadow_offset: [i.shadow_offset[0].times(scale), i.shadow_offset[1].times(scale)],
        roughness: i.roughness.times(scale),
        border_width: i.border_width.times(scale),
        shadow_blur: i.shadow_blur.times(scale),
        ..*i
    }
}

/// The glass shapes of a paint list, or the others, in order.
pub open spec fn shapes_of<S: Scalar>(
    events: Seq<FlatEvent<S>>,
    glass: bool,
    scale: S,
) -> Seq<ShapeInstance<S>>
    decreases events.len(),
{
    if events.len() == 0 {
        Seq::empty()
    } else {
        let before = shapes_of(events.drop_last(), glass, scale);
        match events.last() {
            FlatEvent::Shape(i) => if (i.shape_kind == SHAPE_KIND_GLASS) == glass {
                before.push(in_pixels(i, scale))
            } else {
                before
            },
            _ => before,
        }
    }
}

/// The instances of a paint list: opaque shapes first, then glass.
pub open spec fn instances_of<S: Scalar>(events: Seq<FlatEvent<S>>, scale: S) -> Seq<
    ShapeInstance<S>,
> {
    shapes_of(events, false, scale) + shapes_of(events, true, scale)
}

/// Held to the range of a count.
pub open spec fn counted(n: nat) -> u32 {
    if n <= u32::MAX {
        n as u32
    } else {
        u32::MAX
    }
}

fn collect_shapes<S: Scalar>(
    events: &Vec<FlatEvent<S>>,
    glass: bool,
    scale: S,
    out: &mut Vec<ShapeInstance<S>>,
)
    ensures
        final(out)@ == old(out)@ + shapes_of(events@, glass, scale),
{
    let mut k: usize = 0;
    assert(events@.take(0) =~= Seq::empty());
    assert(out@ =~= old(out)@ + shapes_of(events@.take(0), glass, scale));
    while k < events.len()
        invariant
            k <= events.len(),
            out@ == old(out)@ + shapes_of(events@.take(k as int), glass, scale),
        decreases events.len() - k,
    {
        proof {
            assert(events@.take(k + 1).drop_last() =~= events@.take(k as int));
            assert(events@.take(k + 1).last() == events@[k as int]);
        }
        if let FlatEvent::Shape(i) = &events[k] {
            if (i.shape_kind == SHAPE_KIND_GLASS) == glass {
                out.push(scaled(i, scale));
            }
        }
        k = k + 1;
        assert(out@ =~= old(out)@ + shapes_of(events@.take(k as int), glass, scale));
    }
    assert(events@.take(events@.len() as int) =~= events@);
}

/// Sort a paint list's shapes for upload. Also counts the opaque ones. Text and
/// images are no shapes: they stay in the paint list, for whoever resolves
/// glyphs and atlas places, and are not part of the instance list.
pub fn expand_events<S: Scalar>(events: &Vec<FlatEvent<S>>, scale: S) -> (r: (
    Vec<ShapeInstance<S>>,
    u32,
))
    ensures
        r.0@ == instances_of(events@, scale),
        r.1 == counted(shapes_of(events@, false, scale).len()),
{
    let mut out: Vec<ShapeInstance<S>> = Vec::new();
    collect_shapes(events, false, scale, &mut out);
    let opaque: u32 = if out.len() <= u32::MAX as usize {
        out.len() as u32
    } else {
        u32::MAX
    };
    collect_shapes(events, true, scale, &mut out);
    assert(out@ =~= instances_of(events@, scale));
    (out, opaque)
}

/// The first `opaque_count` instances are never glass, the rest always are.
pub proof fn opaque_come_first<S: Scalar>(events: Seq<FlatEvent<S>>, scale: S, i: int)
    requires
        0 <= i < instances_of(events, scale).len(),
    ensures
        instances_of(events, scale)[i].shape_kind == SHAPE_KIND_GLASS <==> i >= shapes_of(
            events,
            false,
            scale,
        ).len(),
{
    lemma_shape_kinds(events, false, scale);
    lemma_shape_kinds(events, true, scale);
    let a = shapes_of(events, false, scale);
    let b = shapes_of(events, true, scale);
    if i < a.len() {
        assert((a + b)[i] == a[i]);
    } else {
        assert((a + b)[i] == b[i - a.len()]);
    }
}

proof fn lemma_shape_kinds<S: Scalar>(events: Seq<FlatEvent<S>>, glass: bool, scale: S)
    ensures
        forall|i: int|
            0 <= i < shapes_of(events, glass, scale).len() ==> ((#[trigger] shapes_of(
                events,
                glass,
                scale,
            )[i]).shape_kind == SHAPE_KIND_GLASS) == glass,
    decreases events.len(),
{
    if events.len() > 0 {
        lemma_shape_kinds(events.drop_last(), glass, scale);
        let before = shapes_of(events.drop_last(), glass, scale);
        let all = shapes_of(events, glass, scale);
        assert forall|i: int| 0 <= i < all.len() implies ((#[trigger] all[i]).shape_kind
            == SHAPE_KIND_GLASS) == glass by {
            if i < before.len() {
                assert(all[i] == before[i]);
            }
        }
    }
}

// --- events and actions ----------------------------------------------------

/// Keys the shell knows.
#[derive(Copy, Clone, Debug, PartialEq, Eq, Structural)]
pub enum Key {
    Escape,
    F1,
    F2,
    F4,
    F5,
    Other,
}

/// What the host tells the shell.
#[derive(Copy, Clone, Debug)]
pub enum Event<S> {
    CloseRequested,
    Resized(u32, u32),
    RedrawRequested,
    Occluded(bool),
    CursorMoved(S, S),
    CursorLeft,
    /// The left button went down, or up.
    LeftButton(bool),
    /// A key went down, or up.
    Keyboard(Key, bool),
}

/// What the host is to do.
#[derive(Debug)]
pub enum Action<S> {
    /// Leave the event loop.
    Exit,
    /// Set the surface and its textures up for a size.
    Configure(u32, u32),
    RequestRedraw,
    /// Bring the instance buffer up to date with the list of shapes.
    Upload(UploadPlan),
    /// Bring the overlay buffer up to date with these shapes.
    UploadOverlay(Vec<ShapeInstance<S>>, UploadPlan),
    /// Draw a frame; log its statistics if told to.
    Render(bool),
    /// Write a picture of the frame to the capture directory.
    SaveScreenshot,
    /// Log the last frame's statistics.
    LogStats,
    /// Move, minimise or maximise the window.
    Window(WindowAction),
    /// Pass the key to the program, then let the shell react.
    CallKeyHandler,
}

/// An action without its payload.
#[derive(Copy, Clone, Debug, PartialEq, Eq, Structural)]
pub enum Deed {
    Exit,
    Configure(u32, u32),
    RequestRedraw,
    Upload,
    UploadOverlay,
    Render(bool),
    SaveScreenshot,
    LogStats,
    Window(WindowAction),
    CallKeyHandler,
}

impl<S> Action<S> {
    pub open spec fn deed(self) -> Deed {
        match self {
            Action::Exit => Deed::Exit,
            Action::Configure(w, h) => Deed::Configure(w, h),
            Action::RequestRedraw => Deed::RequestRedraw,
            Action::Upload(_) => Deed::Upload,
            Action::UploadOverlay(_, _) => Deed::UploadOverlay,
            Action::Render(log) => Deed::Render(log),
            Action::SaveScreenshot => Deed::SaveScreenshot,
            Action::LogStats => Deed::LogStats,
            Action::Window(a) => Deed::Window(a),
            Action::CallKeyHandler => Deed::CallKeyHandler,
        }
    }
}

pub open spec fn deeds<S>(actions: Seq<Action<S>>) -> Seq<Deed> {
    actions.map_values(|a: Action<S>| a.deed())
}

/// When to wake up without an event.
#[derive(Copy, Clone, Debug, PartialEq, Eq)]
pub enum Control {
    Wait,
    WaitUntil(u64),
}

// --- the shell -------------------------------------------------------------

/// An application.
pub struct App<S> {
    pub config: AppConfig,
    pub ctx: SceneCtx<S>,
    pub events: Vec<FlatEvent<S>>,
    pub instances: Vec<ShapeInstance<S>>,
    pub opaque_count: u32,
    pub hits: Vec<HitEntry<S>>,
    pub scroll_hits: Vec<ScrollHit<S>>,
    pub scroll_bars: Vec<ScrollbarHit<S>>,
    pub input: InputState<S>,
    pub timeline: Timeline<S>,
    /// Capture this many frames and leave.
    pub capture_frames: Option<u32>,
    /// The dirty flags of the last flush.
    pub last_dirty_mask: u32,
    /// CPU time of the last frame.
    pub last_cpu_ms: S,
    pub stats_log: bool,
    pub hud_enabled: bool,
    /// Physical pixels to a logical one.
    pub scale: S,
    /// The renderer, once there is a window.
    pub gpu: Option<GpuContext<S>>,
}

/// The moving parts of an [`App`].
#[verifier::ext_equal]
pub struct AppView<S> {
    pub tree: TreeView<S>,
    /// The nodes that were given names.
    pub names: Map<Seq<char>, NodeId>,
    pub binds: Seq<ColorBindSlot<S>>,
    pub fades: Seq<OpacityBindSlot<S>>,
    pub flags: Seq<Cell<bool>>,
    pub numbers: Seq<Cell<Number<S>>>,
    pub colors: Seq<Cell<Color<S>>>,
    pub events: Seq<FlatEvent<S>>,
    pub instances: Seq<ShapeInstance<S>>,
    pub opaque_count: u32,
    pub hits: Seq<HitEntry<S>>,
    pub scroll_hits: Seq<ScrollHitView<S>>,
    pub scroll_bars: Seq<ScrollbarHit<S>>,
    pub input: InputState<S>,
    pub timeline: TimelineView<S>,
    pub capture_frames: Option<u32>,
    pub last_dirty_mask: u32,
    pub last_cpu_ms: S,
    pub stats_log: bool,
    pub hud_enabled: bool,
    pub scale: S,
    pub gpu: Option<GpuView<S>>,
}

pub open spec fn gpu_view<S>(g: Option<GpuContext<S>>) -> Option<GpuView<S>> {
    match g {
        Some(g) => Some(g@),
        None => None,
    }
}

impl<S> View for App<S> {
    type V = AppView<S>;

    open spec fn view(&self) -> AppView<S> {
        AppView {
            tree: self.ctx.tree@,
            names: self.ctx.names@,
            binds: self.ctx.binds.color@,
            fades: self.ctx.binds.opacity@,
            flags: self.ctx.signals.flags@,
            numbers: self.ctx.signals.numbers@,
            colors: self.ctx.signals.colors@,
            events: self.events@,
            instances: self.instances@,
            opaque_count: self.opaque_count,
            hits: self.hits@,
            scroll_hits: hit_views(self.scroll_hits@),
            scroll_bars: self.scroll_bars@,
            input: self.input,
            timeline: self.timeline@,
            capture_frames: self.capture_frames,
            last_dirty_mask: self.last_dirty_mask,
            last_cpu_ms: self.last_cpu_ms,
            stats_log: self.stats_log,
            hud_enabled: self.hud_enabled,
            scale: self.scale,
            gpu: gpu_view(self.gpu),
        }
    }
}

impl<S: Scalar> AppView<S> {
    /// What every event keeps.
    pub open spec fn wf(self) -> bool {
        &&& self.tree.consistent()
        &&& self.tree.acyclic()
        &&& binds_valid(self.binds, self.colors)
        &&& fades_valid(self.fades, self.numbers)
        &&& self.binds.len() <= MAX_BINDS
        &&& self.gpu matches Some(g) ==> g.wf()
    }

    /// Whether the list of shapes goes to the GPU.
    pub open spec fn uploads(self) -> bool {
        self.gpu is Some && instances_of(
            flat_tree(self.tree, self.scale).events,
            self.scale,
        ).len() <= u32::MAX
    }

    /// The shell after the tree is flattened anew. Nothing happens to a clean
    /// tree.
    pub open spec fn flushed(self) -> AppView<S> {
        let mask = self.tree.dirty;
        if mask == 0 {
            self
        } else {
            let f = flat_tree(self.tree, self.scale);
            let list = instances_of(f.events, self.scale);
            let opaque = counted(shapes_of(f.events, false, self.scale).len());
            AppView {
                tree: TreeView { dirty: dirty::NONE, ..self.tree },
                events: f.events,
                instances: list,
                opaque_count: opaque,
                hits: f.hits.reverse(),
                scroll_hits: f.scroll_hits,
                scroll_bars: f.bars,
                last_dirty_mask: mask,
                gpu: match self.gpu {
                    Some(g) => if self.uploads() {
                        Some(g.with_instances(list, opaque, mask & dirty::BACKDROP != 0))
                    } else {
                        Some(g)
                    },
                    None => None,
                },
                ..self
            }
        }
    }

    /// What the host does about a flush: upload, and show the result.
    pub open spec fn flush_deeds(self) -> Seq<Deed> {
        if self.tree.dirty == 0 {
            Seq::empty()
        } else if self.uploads() {
            seq![Deed::Upload, Deed::RequestRedraw]
        } else {
            seq![Deed::RequestRedraw]
        }
    }

    /// The shell after bound props are acted on.
    pub open spec fn bound(self, now: u64) -> AppView<S> {
        let s = BindState { slots: self.binds, tree: self.tree, timeline: self.timeline }.acted_upto(
            self.colors,
            now,
            self.binds.len(),
        );
        AppView { binds: s.slots, tree: s.tree, timeline: s.timeline, ..self }
    }

    /// The shell after values on their way are shown: colours, then opacities.
    pub open spec fn pumped(self) -> AppView<S> {
        AppView {
            tree: faded(
                pumped(self.tree, self.binds, self.colors, self.binds.len()),
                self.fades,
                self.numbers,
                self.fades.len(),
            ),
            ..self
        }
    }

    /// Whether every rendered overlay shows how far it is faded in.
    pub open spec fn fades_show(self) -> bool {
        fades_shown(self.tree, self.fades, self.numbers)
    }

    /// The shell just before it flushes in reaction to an event.
    pub open spec fn settled(self, now: u64) -> AppView<S> {
        self.bound(now).pumped()
    }

    /// The shell after it reacts: act on binds, show values, flush.
    pub open spec fn reacted(self, now: u64) -> AppView<S> {
        self.settled(now).flushed()
    }

    /// The shell after a pointer event, short of the reaction.
    pub open spec fn pointed(self, step: InputStep<S>) -> AppView<S> {
        AppView { input: step.state, flags: step.flags, ..self }
    }

    /// The shell after a pointer event: it reacts if a flag flipped.
    pub open spec fn after_input(self, step: InputStep<S>, now: u64) -> AppView<S> {
        if step.change.some() {
            self.pointed(step).reacted(now)
        } else {
            self.pointed(step)
        }
    }

    pub open spec fn input_deeds(self, step: InputStep<S>, now: u64) -> Seq<Deed> {
        if step.change.some() {
            self.pointed(step).settled(now).flush_deeds()
        } else {
            Seq::empty()
        }
    }

    /// The shell after everything in flight arrives.
    pub open spec fn finished(self) -> AppView<S> {
        AppView {
            timeline: self.timeline.cleared(),
            numbers: arrived(self.timeline.numbers, self.numbers, self.timeline.numbers.len()),
            colors: arrived(self.timeline.colors, self.colors, self.timeline.colors.len()),
            ..self
        }
    }

    /// Statistics of the last frame: the renderer's, with what the shell knows.
    pub open spec fn stats(self) -> FrameStats<S> {
        let s = match self.gpu {
            Some(g) => g.stats(),
            None => FrameStats::none(),
        };
        FrameStats { cpu_ms: self.last_cpu_ms, dirty_mask: self.last_dirty_mask, ..s }
    }

    /// The shell with an overlay of `count` shapes.
    pub open spec fn overlaid(self, count: nat) -> AppView<S> {
        AppView {
            gpu: match self.gpu {
                Some(g) => Some(g.with_overlay(count)),
                None => None,
            },
            ..self
        }
    }

    /// What a press does to the window, if the pointer is over a node that
    /// stands for a part of its frame.
    pub open spec fn grip(self) -> Option<WindowAction> {
        match self.input.hovered {
            Some(id) => match self.tree.node(id) {
                Some(n) => n.window_action,
                None => None,
            },
            None => None,
        }
    }

    /// What a pointer event leads to. A press on a part of the window's frame
    /// is no press on the node.
    pub open spec fn input_step(self, ev: Event<S>) -> Option<InputStep<S>> {
        match ev {
            Event::CursorMoved(x, y) => Some(
                self.input.moved(self.flags, self.hits, self.tree, x, y),
            ),
            Event::CursorLeft => Some(self.input.left(self.flags, self.hits, self.tree)),
            Event::LeftButton(true) => if self.grip() is Some {
                None
            } else {
                Some(self.input.pressed(self.flags, self.hits, self.tree))
            },
            Event::LeftButton(false) => Some(
                self.input.released(self.flags, self.hits, self.tree),
            ),
            _ => None,
        }
    }

    /// The shell after an event. Without a window, events do nothing.
    pub open spec fn after(self, ev: Event<S>, now: u64) -> AppView<S> {
        match (self.gpu, ev) {
            (None, _) => self,
            (Some(g), Event::Resized(w, h)) => AppView {
                gpu: Some(
                    GpuView {
                        width: crate::gpu::context::at_least_one(w),
                        height: crate::gpu::context::at_least_one(h),
                        backdrop_dirty: true,
                        ..g
                    },
                ),
                ..self
            },
            (Some(_), Event::RedrawRequested) => if self.hud_enabled {
                self.overlaid(gauges(self.stats(), 4).len())
            } else {
                self
            },
            (Some(_), Event::Keyboard(Key::F1, true)) => {
                let on = !self.hud_enabled;
                let flipped = AppView { hud_enabled: on, stats_log: on, ..self };
                if on {
                    flipped
                } else {
                    flipped.overlaid(0)
                }
            },
            (Some(g), Event::Keyboard(Key::F4, true)) => AppView {
                gpu: Some(GpuView { overdraw_mode: !g.overdraw_mode, ..g }),
                ..self
            },
            (Some(_), Event::Keyboard(Key::F5, true)) => AppView {
                tree: self.tree.flag(dirty::ANY),
                ..self
            }.flushed(),
            (Some(_), _) => match self.input_step(ev) {
                Some(step) => self.after_input(step, now),
                None => self,
            },
        }
    }

    /// What the host does about an event.
    pub open spec fn deeds_for(self, ev: Event<S>, now: u64) -> Seq<Deed> {
        match (self.gpu, ev) {
            (None, _) => Seq::empty(),
            (Some(_), Event::CloseRequested) => seq![Deed::Exit],
            (Some(_), Event::Resized(w, h)) => seq![
                Deed::Configure(
                    crate::gpu::context::at_least_one(w),
                    crate::gpu::context::at_least_one(h),
                ),
                Deed::RequestRedraw,
            ],
            (Some(_), Event::RedrawRequested) => (if self.hud_enabled {
                seq![Deed::UploadOverlay]
            } else {
                Seq::empty()
            }).push(Deed::Render(self.stats_log)),
            (Some(_), Event::Occluded(hidden)) => if hidden {
                Seq::empty()
            } else {
                seq![Deed::RequestRedraw]
            },
            (Some(_), Event::Keyboard(key, down)) => if !down {
                Seq::empty()
            } else {
                match key {
                    Key::Escape => seq![Deed::Exit],
                    Key::F1 => if self.hud_enabled {
                        seq![Deed::LogStats, Deed::UploadOverlay, Deed::RequestRedraw]
                    } else {
                        seq![Deed::LogStats, Deed::RequestRedraw]
                    },
                    Key::F2 => seq![Deed::SaveScreenshot],
                    Key::F4 => seq![Deed::RequestRedraw],
                    Key::F5 => AppView {
                        tree: self.tree.flag(dirty::ANY),
                        ..self
                    }.flush_deeds(),
                    Key::Other => seq![Deed::CallKeyHandler],
                }
            },
            (Some(_), _) => match (self.input_step(ev), self.grip()) {
                (Some(step), _) => self.input_deeds(step, now),
                (None, Some(WindowAction::Close)) => seq![Deed::Exit],
                (None, Some(a)) => seq![Deed::Window(a)],
                (None, None) => Seq::empty(),
            },
        }
    }
}

/// Whether every upload in a list of actions is the right one: from the list
/// the renderer had to the one the shell now has.
pub open spec fn uploads_fit<S: Scalar>(
    actions: Seq<Action<S>>,
    before: Option<GpuView<S>>,
    list: Seq<ShapeInstance<S>>,
) -> bool {
    forall|i: int|
        0 <= i < actions.len() ==> (#[trigger] actions[i] matches Action::Upload(p)
            ==> before is Some && before->Some_0.upload_fits(list, p))
}

/// Whether every overlay in a list of actions holds these shapes, with the
/// plan that uploads them.
pub open spec fn overlays_hold<S: Scalar>(
    actions: Seq<Action<S>>,
    before: Option<GpuView<S>>,
    shapes: Seq<ShapeInstance<S>>,
) -> bool {
    forall|i: int|
        0 <= i < actions.len() ==> (#[trigger] actions[i] matches Action::UploadOverlay(list, p)
            ==> list@ == shapes && before is Some && before->Some_0.overlay_fits(shapes.len(), p))
}

/// A tree that is only marked or unmarked stays sound.
proof fn lemma_flags_keep_sound<S: Scalar>(t: TreeView<S>, d: u32)
    requires
        t.consistent(),
        t.acyclic(),
    ensures
        (TreeView { dirty: d, ..t }).consistent(),
        (TreeView { dirty: d, ..t }).acyclic(),
{
    let u = TreeView { dirty: d, ..t };
    same_nodes_stay_consistent(t, u);
    fewer_kids_stay_acyclic(t, u);
}

/// Acting on binds and showing values keep the shell sound.
pub proof fn settling_keeps_wf<S: Scalar>(v: AppView<S>, now: u64)
    requires
        v.wf(),
    ensures
        v.settled(now).wf(),
        v.settled(now).colors == v.colors,
        v.settled(now).binds.len() == v.binds.len(),
        v.settled(now).fades_show(),
{
    let s = BindState { slots: v.binds, tree: v.tree, timeline: v.timeline };
    binds_keep_sound(s, v.colors, now, v.binds.len());
    let b = v.bound(now);
    assert forall|i: int| 0 <= i < b.binds.len() implies (#[trigger] b.binds[i]).valid(b.colors) by {
        assert(v.binds[i].valid(v.colors));
        assert(s.acted_upto(v.colors, now, v.binds.len()).slots[i].bind == v.binds[i].bind);
    }
    lemma_pump_keeps_wf(b);
}

/// Showing values keeps the shell sound, and shows every overlay's level.
proof fn lemma_pump_keeps_wf<S: Scalar>(v: AppView<S>)
    requires
        v.wf(),
    ensures
        v.pumped().wf(),
        v.pumped().fades_show(),
{
    pumping_keeps_sound(v.tree, v.binds, v.colors, v.binds.len());
    let t = pumped(v.tree, v.binds, v.colors, v.binds.len());
    fades_show_their_level(t, v.fades, v.numbers, v.fades.len());
    assert(v.fades.take(v.fades.len() as int) =~= v.fades);
}

/// Flushing changes no node.
proof fn lemma_flush_keeps_fades<S: Scalar>(v: AppView<S>)
    requires
        v.fades_show(),
    ensures
        v.flushed().fades_show(),
{
    let w = v.flushed();
    assert forall|x: NodeId| #[trigger] w.tree.node(x) == v.tree.node(x) by {}
}

impl<S: Scalar> App<S> {
    /// An application with an empty scene. `stats_log` and `hud_enabled` start
    /// as the host's environment asks.
    pub fn new(
        title: String,
        width: u32,
        height: u32,
        stats_log: bool,
        hud_enabled: bool,
    ) -> (r: Self)
        ensures
            r.config.title == title,
            r.config.width == width,
            r.config.height == height,
            !r.config.decorations,
            r.config.transparent,
            r.config.blur,
            r.config.capture_dir@ == "debug_captures"@,
            r@ == (AppView {
                tree: TreeView::empty(),
                names: Map::empty(),
                binds: Seq::empty(),
                fades: Seq::empty(),
                flags: Seq::empty(),
                numbers: Seq::empty(),
                colors: Seq::empty(),
                events: Seq::empty(),
                instances: Seq::empty(),
                opaque_count: 0,
                hits: Seq::empty(),
                scroll_hits: Seq::empty(),
                scroll_bars: Seq::empty(),
                input: InputState::<S>::idle(),
                timeline: TimelineView::idle(),
                capture_frames: None,
                last_dirty_mask: 0,
                last_cpu_ms: zero_s(),
                stats_log,
                hud_enabled,
                scale: one_s(),
                gpu: None,
            }),
            r@.wf(),
    {
        let app: App<S> = App {
            config: AppConfig::new(title, width, height),
            ctx: SceneCtx::new(),
            events: Vec::new(),
            instances: Vec::new(),
            opaque_count: 0,
            hits: Vec::new(),
            scroll_hits: Vec::new(),
            scroll_bars: Vec::new(),
            input: InputState::new(),
            timeline: Timeline::new(),
            capture_frames: None,
            last_dirty_mask: 0,
            last_cpu_ms: zero(),
            stats_log,
            hud_enabled,
            scale: one(),
            gpu: None,
        };
        assert(app@.scroll_hits =~= Seq::empty());
        assert(app@.binds =~= Seq::empty());
        assert(app@.fades =~= Seq::empty());
        assert(app@.flags =~= Seq::empty());
        assert(app@.numbers =~= Seq::empty());
        assert(app@.colors =~= Seq::empty());
        app
    }

    /// The top level of the scene, to build it.
    pub fn scene(&mut self) -> (r: Scene<'_, S>)
        ensures
            *r.ctx == old(self).ctx,
            r.parent is None,
            *final(self) == (App { ctx: *final(r.ctx), ..*old(self) }),
    {
        Scene::root(&mut self.ctx)
    }

    /// Choose the directory that pictures are written to.
    pub fn capture_dir(self, dir: String) -> (r: Self)
        ensures
            r == (App { config: AppConfig { capture_dir: dir, ..self.config }, ..self }),
    {
        let mut a = self;
        a.config.capture_dir = dir;
        a
    }

    /// Capture frames, at least one, to a directory, and leave.
    pub fn capture(self, frames: u32, dir: String) -> (r: Self)
        ensures
            r == (App {
                config: AppConfig { capture_dir: dir, ..self.config },
                capture_frames: Some(
                    if frames < 1 {
                        1
                    } else {
                        frames
                    },
                ),
                ..self
            }),
    {
        let mut a = self;
        a.capture_frames = Some(
            if frames < 1 {
                1
            } else {
                frames
            },
        );
        a.config.capture_dir = dir;
        a
    }

    /// Capture one frame to the default directory, and leave.
    pub fn capture_once(self) -> (r: Self)
        ensures
            r.config.capture_dir@ == "debug_captures"@,
            r == (App {
                config: AppConfig { capture_dir: r.config.capture_dir, ..self.config },
                capture_frames: Some(1u32),
                ..self
            }),
    {
        self.capture(1, "debug_captures".to_owned())
    }

    /// Capture one frame if the environment asks for it.
    pub fn capture_from_env(self, asked: bool) -> (r: Self)
        ensures
            !asked ==> r == self,
            asked ==> r.config.capture_dir@ == "debug_captures"@ && r == (App {
                config: AppConfig { capture_dir: r.config.capture_dir, ..self.config },
                capture_frames: Some(1u32),
                ..self
            }),
    {
        if asked {
            self.capture_once()
        } else {
            self
        }
    }

    /// A script will run after the first frame: that frame is captured, unless
    /// a number of frames was chosen already.
    pub fn headless(self) -> (r: Self)
        ensures
            r == (App {
                capture_frames: Some(
                    match self.capture_frames {
                        Some(n) => n,
                        None => 1,
                    },
                ),
                ..self
            }),
    {
        let mut a = self;
        if a.capture_frames.is_none() {
            a.capture_frames = Some(1);
        }
        a
    }

    /// Whether the window has a frame.
    pub fn decorations(self, on: bool) -> (r: Self)
        ensures
            r == (App { config: AppConfig { decorations: on, ..self.config }, ..self }),
    {
        let mut a = self;
        a.config.decorations = on;
        a
    }

    pub fn ctx(&self) -> (r: &SceneCtx<S>)
        ensures
            *r == self.ctx,
    {
        &self.ctx
    }

    pub fn into_ctx(self) -> (r: SceneCtx<S>)
        ensures
            r == self.ctx,
    {
        self.ctx
    }

    /// The window is there: the renderer starts.
    pub fn attach(&mut self, width: u32, height: u32, timing: bool, scale: S)
        ensures
            final(self)@ == (AppView {
                gpu: Some(GpuView::fresh(width, height, timing)),
                scale,
                ..old(self)@
            }),
            old(self)@.wf() ==> final(self)@.wf(),
            final(self).config == old(self).config,
    {
        self.gpu = Some(GpuContext::new(width, height, timing));
        self.scale = scale;
    }

    /// Statistics of the last frame.
    pub fn current_stats(&self) -> (r: FrameStats<S>)
        requires
            self@.wf(),
        ensures
            r == self@.stats(),
    {
        let mut s: FrameStats<S> = match &self.gpu {
            Some(g) => g.last_frame_stats(),
            None => FrameStats::default(),
        };
        s.cpu_ms = self.last_cpu_ms;
        s.dirty_mask = self.last_dirty_mask;
        s
    }

    /// The renderer's memory, for records of `stride` bytes; nothing without a
    /// renderer.
    pub fn memory_report(&self, stride: u64) -> (r: Option<MemoryReport>)
        requires
            self@.gpu matches Some(g) ==> g.instance_capacity * stride <= u64::MAX
                && g.overlay_capacity * stride <= u64::MAX && g.width * g.height * 12 <= u64::MAX,
        ensures
            match (self@.gpu, r) {
                (Some(g), Some(m)) => g.reported(m, stride),
                (None, None) => true,
                _ => false,
            },
    {
        match &self.gpu {
            Some(g) => Some(g.memory_report(stride)),
            None => None,
        }
    }

    /// A frame was drawn, in this much CPU time.
    pub fn frame_rendered(&mut self, cpu_ms: S)
        ensures
            *final(self) == (App { last_cpu_ms: cpu_ms, ..*old(self) }),
    {
        self.last_cpu_ms = cpu_ms;
    }

    /// Flatten a dirty tree. Says whether it was dirty, and what to upload: a
    /// list too long for the renderer's counters is not uploaded.
    pub fn flush(&mut self) -> (r: (bool, Option<UploadPlan>))
        requires
            old(self)@.wf(),
        ensures
            final(self)@ == old(self)@.flushed(),
            final(self)@.wf(),
            final(self).config == old(self).config,
            r.0 == (old(self)@.tree.dirty != 0),
            match r.1 {
                Some(p) => r.0 && old(self)@.uploads() && old(self)@.gpu->Some_0.upload_fits(
                    final(self)@.instances,
                    p,
                ),
                None => !(r.0 && old(self)@.uploads()),
            },
    {
        let ghost v = self@;
        let mask: u32 = self.ctx.tree.take_dirty();
        proof {
            lemma_flags_keep_sound(v.tree, dirty::NONE);
        }
        if mask == 0 {
            return (false, None);
        }
        self.last_dirty_mask = mask;
        proof {
            dirt_does_not_show(v.tree, self.ctx.tree@, self.scale);
        }
        self.ctx.tree.flatten_into_buffers(
            self.scale,
            &mut self.events,
            &mut self.hits,
            &mut self.scroll_hits,
            &mut self.scroll_bars,
        );
        let (list, opaque) = expand_events(&self.events, self.scale);
        self.instances = list;
        self.opaque_count = opaque;
        let hint: bool = mask & dirty::BACKDROP != 0;
        if self.instances.len() <= u32::MAX as usize {
            if let Some(g) = self.gpu.as_mut() {
                let plan: UploadPlan = g.set_instances(self.instances.as_slice(), opaque, hint);
                return (true, Some(plan));
            }
        }
        (true, None)
    }

    /// Flatten a dirty tree and have the host show it.
    pub fn flush_tree(&mut self) -> (r: Vec<Action<S>>)
        requires
            old(self)@.wf(),
        ensures
            final(self)@ == old(self)@.flushed(),
            final(self)@.wf(),
            final(self).config == old(self).config,
            deeds(r@) == old(self)@.flush_deeds(),
            uploads_fit(r@, old(self)@.gpu, final(self)@.instances),
            forall|i: int| 0 <= i < r@.len() ==> !(#[trigger] r@[i] is UploadOverlay),
    {
        let mut out: Vec<Action<S>> = Vec::new();
        let (dirty, plan) = self.flush();
        if dirty {
            if let Some(p) = plan {
                out.push(Action::Upload(p));
            }
            out.push(Action::RequestRedraw);
        }
        assert(deeds(out@) =~= old(self)@.flush_deeds());
        out
    }

    /// Let the scene follow its signals: act on binds, show values, flush.
    pub fn react(&mut self, now: u64) -> (r: Vec<Action<S>>)
        requires
            old(self)@.wf(),
        ensures
            final(self)@ == old(self)@.reacted(now),
            final(self)@.wf(),
            final(self).config == old(self).config,
            final(self)@.fades_show(),
            deeds(r@) == old(self)@.settled(now).flush_deeds(),
            uploads_fit(r@, old(self)@.gpu, final(self)@.instances),
            forall|i: int| 0 <= i < r@.len() ==> !(#[trigger] r@[i] is UploadOverlay),
    {
        let ghost v = self@;
        self.settle_binds(now);
        proof {
            settling_keeps_wf(v, now);
            assert(self@ =~= v.settled(now));
            lemma_flush_keeps_fades(self@);
        }
        self.flush_tree()
    }

    /// Act on binds and show values.
    pub(crate) fn settle_binds(&mut self, now: u64)
        requires
            old(self)@.wf(),
        ensures
            final(self)@ == old(self)@.settled(now),
            final(self).config == old(self).config,
    {
        process_color_binds(
            &mut self.ctx.binds.color,
            &mut self.ctx.tree,
            &mut self.timeline,
            &self.ctx.signals.colors,
            now,
        );
        pump_animated_displays(
            &self.ctx.binds.color,
            &mut self.ctx.tree,
            &self.ctx.signals.colors,
        );
        show_fades(&self.ctx.binds.opacity, &mut self.ctx.tree, &self.ctx.signals.numbers);
    }

    /// Handle an event.
    #[verifier::rlimit(40)]
    pub fn window_event(&mut self, ev: Event<S>, now: u64) -> (r: Vec<Action<S>>)
        requires
            old(self)@.wf(),
        ensures
            final(self)@ == old(self)@.after(ev, now),
            final(self)@.wf(),
            final(self).config == old(self).config,
            deeds(r@) == old(self)@.deeds_for(ev, now),
            uploads_fit(r@, old(self)@.gpu, final(self)@.instances),
            overlays_hold(
                r@,
                old(self)@.gpu,
                if ev is RedrawRequested {
                    gauges(old(self)@.stats(), 4)
                } else {
                    Seq::empty()
                },
            ),
    {
        let mut out: Vec<Action<S>> = Vec::new();
        assert(deeds(out@) =~= Seq::empty());
        if self.gpu.is_none() {
            return out;
        }
        match ev {
            Event::CloseRequested => {
                out.push(Action::Exit);
                assert(deeds(out@) =~= seq![Deed::Exit]);
                out
            },
            Event::Resized(w, h) => {
                if let Some(g) = self.gpu.as_mut() {
                    g.resize(w, h);
                    let (cw, ch) = g.resolution();
                    out.push(Action::Configure(cw, ch));
                }
                out.push(Action::RequestRedraw);
                assert(deeds(out@) =~= old(self)@.deeds_for(ev, now));
                out
            },
            Event::RedrawRequested => {
                if self.hud_enabled {
                    let stats: FrameStats<S> = self.current_stats();
                    if let Some((list, plan)) = self.show_stats(&stats) {
                        out.push(Action::UploadOverlay(list, plan));
                    }
                }
                out.push(Action::Render(self.stats_log));
                assert(deeds(out@) =~= old(self)@.deeds_for(ev, now));
                out
            },
            Event::Occluded(hidden) => {
                if !hidden {
                    out.push(Action::RequestRedraw);
                }
                assert(deeds(out@) =~= old(self)@.deeds_for(ev, now));
                out
            },
            Event::CursorMoved(x, y) => {
                let change: InputChange = self.input.on_cursor_moved(
                    x,
                    y,
                    self.hits.as_slice(),
                    &self.ctx.tree,
                    &mut self.ctx.signals.flags,
                );
                if change.any() {
                    self.react(now)
                } else {
                    out
                }
            },
            Event::CursorLeft => {
                let change: InputChange = self.input.on_cursor_left(
                    self.hits.as_slice(),
                    &self.ctx.tree,
                    &mut self.ctx.signals.flags,
                );
                if change.any() {
                    self.react(now)
                } else {
                    out
                }
            },
            Event::LeftButton(down) => {
                if down {
                    if let Some(a) = self.frame_part() {
                        match a {
                            WindowAction::Close => out.push(Action::Exit),
                            _ => out.push(Action::Window(a)),
                        }
                        assert(deeds(out@) =~= old(self)@.deeds_for(ev, now));
                        return out;
                    }
                }
                let change: InputChange = if down {
                    self.input.on_left_pressed(
                        self.hits.as_slice(),
                        &self.ctx.tree,
                        &mut self.ctx.signals.flags,
                    )
                } else {
                    self.input.on_left_released(
                        self.hits.as_slice(),
                        &self.ctx.tree,
                        &mut self.ctx.signals.flags,
                    )
                };
                if change.any() {
                    self.react(now)
                } else {
                    out
                }
            },
            Event::Keyboard(key, down) => if down {
                self.key_down(key)
            } else {
                out
            },
        }
    }

    fn frame_part(&self) -> (r: Option<WindowAction>)
        ensures
            r == self@.grip(),
    {
        match self.input.hovered {
            Some(id) => match self.ctx.tree.get(id) {
                Some(n) => n.window_action,
                None => None,
            },
            None => None,
        }
    }

    /// A key went down, with a window there.
    fn key_down(&mut self, key: Key) -> (r: Vec<Action<S>>)
        requires
            old(self)@.wf(),
            old(self)@.gpu is Some,
        ensures
            final(self)@ == old(self)@.after(Event::Keyboard(key, true), 0),
            final(self)@.wf(),
            final(self).config == old(self).config,
            deeds(r@) == old(self)@.deeds_for(Event::Keyboard(key, true), 0),
            uploads_fit(r@, old(self)@.gpu, final(self)@.instances),
            overlays_hold(r@, old(self)@.gpu, Seq::empty()),
    {
        let mut out: Vec<Action<S>> = Vec::new();
        match key {
            Key::Escape => {
                out.push(Action::Exit);
            },
            Key::F1 => {
                self.hud_enabled = !self.hud_enabled;
                self.stats_log = self.hud_enabled;
                out.push(Action::LogStats);
                if !self.hud_enabled {
                    if let Some(plan) = self.clear_overlay() {
                        let none: Vec<ShapeInstance<S>> = Vec::new();
                        assert(none@ =~= Seq::empty());
                        out.push(Action::UploadOverlay(none, plan));
                    }
                }
                out.push(Action::RequestRedraw);
            },
            Key::F2 => {
                out.push(Action::SaveScreenshot);
            },
            Key::F4 => {
                if let Some(g) = self.gpu.as_mut() {
                    let on: bool = !g.overdraw_mode();
                    g.set_overdraw(on);
                }
                out.push(Action::RequestRedraw);
            },
            Key::F5 => {
                proof {
                    lemma_flags_keep_sound(self@.tree, self@.tree.dirty | dirty::ANY);
                }
                self.ctx.tree.mark_all_dirty();
                return self.flush_tree();
            },
            Key::Other => {
                out.push(Action::CallKeyHandler);
            },
        }
        assert(deeds(out@) =~= old(self)@.deeds_for(Event::Keyboard(key, true), 0));
        out
    }

    /// Show statistics over the scene. Without a renderer there is nothing to
    /// upload.
    pub fn show_stats(&mut self, stats: &FrameStats<S>) -> (r: Option<
        (Vec<ShapeInstance<S>>, UploadPlan),
    >)
        requires
            old(self)@.wf(),
        ensures
            final(self)@ == old(self)@.overlaid(gauges(*stats, 4).len()),
            final(self)@.wf(),
            final(self).config == old(self).config,
            match (old(self)@.gpu, r) {
                (Some(g), Some((list, p))) => list@ == gauges(*stats, 4) && g.overlay_fits(
                    list@.len(),
                    p,
                ),
                (None, None) => true,
                _ => false,
            },
    {
        let list: Vec<ShapeInstance<S>> = build_hud_instances(stats);
        proof {
            hud_size(*stats);
        }
        if let Some(g) = self.gpu.as_mut() {
            let plan: UploadPlan = g.set_overlay_instances(list.len());
            return Some((list, plan));
        }
        None
    }

    /// Clear the overlay.
    pub fn clear_overlay(&mut self) -> (r: Option<UploadPlan>)
        requires
            old(self)@.wf(),
        ensures
            final(self)@ == old(self)@.overlaid(0),
            final(self)@.wf(),
            final(self).config == old(self).config,
            match (old(self)@.gpu, r) {
                (Some(g), Some(p)) => g.overlay_fits(0, p),
                (None, None) => true,
                _ => false,
            },
    {
        if let Some(g) = self.gpu.as_mut() {
            return Some(g.set_overlay_instances(0));
        }
        None
    }

    /// All events are handled: move what moves, show it, and say when to come
    /// back. A colour that follows a signal without an animation of its own is
    /// acted on by the next event's reaction. With nothing in flight the loop
    /// sleeps until the next event.
    pub fn about_to_wait(&mut self, now: u64) -> (r: (Vec<Action<S>>, Control))
        requires
            old(self)@.wf(),
            now + old(self)@.timeline.tick_interval <= u64::MAX,
        ensures
            ({
                let v = old(self)@;
                let t = ticked_app(v, now);
                let moved = v.timeline.size() > 0 && tick_moves(v, now);
                &&& final(self)@ == if v.timeline.size() == 0 {
                    v
                } else if moved {
                    t.pumped().flushed()
                } else {
                    t
                }
                &&& deeds(r.0@) == if moved {
                    t.pumped().flush_deeds()
                } else {
                    Seq::empty()
                }
                &&& r.1 == if final(self)@.timeline.size() == 0 {
                    Control::Wait
                } else {
                    Control::WaitUntil((now + v.timeline.tick_interval) as u64)
                }
                &&& moved || v.fades_show() ==> final(self)@.fades_show()
            }),
            final(self)@.wf(),
            final(self).config == old(self).config,
            uploads_fit(r.0@, old(self)@.gpu, final(self)@.instances),
    {
        let mut out: Vec<Action<S>> = Vec::new();
        assert(deeds(out@) =~= Seq::empty());
        if !self.timeline.active() {
            return (out, Control::Wait);
        }
        let ghost v = self@;
        let deadline: u64 = now + self.timeline.tick_interval();
        let res: TickResult = self.timeline.tick(now, &mut self.ctx.signals);
        proof {
            lemma_tick_keeps_wf(v, now);
            assert(self@ =~= ticked_app(v, now));
        }
        if res.updated {
            self.pump();
            proof {
                lemma_flush_keeps_fades(self@);
            }
            out = self.flush_tree();
        } else {
            proof {
                lemma_still_tick(v.timeline.numbers, v.numbers, now, v.timeline.numbers.len());
            }
        }
        let control: Control = if self.timeline.active() {
            Control::WaitUntil(deadline)
        } else {
            Control::Wait
        };
        (out, control)
    }

    fn pump(&mut self)
        requires
            old(self)@.wf(),
        ensures
            final(self)@ == old(self)@.pumped(),
            final(self)@.wf(),
            final(self)@.fades_show(),
            final(self).config == old(self).config,
    {
        proof {
            lemma_pump_keeps_wf(self@);
        }
        pump_animated_displays(
            &self.ctx.binds.color,
            &mut self.ctx.tree,
            &self.ctx.signals.colors,
        );
        show_fades(&self.ctx.binds.opacity, &mut self.ctx.tree, &self.ctx.signals.numbers);
    }

    /// Bring everything in flight to its destination and show it, so that a
    /// picture taken next shows the outcome of a change.
    pub fn settle(&mut self)
        requires
            old(self)@.wf(),
        ensures
            final(self)@ == (if old(self)@.timeline.size() == 0 {
                old(self)@
            } else {
                old(self)@.finished().pumped()
            }),
            final(self)@.timeline.size() == 0,
            final(self)@.wf(),
            old(self)@.timeline.size() > 0 || old(self)@.fades_show() ==> final(self)@.fades_show(),
            final(self).config == old(self).config,
    {
        if !self.timeline.active() {
            return ;
        }
        let ghost v = self@;
        self.timeline.finish(&mut self.ctx.signals);
        proof {
            lemma_finish_keeps_wf(v);
            assert(self@ =~= v.finished());
        }
        self.pump();
    }
}

/// The shell after its timeline ticks.
pub open spec fn ticked_app<S: Scalar>(v: AppView<S>, now: u64) -> AppView<S> {
    AppView {
        timeline: v.timeline.advanced(now),
        numbers: driven(v.timeline.numbers, v.numbers, now, v.timeline.numbers.len()),
        colors: driven(v.timeline.colors, v.colors, now, v.timeline.colors.len()),
        ..v
    }
}

/// Whether that changes a value.
pub open spec fn tick_moves<S: Scalar>(v: AppView<S>, now: u64) -> bool {
    drive_changes(v.timeline.numbers, v.numbers, now, v.timeline.numbers.len()) || drive_changes(
        v.timeline.colors,
        v.colors,
        now,
        v.timeline.colors.len(),
    )
}

proof fn lemma_tick_keeps_wf<S: Scalar>(v: AppView<S>, now: u64)
    requires
        v.wf(),
    ensures
        ticked_app(v, now).wf(),
{
    lemma_driven_len(v.timeline.colors, v.colors, now, v.timeline.colors.len());
    lemma_driven_len(v.timeline.numbers, v.numbers, now, v.timeline.numbers.len());
    let t = ticked_app(v, now);
    assert forall|i: int| 0 <= i < t.binds.len() implies (#[trigger] t.binds[i]).valid(t.colors) by {
        assert(v.binds[i].valid(v.colors));
    }
}

proof fn lemma_driven_len<S: Scalar, V: Lerp<S>>(
    ts: Seq<Tween<S, V>>,
    store: Seq<Cell<V>>,
    now: u64,
    k: nat,
)
    requires
        k <= ts.len(),
    ensures
        driven(ts, store, now, k).len() == store.len(),
    decreases k,
{
    if k > 0 {
        lemma_driven_len(ts, store, now, (k - 1) as nat);
    }
}

proof fn lemma_finish_keeps_wf<S: Scalar>(v: AppView<S>)
    requires
        v.wf(),
    ensures
        v.finished().wf(),
{
    lemma_arrived_len(v.timeline.colors, v.colors, v.timeline.colors.len());
    lemma_arrived_len(v.timeline.numbers, v.numbers, v.timeline.numbers.len());
    let t = v.finished();
    assert forall|i: int| 0 <= i < t.binds.len() implies (#[trigger] t.binds[i]).valid(t.colors) by {
        assert(v.binds[i].valid(v.colors));
    }
}

/// A tick that changes no value leaves the store as it was.
proof fn lemma_still_tick<S: Scalar, V: Lerp<S>>(
    ts: Seq<Tween<S, V>>,
    store: Seq<Cell<V>>,
    now: u64,
    k: nat,
)
    requires
        k <= ts.len(),
        !drive_changes(ts, store, now, k),
    ensures
        driven(ts, store, now, k) == store,
    decreases k,
{
    if k > 0 {
        lemma_still_tick(ts, store, now, (k - 1) as nat);
    }
}

proof fn lemma_arrived_len<S: Scalar, V: Lerp<S>>(
    ts: Seq<Tween<S, V>>,
    store: Seq<Cell<V>>,
    k: nat,
)
    requires
        k <= ts.len(),
    ensures
        arrived(ts, store, k).len() == store.len(),
    decreases k,
{
    if k > 0 {
        lemma_arrived_len(ts, store, (k - 1) as nat);
    }
}

// --- starting up -----------------------------------------------------------

/// A step of starting up.
#[derive(Copy, Clone, Debug, PartialEq, Eq, Structural)]
pub enum StartStep {
    /// Make the window, hidden, and hand its size to [`App::attach`].
    OpenWindow,
    Flush,
    Render,
    /// Show the window, and ask for a frame.
    ShowWindow,
    Screenshot,
    RunScript,
    Exit,
}

/// `n` more pictures, each of a frame of its own.
pub open spec fn more_pictures(n: nat) -> Seq<StartStep>
    decreases n,
{
    if n == 0 {
        Seq::empty()
    } else {
        more_pictures((n - 1) as nat) + seq![StartStep::Render, StartStep::Screenshot]
    }
}

/// The steps of starting up: paint before showing; then the pictures that were
/// asked for, of which a script takes all but the first itself; then leave, if
/// there were any.
pub open spec fn start_steps(capture_frames: Option<u32>, script: bool) -> Seq<StartStep> {
    seq![StartStep::OpenWindow, StartStep::Flush, StartStep::Render, StartStep::ShowWindow] + (
    match capture_frames {
        Some(n) => seq![StartStep::Screenshot] + if script || n == 0 {
            Seq::empty()
        } else {
            more_pictures((n - 1) as nat)
        },
        None => Seq::empty(),
    }) + (if script {
        seq![StartStep::RunScript, StartStep::Exit]
    } else if capture_frames is Some {
        seq![StartStep::Exit]
    } else {
        Seq::empty()
    })
}

impl<S: Scalar> App<S> {
    /// The event loop runs: the steps of starting up, if there is no window
    /// yet. `script` says that a script waits to run.
    pub fn resumed(&self, script: bool) -> (r: Vec<StartStep>)
        ensures
            r@ == (if self@.gpu is Some {
                Seq::empty()
            } else {
                start_steps(self@.capture_frames, script)
            }),
    {
        let mut out: Vec<StartStep> = Vec::new();
        if self.gpu.is_some() {
            assert(out@ =~= Seq::empty());
            return out;
        }
        out.push(StartStep::OpenWindow);
        out.push(StartStep::Flush);
        out.push(StartStep::Render);
        out.push(StartStep::ShowWindow);
        if let Some(n) = self.capture_frames {
            out.push(StartStep::Screenshot);
            let ghost base = out@;
            if !script {
                let mut k: u32 = 1;
                assert(out@ =~= base + more_pictures(0));
                while k < n
                    invariant
                        1 <= k,
                        k <= n || n == 0 && k == 1,
                        out@ == base + more_pictures((k - 1) as nat),
                    decreases n - k,
                {
                    out.push(StartStep::Render);
                    out.push(StartStep::Screenshot);
                    k = k + 1;
                    assert(out@ =~= base + more_pictures((k - 1) as nat));
                }
            }
        }
        if script {
            out.push(StartStep::RunScript);
            out.push(StartStep::Exit);
        } else if self.capture_frames.is_some() {
            out.push(StartStep::Exit);
        }
        assert(out@ =~= start_steps(self.capture_frames, script));
        out
    }
}

// --- laws ------------------------------------------------------------------

/// What a tree yields does not depend on its dirty flags.
pub proof fn dirt_does_not_show<S: Scalar>(t: TreeView<S>, u: TreeView<S>, scale: S)
    requires
        t.acyclic(),
        u == (TreeView { dirty: u.dirty, ..t }),
    ensures
        u.acyclic(),
        flat_tree(u, scale) == flat_tree(t, scale),
{
    fewer_kids_stay_acyclic(t, u);
    crate::flatten_laws::same_nodes_flatten_alike(t, u, scale);
}

/// A flushed shell is clean: flushing again changes nothing and asks nothing
/// of the host.
pub proof fn flushing_settles<S: Scalar>(v: AppView<S>)
    ensures
        v.flushed().flushed() == v.flushed(),
        v.flushed().flush_deeds() == Seq::<Deed>::empty(),
{
}

/// Rebuilding a flushed shell gives what it had.
pub proof fn rebuilding_changes_nothing<S: Scalar>(v: AppView<S>, now: u64)
    requires
        v.wf(),
        v.tree.dirty != 0,
    ensures
        ({
            let once = v.flushed();
            let again = once.after(Event::Keyboard(Key::F5, true), now);
            &&& again.instances == once.instances
            &&& again.opaque_count == once.opaque_count
            &&& again.hits == once.hits
            &&& again.scroll_hits == once.scroll_hits
            &&& again.scroll_bars == once.scroll_bars
        }),
{
    let once = v.flushed();
    let marked = once.tree.flag(dirty::ANY);
    dirt_does_not_show(v.tree, marked, v.scale);
}

/// A rendered overlay fades by its own opacity: after the shell reacts, after
/// everything in flight arrives, and after a tick that moved a value, its
/// scrim's opacity is the level of the moment, and the scrim is hidden unless
/// that is above zero.
pub proof fn overlays_fade_by_their_level<S: Scalar>(
    v: AppView<S>,
    o: OverlayView<S>,
    scrim: NodeId,
    i: int,
    now: u64,
)
    requires
        v.wf(),
        0 <= i < v.fades.len(),
        v.fades[i] == (OpacityBindSlot { node_id: scrim, level: o.opacity }),
        last_of_its_node(v.fades, i),
        v.tree.node(scrim) is Some,
    ensures
        shows_overlay(v.reacted(now), o, scrim),
        shows_overlay(v.finished().pumped(), o, scrim),
        shows_overlay(ticked_app(v, now).pumped().flushed(), o, scrim),
{
    let b = v.bound(now);
    let f = v.finished();
    let t = ticked_app(v, now);
    let s = BindState { slots: v.binds, tree: v.tree, timeline: v.timeline };
    settling_keeps_wf(v, now);
    lemma_flush_keeps_fades(v.settled(now));
    binds_keep_nodes(s, v.colors, now, v.binds.len(), scrim);
    lemma_shell_keeps_nodes(b, scrim);
    lemma_finish_keeps_wf(v);
    lemma_pump_keeps_wf(f);
    lemma_shell_keeps_nodes(f, scrim);
    lemma_tick_keeps_wf(v, now);
    lemma_pump_keeps_wf(t);
    lemma_flush_keeps_fades(t.pumped());
    lemma_shell_keeps_nodes(t, scrim);
    let w = v.reacted(now);
    assert(w.fades[i].node_id == scrim);
    assert(w.tree.node(scrim) == v.settled(now).tree.node(scrim));
    let u = t.pumped().flushed();
    assert(u.fades[i].node_id == scrim);
    assert(u.tree.node(scrim) == t.pumped().tree.node(scrim));
    assert(f.pumped().fades[i].node_id == scrim);
}

/// Whether an overlay's scrim shows how far the overlay is faded in.
pub open spec fn shows_overlay<S: Scalar>(v: AppView<S>, o: OverlayView<S>, scrim: NodeId) -> bool {
    v.tree.node(scrim) matches Some(n) && shows_level(n, o.level(v.numbers))
}

proof fn lemma_shell_keeps_nodes<S: Scalar>(v: AppView<S>, id: NodeId)
    ensures
        v.pumped().tree.node(id) is Some == v.tree.node(id) is Some,
{
    showing_keeps_nodes(
        v.tree,
        v.binds,
        v.colors,
        v.binds.len(),
        v.fades,
        v.numbers,
        v.fades.len(),
        id,
    );
}

/// A clean shell stays clean through every event.
pub proof fn events_never_leave_new_dirt<S: Scalar>(v: AppView<S>, ev: Event<S>, now: u64)
    requires
        v.tree.dirty == 0,
    ensures
        v.after(ev, now).tree.dirty == 0,
{
}

/// Nothing happens to a shell without a window.
pub proof fn nothing_without_a_window<S: Scalar>(v: AppView<S>, ev: Event<S>, now: u64)
    requires
        v.gpu is None,
    ensures
        v.after(ev, now) == v,
        v.deeds_for(ev, now) == Seq::<Deed>::empty(),
{
}

/// The first picture is taken before a script runs, and the script is the last
/// thing but leaving.
pub proof fn script_runs_last(frames: Option<u32>)
    requires
        frames is Some,
    ensures
        ({
            let s = start_steps(frames, true);
            &&& s.len() == 7
            &&& s[4] == StartStep::Screenshot
            &&& s[5] == StartStep::RunScript
            &&& s[6] == StartStep::Exit
        }),
{
}

/// A capture of `n` frames takes `n` pictures and leaves.
pub proof fn captures_are_counted(n: u32)
    requires
        n >= 1,
    ensures
        pictures(start_steps(Some(n), false)) == n,
        start_steps(Some(n), false).last() == StartStep::Exit,
{
    let head = seq![
        StartStep::OpenWindow,
        StartStep::Flush,
        StartStep::Render,
        StartStep::ShowWindow,
    ];
    let first = seq![StartStep::Screenshot];
    let more = more_pictures((n - 1) as nat);
    let tail = seq![StartStep::Exit];
    lemma_pictures_more((n - 1) as nat);
    assert(pictures(head) == 0 && pictures(first) == 1 && pictures(tail) == 0) by {
        reveal_with_fuel(pictures, 6);
    }
    lemma_pictures_sum(first, more);
    lemma_pictures_sum(head, first + more);
    lemma_pictures_sum(head + (first + more), tail);
    assert(start_steps(Some(n), false) =~= head + (first + more) + tail);
}

/// How many pictures a list of steps takes.
pub open spec fn pictures(s: Seq<StartStep>) -> nat
    decreases s.len(),
{
    if s.len() == 0 {
        0
    } else {
        pictures(s.drop_last()) + if s.last() == StartStep::Screenshot {
            1nat
        } else {
            0nat
        }
    }
}

proof fn lemma_pictures_sum(a: Seq<StartStep>, b: Seq<StartStep>)
    ensures
        pictures(a + b) == pictures(a) + pictures(b),
    decreases b.len(),
{
    if b.len() == 0 {
        assert(a + b =~= a);
    } else {
        lemma_pictures_sum(a, b.drop_last());
        assert((a + b).drop_last() =~= a + b.drop_last());
        assert((a + b).last() == b.last());
    }
}

proof fn lemma_pictures_more(n: nat)
    ensures
        pictures(more_pictures(n)) == n,
    decreases n,
{
    if n > 0 {
        lemma_pictures_more((n - 1) as nat);
        let one = seq![StartStep::Render, StartStep::Screenshot];
        assert(pictures(one) == 1) by {
            reveal_with_fuel(pictures, 3);
        }
        lemma_pictures_sum(more_pictures((n - 1) as nat), one);
    }
}

} // verus!
