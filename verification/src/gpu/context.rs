//! The renderer's bookkeeping: what is uploaded, what a frame draws, what it
//! cost. The host keeps the GPU objects and carries the plans out.
use vstd::prelude::*;

use crate::gpu::instance::ShapeInstance;
use crate::gpu::memory::MemoryReport;
use crate::gpu::timing::{FrameStats, FrameTiming, PassAlloc, PassKind};
use crate::gpu::upload::{capacity_for, diff_runs, grow_capacity, is_diff, Run};
use crate::scalar::{zero, zero_s, Scalar};

verus! {

/// Records a new buffer has room for.
pub const INITIAL_CAPACITY: u64 = 16;

/// Radius of the backdrop blur, in pixels.
pub const BLUR_RADIUS: u32 = 16;

/// How to bring a GPU buffer up to date.
#[derive(Debug)]
pub struct UploadPlan {
    /// Make a new buffer of this many records first.
    pub grow_to: Option<u64>,
    /// Then write these stretches of the list.
    pub writes: Vec<Run>,
}

/// The timestamp slots of a pass, if it is timed.
pub type Slots = Option<(u32, u32)>;

/// Paint the opaque shapes into the backdrop, then blur it.
#[derive(Copy, Clone, Debug, PartialEq, Eq)]
pub struct BackdropPlan {
    /// Shapes to paint; none means the pass only clears.
    pub opaque: u32,
    pub opaque_slots: Slots,
    pub blur_radius: u32,
    pub blur_slots: Slots,
}

/// Paint everything, then the overlay, onto the surface.
#[derive(Copy, Clone, Debug, PartialEq, Eq)]
pub struct FinalPlan {
    pub instances: u32,
    pub overlay: u32,
    pub slots: Slots,
}

/// Count how often each pixel is painted, then show the count instead.
#[derive(Copy, Clone, Debug, PartialEq, Eq)]
pub struct OverdrawPlan {
    pub instances: u32,
    pub count_slots: Slots,
    pub compose_slots: Slots,
}

/// The passes of one frame.
#[derive(Debug)]
pub struct FramePlan {
    pub backdrop: Option<BackdropPlan>,
    pub surface: FinalPlan,
    pub overdraw: Option<OverdrawPlan>,
    pub drawcalls: u32,
    /// The passes that are timed, in slot order.
    pub timed: Vec<PassKind>,
}

/// The renderer's state.
#[derive(Debug)]
pub struct GpuContext<S> {
    width: u32,
    height: u32,
    overdraw_mode: bool,
    instance_capacity: u64,
    overlay_capacity: u64,
    overlay_count: u32,
    instance_count: u32,
    opaque_count: u32,
    prev_instances: Vec<ShapeInstance<S>>,
    backdrop_dirty: bool,
    timing: bool,
    last_drawcalls: u32,
    last_timing: Option<FrameTiming<S>>,
}

/// The contents of a [`GpuContext`].
#[verifier::ext_equal]
pub struct GpuView<S> {
    /// Surface size in pixels.
    pub width: u32,
    pub height: u32,
    pub overdraw_mode: bool,
    pub instance_capacity: u64,
    pub overlay_capacity: u64,
    pub overlay_count: u32,
    pub instance_count: u32,
    /// How many instances, from the first, are opaque; the rest are glass.
    pub opaque_count: u32,
    /// What the instance buffer holds.
    pub mirror: Seq<ShapeInstance<S>>,
    /// The blurred backdrop is stale.
    pub backdrop_dirty: bool,
    /// Frames are timed.
    pub timing: bool,
    pub last_drawcalls: u32,
    pub last_timing: Option<FrameTiming<S>>,
}

impl<S> View for GpuContext<S> {
    type V = GpuView<S>;

    closed spec fn view(&self) -> GpuView<S> {
        GpuView {
            width: self.width,
            height: self.height,
            overdraw_mode: self.overdraw_mode,
            instance_capacity: self.instance_capacity,
            overlay_capacity: self.overlay_capacity,
            overlay_count: self.overlay_count,
            instance_count: self.instance_count,
            opaque_count: self.opaque_count,
            mirror: self.prev_instances@,
            backdrop_dirty: self.backdrop_dirty,
            timing: self.timing,
            last_drawcalls: self.last_drawcalls,
            last_timing: self.last_timing,
        }
    }
}

pub open spec fn at_least_one(n: u32) -> u32 {
    if n < 1 {
        1
    } else {
        n
    }
}

/// `Vec::capacity`: never less than the length. How much more is up to the
/// allocator.
#[verifier::external_body]
fn mirror_capacity<S>(v: &Vec<ShapeInstance<S>>) -> (r: usize)
    ensures
        r >= v@.len(),
{
    v.capacity()
}

// --- what a frame runs -----------------------------------------------------

impl<S: Scalar> GpuView<S> {
    /// A renderer for a surface, with nothing to draw yet.
    pub open spec fn fresh(width: u32, height: u32, timing: bool) -> GpuView<S> {
        GpuView {
            width: at_least_one(width),
            height: at_least_one(height),
            overdraw_mode: false,
            instance_capacity: INITIAL_CAPACITY,
            overlay_capacity: INITIAL_CAPACITY,
            overlay_count: 0,
            instance_count: 0,
            opaque_count: 0,
            mirror: Seq::empty(),
            backdrop_dirty: true,
            timing,
            last_drawcalls: 0,
            last_timing: None,
        }
    }

    pub open spec fn wf(self) -> bool {
        &&& self.opaque_count <= self.instance_count
        &&& self.instance_count == self.mirror.len()
        &&& self.instance_count <= self.instance_capacity
        &&& self.overlay_count <= self.overlay_capacity
    }

    pub open spec fn glass(self) -> int {
        self.instance_count - self.opaque_count
    }

    /// The renderer after its list of shapes is replaced.
    pub open spec fn with_instances(
        self,
        list: Seq<ShapeInstance<S>>,
        opaque_count: u32,
        hint: bool,
    ) -> GpuView<S> {
        GpuView {
            instance_capacity: capacity_for(self.instance_capacity as nat, list.len()) as u64,
            instance_count: list.len() as u32,
            opaque_count: if opaque_count < list.len() {
                opaque_count
            } else {
                list.len() as u32
            },
            mirror: list,
            backdrop_dirty: self.backdrop_dirty || hint,
            ..self
        }
    }

    /// Whether a plan brings the buffer from the last list to this one: all of
    /// it, if the buffer grows or the number of shapes changes; otherwise the
    /// longest stretches that differ.
    pub open spec fn upload_fits(self, list: Seq<ShapeInstance<S>>, p: UploadPlan) -> bool {
        let grew = list.len() > self.instance_capacity;
        &&& p.grow_to == if grew {
            Some(capacity_for(self.instance_capacity as nat, list.len()) as u64)
        } else {
            None
        }
        &&& if grew || list.len() != self.mirror.len() {
            p.writes@ == if list.len() == 0 {
                Seq::<Run>::empty()
            } else {
                seq![Run { start: 0, end: list.len() as usize }]
            }
        } else {
            is_diff(self.mirror, list, p.writes@)
        }
    }

    /// The renderer after its overlay is replaced by `count` shapes.
    pub open spec fn with_overlay(self, count: nat) -> GpuView<S> {
        GpuView {
            overlay_capacity: capacity_for(self.overlay_capacity as nat, count) as u64,
            overlay_count: count as u32,
            ..self
        }
    }

    /// Whether a plan brings the overlay buffer to a list of `count` shapes.
    pub open spec fn overlay_fits(self, count: nat, p: UploadPlan) -> bool {
        &&& p.grow_to == if count > self.overlay_capacity {
            Some(capacity_for(self.overlay_capacity as nat, count) as u64)
        } else {
            None
        }
        &&& p.writes@ == if count == 0 {
            Seq::<Run>::empty()
        } else {
            seq![Run { start: 0, end: count as usize }]
        }
    }

    /// The statistics of the last frame, as far as the renderer knows them.
    pub open spec fn stats(self) -> FrameStats<S> {
        let t = match self.last_timing {
            Some(t) => t,
            None => FrameTiming::none(),
        };
        FrameStats {
            cpu_ms: zero_s(),
            gpu_ms: t.total_ms,
            opaque_ms: t.opaque_ms,
            blur_ms: t.blur_ms,
            final_ms: t.final_ms,
            overdraw_ms: t.overdraw_ms,
            instance_count: self.instance_count,
            opaque_count: self.opaque_count,
            glass_count: self.glass() as u32,
            drawcalls: self.last_drawcalls,
            dirty_mask: 0,
        }
    }

    /// Whether a report accounts for everything the renderer holds, the copy of
    /// the list with whatever its allocation holds.
    pub open spec fn reported(self, r: MemoryReport, stride: u64) -> bool {
        exists|cap: u64|
            cap >= self.mirror.len() && #[trigger] r.accounts(
                self.instance_capacity,
                self.overlay_capacity,
                cap,
                stride,
                (self.width, self.height),
                (self.width, self.height),
                self.timing,
            )
    }

    /// The backdrop is only made when glass looks at it and it is stale.
    pub open spec fn runs_backdrop(self) -> bool {
        self.glass() > 0 && self.backdrop_dirty
    }

    /// The passes a frame runs, in order.
    pub open spec fn passes(self) -> Seq<PassKind> {
        (if self.runs_backdrop() {
            seq![PassKind::Opaque, PassKind::Blur]
        } else {
            Seq::empty()
        }) + seq![PassKind::Final] + (if self.overdraw_mode {
            seq![PassKind::OverdrawCount, PassKind::OverdrawCompose]
        } else {
            Seq::empty()
        })
    }

    /// The slots of the pass at a place in that order.
    pub open spec fn slots_at(self, place: int) -> Slots {
        if self.timing {
            Some(((2 * place) as u32, (2 * place + 1) as u32))
        } else {
            None
        }
    }

    /// Draw calls of a frame: one for each non-empty list in each pass, two
    /// for the blur, one for the overdraw composition.
    pub open spec fn calls(self) -> int {
        (if self.runs_backdrop() {
            (if self.opaque_count > 0 {
                1int
            } else {
                0int
            }) + 2
        } else {
            0int
        }) + (if self.instance_count > 0 {
            1int
        } else {
            0int
        }) + (if self.overlay_count > 0 {
            1int
        } else {
            0int
        }) + (if self.overdraw_mode {
            (if self.instance_count > 0 {
                1int
            } else {
                0int
            }) + 1
        } else {
            0int
        })
    }

    /// The renderer after it plans a frame. A frame that makes the backdrop
    /// leaves it fresh.
    pub open spec fn framed(self) -> GpuView<S> {
        GpuView {
            backdrop_dirty: self.backdrop_dirty && !self.runs_backdrop(),
            last_drawcalls: self.calls() as u32,
            ..self
        }
    }

    /// Whether `p` is the plan of the next frame.
    pub open spec fn planned(self, p: FramePlan) -> bool {
        let first = if self.runs_backdrop() {
            2int
        } else {
            0int
        };
        &&& p.backdrop == (if self.runs_backdrop() {
            Some(
                BackdropPlan {
                    opaque: self.opaque_count,
                    opaque_slots: self.slots_at(0),
                    blur_radius: BLUR_RADIUS,
                    blur_slots: self.slots_at(1),
                },
            )
        } else {
            None
        })
        &&& p.surface == FinalPlan {
            instances: self.instance_count,
            overlay: self.overlay_count,
            slots: self.slots_at(first),
        }
        &&& p.overdraw == (if self.overdraw_mode {
            Some(
                OverdrawPlan {
                    instances: self.instance_count,
                    count_slots: self.slots_at(first + 1),
                    compose_slots: self.slots_at(first + 2),
                },
            )
        } else {
            None
        })
        &&& p.drawcalls == self.calls()
        &&& p.timed@ == if self.timing {
            self.passes()
        } else {
            Seq::empty()
        }
    }
}

impl<S: Scalar> GpuContext<S> {
    /// A renderer for a surface, with nothing to draw yet.
    pub fn new(width: u32, height: u32, timing: bool) -> (r: Self)
        ensures
            r@ == GpuView::<S>::fresh(width, height, timing),
            r@.wf(),
    {
        GpuContext {
            width: if width < 1 {
                1
            } else {
                width
            },
            height: if height < 1 {
                1
            } else {
                height
            },
            overdraw_mode: false,
            instance_capacity: INITIAL_CAPACITY,
            overlay_capacity: INITIAL_CAPACITY,
            overlay_count: 0,
            instance_count: 0,
            opaque_count: 0,
            prev_instances: Vec::new(),
            backdrop_dirty: true,
            timing,
            last_drawcalls: 0,
            last_timing: None,
        }
    }

    /// The surface has another size; a side is at least one pixel. The
    /// backdrop has to be made again.
    pub fn resize(&mut self, width: u32, height: u32)
        ensures
            final(self)@ == (GpuView {
                width: at_least_one(width),
                height: at_least_one(height),
                backdrop_dirty: true,
                ..old(self)@
            }),
    {
        self.width = if width < 1 {
            1
        } else {
            width
        };
        self.height = if height < 1 {
            1
        } else {
            height
        };
        self.backdrop_dirty = true;
    }

    /// Size of the surface.
    pub fn resolution(&self) -> (r: (u32, u32))
        ensures
            r == (self@.width, self@.height),
    {
        (self.width, self.height)
    }

    pub fn overdraw_mode(&self) -> (r: bool)
        ensures
            r == self@.overdraw_mode,
    {
        self.overdraw_mode
    }

    pub fn set_overdraw(&mut self, on: bool)
        ensures
            final(self)@ == (GpuView { overdraw_mode: on, ..old(self)@ }),
    {
        self.overdraw_mode = on;
    }

    /// Replace the list of shapes, opaque ones first. Says what to upload: all
    /// of it, if the buffer grew or the number of shapes changed; otherwise
    /// only what differs from the last list. `backdrop_hint` says that what
    /// lies under the glass changed.
    pub fn set_instances(
        &mut self,
        instances: &[ShapeInstance<S>],
        opaque_count: u32,
        backdrop_hint: bool,
    ) -> (r: UploadPlan)
        requires
            instances@.len() <= u32::MAX,
        ensures
            final(self)@ == old(self)@.with_instances(instances@, opaque_count, backdrop_hint),
            old(self)@.wf() ==> final(self)@.wf(),
            old(self)@.upload_fits(instances@, r),
    {
        let count: u32 = instances.len() as u32;
        let grew: bool = count as u64 > self.instance_capacity;
        let mut grow_to: Option<u64> = None;
        if grew {
            let cap: u64 = grow_capacity(self.instance_capacity, count);
            self.instance_capacity = cap;
            grow_to = Some(cap);
        }
        let mut writes: Vec<Run> = Vec::new();
        if grew || instances.len() != self.prev_instances.len() {
            if instances.len() > 0 {
                writes.push(Run { start: 0, end: instances.len() });
            }
        } else {
            writes = diff_runs(self.prev_instances.as_slice(), instances);
        }
        self.prev_instances = copy_list(instances);
        self.instance_count = count;
        self.opaque_count = if opaque_count < count {
            opaque_count
        } else {
            count
        };
        if backdrop_hint {
            self.backdrop_dirty = true;
        }
        UploadPlan { grow_to, writes }
    }

    /// Number of glass shapes.
    pub fn glass_count(&self) -> (r: u32)
        requires
            self@.wf(),
        ensures
            r == self@.glass(),
    {
        self.instance_count - self.opaque_count
    }

    /// Replace the shapes painted over everything else; an empty list clears
    /// them. Says what to upload.
    pub fn set_overlay_instances(&mut self, count: usize) -> (r: UploadPlan)
        requires
            count <= u32::MAX,
        ensures
            final(self)@ == old(self)@.with_overlay(count as nat),
            old(self)@.wf() ==> final(self)@.wf(),
            old(self)@.overlay_fits(count as nat, r),
    {
        let n: u32 = count as u32;
        let mut grow_to: Option<u64> = None;
        if n as u64 > self.overlay_capacity {
            let cap: u64 = grow_capacity(self.overlay_capacity, n);
            self.overlay_capacity = cap;
            grow_to = Some(cap);
        }
        let mut writes: Vec<Run> = Vec::new();
        if count > 0 {
            writes.push(Run { start: 0, end: count });
        }
        self.overlay_count = n;
        UploadPlan { grow_to, writes }
    }

    pub fn mark_backdrop_dirty(&mut self)
        ensures
            final(self)@ == (GpuView { backdrop_dirty: true, ..old(self)@ }),
    {
        self.backdrop_dirty = true;
    }

    /// Decide the passes of the next frame.
    pub fn plan_frame(&mut self) -> (p: FramePlan)
        requires
            old(self)@.wf(),
        ensures
            old(self)@.planned(p),
            final(self)@ == old(self)@.framed(),
    {
        let mut drawcalls: u32 = 0;
        let mut slots: PassAlloc = PassAlloc::new();
        let run_backdrop: bool = self.glass_count() > 0 && self.backdrop_dirty;
        let mut backdrop: Option<BackdropPlan> = None;
        if run_backdrop {
            let opaque_slots: Slots = self.slots_for(&mut slots, PassKind::Opaque);
            let blur_slots: Slots = self.slots_for(&mut slots, PassKind::Blur);
            if self.opaque_count > 0 {
                drawcalls = drawcalls + 1;
            }
            drawcalls = drawcalls + 2;
            backdrop = Some(
                BackdropPlan {
                    opaque: self.opaque_count,
                    opaque_slots,
                    blur_radius: BLUR_RADIUS,
                    blur_slots,
                },
            );
        }
        let surface_slots: Slots = self.slots_for(&mut slots, PassKind::Final);
        if self.instance_count > 0 {
            drawcalls = drawcalls + 1;
        }
        if self.overlay_count > 0 {
            drawcalls = drawcalls + 1;
        }
        let mut overdraw: Option<OverdrawPlan> = None;
        if self.overdraw_mode {
            let count_slots: Slots = self.slots_for(&mut slots, PassKind::OverdrawCount);
            let compose_slots: Slots = self.slots_for(&mut slots, PassKind::OverdrawCompose);
            if self.instance_count > 0 {
                drawcalls = drawcalls + 1;
            }
            drawcalls = drawcalls + 1;
            overdraw = Some(
                OverdrawPlan { instances: self.instance_count, count_slots, compose_slots },
            );
        }
        let timed: Vec<PassKind> = copy_passes(slots.passes());
        assert(timed@ =~= if self.timing {
            self@.passes()
        } else {
            Seq::empty()
        });
        if run_backdrop {
            self.backdrop_dirty = false;
        }
        self.last_drawcalls = drawcalls;
        FramePlan {
            backdrop,
            surface: FinalPlan {
                instances: self.instance_count,
                overlay: self.overlay_count,
                slots: surface_slots,
            },
            overdraw,
            drawcalls,
            timed,
        }
    }

    fn slots_for(&self, slots: &mut PassAlloc, pass: PassKind) -> (r: Slots)
        requires
            old(slots)@.len() < 16,
        ensures
            r == self@.slots_at(old(slots)@.len() as int),
            final(slots)@ == (if self@.timing {
                old(slots)@.push(pass)
            } else {
                old(slots)@
            }),
    {
        if self.timing {
            Some(slots.reserve(pass))
        } else {
            None
        }
    }

    /// Remember what the last readback said; without timestamps there is
    /// nothing to remember.
    pub fn record_timing(&mut self, timing: Option<FrameTiming<S>>)
        ensures
            final(self)@ == (GpuView {
                last_timing: if old(self)@.timing {
                    timing
                } else {
                    None
                },
                ..old(self)@
            }),
    {
        self.last_timing = if self.timing {
            timing
        } else {
            None
        };
    }

    /// Statistics of the last frame, as far as the renderer knows them.
    pub fn last_frame_stats(&self) -> (r: FrameStats<S>)
        requires
            self@.wf(),
        ensures
            r == self@.stats(),
    {
        let t: FrameTiming<S> = match self.last_timing {
            Some(t) => t,
            None => FrameTiming::default(),
        };
        FrameStats {
            cpu_ms: zero(),
            gpu_ms: t.total_ms,
            opaque_ms: t.opaque_ms,
            blur_ms: t.blur_ms,
            final_ms: t.final_ms,
            overdraw_ms: t.overdraw_ms,
            instance_count: self.instance_count,
            opaque_count: self.opaque_count,
            glass_count: self.glass_count(),
            drawcalls: self.last_drawcalls,
            dirty_mask: 0,
        }
    }

    /// Whether frames are timed.
    pub fn timing_enabled(&self) -> (r: bool)
        ensures
            r == self@.timing,
    {
        self.timing
    }

    /// Memory allocated, for records of `stride` bytes. The copy of the
    /// instance list counts what its allocation holds, which is at least the
    /// list.
    pub fn memory_report(&self, stride: u64) -> (r: MemoryReport)
        requires
            self@.instance_capacity * stride <= u64::MAX,
            self@.overlay_capacity * stride <= u64::MAX,
            self@.width * self@.height * 12 <= u64::MAX,
        ensures
            self@.reported(r, stride),
    {
        let cap: u64 = mirror_capacity(&self.prev_instances) as u64;
        let report: MemoryReport = MemoryReport::of(
            self.instance_capacity,
            self.overlay_capacity,
            cap,
            stride,
            (self.width, self.height),
            (self.width, self.height),
            self.timing,
        );
        assert(cap >= self@.mirror.len() && report.accounts(
            self@.instance_capacity,
            self@.overlay_capacity,
            cap,
            stride,
            (self@.width, self@.height),
            (self@.width, self@.height),
            self@.timing,
        ));
        report
    }
}

fn copy_list<S: Scalar>(list: &[ShapeInstance<S>]) -> (r: Vec<ShapeInstance<S>>)
    ensures
        r@ == list@,
{
    let mut out: Vec<ShapeInstance<S>> = Vec::new();
    let mut i: usize = 0;
    while i < list.len()
        invariant
            i <= list.len(),
            out@ == list@.take(i as int),
        decreases list.len() - i,
    {
        out.push(list[i]);
        i = i + 1;
        assert(list@.take(i as int) =~= list@.take(i - 1).push(list@[i - 1]));
    }
    assert(list@.take(list@.len() as int) =~= list@);
    out
}

fn copy_passes(list: &[PassKind]) -> (r: Vec<PassKind>)
    ensures
        r@ == list@,
{
    let mut out: Vec<PassKind> = Vec::new();
    let mut i: usize = 0;
    while i < list.len()
        invariant
            i <= list.len(),
            out@ == list@.take(i as int),
        decreases list.len() - i,
    {
        out.push(list[i]);
        i = i + 1;
        assert(list@.take(i as int) =~= list@.take(i - 1).push(list@[i - 1]));
    }
    assert(list@.take(list@.len() as int) =~= list@);
    out
}

// --- laws ------------------------------------------------------------------

/// Without glass no backdrop is made, however stale it is; with glass it is
/// made once and then kept until something under the glass changes.
pub proof fn backdrop_only_when_needed<S: Scalar>(g: GpuView<S>, p: FramePlan)
    requires
        g.wf(),
        g.planned(p),
    ensures
        g.glass() == 0 ==> p.backdrop is None,
        !g.backdrop_dirty ==> p.backdrop is None,
        g.glass() > 0 && g.backdrop_dirty ==> p.backdrop is Some,
        !g.framed().runs_backdrop(),
{
}

/// Timestamp slots are dense: the timed passes use the slots from zero up, two
/// each, in the order they run.
pub proof fn slots_are_dense<S: Scalar>(g: GpuView<S>, p: FramePlan)
    requires
        g.planned(p),
        g.timing,
    ensures
        p.timed@ == g.passes(),
        p.surface.slots == Some(
            ((2 * (g.passes().index_of(PassKind::Final))) as u32, (2 * (g.passes().index_of(
                PassKind::Final,
            )) + 1) as u32),
        ),
        p.backdrop matches Some(b) ==> b.opaque_slots == Some((0u32, 1u32)) && b.blur_slots == Some(
            (2u32, 3u32),
        ),
        p.overdraw matches Some(o) ==> o.compose_slots == Some(
            ((2 * (g.passes().len() - 1)) as u32, (2 * (g.passes().len() - 1) + 1) as u32),
        ),
{
    let s = g.passes();
    let first = if g.runs_backdrop() {
        2int
    } else {
        0int
    };
    assert(s[first] == PassKind::Final);
    assert(s.contains(PassKind::Final));
    let i = s.index_of(PassKind::Final);
    assert(0 <= i < s.len() && s[i] == PassKind::Final);
    assert(i == first);
}

/// With overdraw off, no overdraw pass runs.
pub proof fn overdraw_costs_nothing_when_off<S: Scalar>(g: GpuView<S>, p: FramePlan)
    requires
        g.planned(p),
        !g.overdraw_mode,
    ensures
        p.overdraw is None,
        !p.timed@.contains(PassKind::OverdrawCount),
        !p.timed@.contains(PassKind::OverdrawCompose),
{
}

} // verus!
