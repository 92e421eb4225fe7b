//! What a script may do to a running application: drive its input, change its
//! scene, move its animations on, and take pictures.
use vstd::prelude::*;

use crate::app::{settling_keeps_wf, App, AppView};
use crate::gpu::context::{FramePlan, GpuContext, UploadPlan};
use crate::gpu::instance::ShapeInstance;
use crate::gpu::timing::FrameStats;
use crate::hud::gauges;
use crate::scalar::Scalar;

verus! {

/// A script's hold on the application. There is a renderer by the time a
/// script runs.
pub struct HeadlessHelper<'a, S> {
    pub app: &'a mut App<S>,
}

impl<'a, S: Scalar> HeadlessHelper<'a, S> {
    /// Flatten a dirty tree. Says whether it was dirty, and what to upload.
    /// The statistics keep the flags of the last flush by the event loop.
    pub fn flush(&mut self) -> (r: (bool, Option<UploadPlan>))
        requires
            old(self).app@.wf(),
        ensures
            final(self).app@ == (AppView {
                last_dirty_mask: old(self).app@.last_dirty_mask,
                ..old(self).app@.flushed()
            }),
            final(self).app@.wf(),
            final(self).app.config == old(self).app.config,
            *final(final(self).app) == *final(old(self).app),
            r.0 == (old(self).app@.tree.dirty != 0),
            match r.1 {
                Some(p) => r.0 && old(self).app@.uploads()
                    && old(self).app@.gpu->Some_0.upload_fits(final(self).app@.instances, p),
                None => !(r.0 && old(self).app@.uploads()),
            },
    {
        let mask: u32 = self.app.last_dirty_mask;
        let r: (bool, Option<UploadPlan>) = self.app.flush();
        self.app.last_dirty_mask = mask;
        r
    }

    /// Plan a frame for the host to draw.
    pub fn render(&mut self) -> (p: FramePlan)
        requires
            old(self).app@.wf(),
            old(self).app@.gpu is Some,
        ensures
            old(self).app@.gpu->Some_0.planned(p),
            final(self).app@ == (AppView {
                gpu: Some(old(self).app@.gpu->Some_0.framed()),
                ..old(self).app@
            }),
            final(self).app@.wf(),
            final(self).app.config == old(self).app.config,
            *final(final(self).app) == *final(old(self).app),
    {
        let gpu: &mut GpuContext<S> = self.app.gpu.as_mut().unwrap();
        gpu.plan_frame()
    }

    /// Statistics to keep with a picture: the renderer's own, since the time
    /// and the flags of the event loop's last frame are not the picture's.
    pub fn capture(&self) -> (r: FrameStats<S>)
        requires
            self.app@.wf(),
            self.app@.gpu is Some,
        ensures
            r == old(self.app)@.gpu->Some_0.stats(),
    {
        match &self.app.gpu {
            Some(g) => g.last_frame_stats(),
            None => FrameStats::default(),
        }
    }

    /// Bring everything in flight to its destination and show it.
    pub fn settle(&mut self)
        requires
            old(self).app@.wf(),
        ensures
            final(self).app@ == (if old(self).app@.timeline.size() == 0 {
                old(self).app@
            } else {
                old(self).app@.finished().pumped()
            }),
            final(self).app@.timeline.size() == 0,
            final(self).app@.wf(),
            old(self).app@.timeline.size() > 0 || old(self).app@.fades_show()
                ==> final(self).app@.fades_show(),
            final(self).app.config == old(self).app.config,
            *final(final(self).app) == *final(old(self).app),
    {
        self.app.settle();
    }

    /// Show the renderer's statistics over the scene.
    pub fn show_hud(&mut self) -> (r: (Vec<ShapeInstance<S>>, UploadPlan))
        requires
            old(self).app@.wf(),
            old(self).app@.gpu is Some,
        ensures
            ({
                let g = old(self).app@.gpu->Some_0;
                &&& r.0@ == gauges(g.stats(), 4)
                &&& g.overlay_fits(r.0@.len(), r.1)
                &&& final(self).app@ == old(self).app@.overlaid(r.0@.len())
            }),
            final(self).app@.wf(),
            final(self).app.config == old(self).app.config,
            *final(final(self).app) == *final(old(self).app),
    {
        let stats: FrameStats<S> = self.capture();
        self.app.show_stats(&stats).unwrap()
    }

    /// Clear the overlay.
    pub fn hide_hud(&mut self) -> (r: UploadPlan)
        requires
            old(self).app@.wf(),
            old(self).app@.gpu is Some,
        ensures
            old(self).app@.gpu->Some_0.overlay_fits(0, r),
            final(self).app@ == old(self).app@.overlaid(0),
            final(self).app@.wf(),
            final(self).app.config == old(self).app.config,
            *final(final(self).app) == *final(old(self).app),
    {
        self.app.clear_overlay().unwrap()
    }

    /// Act on binds and show values, without flushing.
    pub fn react(&mut self, now: u64)
        requires
            old(self).app@.wf(),
        ensures
            final(self).app@ == old(self).app@.settled(now),
            final(self).app@.wf(),
            final(self).app@.fades_show(),
            final(self).app.config == old(self).app.config,
            *final(final(self).app) == *final(old(self).app),
    {
        proof {
            settling_keeps_wf(self.app@, now);
        }
        self.app.settle_binds(now);
    }
}

} // verus!
