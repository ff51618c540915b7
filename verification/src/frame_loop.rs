//! The window loop of the Vulkan backend as a state machine: each window event, and each
//! outcome of acquiring a swapchain image, leads to the next state and the action the
//! loop takes. Running the window and the device is left to the caller.
use vstd::prelude::*;
use crate::gpu_sync::{STAGE_COLOR_ATTACHMENT_OUTPUT, STAGE_TRANSFER};

verus! {

/// What the window loop is told.
#[derive(Clone, Copy, Debug, PartialEq, Eq, Structural)]
pub enum LoopEvent {
    /// The window is asked to close.
    CloseRequested,
    /// The window now has this size.
    Resized(u32, u32),
    /// Pending window events are handled; time to draw.
    MainEventsCleared,
    /// The swapchain handed out this image.
    ImageAcquired(usize),
    /// No swapchain image could be had.
    AcquireFailed,
    /// Any other event.
    Other,
}

/// What the window loop does.
#[derive(Clone, Copy, Debug, PartialEq, Eq, Structural)]
pub enum LoopAction {
    /// Leave the loop.
    Exit,
    /// Report the new window size.
    ReportResize(u32, u32),
    /// Wait on the fence of this frame slot, reset it and acquire an image with its
    /// semaphore.
    AcquireImage { slot: usize },
    /// Submit the image's command buffer, waiting at `wait_stage`, and present it.
    SubmitAndPresent { image: usize, wait_stage: u32 },
    /// Wait for the next event.
    Wait,
}

/// The loop's state: how many frames were drawn, how many swapchain images there are,
/// and whether compute passes run before drawing.
#[derive(Clone, Copy, Debug, PartialEq, Eq, Structural)]
pub struct FrameLoop {
    pub frame: usize,
    pub images: usize,
    pub has_compute: bool,
}

/// The stage a submission waits at for its image: the transfer stage when compute
/// passes write the image, else color attachment output.
pub open spec fn spec_wait_stage(has_compute: bool) -> u32 {
    if has_compute {
        STAGE_TRANSFER
    } else {
        STAGE_COLOR_ATTACHMENT_OUTPUT
    }
}

/// `frame + 1`, wrapping at the top of `usize`.
pub open spec fn next_frame(frame: usize) -> usize {
    if frame == usize::MAX {
        0
    } else {
        (frame + 1) as usize
    }
}

/// One step of the loop. Closing exits; a resize is reported; drawing starts by
/// acquiring an image for slot `frame % images`; an acquired image is submitted and
/// presented, and only then does the frame count advance; a failed acquire waits.
pub open spec fn spec_loop_step(s: FrameLoop, e: LoopEvent) -> (FrameLoop, LoopAction) {
    match e {
        LoopEvent::CloseRequested => (s, LoopAction::Exit),
        LoopEvent::Resized(w, h) => (s, LoopAction::ReportResize(w, h)),
        LoopEvent::MainEventsCleared => (s, LoopAction::AcquireImage { slot: (s.frame % s.images) as usize }),
        LoopEvent::ImageAcquired(i) => (
            FrameLoop { frame: next_frame(s.frame), ..s },
            LoopAction::SubmitAndPresent { image: i, wait_stage: spec_wait_stage(s.has_compute) },
        ),
        LoopEvent::AcquireFailed => (s, LoopAction::Wait),
        LoopEvent::Other => (s, LoopAction::Wait),
    }
}

impl FrameLoop {
    /// A loop over `images` swapchain images that has drawn nothing yet.
    pub fn new(images: usize, has_compute: bool) -> (r: FrameLoop)
        ensures
            r == (FrameLoop { frame: 0, images, has_compute }),
    {
        FrameLoop { frame: 0, images, has_compute }
    }

    /// The next state and action for `e`.
    pub fn step(&self, e: LoopEvent) -> (r: (FrameLoop, LoopAction))
        requires
            self.images > 0,
        ensures
            r == spec_loop_step(*self, e),
    {
        match e {
            LoopEvent::CloseRequested => (*self, LoopAction::Exit),
            LoopEvent::Resized(w, h) => (*self, LoopAction::ReportResize(w, h)),
            LoopEvent::MainEventsCleared => (*self, LoopAction::AcquireImage { slot: self.frame % self.images }),
            LoopEvent::ImageAcquired(i) => {
                let frame = if self.frame == usize::MAX {
                    0
                } else {
                    self.frame + 1
                };
                let wait_stage = if self.has_compute {
                    STAGE_TRANSFER
                } else {
                    STAGE_COLOR_ATTACHMENT_OUTPUT
                };
                (
                    FrameLoop { frame, images: self.images, has_compute: self.has_compute },
                    LoopAction::SubmitAndPresent { image: i, wait_stage },
                )
            },
            LoopEvent::AcquireFailed => (*self, LoopAction::Wait),
            LoopEvent::Other => (*self, LoopAction::Wait),
        }
    }
}

/// Every image a loop acquires for is a valid slot: `frame % images` is below `images`.
pub proof fn law_acquire_slot_in_range(s: FrameLoop)
    requires
        s.images > 0,
    ensures
        spec_loop_step(s, LoopEvent::MainEventsCleared).1 matches LoopAction::AcquireImage { slot } && slot
            < s.images,
{
}

/// Drawing advances the frame count exactly when an image was acquired: no other event
/// changes the state.
pub proof fn law_only_acquired_images_advance(s: FrameLoop, e: LoopEvent)
    ensures
        (spec_loop_step(s, e).0 != s) ==> e is ImageAcquired,
        e is ImageAcquired ==> spec_loop_step(s, e).0.frame == next_frame(s.frame),
{
}

/// The bytes written to a per-frame buffer of `size` bytes: the update as far as it
/// fits, zeros after it.
pub open spec fn padded(bytes: Seq<u8>, size: nat) -> Seq<u8> {
    Seq::new(size, |i: int| if i < bytes.len() { bytes[i] } else { 0u8 })
}

/// Builds what a per-frame update writes into a buffer of `size` bytes.
pub fn padded_bytes(bytes: &[u8], size: usize) -> (r: Vec<u8>)
    ensures
        r@ == padded(bytes@, size as nat),
{
    let mut out: Vec<u8> = Vec::new();
    let mut i: usize = 0;
    while i < size
        invariant
            i <= size,
            out@ == padded(bytes@, i as nat),
        decreases size - i,
    {
        let b = if i < bytes.len() {
            bytes[i]
        } else {
            0u8
        };
        out.push(b);
        assert(out@ =~= padded(bytes@, (i + 1) as nat));
        i = i + 1;
    }
    out
}

} // verus!
