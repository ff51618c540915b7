use macrokid_graphics::frame_loop::{padded_bytes, FrameLoop, LoopAction, LoopEvent};

#[test]
fn frames_cycle_through_the_swapchain_images() {
    let mut s = FrameLoop::new(3, false);
    let mut slots = Vec::new();
    for _ in 0..4 {
        let (same, a) = s.step(LoopEvent::MainEventsCleared);
        assert_eq!(same, s);
        match a {
            LoopAction::AcquireImage { slot } => slots.push(slot),
            _ => panic!("expected an acquire"),
        }
        let (next, b) = s.step(LoopEvent::ImageAcquired(7));
        assert_eq!(b, LoopAction::SubmitAndPresent { image: 7, wait_stage: 0x400 });
        s = next;
    }
    assert_eq!(slots, vec![0, 1, 2, 0]);
    assert_eq!(s.frame, 4);
}

#[test]
fn failed_acquire_keeps_the_frame() {
    let s = FrameLoop { frame: 5, images: 2, has_compute: true };
    assert_eq!(s.step(LoopEvent::AcquireFailed), (s, LoopAction::Wait));
    assert_eq!(s.step(LoopEvent::Other), (s, LoopAction::Wait));
    assert_eq!(s.step(LoopEvent::CloseRequested), (s, LoopAction::Exit));
    assert_eq!(s.step(LoopEvent::Resized(640, 480)), (s, LoopAction::ReportResize(640, 480)));
    let (next, a) = s.step(LoopEvent::ImageAcquired(1));
    assert_eq!(a, LoopAction::SubmitAndPresent { image: 1, wait_stage: 0x1000 });
    assert_eq!(next.frame, 6);
    let last = FrameLoop { frame: usize::MAX, images: 2, has_compute: false };
    assert_eq!(last.step(LoopEvent::ImageAcquired(0)).0.frame, 0);
}

#[test]
fn updates_are_padded_with_zeros() {
    assert_eq!(padded_bytes(&[1, 2, 3], 5), vec![1, 2, 3, 0, 0]);
    assert_eq!(padded_bytes(&[1, 2, 3], 2), vec![1, 2]);
    assert_eq!(padded_bytes(&[], 0), Vec::<u8>::new());
}
