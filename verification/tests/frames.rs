use nuonuo::formats::{FeedbackProbe, FormatSet};
use nuonuo::tty::frame::{
    frame_queued, frame_rendered, frame_submitted, EventTime, FailureCause, FrameDone,
    FrameResult, Presentation, Presented, QueueLost, RenderAction, RenderingLost, SubmitResult,
    SwapError, HW_CLOCK, HW_COMPLETION, MAX_TIME, VSYNC,
};
use nuonuo::tty::hotplug::OpenedDevice;
use nuonuo::tty::setup::{ConnectorSetup, SetupEvent, SetupStage};
use nuonuo::tty::{DrmNode, PrimaryGpu, Tty};

fn node(dev_id: u64) -> DrmNode {
    DrmNode { dev_id }
}

fn tty() -> Tty {
    let mut t = Tty::new("seat0".to_string(), PrimaryGpu::Found(node(1)), None).unwrap();
    t.device_added(node(1), Ok(OpenedDevice { token: 3, render_node: Some(node(128)) })).unwrap();
    let probe = FeedbackProbe {
        primary_formats: None,
        render_formats: None,
        plane_formats: FormatSet::from_formats(&Vec::new()),
        overlay_formats: Vec::new(),
        scanout_device: 1,
    };
    let setup =
        ConnectorSetup { node: node(1), crtc: 10, stage: SetupStage::Feedback { output: 5 } };
    t.connector_step(setup, SetupEvent::Feedback(probe));
    t
}

fn shown() -> Presentation {
    Presentation { time: 1_000, sequence: 7, flags: VSYNC }
}

fn done(presented: bool, next_target: Option<u128>) -> Result<FrameDone, RenderingLost> {
    let presented = if presented {
        Some(Presented { presentation: shown(), frame_duration: 16 })
    } else {
        None
    };
    Ok(FrameDone { presented, next_target })
}

#[test]
fn the_hardware_time_is_told_where_it_can_be_used() {
    let t = tty();
    assert_eq!(
        t.on_vblank(node(1), 10, EventTime::Monotonic(500), 7, 900),
        Some(Presentation { time: 500, sequence: 7, flags: VSYNC | HW_CLOCK | HW_COMPLETION })
    );
    assert_eq!(
        t.on_vblank(node(1), 10, EventTime::Realtime, u32::MAX, 900),
        Some(Presentation { time: 900, sequence: 4294967295, flags: 1 })
    );
    assert_eq!(VSYNC | HW_CLOCK | HW_COMPLETION, 7);
}

#[test]
fn frames_of_unknown_surfaces_are_dropped() {
    let t = tty();
    assert_eq!(t.on_vblank(node(2), 10, EventTime::Realtime, 0, 0), None);
    assert_eq!(t.on_vblank(node(1), 11, EventTime::Realtime, 0, 0), None);
    assert_eq!(t.render_output(node(1), 10), Some(node(128)));
    assert_eq!(t.render_output(node(1), 11), None);
    assert_eq!(t.render_output(node(2), 10), None);
}

#[test]
fn a_frame_that_is_shown_is_followed_by_the_next() {
    let with = SubmitResult::Submitted { feedback: true };
    let without = SubmitResult::Submitted { feedback: false };
    assert_eq!(frame_submitted(shown(), with, Some(16)), done(true, Some(1_016)));
    assert_eq!(frame_submitted(shown(), without, Some(16)), done(false, Some(1_016)));
}

#[test]
fn some_failures_are_followed_by_another_frame() {
    let submit = |error| frame_submitted(shown(), SubmitResult::Failed(error), Some(16));
    assert_eq!(submit(SwapError::AlreadySwapped), done(false, Some(1_016)));
    assert_eq!(
        submit(SwapError::TemporaryFailure(FailureCause::PermissionDenied)),
        done(false, Some(1_016))
    );
    assert_eq!(
        submit(SwapError::TemporaryFailure(FailureCause::DeviceInactive)),
        done(false, None)
    );
    assert_eq!(submit(SwapError::TemporaryFailure(FailureCause::Other)), done(false, None));
    assert_eq!(submit(SwapError::ContextLost), Err(RenderingLost));
}

#[test]
fn an_output_without_mode_shows_nothing() {
    let lost = SubmitResult::Failed(SwapError::ContextLost);
    assert_eq!(frame_submitted(shown(), lost, None), done(false, None));
    let fine = SubmitResult::Submitted { feedback: true };
    assert_eq!(frame_submitted(shown(), fine, None), done(false, None));
}

#[test]
fn something_new_is_queued() {
    assert_eq!(frame_rendered(FrameResult::Rendered, 0, 0, 0), Ok(RenderAction::QueueFrame));
}

#[test]
fn nothing_new_is_tried_again_after_a_period() {
    let ms = 1_000_000u128;
    assert_eq!(
        frame_rendered(FrameResult::Empty, 100 * ms, 60_000, 101 * ms),
        Ok(RenderAction::RenderLater { target: 116 * ms, delay: 15 * ms })
    );
    assert_eq!(
        frame_rendered(FrameResult::Empty, 100 * ms, 60_000, 200 * ms),
        Ok(RenderAction::RenderLater { target: 116 * ms, delay: 0 })
    );
    assert_eq!(
        frame_rendered(FrameResult::Empty, 100 * ms, 1_000_001, 100 * ms),
        Ok(RenderAction::RenderLater { target: 100 * ms, delay: 0 })
    );
    assert_eq!(
        frame_rendered(FrameResult::Empty, 0, 1, 0),
        Ok(RenderAction::RenderLater { target: 1_000_000 * ms, delay: 1_000_000 * ms })
    );
}

#[test]
fn a_frame_that_cannot_be_drawn_waits_unless_rendering_is_lost() {
    let draw = |error| frame_rendered(FrameResult::Failed(error), 0, 0, 0);
    assert_eq!(draw(SwapError::AlreadySwapped), Ok(RenderAction::Wait));
    for cause in
        [FailureCause::DeviceInactive, FailureCause::PermissionDenied, FailureCause::Other]
    {
        assert_eq!(draw(SwapError::TemporaryFailure(cause)), Ok(RenderAction::Wait));
    }
    assert_eq!(draw(SwapError::ContextLost), Err(RenderingLost));
}

#[test]
fn a_frame_that_cannot_be_queued() {
    assert_eq!(frame_queued(Ok(())), Ok(()));
    assert_eq!(frame_queued(Err(SwapError::AlreadySwapped)), Err(QueueLost::AlreadySwapped));
    assert_eq!(
        frame_queued(Err(SwapError::TemporaryFailure(FailureCause::DeviceInactive))),
        Err(QueueLost::TemporaryFailure)
    );
    assert_eq!(
        frame_queued(Err(SwapError::TemporaryFailure(FailureCause::PermissionDenied))),
        Ok(())
    );
    assert_eq!(frame_queued(Err(SwapError::TemporaryFailure(FailureCause::Other))), Ok(()));
    assert_eq!(frame_queued(Err(SwapError::ContextLost)), Err(QueueLost::ContextLost));
}

#[test]
fn the_clock_counts_signed_seconds() {
    assert_eq!(MAX_TIME, i64::MAX as u128 * 1_000_000_000 + 999_999_999);
}
