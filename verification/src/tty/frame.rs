//! When a surface is rendered, and what follows a frame that was shown, drawn or queued.
//! Times and durations are in nanoseconds of the monotonic clock.

use vstd::prelude::*;
use vstd::std_specs::hash::*;

use crate::tty::session::{activation, law_activation_redraws_all, SessionAction};
use crate::tty::{lists, DrmNode, Tty, TtyView};

verus! {

broadcast use group_hash_axioms;

/// The last time that the clock can tell.
pub const MAX_TIME: u128 = 9_223_372_036_854_775_807_999_999_999;

/// The frame was shown in step with the display.
pub const VSYNC: u32 = 1;

/// The time comes from the hardware.
pub const HW_CLOCK: u32 = 2;

/// The hardware said that the frame is shown.
pub const HW_COMPLETION: u32 = 4;

/// When the display started to show a frame, if the clock is the one that is kept here.
#[derive(Clone, Copy, PartialEq, Eq, Structural, Debug)]
pub enum EventTime {
    Monotonic(u128),
    Realtime,
}

/// What clients are told of a frame that is shown.
#[derive(Clone, Copy, PartialEq, Eq, Structural, Debug)]
pub struct Presentation {
    pub time: u128,
    pub sequence: u64,
    pub flags: u32,
}

/// What is known of a frame that is shown: the hardware's time where it can be used, else the
/// present time, which vouches for no more than the step with the display.
pub open spec fn presentation_of(time: EventTime, sequence: u32, now: u128) -> Presentation {
    match time {
        EventTime::Monotonic(time) => Presentation {
            time,
            sequence: sequence as u64,
            flags: VSYNC | HW_CLOCK | HW_COMPLETION,
        },
        EventTime::Realtime => Presentation {
            time: now,
            sequence: sequence as u64,
            flags: VSYNC,
        },
    }
}

/// What stood behind a failure that may pass.
#[derive(Clone, Copy, PartialEq, Eq, Structural, Debug)]
pub enum FailureCause {
    /// The session has not got the device.
    DeviceInactive,
    /// The device was refused.
    PermissionDenied,
    Other,
}

/// Why a frame could not be drawn, queued or finished.
#[derive(Clone, Copy, PartialEq, Eq, Structural, Debug)]
pub enum SwapError {
    AlreadySwapped,
    TemporaryFailure(FailureCause),
    ContextLost,
}

/// What finishing a frame came to.
#[derive(Clone, Copy, PartialEq, Eq, Structural, Debug)]
pub enum SubmitResult {
    /// The frame is shown; clients may be waiting to be told.
    Submitted { feedback: bool },
    Failed(SwapError),
}

/// The surface is rendered again after the frame was finished or could not be. A device that
/// the session has not got is left alone: it is redrawn when the session comes back.
pub open spec fn renders_again(result: SubmitResult) -> bool {
    match result {
        SubmitResult::Submitted { .. } => true,
        SubmitResult::Failed(SwapError::AlreadySwapped) => true,
        SubmitResult::Failed(SwapError::TemporaryFailure(cause)) => cause
            == FailureCause::PermissionDenied,
        SubmitResult::Failed(SwapError::ContextLost) => false,
    }
}

/// Rendering cannot go on.
#[derive(Clone, Copy, PartialEq, Eq, Structural, Debug)]
pub struct RenderingLost;

/// What clients are told of a frame that is shown, and how long it is shown.
#[derive(Clone, Copy, PartialEq, Eq, Structural, Debug)]
pub struct Presented {
    pub presentation: Presentation,
    pub frame_duration: u128,
}

/// What follows a frame that was finished.
#[derive(Clone, Copy, PartialEq, Eq, Structural, Debug)]
pub struct FrameDone {
    /// Clients that wait for it are told this.
    pub presented: Option<Presented>,
    /// The surface is rendered for this time once the pending events are handled.
    pub next_target: Option<u128>,
}

/// What follows a frame that was finished, given how long the output shows a frame. Without a
/// mode the output shows none, and nothing follows.
pub open spec fn frame_follow_up(
    presentation: Presentation,
    result: SubmitResult,
    frame_duration: Option<u128>,
) -> Result<FrameDone, RenderingLost> {
    match frame_duration {
        None => Ok(FrameDone { presented: None, next_target: None }),
        Some(duration) => if result == SubmitResult::Failed(SwapError::ContextLost) {
            Err(RenderingLost)
        } else {
            Ok(
                FrameDone {
                    presented: if result == (SubmitResult::Submitted { feedback: true }) {
                        Some(Presented { presentation, frame_duration: duration })
                    } else {
                        None
                    },
                    next_target: if renders_again(result) {
                        Some((presentation.time + duration) as u128)
                    } else {
                        None
                    },
                },
            )
        },
    }
}

/// What drawing a frame came to.
#[derive(Clone, Copy, PartialEq, Eq, Structural, Debug)]
pub enum FrameResult {
    /// There is something new to show.
    Rendered,
    /// Nothing has changed.
    Empty,
    Failed(SwapError),
}

/// What follows a frame that was drawn.
#[derive(Clone, Copy, PartialEq, Eq, Structural, Debug)]
pub enum RenderAction {
    /// Tell clients where they are shown, and queue the frame.
    QueueFrame,
    /// Render again for the target, after the delay.
    RenderLater { target: u128, delay: u128 },
    /// Nothing.
    Wait,
}

/// How long a frame lasts at a rate in thousandths of a hertz, in whole milliseconds.
pub open spec fn frame_period(refresh: u64) -> int
    recommends
        refresh != 0,
{
    (1_000_000int / refresh as int) * 1_000_000
}

/// What follows a frame that was drawn for a target time.
pub open spec fn draw_follow_up(
    result: FrameResult,
    frame_target: u128,
    refresh: u64,
    now: u128,
) -> Result<RenderAction, RenderingLost> {
    match result {
        FrameResult::Rendered => Ok(RenderAction::QueueFrame),
        FrameResult::Empty => {
            let target = frame_target + frame_period(refresh);
            Ok(
                RenderAction::RenderLater {
                    target: target as u128,
                    delay: (if target > now {
                        target - now
                    } else {
                        0
                    }) as u128,
                },
            )
        },
        FrameResult::Failed(SwapError::ContextLost) => Err(RenderingLost),
        FrameResult::Failed(_) => Ok(RenderAction::Wait),
    }
}

/// Why a frame that was drawn could not be queued, in a way that ends rendering.
#[derive(Clone, Copy, PartialEq, Eq, Structural, Debug)]
pub enum QueueLost {
    AlreadySwapped,
    TemporaryFailure,
    ContextLost,
}

/// What follows queueing a frame. A failure that may pass ends rendering only where the session
/// has not got the device.
pub open spec fn queue_follow_up(result: Result<(), SwapError>) -> Result<(), QueueLost> {
    match result {
        Ok(_) => Ok(()),
        Err(SwapError::AlreadySwapped) => Err(QueueLost::AlreadySwapped),
        Err(SwapError::TemporaryFailure(cause)) => if cause == FailureCause::DeviceInactive {
            Err(QueueLost::TemporaryFailure)
        } else {
            Ok(())
        },
        Err(SwapError::ContextLost) => Err(QueueLost::ContextLost),
    }
}

impl Tty {
    /// The display began to show a frame. Gives what clients are to be told of it, or nothing
    /// where there is no such surface and so no frame to finish.
    pub fn on_vblank(
        &self,
        node: DrmNode,
        crtc: u32,
        time: EventTime,
        sequence: u32,
        now: u128,
    ) -> (presentation: Option<Presentation>)
        ensures
            presentation == if self@.has_surface(node, crtc) {
                Some(presentation_of(time, sequence, now))
            } else {
                None
            },
    {
        if self.render_output(node, crtc).is_none() {
            return None;
        }
        match time {
            EventTime::Monotonic(time) => Some(
                Presentation {
                    time,
                    sequence: sequence as u64,
                    flags: VSYNC | HW_CLOCK | HW_COMPLETION,
                },
            ),
            EventTime::Realtime => Some(
                Presentation { time: now, sequence: sequence as u64, flags: VSYNC },
            ),
        }
    }

    /// The node that is to render a surface, or nothing where there is no such surface.
    pub fn render_output(&self, node: DrmNode, crtc: u32) -> (render_node: Option<DrmNode>)
        ensures
            render_node == if self@.has_surface(node, crtc) {
                Some(self@.device(node).surfaces[crtc].render_node)
            } else {
                None
            },
    {
        match self.devices.get(&node.dev_id) {
            Some(device) => match device.surfaces.get(&crtc) {
                Some(surface) => Some(surface.render_node),
                None => None,
            },
            None => None,
        }
    }
}

/// What follows a frame that was finished, given how long the output shows a frame.
pub fn frame_submitted(
    presentation: Presentation,
    result: SubmitResult,
    frame_duration: Option<u128>,
) -> (done: Result<FrameDone, RenderingLost>)
    requires
        frame_duration is Some && renders_again(result) ==> presentation.time
            + frame_duration->Some_0 <= MAX_TIME,
    ensures
        done == frame_follow_up(presentation, result, frame_duration),
{
    let duration: u128 = match frame_duration {
        Some(duration) => duration,
        None => {
            return Ok(FrameDone { presented: None, next_target: None });
        },
    };
    let mut presented: Option<Presented> = None;
    let again: bool = match result {
        SubmitResult::Submitted { feedback } => {
            if feedback {
                presented = Some(Presented { presentation, frame_duration: duration });
            }
            true
        },
        SubmitResult::Failed(SwapError::AlreadySwapped) => true,
        SubmitResult::Failed(SwapError::TemporaryFailure(cause)) => match cause {
            FailureCause::PermissionDenied => true,
            _ => false,
        },
        SubmitResult::Failed(SwapError::ContextLost) => {
            return Err(RenderingLost);
        },
    };
    let next_target: Option<u128> = if again {
        Some(presentation.time + duration)
    } else {
        None
    };
    Ok(FrameDone { presented, next_target })
}

/// What follows a frame that was drawn for a target time, at a rate in thousandths of a hertz.
pub fn frame_rendered(result: FrameResult, frame_target: u128, refresh: u64, now: u128) -> (action:
    Result<RenderAction, RenderingLost>)
    requires
        result is Empty ==> refresh != 0 && frame_target + frame_period(refresh) <= MAX_TIME,
    ensures
        action == draw_follow_up(result, frame_target, refresh, now),
{
    match result {
        FrameResult::Rendered => Ok(RenderAction::QueueFrame),
        FrameResult::Empty => {
            let millis: u64 = 1_000_000 / refresh;
            assert(millis <= 1_000_000) by (nonlinear_arith)
                requires
                    refresh != 0,
                    millis == 1_000_000u64 / refresh,
            ;
            let period: u128 = (millis * 1_000_000) as u128;
            let target: u128 = frame_target + period;
            let delay: u128 = if target > now {
                target - now
            } else {
                0
            };
            Ok(RenderAction::RenderLater { target, delay })
        },
        FrameResult::Failed(SwapError::ContextLost) => Err(RenderingLost),
        FrameResult::Failed(_) => Ok(RenderAction::Wait),
    }
}

/// What follows queueing a frame.
pub fn frame_queued(result: Result<(), SwapError>) -> (res: Result<(), QueueLost>)
    ensures
        res == queue_follow_up(result),
{
    match result {
        Ok(_) => Ok(()),
        Err(SwapError::AlreadySwapped) => Err(QueueLost::AlreadySwapped),
        Err(SwapError::TemporaryFailure(cause)) => match cause {
            FailureCause::DeviceInactive => Err(QueueLost::TemporaryFailure),
            _ => Ok(()),
        },
        Err(SwapError::ContextLost) => Err(QueueLost::ContextLost),
    }
}

/// A surface whose device the session has not got is not rendered after a frame; but it is when
/// the session comes back.
pub proof fn law_inactive_device_waits_for_session(
    tty: TtyView,
    devices: Seq<u64>,
    node: DrmNode,
    crtc: u32,
    presentation: Presentation,
    frame_duration: Option<u128>,
)
    requires
        lists(devices, tty.devices.dom()),
        tty.has_surface(node, crtc),
    ensures
        frame_follow_up(
            presentation,
            SubmitResult::Failed(SwapError::TemporaryFailure(FailureCause::DeviceInactive)),
            frame_duration,
        ) == Ok::<FrameDone, RenderingLost>(FrameDone { presented: None, next_target: None }),
        activation(devices).contains(SessionAction::RedrawDevice(node)),
{
    law_activation_redraws_all(tty, devices, node, crtc);
}

/// Frames follow each other on an output that has a mode: after a frame that is shown the surface
/// is rendered for the end of that frame, and clients are told of it if they wait. A failure that
/// may pass stops the surface unless the device was merely refused.
pub proof fn law_frames_follow_each_other(
    presentation: Presentation,
    result: SubmitResult,
    duration: u128,
    done: FrameDone,
)
    requires
        presentation.time + duration <= MAX_TIME,
        frame_follow_up(presentation, result, Some(duration)) == Ok::<FrameDone, RenderingLost>(
            done,
        ),
    ensures
        result is Submitted ==> done.next_target is Some,
        done.next_target is None <==> (result matches SubmitResult::Failed(
            SwapError::TemporaryFailure(cause),
        ) && cause != FailureCause::PermissionDenied),
        done.next_target matches Some(target) ==> target == presentation.time + duration && target
            <= MAX_TIME,
        done.presented is Some <==> result == (SubmitResult::Submitted { feedback: true }),
        done.presented matches Some(told) ==> told == (Presented {
            presentation,
            frame_duration: duration,
        }),
{
}

/// Rendering ends for one reason while frames are finished or drawn: the context is lost. When a
/// frame is queued it also ends where the last one was not shown yet or the session has not got
/// the device.
pub proof fn law_rendering_ends_only_when_lost(
    presentation: Presentation,
    submitted: SubmitResult,
    duration: u128,
    drawn: FrameResult,
    frame_target: u128,
    refresh: u64,
    now: u128,
    queued: Result<(), SwapError>,
)
    ensures
        frame_follow_up(presentation, submitted, Some(duration)) is Err <==> submitted
            == SubmitResult::Failed(SwapError::ContextLost),
        draw_follow_up(drawn, frame_target, refresh, now) is Err <==> drawn == FrameResult::Failed(
            SwapError::ContextLost,
        ),
        queue_follow_up(queued) is Err <==> (queued matches Err(error) && (error
            == SwapError::ContextLost || error == SwapError::AlreadySwapped || error
            == SwapError::TemporaryFailure(FailureCause::DeviceInactive))),
{
}

/// A frame without changes is tried again one whole-millisecond period after its target: at that
/// time if it is still to come, else at once.
pub proof fn law_retry_meets_its_target(frame_target: u128, refresh: u64, now: u128)
    requires
        refresh != 0,
        frame_target + frame_period(refresh) <= MAX_TIME,
    ensures
        draw_follow_up(FrameResult::Empty, frame_target, refresh, now) matches Ok(
            RenderAction::RenderLater { target, delay },
        ) && {
            &&& target == frame_target + frame_period(refresh)
            &&& target >= frame_target
            &&& now <= target ==> now + delay == target
            &&& now > target ==> delay == 0
        },
{
    assert(frame_period(refresh) >= 0) by (nonlinear_arith)
        requires
            refresh != 0,
    ;
}

/// A frame of a surface that is there is finished, and of no other. Clients are told the
/// hardware's time as it is where it is of the monotonic clock, and the present time where it is
/// not; they are told the number of the frame; and that the time is the hardware's only where it
/// is.
pub proof fn law_vblank_tells_the_time(
    tty: &Tty,
    node: DrmNode,
    crtc: u32,
    time: EventTime,
    sequence: u32,
    now: u128,
    presentation: Option<Presentation>,
)
    requires
        call_ensures(Tty::on_vblank, (tty, node, crtc, time, sequence, now), presentation),
    ensures
        presentation is Some <==> tty@.devices.contains_key(node.dev_id)
            && tty@.devices[node.dev_id].surfaces.contains_key(crtc),
        presentation matches Some(told) ==> {
            &&& time matches EventTime::Monotonic(shown) ==> told.time == shown && told.flags == 7
            &&& time is Realtime ==> told.time == now && told.flags == 1
            &&& told.sequence == sequence
        },
{
    assert(1u32 | 2u32 | 4u32 == 7u32) by (bit_vector);
}

/// A surface that is there is rendered, by its own render node, and no other is.
pub proof fn law_render_output(
    tty: &Tty,
    node: DrmNode,
    crtc: u32,
    render_node: Option<DrmNode>,
)
    requires
        call_ensures(Tty::render_output, (tty, node, crtc), render_node),
    ensures
        render_node is Some <==> tty@.devices.contains_key(node.dev_id)
            && tty@.devices[node.dev_id].surfaces.contains_key(crtc),
        render_node matches Some(n) ==> n == tty@.devices[node.dev_id].surfaces[crtc].render_node,
{
}

/// Without a mode nothing follows a frame. With one, a lost context ends rendering and nothing
/// else does; a frame that is shown is told to the clients that wait for it, as it was presented
/// and for as long as the mode shows a frame; and the next frame is rendered for that much later,
/// but not after a failure that may pass, unless the device was refused.
pub proof fn law_frame_submitted(
    presentation: Presentation,
    result: SubmitResult,
    frame_duration: Option<u128>,
    done: Result<FrameDone, RenderingLost>,
)
    requires
        frame_duration is Some ==> presentation.time + frame_duration->Some_0 <= MAX_TIME,
        call_ensures(frame_submitted, (presentation, result, frame_duration), done),
    ensures
        done is Err <==> frame_duration is Some && result == SubmitResult::Failed(
            SwapError::ContextLost,
        ),
        done matches Ok(d) ==> {
            &&& d.presented is Some <==> frame_duration is Some && (result
                matches SubmitResult::Submitted { feedback } && feedback)
            &&& d.presented matches Some(told) ==> told.presentation == presentation
                && frame_duration == Some(told.frame_duration)
            &&& d.next_target is Some <==> frame_duration is Some && (result is Submitted || result
                == SubmitResult::Failed(SwapError::AlreadySwapped) || result
                == SubmitResult::Failed(
                SwapError::TemporaryFailure(FailureCause::PermissionDenied),
            ))
            &&& d.next_target matches Some(target) ==> target == presentation.time
                + frame_duration->Some_0
        },
{
}

/// A frame with something new is queued. One without is tried again later than its target by as
/// many whole milliseconds as a period at that rate lasts: after what is left until then, or at
/// once where nothing is left. A frame that failed waits, unless the context is lost.
pub proof fn law_frame_rendered(
    result: FrameResult,
    frame_target: u128,
    refresh: u64,
    now: u128,
    action: Result<RenderAction, RenderingLost>,
    millis: int,
)
    requires
        result is Empty ==> refresh > 0 && millis * refresh <= 1_000_000 < (millis + 1) * refresh,
        result is Empty ==> frame_target + millis * 1_000_000 <= MAX_TIME,
        call_ensures(frame_rendered, (result, frame_target, refresh, now), action),
    ensures
        action is Err <==> result == FrameResult::Failed(SwapError::ContextLost),
        result is Rendered <==> action == Ok::<RenderAction, RenderingLost>(
            RenderAction::QueueFrame,
        ),
        result is Empty <==> action is Ok && action->Ok_0 is RenderLater,
        action matches Ok(RenderAction::RenderLater { target, delay }) ==> {
            &&& target == frame_target + millis * 1_000_000
            &&& target >= now ==> now + delay == target
            &&& target < now ==> delay == 0
        },
{
    if result is Empty {
        assert(1_000_000int / refresh as int == millis) by (nonlinear_arith)
            requires
                refresh > 0,
                millis * refresh <= 1_000_000 < (millis + 1) * refresh,
        ;
        assert(millis >= 0) by (nonlinear_arith)
            requires
                refresh > 0,
                1_000_000 < (millis + 1) * refresh,
        ;
    }
}

/// Queueing a frame ends rendering where the last frame was not shown yet, where the session has
/// not got the device and where the context is lost, each told apart, and in no other way.
pub proof fn law_frame_queued(result: Result<(), SwapError>, res: Result<(), QueueLost>)
    requires
        call_ensures(frame_queued, (result,), res),
    ensures
        res == Err::<(), QueueLost>(QueueLost::AlreadySwapped) <==> result == Err::<(), SwapError>(
            SwapError::AlreadySwapped,
        ),
        res == Err::<(), QueueLost>(QueueLost::TemporaryFailure) <==> result == Err::<
            (),
            SwapError,
        >(SwapError::TemporaryFailure(FailureCause::DeviceInactive)),
        res == Err::<(), QueueLost>(QueueLost::ContextLost) <==> result == Err::<(), SwapError>(
            SwapError::ContextLost,
        ),
{
}

/// What follows a frame can be asked of every frame whose follow-up the clock can still tell: up
/// to the last nanosecond of the largest number of seconds that fits in 63 bits. Where nothing is
/// rendered again the clock does not matter.
pub proof fn law_frames_are_accepted(
    presentation: Presentation,
    submitted: SubmitResult,
    frame_duration: Option<u128>,
    drawn: FrameResult,
    frame_target: u128,
    refresh: u64,
    now: u128,
)
    ensures
        frame_duration is None || presentation.time + frame_duration->Some_0
            <= 0x7fff_ffff_ffff_ffff * 1_000_000_000 + 999_999_999 ==> call_requires(
            frame_submitted,
            (presentation, submitted, frame_duration),
        ),
        drawn !is Empty ==> call_requires(frame_rendered, (drawn, frame_target, refresh, now)),
        refresh != 0 && frame_target + 1_000_000_000_000 <= 0x7fff_ffff_ffff_ffff * 1_000_000_000
            + 999_999_999 ==> call_requires(frame_rendered, (drawn, frame_target, refresh, now)),
{
    if refresh != 0 {
        assert(1_000_000int / refresh as int <= 1_000_000) by (nonlinear_arith)
            requires
                refresh > 0,
        ;
    }
}

} // verus!
