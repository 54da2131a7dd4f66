//! What holds of the record at all times: it holds at the start of a session, and everything that
//! changes the record keeps it.

use vstd::prelude::*;

use crate::formats::{FeedbackProbe, SurfaceDmabufFeedbackView};
use crate::tty::connectors::after_disconnect;
use crate::tty::feedback::after_feedback;
use crate::tty::hotplug::{fresh_device, OpenedDevice};
use crate::tty::removal::{after_disconnects, after_removal};
use crate::tty::setup::{leads_to, ConnectorSetup, SetupAction, SetupEvent};
use crate::tty::{fresh_tty, DrmNode, SurfaceView, TtyView};

verus! {

/// The feedback sends clients to the primary GPU first and last to the device that renders.
pub open spec fn feedback_fits(
    feedback: SurfaceDmabufFeedbackView,
    primary: DrmNode,
    render_node: DrmNode,
) -> bool {
    let composited = feedback.render_feedback;
    let direct = feedback.scanout_feedback;
    &&& composited.main_device == primary.dev_id
    &&& direct.main_device == primary.dev_id
    &&& composited.formats == direct.formats
    &&& composited.tranches.len() > 0
    &&& direct.tranches.len() > 0
    &&& composited.tranches.last() == direct.tranches.last()
    &&& composited.tranches.last().target_device == render_node.dev_id
    &&& !composited.tranches.last().scanout
}

/// The surface belongs to the device that it is recorded with: it names the device, is rendered
/// by the device's render node, and its feedback says so.
pub open spec fn surface_fits(tty: TtyView, node: DrmNode, surface: SurfaceView) -> bool {
    &&& surface.device_id == node
    &&& surface.render_node == tty.device(node).render_node
    &&& surface.dmabuf_feedback matches Some(feedback) ==> feedback_fits(
        feedback,
        tty.primary_render_node,
        surface.render_node,
    )
}

/// Every surface belongs to the device that it is recorded with.
pub open spec fn consistent(tty: TtyView) -> bool {
    forall|node: DrmNode, crtc: u32| #[trigger]
        tty.has_surface(node, crtc) ==> surface_fits(tty, node, tty.device(node).surfaces[crtc])
}

/// The record is consistent at the start of a session.
pub proof fn law_start_is_consistent(
    seat_name: Seq<char>,
    primary_node: DrmNode,
    primary_render_node: DrmNode,
)
    ensures
        consistent(fresh_tty(seat_name, primary_node, primary_render_node)),
{
}

/// Adding a device keeps the record consistent.
pub proof fn law_addition_keeps_consistency(tty: TtyView, node: DrmNode, opened: OpenedDevice)
    requires
        consistent(tty),
    ensures
        consistent(tty.with_device(node, fresh_device(node, opened))),
{
    let after = tty.with_device(node, fresh_device(node, opened));
    assert forall|other: DrmNode, crtc: u32| #[trigger]
        after.has_surface(other, crtc) implies surface_fits(
        after,
        other,
        after.device(other).surfaces[crtc],
    ) by {
        assert(other.dev_id != node.dev_id);
        assert(tty.has_surface(other, crtc));
    }
}

/// Setting up a connector keeps the record consistent.
pub proof fn law_setup_keeps_consistency(
    before: TtyView,
    setup: ConnectorSetup,
    event: SetupEvent,
    after: TtyView,
    next: Option<ConnectorSetup>,
    action: SetupAction,
)
    requires
        consistent(before),
        leads_to(before, setup, event, after, next, action),
    ensures
        consistent(after),
{
    assert forall|node: DrmNode, crtc: u32| #[trigger]
        after.has_surface(node, crtc) implies surface_fits(
        after,
        node,
        after.device(node).surfaces[crtc],
    ) by {
        if node.dev_id == setup.node.dev_id {
            assert(node == setup.node);
        }
        if before.has_surface(node, crtc) {
            assert(surface_fits(before, node, before.device(node).surfaces[crtc]));
        }
    }
}

/// Unplugging a connector keeps the record consistent.
pub proof fn law_disconnect_keeps_consistency(
    tty: TtyView,
    node: DrmNode,
    connector: u32,
    crtc: u32,
)
    requires
        consistent(tty),
    ensures
        consistent(after_disconnect(tty, node, connector, crtc).0),
{
    let after = after_disconnect(tty, node, connector, crtc).0;
    assert forall|n: DrmNode, c: u32| #[trigger] after.has_surface(n, c) implies surface_fits(
        after,
        n,
        after.device(n).surfaces[c],
    ) by {
        assert(tty.has_surface(n, c));
    }
}

proof fn lemma_disconnects_keep_consistency(
    tty: TtyView,
    node: DrmNode,
    connectors: Seq<(u32, u32)>,
)
    requires
        consistent(tty),
    ensures
        consistent(after_disconnects(tty, node, connectors).0),
    decreases connectors.len(),
{
    if connectors.len() > 0 {
        lemma_disconnects_keep_consistency(tty, node, connectors.drop_last());
        law_disconnect_keeps_consistency(
            after_disconnects(tty, node, connectors.drop_last()).0,
            node,
            connectors.last().0,
            connectors.last().1,
        );
    }
}

/// Removing a device keeps the record consistent.
pub proof fn law_removal_keeps_consistency(
    tty: TtyView,
    node: DrmNode,
    connectors: Seq<(u32, u32)>,
)
    requires
        consistent(tty),
    ensures
        consistent(after_removal(tty, node, connectors).0),
{
    lemma_disconnects_keep_consistency(tty, node, connectors);
    let emptied = after_disconnects(tty, node, connectors).0;
    let after = after_removal(tty, node, connectors).0;
    assert forall|n: DrmNode, c: u32| #[trigger] after.has_surface(n, c) implies surface_fits(
        after,
        n,
        after.device(n).surfaces[c],
    ) by {
        if tty.knows(node) {
            assert(emptied.has_surface(n, c));
        }
    }
}

/// Working out the feedback of a surface keeps the record consistent.
pub proof fn law_feedback_keeps_consistency(
    tty: TtyView,
    node: DrmNode,
    crtc: u32,
    probe: FeedbackProbe,
)
    requires
        consistent(tty),
    ensures
        consistent(after_feedback(tty, node, crtc, probe)),
{
    let after = after_feedback(tty, node, crtc, probe);
    assert forall|n: DrmNode, c: u32| #[trigger] after.has_surface(n, c) implies surface_fits(
        after,
        n,
        after.device(n).surfaces[c],
    ) by {
        assert(tty.has_surface(n, c));
        if n.dev_id == node.dev_id {
            assert(n == node);
        }
    }
}

/// Offering another buffer global keeps the record consistent.
pub proof fn law_global_keeps_consistency(tty: TtyView, global: Option<u64>)
    requires
        consistent(tty),
    ensures
        consistent(TtyView { dmabuf_global: global, ..tty }),
{
    let after = TtyView { dmabuf_global: global, ..tty };
    assert forall|n: DrmNode, c: u32| #[trigger] after.has_surface(n, c) implies surface_fits(
        after,
        n,
        after.device(n).surfaces[c],
    ) by {
        assert(tty.has_surface(n, c));
    }
}

/// The record of everything but one device is the same.
pub open spec fn only_device_differs(before: TtyView, after: TtyView, node: DrmNode) -> bool {
    &&& after.primary_node == before.primary_node
    &&& after.primary_render_node == before.primary_render_node
    &&& after.seat_name == before.seat_name
    &&& after.dmabuf_global == before.dmabuf_global
    &&& forall|other: DrmNode|
        other != node ==> (#[trigger] after.knows(other) <==> before.knows(other)) && (
        before.knows(other) ==> after.device(other) == before.device(other))
}

/// Setting up a connector changes the record of its own device alone, and no device comes or
/// goes.
pub proof fn law_setup_keeps_to_its_device(
    before: TtyView,
    setup: ConnectorSetup,
    event: SetupEvent,
    after: TtyView,
    next: Option<ConnectorSetup>,
    action: SetupAction,
)
    requires
        leads_to(before, setup, event, after, next, action),
    ensures
        only_device_differs(before, after, setup.node),
        after.knows(setup.node) <==> before.knows(setup.node),
{
    assert forall|other: DrmNode| other != setup.node implies (#[trigger] after.knows(other)
        <==> before.knows(other)) && (before.knows(other) ==> after.device(other) == before.device(
        other,
    )) by {
        assert(other.dev_id != setup.node.dev_id);
    }
}

/// Unplugging a connector changes the record of its own device alone, and no device comes or
/// goes.
pub proof fn law_disconnect_keeps_to_its_device(
    tty: TtyView,
    node: DrmNode,
    connector: u32,
    crtc: u32,
)
    ensures
        ({
            let after = after_disconnect(tty, node, connector, crtc).0;
            &&& only_device_differs(tty, after, node)
            &&& after.knows(node) <==> tty.knows(node)
        }),
{
    let after = after_disconnect(tty, node, connector, crtc).0;
    assert forall|other: DrmNode| other != node implies (#[trigger] after.knows(other)
        <==> tty.knows(other)) && (tty.knows(other) ==> after.device(other) == tty.device(other)) by {
        assert(other.dev_id != node.dev_id);
    }
}

} // verus!
