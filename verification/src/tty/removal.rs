//! What becomes of a device that is unplugged.

use std::collections::HashMap;

use vstd::prelude::*;
use vstd::std_specs::hash::*;

use crate::tty::connectors::{
    after_disconnect, first_entry, lemma_first_entry_is_first, lemma_no_entry,
};
use crate::tty::hotplug::{fresh_device, OpenedDevice};
use crate::tty::{
    key_list, lemma_take_contains, lists, DrmNode, GpuDevice, GpuDeviceView, Surface, SurfaceView,
    Tty, TtyView,
};

verus! {

broadcast use group_hash_axioms;

/// The surface without feedback.
pub open spec fn surface_cleared(surface: SurfaceView) -> SurfaceView {
    SurfaceView { dmabuf_feedback: None, ..surface }
}

/// The device with all its surfaces without feedback.
pub open spec fn device_cleared(device: GpuDeviceView) -> GpuDeviceView {
    GpuDeviceView {
        surfaces: device.surfaces.map_values(|s: SurfaceView| surface_cleared(s)),
        ..device
    }
}

/// All devices with all their surfaces without feedback.
pub open spec fn all_cleared(devices: Map<u64, GpuDeviceView>) -> Map<u64, GpuDeviceView> {
    devices.map_values(|d: GpuDeviceView| device_cleared(d))
}

/// Takes the feedback off all surfaces of a device.
fn clear_surfaces(surfaces: HashMap<u32, Surface>) -> (cleared: HashMap<u32, Surface>)
    ensures
        cleared@.map_values(|s: Surface| s@) == surfaces@.map_values(
            |s: Surface| surface_cleared(s@),
        ),
{
    let keys: Vec<u32> = key_list(&surfaces);
    let ghost all = surfaces@;
    let mut left = surfaces;
    let mut cleared: HashMap<u32, Surface> = HashMap::new();
    let mut i: usize = 0;
    while i < keys.len()
        invariant
            i <= keys.len(),
            lists(keys@, all.dom()),
            forall|k: u32| #[trigger]
                left@.contains_key(k) <==> all.contains_key(k) && !keys@.take(i as int).contains(k),
            forall|k: u32| #[trigger] left@.contains_key(k) ==> left@[k] == all[k],
            forall|k: u32| #[trigger]
                cleared@.contains_key(k) <==> keys@.take(i as int).contains(k),
            forall|k: u32| #[trigger]
                cleared@.contains_key(k) ==> cleared@[k]@ == surface_cleared(all[k]@),
        decreases keys.len() - i,
    {
        let key: u32 = keys[i];
        proof {
            assert(keys@.to_set().contains(key));
            assert(!keys@.take(i as int).contains(key));
            lemma_take_contains(keys@, i as int);
        }
        match left.remove(&key) {
            Some(surface) => {
                cleared.insert(
                    key,
                    Surface {
                        output: surface.output,
                        device_id: surface.device_id,
                        render_node: surface.render_node,
                        dmabuf_feedback: None,
                    },
                );
            },
            None => {},
        }
        i = i + 1;
    }
    proof {
        assert(keys@.take(i as int) =~= keys@);
        assert forall|k: u32| #[trigger] cleared@.contains_key(k) <==> all.contains_key(k) by {
            assert(keys@.to_set().contains(k) <==> all.dom().contains(k));
        }
        assert(cleared@.map_values(|s: Surface| s@) =~= all.map_values(
            |s: Surface| surface_cleared(s@),
        ));
    }
    cleared
}

impl Tty {
    /// Takes the feedback off all surfaces of all devices.
    fn clear_feedback(&mut self)
        ensures
            final(self)@ == (TtyView { devices: all_cleared(old(self)@.devices), ..old(self)@ }),
    {
        let keys: Vec<u64> = key_list(&self.devices);
        let ghost all = self.devices@;
        let mut i: usize = 0;
        while i < keys.len()
            invariant
                i <= keys.len(),
                all == old(self).devices@,
                lists(keys@, all.dom()),
                self.primary_node == old(self).primary_node,
                self.primary_render_node == old(self).primary_render_node,
                self.seat_name == old(self).seat_name,
                self.dmabuf_global == old(self).dmabuf_global,
                forall|k: u64| #[trigger] self.devices@.contains_key(k) <==> all.contains_key(k),
                forall|k: u64| #[trigger]
                    self.devices@.contains_key(k) ==> self.devices@[k]@ == if keys@.take(
                        i as int,
                    ).contains(k) {
                        device_cleared(all[k]@)
                    } else {
                        all[k]@
                    },
            decreases keys.len() - i,
        {
            let key: u64 = keys[i];
            proof {
                assert(keys@.to_set().contains(key));
                assert(!keys@.take(i as int).contains(key));
                lemma_take_contains(keys@, i as int);
            }
            match self.devices.remove(&key) {
                Some(device) => {
                    proof {
                        use_type_invariant(&device);
                    }
                    let GpuDevice { token, render_node, surfaces, non_desktop_connectors } = device;
                    let surfaces = clear_surfaces(surfaces);
                    let cleared = GpuDevice { token, render_node, surfaces, non_desktop_connectors };
                    assert(cleared@.surfaces =~= device_cleared(all[key]@).surfaces);
                    assert(cleared@ =~= device_cleared(all[key]@));
                    self.devices.insert(key, cleared);
                },
                None => {},
            }
            i = i + 1;
        }
        proof {
            assert(keys@.take(i as int) =~= keys@);
            assert forall|k: u64| #[trigger] all.contains_key(k) implies keys@.contains(k) by {
                assert(keys@.to_set().contains(k));
            }
            assert(self@.devices =~= all_cleared(old(self)@.devices));
        }
    }
}

/// What is left after all the connectors, each with its CRTC, were disconnected one after the
/// other, and the outputs that went with them.
pub open spec fn after_disconnects(
    tty: TtyView,
    node: DrmNode,
    connectors: Seq<(u32, u32)>,
) -> (TtyView, Seq<u64>)
    decreases connectors.len(),
{
    if connectors.len() == 0 {
        (tty, Seq::empty())
    } else {
        let (before, outputs) = after_disconnects(tty, node, connectors.drop_last());
        let (connector, crtc) = connectors.last();
        let (after, output) = after_disconnect(before, node, connector, crtc);
        (
            after,
            match output {
                Some(o) => outputs.push(o),
                None => outputs,
            },
        )
    }
}

/// How long a disabled global is kept before it is destroyed, in seconds.
pub const GLOBAL_GRACE_SECONDS: u64 = 10;

/// What is done about a device that is gone.
#[derive(Clone, Copy, PartialEq, Eq, Structural, Debug)]
pub enum RemovalAction {
    /// Take the output away.
    RemoveOutput(u64),
    /// End hardware acceleration on the renderer of this node.
    UnbindDisplay(DrmNode),
    /// Offer the buffer global no longer.
    DisableGlobal(u64),
    /// Destroy the buffer global after the time has passed.
    DestroyGlobalLater { global: u64, seconds: u64 },
    /// Take the render node from the GPU manager.
    RemoveRenderNode(DrmNode),
    /// Take the event source from the event loop.
    RemoveSource(u64),
}

/// The primary GPU is the one that is removed or the one that renders for it.
pub open spec fn serves_primary(tty: TtyView, node: DrmNode, render_node: DrmNode) -> bool {
    node == tty.primary_node || render_node == tty.primary_render_node
}

/// What is left of the buffer global after a device was removed, and what is done about it.
pub open spec fn after_primary_loss(tty: TtyView, render_node: DrmNode) -> (
    TtyView,
    Seq<RemovalAction>,
) {
    match tty.dmabuf_global {
        Some(global) => (
            TtyView { devices: all_cleared(tty.devices), dmabuf_global: None, ..tty },
            seq![
                RemovalAction::UnbindDisplay(render_node),
                RemovalAction::DisableGlobal(global),
                RemovalAction::DestroyGlobalLater { global, seconds: GLOBAL_GRACE_SECONDS },
            ],
        ),
        None => (tty, seq![RemovalAction::UnbindDisplay(render_node)]),
    }
}

/// What is left after a device was removed, and what is done about it. The connectors are those
/// that the device drove at last.
pub open spec fn after_removal(tty: TtyView, node: DrmNode, connectors: Seq<(u32, u32)>) -> (
    TtyView,
    Seq<RemovalAction>,
) {
    if !tty.knows(node) {
        (tty, Seq::empty())
    } else {
        let (emptied, outputs) = after_disconnects(tty, node, connectors);
        let device = emptied.device(node);
        let without = TtyView { devices: emptied.devices.remove(node.dev_id), ..emptied };
        let (last, on_primary) = if serves_primary(tty, node, device.render_node) {
            after_primary_loss(without, device.render_node)
        } else {
            (without, Seq::empty())
        };
        (
            last,
            outputs.map_values(|o: u64| RemovalAction::RemoveOutput(o)) + on_primary + seq![
                RemovalAction::RemoveRenderNode(device.render_node),
                RemovalAction::RemoveSource(device.token),
            ],
        )
    }
}

proof fn lemma_disconnects_keep(tty: TtyView, node: DrmNode, connectors: Seq<(u32, u32)>)
    ensures
        ({
            let after = after_disconnects(tty, node, connectors).0;
            &&& after.primary_node == tty.primary_node
            &&& after.primary_render_node == tty.primary_render_node
            &&& after.seat_name == tty.seat_name
            &&& after.dmabuf_global == tty.dmabuf_global
            &&& after.devices.dom() == tty.devices.dom()
            &&& forall|k: u64|
                k != node.dev_id && #[trigger] tty.devices.contains_key(k) ==> after.devices[k]
                    == tty.devices[k]
            &&& tty.knows(node) ==> {
                &&& after.device(node).token == tty.device(node).token
                &&& after.device(node).render_node == tty.device(node).render_node
            }
        }),
    decreases connectors.len(),
{
    if connectors.len() > 0 {
        let before = after_disconnects(tty, node, connectors.drop_last()).0;
        lemma_disconnects_keep(tty, node, connectors.drop_last());
        let after = after_disconnects(tty, node, connectors).0;
        assert(after.devices.dom() =~= tty.devices.dom());
    }
}

impl Tty {
    /// Records that a device is gone, with the connectors that it drove at last and their CRTCs.
    /// Gives what is to be done, in this order.
    pub fn device_removed(&mut self, node: DrmNode, connectors: &Vec<(u32, u32)>) -> (actions: Vec<
        RemovalAction,
    >)
        ensures
            (final(self)@, actions@) == after_removal(old(self)@, node, connectors@),
    {
        let mut actions: Vec<RemovalAction> = Vec::new();
        if !self.devices.contains_key(&node.dev_id) {
            return actions;
        }
        let ghost start = self@;
        let ghost remove_output = |o: u64| RemovalAction::RemoveOutput(o);
        let mut i: usize = 0;
        assert(actions@ =~= after_disconnects(start, node, connectors@.take(0)).1.map_values(
            remove_output,
        ));
        while i < connectors.len()
            invariant
                i <= connectors.len(),
                remove_output == (|o: u64| RemovalAction::RemoveOutput(o)),
                self@ == after_disconnects(start, node, connectors@.take(i as int)).0,
                actions@ == after_disconnects(start, node, connectors@.take(i as int)).1.map_values(
                    remove_output,
                ),
            decreases connectors.len() - i,
        {
            let (connector, crtc) = connectors[i];
            assert(connectors@.take(i + 1).drop_last() =~= connectors@.take(i as int));
            let ghost outputs = after_disconnects(start, node, connectors@.take(i as int)).1;
            match self.connector_disconnected(node, connector, crtc) {
                Some(output) => {
                    actions.push(RemovalAction::RemoveOutput(output));
                    assert(actions@ =~= outputs.push(output).map_values(remove_output));
                },
                None => {},
            }
            i = i + 1;
        }
        assert(connectors@.take(i as int) =~= connectors@);
        proof {
            lemma_disconnects_keep(start, node, connectors@);
        }
        let ghost outputs = actions@;
        let ghost emptied = self@;
        let device = match self.devices.remove(&node.dev_id) {
            Some(device) => device,
            None => {
                assert(false);
                return actions;
            },
        };
        let ghost without = TtyView {
            devices: emptied.devices.remove(node.dev_id),
            ..emptied
        };
        assert(self@ =~= without);
        let token: u64 = device.token;
        let render_node: DrmNode = device.render_node;
        let ghost mut on_primary: Seq<RemovalAction> = Seq::empty();
        if node == self.primary_node || render_node == self.primary_render_node {
            actions.push(RemovalAction::UnbindDisplay(render_node));
            match self.dmabuf_global {
                Some(global) => {
                    self.dmabuf_global = None;
                    actions.push(RemovalAction::DisableGlobal(global));
                    actions.push(
                        RemovalAction::DestroyGlobalLater { global, seconds: GLOBAL_GRACE_SECONDS },
                    );
                    self.clear_feedback();
                },
                None => {},
            }
            proof {
                on_primary = after_primary_loss(without, render_node).1;
                assert(self@ =~= after_primary_loss(without, render_node).0);
            }
        }
        assert(actions@ =~= outputs + on_primary);
        actions.push(RemovalAction::RemoveRenderNode(render_node));
        actions.push(RemovalAction::RemoveSource(token));
        assert(actions@ =~= after_removal(start, node, connectors@).1);
        actions
    }
}

/// A device that is removed is forgotten, and no other is: the others keep everything but, where
/// the buffer global is withdrawn, the feedback of their surfaces.
pub proof fn law_removal_forgets_one_device(
    tty: TtyView,
    node: DrmNode,
    connectors: Seq<(u32, u32)>,
    other: DrmNode,
)
    requires
        tty.knows(node),
    ensures
        ({
            let after = after_removal(tty, node, connectors).0;
            &&& after.primary_node == tty.primary_node
            &&& after.primary_render_node == tty.primary_render_node
            &&& after.seat_name == tty.seat_name
            &&& after.devices.dom() == tty.devices.dom().remove(node.dev_id)
            &&& !after.knows(node)
            &&& other != node && tty.knows(other) ==> after.knows(other) && (after.device(other)
                == tty.device(other) || after.device(other) == device_cleared(tty.device(other)))
        }),
{
    lemma_disconnects_keep(tty, node, connectors);
    let after = after_removal(tty, node, connectors).0;
    assert(after.devices.dom() =~= tty.devices.dom().remove(node.dev_id));
    if other != node {
        assert(other.dev_id != node.dev_id);
    }
}

/// When the primary GPU goes, or the device that renders for it, the buffer global goes too, and
/// no surface keeps feedback that names it; otherwise the global stays.
pub proof fn law_global_goes_with_primary(
    tty: TtyView,
    node: DrmNode,
    connectors: Seq<(u32, u32)>,
    other: DrmNode,
    crtc: u32,
)
    requires
        tty.knows(node),
    ensures
        ({
            let (after, actions) = after_removal(tty, node, connectors);
            let render_node = tty.device(node).render_node;
            if serves_primary(tty, node, render_node) {
                &&& after.dmabuf_global is None
                &&& actions.contains(RemovalAction::UnbindDisplay(render_node))
                &&& tty.dmabuf_global matches Some(global) ==> {
                    &&& actions.contains(RemovalAction::DisableGlobal(global))
                    &&& actions.contains(
                        RemovalAction::DestroyGlobalLater { global, seconds: GLOBAL_GRACE_SECONDS },
                    )
                    &&& after.has_surface(other, crtc) ==> after.device(
                        other,
                    ).surfaces[crtc].dmabuf_feedback is None
                }
            } else {
                after.dmabuf_global == tty.dmabuf_global
            }
        }),
{
    lemma_disconnects_keep(tty, node, connectors);
    let (emptied, outputs) = after_disconnects(tty, node, connectors);
    let (after, actions) = after_removal(tty, node, connectors);
    let render_node = tty.device(node).render_node;
    let n = outputs.len() as int;
    if serves_primary(tty, node, render_node) {
        assert(actions[n] == RemovalAction::UnbindDisplay(render_node));
        if let Some(global) = tty.dmabuf_global {
            assert(actions[n + 1] == RemovalAction::DisableGlobal(global));
            assert(actions[n + 2] == RemovalAction::DestroyGlobalLater {
                global,
                seconds: GLOBAL_GRACE_SECONDS,
            });
        }
    }
}

proof fn lemma_entries_stay_away(
    tty: TtyView,
    node: DrmNode,
    connectors: Seq<(u32, u32)>,
    connector: u32,
)
    requires
        tty.knows(node),
        first_entry(tty.device(node).non_desktop, connector) is None,
    ensures
        after_disconnects(tty, node, connectors).0.knows(node),
        first_entry(
            after_disconnects(tty, node, connectors).0.device(node).non_desktop,
            connector,
        ) is None,
    decreases connectors.len(),
{
    lemma_disconnects_keep(tty, node, connectors);
    if connectors.len() > 0 {
        lemma_disconnects_keep(tty, node, connectors.drop_last());
        lemma_entries_stay_away(tty, node, connectors.drop_last(), connector);
        let before = after_disconnects(tty, node, connectors.drop_last()).0.device(
            node,
        ).non_desktop;
        let after = after_disconnects(tty, node, connectors).0.device(node).non_desktop;
        match first_entry(before, connectors.last().0) {
            Some(i) => {
                lemma_first_entry_is_first(before, connectors.last().0);
                lemma_no_entry(before, connector);
                assert(after == before.remove(i));
                if first_entry(after, connector) is Some {
                    lemma_first_entry_is_first(after, connector);
                    let k = first_entry(after, connector)->Some_0;
                    assert(after[k].0 == connector);
                    if k < i {
                        assert(before[k].0 == connector);
                    } else {
                        assert(before[k + 1].0 == connector);
                    }
                }
            },
            None => {},
        }
    }
}

proof fn lemma_output_goes(
    tty: TtyView,
    node: DrmNode,
    connectors: Seq<(u32, u32)>,
    connector: u32,
    crtc: u32,
)
    requires
        tty.has_surface(node, crtc),
        first_entry(tty.device(node).non_desktop, connector) is None,
    ensures
        ({
            let (after, outputs) = after_disconnects(tty, node, connectors);
            ||| outputs.contains(tty.device(node).surfaces[crtc].output)
            ||| !connectors.contains((connector, crtc)) && after.has_surface(node, crtc)
                && after.device(node).surfaces[crtc] == tty.device(node).surfaces[crtc]
        }),
    decreases connectors.len(),
{
    if connectors.len() > 0 {
        let rest = connectors.drop_last();
        let output = tty.device(node).surfaces[crtc].output;
        lemma_disconnects_keep(tty, node, rest);
        lemma_entries_stay_away(tty, node, rest, connector);
        lemma_output_goes(tty, node, rest, connector, crtc);
        let (before, earlier) = after_disconnects(tty, node, rest);
        let (after, outputs) = after_disconnects(tty, node, connectors);
        if earlier.contains(output) {
            let k = choose|k: int| 0 <= k < earlier.len() && earlier[k] == output;
            assert(outputs[k] == output);
        } else {
            let (_, gone) = after_disconnect(
                before,
                node,
                connectors.last().0,
                connectors.last().1,
            );
            if gone == Some(output) {
                assert(outputs[outputs.len() - 1] == output);
            } else {
                assert(connectors.last() != (connector, crtc));
                assert(connectors =~= rest.push(connectors.last()));
                if connectors.contains((connector, crtc)) {
                    let k = choose|k: int|
                        0 <= k < connectors.len() && connectors[k] == (connector, crtc);
                    assert(rest[k] == (connector, crtc));
                }
            }
        }
    }
}

/// When a device goes, the output of each of its surfaces whose connector it still drove goes
/// too.
pub proof fn law_outputs_go_with_device(
    tty: TtyView,
    node: DrmNode,
    connectors: Seq<(u32, u32)>,
    connector: u32,
    crtc: u32,
)
    requires
        tty.has_surface(node, crtc),
        connectors.contains((connector, crtc)),
        first_entry(tty.device(node).non_desktop, connector) is None,
    ensures
        after_removal(tty, node, connectors).1.contains(
            RemovalAction::RemoveOutput(tty.device(node).surfaces[crtc].output),
        ),
{
    lemma_output_goes(tty, node, connectors, connector, crtc);
    let outputs = after_disconnects(tty, node, connectors).1;
    let actions = after_removal(tty, node, connectors).1;
    let output = tty.device(node).surfaces[crtc].output;
    let k = choose|k: int| 0 <= k < outputs.len() && outputs[k] == output;
    assert(actions[k] == RemovalAction::RemoveOutput(output));
}

proof fn lemma_disconnects_of_empty(tty: TtyView, node: DrmNode, connectors: Seq<(u32, u32)>)
    requires
        tty.knows(node),
        tty.device(node).surfaces == Map::<u32, SurfaceView>::empty(),
        tty.device(node).non_desktop == Seq::<(u32, u32)>::empty(),
    ensures
        after_disconnects(tty, node, connectors) == (tty, Seq::<u64>::empty()),
    decreases connectors.len(),
{
    if connectors.len() > 0 {
        lemma_disconnects_of_empty(tty, node, connectors.drop_last());
    }
}

/// Removing a device that was just added gives the record that was there before, unless it is
/// the one that the buffer global depends on; its event source and its render node are given up.
pub proof fn law_removal_undoes_addition(
    tty: TtyView,
    node: DrmNode,
    opened: OpenedDevice,
    connectors: Seq<(u32, u32)>,
)
    requires
        !tty.knows(node),
        !serves_primary(tty, node, opened.renderer(node)) || tty.dmabuf_global is None,
    ensures
        ({
            let added = tty.with_device(node, fresh_device(node, opened));
            let (after, actions) = after_removal(added, node, connectors);
            &&& after == tty
            &&& actions.contains(RemovalAction::RemoveRenderNode(opened.renderer(node)))
            &&& actions.contains(RemovalAction::RemoveSource(opened.token))
        }),
{
    let added = tty.with_device(node, fresh_device(node, opened));
    lemma_disconnects_of_empty(added, node, connectors);
    let (after, actions) = after_removal(added, node, connectors);
    assert(after.devices =~= tty.devices);
    assert(after =~= tty);
    let n = actions.len() as int;
    assert(actions[n - 2] == RemovalAction::RemoveRenderNode(opened.renderer(node)));
    assert(actions[n - 1] == RemovalAction::RemoveSource(opened.token));
}

proof fn lemma_entry_stays(
    tty: TtyView,
    node: DrmNode,
    connectors: Seq<(u32, u32)>,
    connector: u32,
)
    requires
        tty.knows(node),
        exists|e: int|
            0 <= e < tty.device(node).non_desktop.len() && (#[trigger] tty.device(
                node,
            ).non_desktop[e]).0 == connector,
        forall|k: int| 0 <= k < connectors.len() ==> (#[trigger] connectors[k]).0 != connector,
    ensures
        after_disconnects(tty, node, connectors).0.knows(node),
        first_entry(
            after_disconnects(tty, node, connectors).0.device(node).non_desktop,
            connector,
        ) is Some,
    decreases connectors.len(),
{
    let after = after_disconnects(tty, node, connectors).0.device(node).non_desktop;
    lemma_disconnects_keep(tty, node, connectors);
    if connectors.len() == 0 {
        if first_entry(after, connector) is None {
            lemma_no_entry(after, connector);
        }
    } else {
        let rest = connectors.drop_last();
        assert forall|k: int| 0 <= k < rest.len() implies (#[trigger] rest[k]).0 != connector by {
            assert(rest[k] == connectors[k]);
        }
        lemma_disconnects_keep(tty, node, rest);
        lemma_entry_stays(tty, node, rest, connector);
        let before = after_disconnects(tty, node, rest).0.device(node).non_desktop;
        lemma_first_entry_is_first(before, connector);
        let e = first_entry(before, connector)->Some_0;
        let other = connectors[connectors.len() - 1].0;
        assert(other != connector);
        if first_entry(before, other) is Some {
            lemma_first_entry_is_first(before, other);
            let i = first_entry(before, other)->Some_0;
            assert(after == before.remove(i));
            if e < i {
                assert(after[e].0 == connector);
            } else {
                assert(after[e - 1].0 == connector);
            }
        } else {
            assert(after == before);
        }
        if first_entry(after, connector) is None {
            lemma_no_entry(after, connector);
        }
    }
}

proof fn lemma_outputs(tty: TtyView, node: DrmNode, connectors: Seq<(u32, u32)>) -> (at: Seq<int>)
    requires
        tty.knows(node),
    ensures
        ({
            let (after, outputs) = after_disconnects(tty, node, connectors);
            let surfaces = tty.device(node).surfaces;
            &&& at.len() == outputs.len()
            &&& forall|i: int| 0 <= i < at.len() ==> 0 <= #[trigger] at[i] < connectors.len()
            &&& forall|i: int, j: int| 0 <= i < j < at.len() ==> #[trigger] at[i] < #[trigger] at[j]
            &&& forall|i: int, j: int|
                0 <= i < j < at.len() ==> connectors[#[trigger] at[i]].1
                    != connectors[#[trigger] at[j]].1
            &&& forall|i: int|
                0 <= i < at.len() ==> surfaces.contains_key(connectors[#[trigger] at[i]].1)
                    && outputs[i] == surfaces[connectors[at[i]].1].output && !after.device(
                    node,
                ).surfaces.contains_key(connectors[at[i]].1)
            &&& forall|c: u32| #[trigger]
                after.device(node).surfaces.contains_key(c) ==> surfaces.contains_key(c)
                    && after.device(node).surfaces[c] == surfaces[c]
            &&& forall|c: u32|
                #![trigger surfaces.contains_key(c)]
                surfaces.contains_key(c) && !after.device(node).surfaces.contains_key(c)
                    ==> exists|i: int| 0 <= i < at.len() && connectors[#[trigger] at[i]].1 == c
            &&& forall|k: int|
                #![trigger connectors[k]]
                0 <= k < connectors.len() && (exists|e: int|
                    0 <= e < tty.device(node).non_desktop.len() && (#[trigger] tty.device(
                        node,
                    ).non_desktop[e]).0 == connectors[k].0) && (forall|m: int|
                    0 <= m < connectors.len() && m != k ==> (#[trigger] connectors[m]).0
                        != connectors[k].0) ==> !at.contains(k)
        }),
    decreases connectors.len(),
{
    if connectors.len() == 0 {
        Seq::empty()
    } else {
        let n = connectors.len() - 1;
        let rest = connectors.drop_last();
        let earlier = lemma_outputs(tty, node, rest);
        lemma_disconnects_keep(tty, node, rest);
        let (before, outputs) = after_disconnects(tty, node, rest);
        let (connector, crtc) = connectors.last();
        let (after, gone) = after_disconnect(before, node, connector, crtc);
        let at = if gone is Some {
            earlier.push(n)
        } else {
            earlier
        };
        let surfaces = tty.device(node).surfaces;
        assert forall|i: int| 0 <= i < earlier.len() implies connectors[#[trigger] earlier[i]]
            == rest[earlier[i]] by {}
        assert forall|c: u32|
            #![trigger surfaces.contains_key(c)]
            surfaces.contains_key(c) && !after.device(node).surfaces.contains_key(c) implies exists|
            i: int,
        |
            0 <= i < at.len() && connectors[#[trigger] at[i]].1 == c by {
            if before.device(node).surfaces.contains_key(c) {
                assert(at[earlier.len() as int] == n);
                assert(connectors[at[earlier.len() as int]].1 == c);
            } else {
                let i = choose|i: int| 0 <= i < earlier.len() && rest[#[trigger] earlier[i]].1 == c;
                assert(at[i] == earlier[i]);
                assert(connectors[at[i]].1 == c);
            }
        }
        assert forall|k: int|
            #![trigger connectors[k]]
            0 <= k < connectors.len() && (exists|e: int|
                0 <= e < tty.device(node).non_desktop.len() && (#[trigger] tty.device(
                    node,
                ).non_desktop[e]).0 == connectors[k].0) && (forall|m: int|
                0 <= m < connectors.len() && m != k ==> (#[trigger] connectors[m]).0
                    != connectors[k].0) implies !at.contains(k) by {
            if k < n {
                assert(rest[k] == connectors[k]);
                assert forall|m: int| 0 <= m < rest.len() && m != k implies (#[trigger] rest[m]).0
                    != rest[k].0 by {
                    assert(rest[m] == connectors[m]);
                }
                assert(!earlier.contains(k));
                if at.contains(k) {
                    let i = choose|i: int| 0 <= i < at.len() && at[i] == k;
                    assert(earlier[i] == k);
                }
            } else {
                assert forall|m: int| 0 <= m < rest.len() implies (#[trigger] rest[m]).0
                    != connector by {
                    assert(rest[m] == connectors[m]);
                }
                lemma_entry_stays(tty, node, rest, connector);
                assert(gone is None);
                if at.contains(k) {
                    let i = choose|i: int| 0 <= i < at.len() && at[i] == k;
                    assert(earlier[i] < rest.len());
                }
            }
        }
        at
    }
}

proof fn lemma_surface_goes(
    tty: TtyView,
    node: DrmNode,
    connectors: Seq<(u32, u32)>,
    k: int,
)
    requires
        tty.knows(node),
        0 <= k < connectors.len(),
        first_entry(tty.device(node).non_desktop, connectors[k].0) is None,
    ensures
        !after_disconnects(tty, node, connectors).0.device(node).surfaces.contains_key(
            connectors[k].1,
        ),
    decreases connectors.len(),
{
    let rest = connectors.drop_last();
    lemma_disconnects_keep(tty, node, rest);
    if k < rest.len() {
        lemma_surface_goes(tty, node, rest, k);
    } else {
        lemma_entries_stay_away(tty, node, rest, connectors[k].0);
    }
}

/// Removing a device that is not known changes nothing and asks for nothing. Removing a known one
/// forgets it and no other. The global stays unless the device is the primary GPU or renders where
/// the primary GPU does; then there is none any more, and where there was one, no surface keeps
/// feedback. Otherwise the other devices and their surfaces stay as they were.
pub proof fn law_removal(
    tty: &mut Tty,
    node: DrmNode,
    connectors: &Vec<(u32, u32)>,
    actions: Vec<RemovalAction>,
)
    requires
        call_ensures(Tty::device_removed, (tty, node, connectors), actions),
    ensures
        ({
            let before = old(tty)@;
            let after = final(tty)@;
            let known = before.devices.contains_key(node.dev_id);
            let primary = node == before.primary_node || before.devices[node.dev_id].render_node
                == before.primary_render_node;
            &&& !known ==> after == before && actions@.len() == 0
            &&& known ==> {
                &&& after.primary_node == before.primary_node
                &&& after.primary_render_node == before.primary_render_node
                &&& after.seat_name == before.seat_name
                &&& after.devices.dom() == before.devices.dom().remove(node.dev_id)
                &&& primary ==> after.dmabuf_global is None
                &&& !primary ==> after.dmabuf_global == before.dmabuf_global
                &&& forall|d: u64|
                    d != node.dev_id && #[trigger] before.devices.contains_key(d) ==> {
                        &&& after.devices[d].token == before.devices[d].token
                        &&& after.devices[d].render_node == before.devices[d].render_node
                        &&& after.devices[d].non_desktop == before.devices[d].non_desktop
                        &&& after.devices[d].surfaces.dom() == before.devices[d].surfaces.dom()
                        &&& forall|c: u32| #[trigger]
                            before.devices[d].surfaces.contains_key(c) ==> {
                                let was = before.devices[d].surfaces[c];
                                let now = after.devices[d].surfaces[c];
                                &&& now.output == was.output
                                &&& now.device_id == was.device_id
                                &&& now.render_node == was.render_node
                                &&& now.dmabuf_feedback == if primary
                                    && before.dmabuf_global is Some {
                                    None
                                } else {
                                    was.dmabuf_feedback
                                }
                            }
                    }
            }
        }),
{
    let before = old(tty)@;
    let after = final(tty)@;
    if before.knows(node) {
        lemma_disconnects_keep(before, node, connectors@);
        assert(after.devices.dom() =~= before.devices.dom().remove(node.dev_id));
        assert forall|d: u64|
            d != node.dev_id && #[trigger] before.devices.contains_key(
                d,
            ) implies after.devices[d].surfaces.dom() == before.devices[d].surfaces.dom() by {
            assert(after.devices[d].surfaces.dom() =~= before.devices[d].surfaces.dom());
        }
    }
}

/// What is asked for when a known device goes: first outputs are taken away; then, where the
/// device is the primary GPU or renders where it does, acceleration ends on its render node, and
/// the global, if there is one, is no longer offered and is destroyed ten seconds later; then the
/// render node is given up, and the event source last. The outputs are those of surfaces that a
/// listed connector's CRTC drives, each surface's once, in the order of the list. Of a listed
/// connector that is not entered as no desktop the surface is among them; one that is entered, and
/// is listed once, takes none with it.
pub proof fn law_removal_actions(
    tty: &mut Tty,
    node: DrmNode,
    connectors: &Vec<(u32, u32)>,
    actions: Vec<RemovalAction>,
)
    requires
        call_ensures(Tty::device_removed, (tty, node, connectors), actions),
        old(tty)@.devices.contains_key(node.dev_id),
    ensures
        exists|at: Seq<int>|
            #![trigger at.len()]
            {
                let device = old(tty)@.devices[node.dev_id];
                let primary = node == old(tty)@.primary_node || device.render_node == old(
                    tty,
                )@.primary_render_node;
                let n = at.len() as int;
                let last = actions@.len() - 1;
                &&& actions@.len() == n + 2 + if !primary {
                    0int
                } else if old(tty)@.dmabuf_global is None {
                    1
                } else {
                    3
                }
                &&& actions@[last] == RemovalAction::RemoveSource(device.token)
                &&& actions@[last - 1] == RemovalAction::RemoveRenderNode(device.render_node)
                &&& primary ==> actions@[n] == RemovalAction::UnbindDisplay(device.render_node)
                &&& primary && old(tty)@.dmabuf_global is Some ==> actions@[n + 1]
                    == RemovalAction::DisableGlobal(old(tty)@.dmabuf_global->Some_0) && actions@[n
                    + 2] == (RemovalAction::DestroyGlobalLater {
                    global: old(tty)@.dmabuf_global->Some_0,
                    seconds: 10,
                })
                &&& forall|i: int| 0 <= i < n ==> 0 <= #[trigger] at[i] < connectors@.len()
                &&& forall|i: int, j: int| 0 <= i < j < n ==> #[trigger] at[i] < #[trigger] at[j]
                &&& forall|i: int, j: int|
                    0 <= i < j < n ==> connectors@[#[trigger] at[i]].1
                        != connectors@[#[trigger] at[j]].1
                &&& forall|i: int|
                    0 <= i < n ==> device.surfaces.contains_key(connectors@[#[trigger] at[i]].1)
                        && actions@[i] == RemovalAction::RemoveOutput(
                        device.surfaces[connectors@[at[i]].1].output,
                    )
                &&& forall|k: int|
                    #![trigger connectors@[k]]
                    0 <= k < connectors@.len() && device.surfaces.contains_key(connectors@[k].1) && (
                    forall|e: int|
                        0 <= e < device.non_desktop.len() ==> (#[trigger] device.non_desktop[e]).0
                            != connectors@[k].0) ==> exists|i: int|
                        0 <= i < n && connectors@[#[trigger] at[i]].1 == connectors@[k].1
                &&& forall|k: int|
                    #![trigger connectors@[k]]
                    0 <= k < connectors@.len() && (exists|e: int|
                        0 <= e < device.non_desktop.len() && (#[trigger] device.non_desktop[e]).0
                            == connectors@[k].0) && (forall|m: int|
                        0 <= m < connectors@.len() && m != k ==> (#[trigger] connectors@[m]).0
                            != connectors@[k].0) ==> !at.contains(k)
            },
{
    let before = old(tty)@;
    let device = before.devices[node.dev_id];
    lemma_disconnects_keep(before, node, connectors@);
    let at = lemma_outputs(before, node, connectors@);
    let (emptied, outputs) = after_disconnects(before, node, connectors@);
    assert(at.len() == outputs.len());
    assert forall|k: int|
        #![trigger connectors@[k]]
        0 <= k < connectors@.len() && device.surfaces.contains_key(connectors@[k].1) && (forall|
            e: int,
        |
            0 <= e < device.non_desktop.len() ==> (#[trigger] device.non_desktop[e]).0
                != connectors@[k].0) implies exists|i: int|
        0 <= i < at.len() && connectors@[#[trigger] at[i]].1 == connectors@[k].1 by {
        if first_entry(device.non_desktop, connectors@[k].0) is Some {
            lemma_first_entry_is_first(device.non_desktop, connectors@[k].0);
        }
        lemma_surface_goes(before, node, connectors@, k);
    }
}

} // verus!
