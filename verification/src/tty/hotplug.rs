//! What becomes of devices that are plugged in and of connectors that change.

use std::collections::HashMap;

use vstd::prelude::*;
use vstd::std_specs::hash::*;

use crate::tty::{DrmNode, GpuDevice, GpuDeviceView, NodeError, Tty};

verus! {

broadcast use group_hash_axioms;

/// What the system says of the device with this number.
#[derive(Clone, Copy, PartialEq, Eq, Structural, Debug)]
pub enum UdevEvent {
    Added,
    Changed,
    Removed,
}

/// What is done about a device.
#[derive(Clone, Copy, PartialEq, Eq, Structural, Debug)]
pub enum DeviceAction {
    Add(DrmNode),
    Change(DrmNode),
    Remove(DrmNode),
}

/// What is done about an event, given the node that the device number belongs to: nothing where
/// there is no such node.
pub fn udev_event(event: UdevEvent, node: Result<DrmNode, NodeError>) -> (action: Option<
    DeviceAction,
>)
    ensures
        action == match node {
            Ok(node) => Some(
                match event {
                    UdevEvent::Added => DeviceAction::Add(node),
                    UdevEvent::Changed => DeviceAction::Change(node),
                    UdevEvent::Removed => DeviceAction::Remove(node),
                },
            ),
            Err(_) => None,
        },
{
    match node {
        Ok(node) => Some(
            match event {
                UdevEvent::Added => DeviceAction::Add(node),
                UdevEvent::Changed => DeviceAction::Change(node),
                UdevEvent::Removed => DeviceAction::Remove(node),
            },
        ),
        Err(_) => None,
    }
}

/// A device that was opened, and whose render node the GPU manager took.
#[derive(Clone, Copy, PartialEq, Eq, Structural, Debug)]
pub struct OpenedDevice {
    /// The event source of the device.
    pub token: u64,
    /// The render node of the device, if it has one.
    pub render_node: Option<DrmNode>,
}

/// The step at which opening a device failed.
#[derive(Clone, Copy, PartialEq, Eq, Structural, Debug)]
pub enum DeviceError {
    Open,
    Drm,
    Gbm,
    Display,
    RenderNode,
    GpuManager,
}

impl OpenedDevice {
    /// The node that renders for the device: its render node, or the device itself.
    pub open spec fn renderer(self, node: DrmNode) -> DrmNode {
        match self.render_node {
            Some(render_node) => render_node,
            None => node,
        }
    }

    /// The node that renders for the device: its render node, or the device itself.
    pub fn renders_on(&self, node: DrmNode) -> (render_node: DrmNode)
        ensures
            render_node == self.renderer(node),
    {
        match self.render_node {
            Some(render_node) => render_node,
            None => node,
        }
    }
}

/// The record of a device that was just opened.
pub open spec fn fresh_device(node: DrmNode, opened: OpenedDevice) -> GpuDeviceView {
    GpuDeviceView {
        token: opened.token,
        render_node: opened.renderer(node),
        surfaces: Map::empty(),
        non_desktop: Seq::empty(),
    }
}

/// A connector was found plugged in or unplugged, with the CRTC that drives it, if there is one.
#[derive(Clone, Copy, PartialEq, Eq, Structural, Debug)]
pub enum ScanEvent {
    Connected { connector: u32, crtc: Option<u32> },
    Disconnected { connector: u32, crtc: Option<u32> },
}

/// A connector with a CRTC is to be set up or taken down.
#[derive(Clone, Copy, PartialEq, Eq, Structural, Debug)]
pub enum ConnectorEvent {
    Connected { connector: u32, crtc: u32 },
    Disconnected { connector: u32, crtc: u32 },
}

/// The connectors of a device could not be read.
#[derive(Clone, Copy, PartialEq, Eq, Structural, Debug)]
pub struct ScanError;

/// What is done about a connector: nothing where no CRTC drives it.
pub open spec fn connector_event(event: ScanEvent) -> Option<ConnectorEvent> {
    match event {
        ScanEvent::Connected { connector, crtc: Some(crtc) } => Some(
            ConnectorEvent::Connected { connector, crtc },
        ),
        ScanEvent::Disconnected { connector, crtc: Some(crtc) } => Some(
            ConnectorEvent::Disconnected { connector, crtc },
        ),
        _ => None,
    }
}

/// What is done about the connectors that a scan names, in the same order.
pub open spec fn connector_events(events: Seq<ScanEvent>) -> Seq<ConnectorEvent> {
    events.filter_map(|e: ScanEvent| connector_event(e))
}

impl Tty {
    /// Records a device that was opened. One that could not be opened leaves the record as it
    /// was.
    pub fn device_added(&mut self, node: DrmNode, opened: Result<OpenedDevice, DeviceError>) -> (res:
        Result<(), DeviceError>)
        ensures
            match opened {
                Ok(device) => res == Ok::<(), DeviceError>(()) && final(self)@ == old(
                    self,
                )@.with_device(node, fresh_device(node, device)),
                Err(error) => res == Err::<(), DeviceError>(error) && final(self)@ == old(self)@,
            },
    {
        let opened: OpenedDevice = match opened {
            Ok(opened) => opened,
            Err(error) => {
                return Err(error);
            },
        };
        let ghost before = self@;
        let device = GpuDevice {
            token: opened.token,
            render_node: opened.renders_on(node),
            surfaces: HashMap::new(),
            non_desktop_connectors: Vec::new(),
        };
        assert(device@ =~= fresh_device(node, opened));
        self.devices.insert(node.dev_id, device);
        assert(self@ =~= before.with_device(node, fresh_device(node, opened)));
        Ok(())
    }

    /// What is done about the connectors of a device after a scan: nothing where the device is
    /// unknown or the scan failed.
    pub fn device_changed(&self, node: DrmNode, scan: Result<&Vec<ScanEvent>, ScanError>) -> (events:
        Vec<ConnectorEvent>)
        ensures
            events@ == match scan {
                Ok(found) if self@.knows(node) => connector_events(found@),
                _ => Seq::empty(),
            },
    {
        let mut events: Vec<ConnectorEvent> = Vec::new();
        if !self.devices.contains_key(&node.dev_id) {
            return events;
        }
        let found: &Vec<ScanEvent> = match scan {
            Ok(found) => found,
            Err(_) => {
                return events;
            },
        };
        let ghost pick = |e: ScanEvent| connector_event(e);
        let mut i: usize = 0;
        proof {
            reveal(Seq::filter_map);
            assert(found@.take(0).filter_map(pick) =~= Seq::empty());
        }
        while i < found.len()
            invariant
                i <= found.len(),
                pick == (|e: ScanEvent| connector_event(e)),
                events@ == found@.take(i as int).filter_map(pick),
            decreases found.len() - i,
        {
            proof {
                found@.lemma_filter_map_take_succ(pick, i as int);
            }
            match found[i] {
                ScanEvent::Connected { connector, crtc: Some(crtc) } => {
                    events.push(ConnectorEvent::Connected { connector, crtc });
                },
                ScanEvent::Disconnected { connector, crtc: Some(crtc) } => {
                    events.push(ConnectorEvent::Disconnected { connector, crtc });
                },
                _ => {},
            }
            assert(events@ =~= found@.take(i + 1).filter_map(pick));
            i = i + 1;
        }
        assert(found@.take(i as int) =~= found@);
        events
    }
}

/// An event is acted upon where its device number belongs to a node: the device is added, looked
/// at again or removed as the event says, and it is that node.
pub proof fn law_udev_event(
    event: UdevEvent,
    node: Result<DrmNode, NodeError>,
    action: Option<DeviceAction>,
)
    requires
        call_ensures(udev_event, (event, node), action),
    ensures
        action is Some <==> node is Ok,
        action matches Some(DeviceAction::Add(n)) ==> event == UdevEvent::Added && node
            == Ok::<DrmNode, NodeError>(n),
        action matches Some(DeviceAction::Change(n)) ==> event == UdevEvent::Changed && node
            == Ok::<DrmNode, NodeError>(n),
        action matches Some(DeviceAction::Remove(n)) ==> event == UdevEvent::Removed && node
            == Ok::<DrmNode, NodeError>(n),
{
}

/// A device renders on its render node, or on itself where it has none.
pub proof fn law_renders_on(opened: &OpenedDevice, node: DrmNode, render_node: DrmNode)
    requires
        call_ensures(OpenedDevice::renders_on, (opened, node), render_node),
    ensures
        opened.render_node is Some ==> opened.render_node == Some(render_node),
        opened.render_node is None ==> render_node == node,
{
}

/// A device that could not be opened is refused for the same reason and changes nothing. One that
/// was opened is known from then on, with its event source, with the node it renders on, and with
/// nothing plugged in; no other device is touched, nor anything else of the record.
pub proof fn law_addition(
    tty: &mut Tty,
    node: DrmNode,
    opened: Result<OpenedDevice, DeviceError>,
    res: Result<(), DeviceError>,
)
    requires
        call_ensures(Tty::device_added, (tty, node, opened), res),
    ensures
        res is Ok <==> opened is Ok,
        opened matches Err(error) ==> res == Err::<(), DeviceError>(error) && final(tty)@
            == old(tty)@,
        opened matches Ok(device) ==> {
            let added = final(tty)@.devices[node.dev_id];
            &&& final(tty)@.devices.dom() == old(tty)@.devices.dom().insert(node.dev_id)
            &&& added.token == device.token
            &&& device.render_node is Some ==> device.render_node == Some(added.render_node)
            &&& device.render_node is None ==> added.render_node == node
            &&& added.surfaces.dom() == Set::<u32>::empty()
            &&& added.non_desktop.len() == 0
            &&& forall|d: u64|
                d != node.dev_id && #[trigger] old(tty)@.devices.contains_key(d)
                    ==> final(tty)@.devices[d] == old(tty)@.devices[d]
            &&& final(tty)@.primary_node == old(tty)@.primary_node
            &&& final(tty)@.primary_render_node == old(tty)@.primary_render_node
            &&& final(tty)@.seat_name == old(tty)@.seat_name
            &&& final(tty)@.dmabuf_global == old(tty)@.dmabuf_global
        },
{
}

proof fn lemma_connector_events(found: Seq<ScanEvent>) -> (at: Seq<int>)
    ensures
        at.len() == connector_events(found).len(),
        forall|i: int| 0 <= i < at.len() ==> 0 <= #[trigger] at[i] < found.len(),
        forall|i: int, j: int| 0 <= i < j < at.len() ==> #[trigger] at[i] < #[trigger] at[j],
        forall|i: int|
            0 <= i < at.len() ==> connector_event(found[#[trigger] at[i]]) == Some(
                connector_events(found)[i],
            ),
        forall|k: int|
            #![trigger found[k]]
            0 <= k < found.len() && connector_event(found[k]) is Some ==> at.contains(k),
    decreases found.len(),
{
    reveal(Seq::filter_map);
    let pick = |e: ScanEvent| connector_event(e);
    if found.len() == 0 {
        Seq::empty()
    } else {
        let n = found.len() - 1;
        let rest = found.drop_last();
        let earlier = lemma_connector_events(rest);
        found.lemma_filter_map_take_succ(pick, n);
        assert(found.take(n) =~= rest);
        assert(found.take(n + 1) =~= found);
        let at = if connector_event(found[n]) is Some {
            earlier.push(n)
        } else {
            earlier
        };
        assert forall|i: int| 0 <= i < at.len() implies connector_event(found[#[trigger] at[i]])
            == Some(connector_events(found)[i]) by {
            if i < earlier.len() {
                assert(rest[earlier[i]] == found[at[i]]);
            }
        }
        assert forall|k: int|
            #![trigger found[k]]
            0 <= k < found.len() && connector_event(found[k]) is Some implies at.contains(k) by {
            if k < n {
                assert(rest[k] == found[k]);
                let i = choose|i: int| 0 <= i < earlier.len() && earlier[i] == k;
                assert(at[i] == k);
            } else {
                assert(at[earlier.len() as int] == k);
            }
        }
        at
    }
}

/// Of a device that is known, the connectors that a scan names with a CRTC are set up or taken
/// down as it says, each of them once, in the order of the scan; those without a CRTC are passed
/// over. Nothing is done where the device is unknown or the scan failed.
pub proof fn law_device_changed(
    tty: &Tty,
    node: DrmNode,
    scan: Result<&Vec<ScanEvent>, ScanError>,
    events: Vec<ConnectorEvent>,
)
    requires
        call_ensures(Tty::device_changed, (tty, node, scan), events),
    ensures
        scan is Err || !tty@.devices.contains_key(node.dev_id) ==> events@.len() == 0,
        scan is Ok && tty@.devices.contains_key(node.dev_id) ==> exists|at: Seq<int>|
            #![trigger at.len()]
            {
                let found = scan->Ok_0@;
                &&& at.len() == events@.len()
                &&& forall|i: int| 0 <= i < at.len() ==> 0 <= #[trigger] at[i] < found.len()
                &&& forall|i: int, j: int|
                    0 <= i < j < at.len() ==> #[trigger] at[i] < #[trigger] at[j]
                &&& forall|i: int|
                    0 <= i < at.len() ==> match found[#[trigger] at[i]] {
                        ScanEvent::Connected { connector, crtc } => crtc is Some && events@[i]
                            == (ConnectorEvent::Connected { connector, crtc: crtc->Some_0 }),
                        ScanEvent::Disconnected { connector, crtc } => crtc is Some && events@[i]
                            == (ConnectorEvent::Disconnected { connector, crtc: crtc->Some_0 }),
                    }
                &&& forall|k: int|
                    0 <= k < found.len() && !at.contains(k) ==> match #[trigger] found[k] {
                        ScanEvent::Connected { crtc, .. } => crtc is None,
                        ScanEvent::Disconnected { crtc, .. } => crtc is None,
                    }
            },
{
    if scan is Ok && tty@.devices.contains_key(node.dev_id) {
        let found = scan->Ok_0@;
        let at = lemma_connector_events(found);
        assert(at.len() == events@.len());
        assert forall|i: int| 0 <= i < at.len() implies match found[#[trigger] at[i]] {
            ScanEvent::Connected { connector, crtc } => crtc is Some && events@[i] == (
            ConnectorEvent::Connected { connector, crtc: crtc->Some_0 }),
            ScanEvent::Disconnected { connector, crtc } => crtc is Some && events@[i] == (
            ConnectorEvent::Disconnected { connector, crtc: crtc->Some_0 }),
        } by {
            assert(connector_event(found[at[i]]) == Some(events@[i]));
        }
        assert forall|k: int| 0 <= k < found.len() && !at.contains(k) implies (
        match #[trigger] found[k] {
            ScanEvent::Connected { crtc, .. } => crtc is None,
            ScanEvent::Disconnected { crtc, .. } => crtc is None,
        }) by {
            assert(connector_event(found[k]) is None);
        }
    }
}

} // verus!
