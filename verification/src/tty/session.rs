//! What happens when the session gains or loses the hardware.

use vstd::prelude::*;
use vstd::std_specs::hash::*;

use crate::tty::{key_list, lists, DrmNode, Tty, TtyView};

verus! {

broadcast use group_hash_axioms;

/// The session was given the hardware, or lost it.
#[derive(Clone, Copy, PartialEq, Eq, Structural, Debug)]
pub enum SessionEvent {
    ActivateSession,
    PauseSession,
}

/// What is done when the session changes.
#[derive(Clone, Copy, PartialEq, Eq, Structural, Debug)]
pub enum SessionAction {
    /// Read input again.
    ResumeInput,
    /// Read no more input.
    SuspendInput,
    /// Take the device back.
    ActivateDevice(DrmNode),
    /// Render all surfaces of the device once the pending events are handled.
    RedrawDevice(DrmNode),
    /// Let the device go.
    PauseDevice(DrmNode),
}

/// Input first, then each device: taken back, and then to be redrawn.
pub open spec fn activation(devices: Seq<u64>) -> Seq<SessionAction>
    decreases devices.len(),
{
    if devices.len() == 0 {
        seq![SessionAction::ResumeInput]
    } else {
        let node = DrmNode { dev_id: devices.last() };
        activation(devices.drop_last()).push(SessionAction::ActivateDevice(node)).push(
            SessionAction::RedrawDevice(node),
        )
    }
}

/// Input first, then each device.
pub open spec fn suspension(devices: Seq<u64>) -> Seq<SessionAction>
    decreases devices.len(),
{
    if devices.len() == 0 {
        seq![SessionAction::SuspendInput]
    } else {
        let node = DrmNode { dev_id: devices.last() };
        suspension(devices.drop_last()).push(SessionAction::PauseDevice(node))
    }
}

impl Tty {
    /// What is done when the session changes, in this order. The devices come in any order.
    pub fn session_event(&self, event: SessionEvent) -> (actions: Vec<SessionAction>)
        ensures
            exists|devices: Seq<u64>|
                #![trigger activation(devices)]
                #![trigger suspension(devices)]
                lists(devices, self@.devices.dom()) && actions@ == match event {
                    SessionEvent::ActivateSession => activation(devices),
                    SessionEvent::PauseSession => suspension(devices),
                },
    {
        let numbers: Vec<u64> = key_list(&self.devices);
        assert(self.devices@.dom() =~= self@.devices.dom());
        let ghost devices = numbers@;
        let mut actions: Vec<SessionAction> = Vec::new();
        let mut i: usize = 0;
        match event {
            SessionEvent::ActivateSession => {
                actions.push(SessionAction::ResumeInput);
                assert(actions@ =~= activation(devices.take(0)));
                while i < numbers.len()
                    invariant
                        i <= numbers.len(),
                        devices == numbers@,
                        actions@ == activation(devices.take(i as int)),
                    decreases numbers.len() - i,
                {
                    let node = DrmNode { dev_id: numbers[i] };
                    assert(devices.take(i + 1).drop_last() =~= devices.take(i as int));
                    actions.push(SessionAction::ActivateDevice(node));
                    actions.push(SessionAction::RedrawDevice(node));
                    i = i + 1;
                }
            },
            SessionEvent::PauseSession => {
                actions.push(SessionAction::SuspendInput);
                assert(actions@ =~= suspension(devices.take(0)));
                while i < numbers.len()
                    invariant
                        i <= numbers.len(),
                        devices == numbers@,
                        actions@ == suspension(devices.take(i as int)),
                    decreases numbers.len() - i,
                {
                    let node = DrmNode { dev_id: numbers[i] };
                    assert(devices.take(i + 1).drop_last() =~= devices.take(i as int));
                    actions.push(SessionAction::PauseDevice(node));
                    i = i + 1;
                }
            },
        }
        assert(devices.take(devices.len() as int) =~= devices);
        actions
    }

    /// The CRTCs of all surfaces of a device, in any order; none where the device is unknown.
    pub fn redraw_targets(&self, node: DrmNode) -> (crtcs: Vec<u32>)
        ensures
            self@.knows(node) ==> lists(crtcs@, self@.device(node).surfaces.dom()),
            !self@.knows(node) ==> crtcs@.len() == 0,
    {
        match self.devices.get(&node.dev_id) {
            Some(device) => {
                assert(device@ == self@.device(node));
                assert(device.surfaces@.dom() =~= self@.device(node).surfaces.dom());
                key_list(&device.surfaces)
            },
            None => Vec::new(),
        }
    }
}

/// When the session comes back, every surface of every device is rendered again.
pub proof fn law_activation_redraws_all(tty: TtyView, devices: Seq<u64>, node: DrmNode, crtc: u32)
    requires
        lists(devices, tty.devices.dom()),
        tty.has_surface(node, crtc),
    ensures
        activation(devices).contains(SessionAction::ActivateDevice(node)),
        activation(devices).contains(SessionAction::RedrawDevice(node)),
        forall|crtcs: Seq<u32>|
            lists(crtcs, tty.device(node).surfaces.dom()) ==> #[trigger] crtcs.contains(crtc),
{
    assert(devices.to_set().contains(node.dev_id));
    lemma_activation_covers(devices, node);
    assert forall|crtcs: Seq<u32>|
        lists(crtcs, tty.device(node).surfaces.dom()) implies #[trigger] crtcs.contains(crtc) by {
        assert(crtcs.to_set().contains(crtc));
    }
}

/// When the session is lost, every device is let go.
pub proof fn law_pause_reaches_all(tty: TtyView, devices: Seq<u64>, node: DrmNode)
    requires
        lists(devices, tty.devices.dom()),
        tty.knows(node),
    ensures
        suspension(devices).contains(SessionAction::PauseDevice(node)),
{
    assert(devices.to_set().contains(node.dev_id));
    lemma_suspension_covers(devices, node);
}

proof fn lemma_activation_covers(devices: Seq<u64>, node: DrmNode)
    requires
        devices.contains(node.dev_id),
    ensures
        activation(devices).contains(SessionAction::ActivateDevice(node)),
        activation(devices).contains(SessionAction::RedrawDevice(node)),
    decreases devices.len(),
{
    let actions = activation(devices);
    if devices.last() == node.dev_id {
        assert(actions[actions.len() - 2] == SessionAction::ActivateDevice(node));
        assert(actions[actions.len() - 1] == SessionAction::RedrawDevice(node));
    } else {
        let rest = devices.drop_last();
        let k = choose|k: int| 0 <= k < devices.len() && devices[k] == node.dev_id;
        assert(rest[k] == node.dev_id);
        lemma_activation_covers(rest, node);
        let before = activation(rest);
        let a = choose|a: int|
            0 <= a < before.len() && before[a] == SessionAction::ActivateDevice(node);
        let r = choose|r: int|
            0 <= r < before.len() && before[r] == SessionAction::RedrawDevice(node);
        assert(actions[a] == before[a]);
        assert(actions[r] == before[r]);
    }
}

proof fn lemma_suspension_covers(devices: Seq<u64>, node: DrmNode)
    requires
        devices.contains(node.dev_id),
    ensures
        suspension(devices).contains(SessionAction::PauseDevice(node)),
    decreases devices.len(),
{
    let actions = suspension(devices);
    if devices.last() == node.dev_id {
        assert(actions[actions.len() - 1] == SessionAction::PauseDevice(node));
    } else {
        let rest = devices.drop_last();
        let k = choose|k: int| 0 <= k < devices.len() && devices[k] == node.dev_id;
        assert(rest[k] == node.dev_id);
        lemma_suspension_covers(rest, node);
        let before = suspension(rest);
        let p = choose|p: int|
            0 <= p < before.len() && before[p] == SessionAction::PauseDevice(node);
        assert(actions[p] == before[p]);
    }
}

proof fn lemma_activation(devices: Seq<u64>)
    ensures
        activation(devices).len() == 2 * devices.len() + 1,
        activation(devices)[0] == SessionAction::ResumeInput,
        forall|i: int|
            #![trigger devices[i]]
            0 <= i < devices.len() ==> activation(devices)[2 * i + 1]
                == SessionAction::ActivateDevice(DrmNode { dev_id: devices[i] }) && activation(
                devices,
            )[2 * i + 2] == SessionAction::RedrawDevice(DrmNode { dev_id: devices[i] }),
    decreases devices.len(),
{
    if devices.len() > 0 {
        let rest = devices.drop_last();
        lemma_activation(rest);
        assert forall|i: int|
            #![trigger devices[i]]
            0 <= i < devices.len() implies activation(devices)[2 * i + 1]
            == SessionAction::ActivateDevice(DrmNode { dev_id: devices[i] }) && activation(
            devices,
        )[2 * i + 2] == SessionAction::RedrawDevice(DrmNode { dev_id: devices[i] }) by {
            if i < rest.len() {
                assert(rest[i] == devices[i]);
            }
        }
    }
}

proof fn lemma_suspension(devices: Seq<u64>)
    ensures
        suspension(devices).len() == devices.len() + 1,
        suspension(devices)[0] == SessionAction::SuspendInput,
        forall|i: int|
            #![trigger devices[i]]
            0 <= i < devices.len() ==> suspension(devices)[i + 1] == SessionAction::PauseDevice(
                DrmNode { dev_id: devices[i] },
            ),
    decreases devices.len(),
{
    if devices.len() > 0 {
        let rest = devices.drop_last();
        lemma_suspension(rest);
        assert forall|i: int|
            #![trigger devices[i]]
            0 <= i < devices.len() implies suspension(devices)[i + 1]
            == SessionAction::PauseDevice(DrmNode { dev_id: devices[i] }) by {
            if i < rest.len() {
                assert(rest[i] == devices[i]);
            }
        }
    }
}

/// When the session comes back, input is read again first; then each device that is known, each
/// once and no other, is taken back and right after that redrawn.
pub proof fn law_activation(tty: &Tty, actions: Vec<SessionAction>)
    requires
        call_ensures(Tty::session_event, (tty, SessionEvent::ActivateSession), actions),
    ensures
        exists|devices: Seq<u64>|
            #![trigger devices.no_duplicates()]
            {
                &&& devices.no_duplicates()
                &&& forall|d: u64| #[trigger]
                    devices.contains(d) <==> tty@.devices.contains_key(d)
                &&& actions@.len() == 2 * devices.len() + 1
                &&& actions@[0] == SessionAction::ResumeInput
                &&& forall|i: int|
                    #![trigger devices[i]]
                    0 <= i < devices.len() ==> actions@[2 * i + 1] == SessionAction::ActivateDevice(
                        DrmNode { dev_id: devices[i] },
                    ) && actions@[2 * i + 2] == SessionAction::RedrawDevice(
                        DrmNode { dev_id: devices[i] },
                    )
            },
{
    let devices = choose|devices: Seq<u64>|
        lists(devices, tty@.devices.dom()) && actions@ == #[trigger] activation(devices);
    lemma_activation(devices);
    lemma_lists(devices, tty@.devices.dom());
    assert(devices.no_duplicates());
}

/// When the session is lost, no more input is read first; then each device that is known, each
/// once and no other, is let go.
pub proof fn law_suspension(tty: &Tty, actions: Vec<SessionAction>)
    requires
        call_ensures(Tty::session_event, (tty, SessionEvent::PauseSession), actions),
    ensures
        exists|devices: Seq<u64>|
            #![trigger devices.no_duplicates()]
            {
                &&& devices.no_duplicates()
                &&& forall|d: u64| #[trigger]
                    devices.contains(d) <==> tty@.devices.contains_key(d)
                &&& actions@.len() == devices.len() + 1
                &&& actions@[0] == SessionAction::SuspendInput
                &&& forall|i: int|
                    #![trigger devices[i]]
                    0 <= i < devices.len() ==> actions@[i + 1] == SessionAction::PauseDevice(
                        DrmNode { dev_id: devices[i] },
                    )
            },
{
    let devices = choose|devices: Seq<u64>|
        lists(devices, tty@.devices.dom()) && actions@ == #[trigger] suspension(devices);
    lemma_suspension(devices);
    lemma_lists(devices, tty@.devices.dom());
    assert(devices.no_duplicates());
}

proof fn lemma_lists<A>(items: Seq<A>, set: Set<A>)
    requires
        lists(items, set),
    ensures
        items.no_duplicates(),
        forall|x: A| #[trigger] items.contains(x) <==> set.contains(x),
{
    assert forall|x: A| #[trigger] items.contains(x) <==> set.contains(x) by {
        assert(items.to_set().contains(x) <==> items.contains(x));
    }
}

/// Of a device that is known each surface is redrawn, each once and no other; of any other device
/// none is.
pub proof fn law_redraw_targets(tty: &Tty, node: DrmNode, crtcs: Vec<u32>)
    requires
        call_ensures(Tty::redraw_targets, (tty, node), crtcs),
    ensures
        forall|i: int, j: int|
            0 <= i < j < crtcs@.len() ==> #[trigger] crtcs@[i] != #[trigger] crtcs@[j],
        forall|c: u32| #[trigger]
            crtcs@.contains(c) <==> tty@.devices.contains_key(node.dev_id)
                && tty@.devices[node.dev_id].surfaces.contains_key(c),
{
    if tty@.knows(node) {
        lemma_lists(crtcs@, tty@.device(node).surfaces.dom());
    }
}

} // verus!
