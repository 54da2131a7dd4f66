//! What becomes of a connector that is plugged in or unplugged.

use vstd::prelude::*;
use vstd::std_specs::hash::*;

use crate::tty::{DrmNode, GpuDevice, GpuDeviceView, Tty, TtyView};

verus! {

broadcast use group_hash_axioms;

/// `i` is the first entry of the connector.
pub open spec fn is_first_entry(entries: Seq<(u32, u32)>, connector: u32, i: int) -> bool {
    &&& 0 <= i < entries.len()
    &&& entries[i].0 == connector
    &&& forall|j: int| 0 <= j < i ==> (#[trigger] entries[j]).0 != connector
}

/// Where the first entry of the connector stands, if there is one.
pub open spec fn first_entry(entries: Seq<(u32, u32)>, connector: u32) -> Option<int> {
    if exists|i: int| is_first_entry(entries, connector, i) {
        Some(choose|i: int| is_first_entry(entries, connector, i))
    } else {
        None
    }
}

pub(crate) proof fn lemma_first_entry(entries: Seq<(u32, u32)>, connector: u32, i: int)
    requires
        is_first_entry(entries, connector, i),
    ensures
        first_entry(entries, connector) == Some(i),
{
    let c = choose|c: int| is_first_entry(entries, connector, c);
    assert(is_first_entry(entries, connector, c));
    if c < i {
        assert(entries[c].0 != connector);
    }
    if i < c {
        assert(entries[i].0 != connector);
    }
}

pub(crate) proof fn lemma_first_entry_is_first(entries: Seq<(u32, u32)>, connector: u32)
    requires
        first_entry(entries, connector) is Some,
    ensures
        is_first_entry(entries, connector, first_entry(entries, connector)->Some_0),
{
}

pub(crate) proof fn lemma_no_entry(entries: Seq<(u32, u32)>, connector: u32)
    requires
        first_entry(entries, connector) is None,
    ensures
        forall|j: int| 0 <= j < entries.len() ==> (#[trigger] entries[j]).0 != connector,
{
    if exists|j: int| 0 <= j < entries.len() && (#[trigger] entries[j]).0 == connector {
        lemma_some_first_entry(entries, connector, entries.len() as int);
    }
}

proof fn lemma_some_first_entry(entries: Seq<(u32, u32)>, connector: u32, n: int)
    requires
        0 <= n <= entries.len(),
        exists|j: int| 0 <= j < n && (#[trigger] entries[j]).0 == connector,
    ensures
        first_entry(entries, connector) is Some,
    decreases n,
{
    if exists|j: int| 0 <= j < n - 1 && (#[trigger] entries[j]).0 == connector {
        lemma_some_first_entry(entries, connector, n - 1);
    } else {
        assert(is_first_entry(entries, connector, n - 1));
    }
}

/// Finds the first entry of the connector.
fn find_entry(entries: &Vec<(u32, u32)>, connector: u32) -> (found: Option<usize>)
    ensures
        match found {
            Some(i) => i < entries@.len() && first_entry(entries@, connector) == Some(i as int),
            None => first_entry(entries@, connector) is None,
        },
{
    let mut i: usize = 0;
    while i < entries.len()
        invariant
            i <= entries.len(),
            forall|j: int| 0 <= j < i ==> (#[trigger] entries@[j]).0 != connector,
        decreases entries.len() - i,
    {
        if entries[i].0 == connector {
            proof {
                lemma_first_entry(entries@, connector, i as int);
            }
            return Some(i);
        }
        i = i + 1;
    }
    None
}

/// What a disconnected connector leaves behind, and the output that goes with it. A connector
/// that is no desktop loses its entry; of any other the surface that its CRTC drove is dropped.
pub open spec fn after_disconnect(
    tty: TtyView,
    node: DrmNode,
    connector: u32,
    crtc: u32,
) -> (TtyView, Option<u64>) {
    if !tty.knows(node) {
        (tty, None)
    } else {
        let device = tty.device(node);
        match first_entry(device.non_desktop, connector) {
            Some(i) => (
                tty.with_device(
                    node,
                    GpuDeviceView { non_desktop: device.non_desktop.remove(i), ..device },
                ),
                None,
            ),
            None => if device.surfaces.contains_key(crtc) {
                (
                    tty.with_device(
                        node,
                        GpuDeviceView { surfaces: device.surfaces.remove(crtc), ..device },
                    ),
                    Some(device.surfaces[crtc].output),
                )
            } else {
                (tty, None)
            },
        }
    }
}

impl Tty {
    /// Records that a connector is gone. Gives the output that went with it.
    pub fn connector_disconnected(&mut self, node: DrmNode, connector: u32, crtc: u32) -> (output:
        Option<u64>)
        ensures
            (final(self)@, output) == after_disconnect(old(self)@, node, connector, crtc),
    {
        let ghost before = self@;
        let device = match self.devices.remove(&node.dev_id) {
            Some(device) => device,
            None => {
                assert(self@ =~= before);
                return None;
            },
        };
        proof {
            use_type_invariant(&device);
        }
        let GpuDevice { token, render_node, surfaces, non_desktop_connectors } = device;
        let mut surfaces = surfaces;
        let mut entries = non_desktop_connectors;
        let found = find_entry(&entries, connector);
        let output: Option<u64> = match found {
            Some(i) => {
                entries.remove(i);
                None
            },
            None => match surfaces.remove(&crtc) {
                Some(surface) => Some(surface.output),
                None => None,
            },
        };
        let ghost expected = after_disconnect(before, node, connector, crtc);
        let device = GpuDevice { token, render_node, surfaces, non_desktop_connectors: entries };
        assert(device@ =~= expected.0.device(node));
        self.devices.insert(node.dev_id, device);
        assert(self@.devices =~= expected.0.devices);
        output
    }
}

/// A property of a connector.
#[derive(Debug)]
pub struct Property {
    /// The name, where it is text.
    pub name: Option<String>,
    /// The value is a truth value.
    pub boolean: bool,
    /// The value as a number.
    pub value: u64,
}

/// The name of the property that marks a connector as no desktop.
pub open spec fn non_desktop_name() -> Seq<char> {
    "non-desktop"@
}

/// The property is the one that marks a connector as no desktop.
pub open spec fn marks_non_desktop(property: Property) -> bool {
    property.name matches Some(name) && name@ == non_desktop_name()
}

/// `i` is the first such property.
pub open spec fn is_first_mark(properties: Seq<Property>, i: int) -> bool {
    &&& 0 <= i < properties.len()
    &&& marks_non_desktop(properties[i])
    &&& forall|j: int| 0 <= j < i ==> !marks_non_desktop(#[trigger] properties[j])
}

/// The connector is no desktop: the first property of that name is a truth value and true.
pub open spec fn is_non_desktop(properties: Option<Vec<Property>>) -> bool {
    properties matches Some(list) && exists|i: int| #[trigger]
        is_first_mark(list@, i) && list@[i].boolean && list@[i].value != 0
}

/// Calls `drm::control::property::Value::as_boolean` on what `ValueType::convert_value` makes of
/// a number, for the type `Boolean`. Claimed: true unless the number is zero.
#[verifier::external_body]
fn boolean_value(value: u64) -> (truth: Option<bool>)
    ensures
        truth == Some(value != 0),
{
    drm::control::property::ValueType::Boolean.convert_value(value).as_boolean()
}

/// Whether the connector is no desktop, such as the panel of a headset. A connector whose
/// properties could not be read is taken for a desktop.
pub fn non_desktop(properties: &Option<Vec<Property>>) -> (yes: bool)
    ensures
        yes == is_non_desktop(*properties),
{
    let list: &Vec<Property> = match properties {
        Some(list) => list,
        None => {
            return false;
        },
    };
    let wanted: String = "non-desktop".to_owned();
    let mut i: usize = 0;
    while i < list.len()
        invariant
            i <= list.len(),
            *properties == Some(*list),
            wanted@ == non_desktop_name(),
            forall|j: int| 0 <= j < i ==> !marks_non_desktop(#[trigger] list@[j]),
        decreases list.len() - i,
    {
        let marked: bool = match &list[i].name {
            Some(name) => *name == wanted,
            None => false,
        };
        if marked {
            assert(is_first_mark(list@, i as int));
            assert forall|j: int| is_first_mark(list@, j) implies j == i by {
                if i < j {
                    assert(!marks_non_desktop(list@[i as int]));
                }
            }
            if !list[i].boolean {
                return false;
            }
            return match boolean_value(list[i].value) {
                Some(truth) => truth,
                None => false,
            };
        }
        i = i + 1;
    }
    false
}

/// Unplugging a connector of a device that is not known changes nothing. Otherwise a connector
/// that is entered as no desktop loses its first entry, and no output goes. One that is not
/// entered loses the surface that its CRTC drives, and the output of that surface goes. All else
/// stays as it was.
pub proof fn law_unplugging(
    tty: &mut Tty,
    node: DrmNode,
    connector: u32,
    crtc: u32,
    output: Option<u64>,
)
    requires
        call_ensures(Tty::connector_disconnected, (tty, node, connector, crtc), output),
    ensures
        ({
            let known = old(tty)@.devices.contains_key(node.dev_id);
            let before = old(tty)@.devices[node.dev_id];
            let after = final(tty)@.devices[node.dev_id];
            &&& final(tty)@.primary_node == old(tty)@.primary_node
            &&& final(tty)@.primary_render_node == old(tty)@.primary_render_node
            &&& final(tty)@.seat_name == old(tty)@.seat_name
            &&& final(tty)@.dmabuf_global == old(tty)@.dmabuf_global
            &&& final(tty)@.devices.dom() == old(tty)@.devices.dom()
            &&& forall|d: u64|
                d != node.dev_id && #[trigger] old(tty)@.devices.contains_key(d)
                    ==> final(tty)@.devices[d] == old(tty)@.devices[d]
            &&& !known ==> output is None
            &&& known ==> after.token == before.token && after.render_node == before.render_node
            &&& forall|i: int|
                known && 0 <= i < before.non_desktop.len() && (#[trigger] before.non_desktop[i]).0
                    == connector && (forall|j: int|
                    0 <= j < i ==> (#[trigger] before.non_desktop[j]).0 != connector) ==> {
                    &&& output is None
                    &&& after.surfaces == before.surfaces
                    &&& after.non_desktop.len() == before.non_desktop.len() - 1
                    &&& forall|j: int|
                        0 <= j < i ==> #[trigger] after.non_desktop[j] == before.non_desktop[j]
                    &&& forall|j: int|
                        i <= j < after.non_desktop.len() ==> #[trigger] after.non_desktop[j]
                            == before.non_desktop[j + 1]
                }
            &&& known && (forall|j: int|
                0 <= j < before.non_desktop.len() ==> (#[trigger] before.non_desktop[j]).0
                    != connector) ==> {
                &&& after.non_desktop == before.non_desktop
                &&& output is Some <==> before.surfaces.contains_key(crtc)
                &&& output matches Some(o) ==> o == before.surfaces[crtc].output
                &&& forall|c: u32| #[trigger]
                    after.surfaces.contains_key(c) <==> c != crtc && before.surfaces.contains_key(c)
                &&& forall|c: u32| #[trigger]
                    after.surfaces.contains_key(c) ==> after.surfaces[c] == before.surfaces[c]
            }
        }),
{
    let before = old(tty)@.devices[node.dev_id];
    assert(final(tty)@.devices.dom() =~= old(tty)@.devices.dom());
    assert forall|i: int|
        0 <= i < before.non_desktop.len() && (#[trigger] before.non_desktop[i]).0 == connector && (
        forall|j: int|
            0 <= j < i ==> (#[trigger] before.non_desktop[j]).0
                != connector) implies first_entry(before.non_desktop, connector) == Some(i) by {
        assert(is_first_entry(before.non_desktop, connector, i));
        lemma_first_entry(before.non_desktop, connector, i);
    }
    if first_entry(before.non_desktop, connector) is Some {
        lemma_first_entry_is_first(before.non_desktop, connector);
        let i = first_entry(before.non_desktop, connector)->Some_0;
        assert(before.non_desktop[i].0 == connector);
    }
}

/// A connector is no desktop where its properties could be read and the first of them that is
/// named `non-desktop` is a truth value other than zero.
pub proof fn law_non_desktop(properties: &Option<Vec<Property>>, yes: bool)
    requires
        call_ensures(non_desktop, (properties,), yes),
    ensures
        properties is None ==> !yes,
        properties matches Some(list) ==> {
            &&& forall|i: int|
                0 <= i < list@.len() && (#[trigger] list@[i]).name is Some
                    && list@[i].name->Some_0@ == "non-desktop"@ && (forall|j: int|
                    0 <= j < i ==> ((#[trigger] list@[j]).name is None || list@[j].name->Some_0@
                        != "non-desktop"@)) ==> yes == (list@[i].boolean && list@[i].value != 0)
            &&& (forall|i: int|
                0 <= i < list@.len() ==> (#[trigger] list@[i]).name is None
                    || list@[i].name->Some_0@ != "non-desktop"@) ==> !yes
        },
{
    if let Some(list) = *properties {
        assert forall|i: int|
            0 <= i < list@.len() && (#[trigger] list@[i]).name is Some && list@[i].name->Some_0@
                == "non-desktop"@ && (forall|j: int|
                0 <= j < i ==> ((#[trigger] list@[j]).name is None || list@[j].name->Some_0@
                    != "non-desktop"@)) implies yes == (list@[i].boolean && list@[i].value
            != 0) by {
            assert(is_first_mark(list@, i));
            assert forall|k: int| is_first_mark(list@, k) implies k == i by {
                if k < i {
                    assert(!marks_non_desktop(list@[k]));
                }
                if i < k {
                    assert(!marks_non_desktop(list@[i]));
                }
            }
        }
        if yes {
            let i = choose|i: int| #[trigger]
                is_first_mark(list@, i) && list@[i].boolean && list@[i].value != 0;
            assert(marks_non_desktop(list@[i]));
            assert(list@[i].name is Some);
        }
    }
}

} // verus!
