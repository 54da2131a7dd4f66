//! The devices, connectors and surfaces that the backend knows.

use std::collections::HashMap;
use std::hash::Hash;

use vstd::prelude::*;
use vstd::std_specs::hash::*;

use crate::formats::{SurfaceDmabufFeedback, SurfaceDmabufFeedbackView};

pub mod connectors;
pub mod consistency;
pub mod feedback;
pub mod frame;
pub mod hotplug;
pub mod removal;
pub mod session;
pub mod setup;

verus! {

broadcast use group_hash_axioms;

/// A DRM device node, known by its device number.
#[derive(Clone, Copy, PartialEq, Eq, Structural, Debug)]
pub struct DrmNode {
    pub dev_id: u64,
}

/// A connector of a device that shows one output.
#[derive(Debug)]
pub struct Surface {
    output: u64,
    device_id: DrmNode,
    render_node: DrmNode,
    dmabuf_feedback: Option<SurfaceDmabufFeedback>,
}

/// What `Surface` holds.
pub struct SurfaceView {
    pub output: u64,
    pub device_id: DrmNode,
    pub render_node: DrmNode,
    pub dmabuf_feedback: Option<SurfaceDmabufFeedbackView>,
}

impl View for Surface {
    type V = SurfaceView;

    closed spec fn view(&self) -> SurfaceView {
        SurfaceView {
            output: self.output,
            device_id: self.device_id,
            render_node: self.render_node,
            dmabuf_feedback: match self.dmabuf_feedback {
                Some(f) => Some(f@),
                None => None,
            },
        }
    }
}

/// An opened GPU with what it shows.
#[derive(Debug)]
pub struct GpuDevice {
    token: u64,
    render_node: DrmNode,
    surfaces: HashMap<u32, Surface>,
    non_desktop_connectors: Vec<(u32, u32)>,
}

/// What `GpuDevice` holds: its surfaces by the CRTC that drives them, and the connectors that
/// are no desktop, each with its CRTC, in the order in which they came.
#[verifier::ext_equal]
pub struct GpuDeviceView {
    pub token: u64,
    pub render_node: DrmNode,
    pub surfaces: Map<u32, SurfaceView>,
    pub non_desktop: Seq<(u32, u32)>,
}

impl GpuDevice {
    /// No connector is recorded twice with one CRTC.
    #[verifier::type_invariant]
    pub closed spec fn wf(self) -> bool {
        self.non_desktop_connectors@.no_duplicates()
    }
}

impl View for GpuDevice {
    type V = GpuDeviceView;

    closed spec fn view(&self) -> GpuDeviceView {
        GpuDeviceView {
            token: self.token,
            render_node: self.render_node,
            surfaces: self.surfaces@.map_values(|s: Surface| s@),
            non_desktop: self.non_desktop_connectors@,
        }
    }
}

/// The backend's record of the session.
#[derive(Debug)]
pub struct Tty {
    primary_node: DrmNode,
    primary_render_node: DrmNode,
    devices: HashMap<u64, GpuDevice>,
    seat_name: String,
    dmabuf_global: Option<u64>,
}

/// What `Tty` holds, the devices by their device number.
#[verifier::ext_equal]
pub struct TtyView {
    pub primary_node: DrmNode,
    pub primary_render_node: DrmNode,
    pub devices: Map<u64, GpuDeviceView>,
    pub seat_name: Seq<char>,
    pub dmabuf_global: Option<u64>,
}

impl View for Tty {
    type V = TtyView;

    closed spec fn view(&self) -> TtyView {
        TtyView {
            primary_node: self.primary_node,
            primary_render_node: self.primary_render_node,
            devices: self.devices@.map_values(|d: GpuDevice| d@),
            seat_name: self.seat_name@,
            dmabuf_global: self.dmabuf_global,
        }
    }
}

/// The sequence names each member of the set once.
pub open spec fn lists<A>(items: Seq<A>, set: Set<A>) -> bool {
    items.no_duplicates() && items.to_set() == set
}

/// The keys of a map, in some order.
pub(crate) fn key_list<K: Copy + Eq + Hash, V>(map: &HashMap<K, V>) -> (keys: Vec<K>)
    requires
        obeys_key_model::<K>(),
    ensures
        lists(keys@, map@.dom()),
{
    let mut keys: Vec<K> = Vec::new();
    proof {
        let all = vstd::std_specs::iter::IteratorSpec::remaining(&spec_keys_iter(map));
        assert forall|i: int| 0 <= i < all.len() implies map@.contains_key(*#[trigger] all[i]) by {
            assert(all.unref().to_set().contains(all.unref()[i]));
        }
    }
    for key in it: map.keys()
        invariant
            keys@.len() == it.index(),
            forall|i: int| 0 <= i < keys@.len() ==> #[trigger] keys@[i] == *it.seq()[i],
            forall|i: int| 0 <= i < it.seq().len() ==> map@.contains_key(*#[trigger] it.seq()[i]),
            it.seq().no_duplicates(),
            it.seq().len() == map@.dom().len(),
            forall|i: int| 0 <= i < keys@.len() ==> map@.contains_key(#[trigger] keys@[i]),
            keys@.no_duplicates(),
    {
        keys.push(*key);
    }
    proof {
        keys@.unique_seq_to_set();
        vstd::set_lib::lemma_subset_equality(keys@.to_set(), map@.dom());
    }
    keys
}

impl TtyView {
    /// The device is known.
    pub open spec fn knows(self, node: DrmNode) -> bool {
        self.devices.contains_key(node.dev_id)
    }

    /// The record of a known device.
    pub open spec fn device(self, node: DrmNode) -> GpuDeviceView {
        self.devices[node.dev_id]
    }

    /// The device is known and drives a surface with the CRTC.
    pub open spec fn has_surface(self, node: DrmNode, crtc: u32) -> bool {
        self.knows(node) && self.device(node).surfaces.contains_key(crtc)
    }

    /// The same record with another state of one device.
    pub open spec fn with_device(self, node: DrmNode, device: GpuDeviceView) -> TtyView {
        TtyView { devices: self.devices.insert(node.dev_id, device), ..self }
    }

    /// The same record with another state of one surface.
    pub open spec fn with_surface(self, node: DrmNode, crtc: u32, surface: SurfaceView) -> TtyView {
        self.with_device(
            node,
            GpuDeviceView {
                surfaces: self.device(node).surfaces.insert(crtc, surface),
                ..self.device(node)
            },
        )
    }
}

/// A device number belongs to no DRM node.
#[derive(Clone, Copy, PartialEq, Eq, Structural, Debug)]
pub struct NodeError;

/// What looking for the primary GPU of the seat came to.
#[derive(Clone, Copy, PartialEq, Eq, Structural, Debug)]
pub enum PrimaryGpu {
    /// The search failed.
    SearchFailed,
    /// The seat has no GPU.
    Missing,
    /// There is one, but its node could not be opened.
    OpenFailed,
    /// There is one.
    Found(DrmNode),
}

/// Why the backend cannot start.
#[derive(Clone, Copy, PartialEq, Eq, Structural, Debug)]
pub enum StartError {
    SearchFailed,
    NoGpu,
    OpenFailed,
}

impl StartError {
    /// Says in words what went wrong.
    pub fn message(&self) -> (text: &'static str)
        ensures
            text@ == match *self {
                StartError::SearchFailed => "error getting the primary GPU"@,
                StartError::NoGpu => "couldn't find a GPU"@,
                StartError::OpenFailed => "error opening the primary GPU DRM node"@,
            },
    {
        match self {
            StartError::SearchFailed => "error getting the primary GPU",
            StartError::NoGpu => "couldn't find a GPU",
            StartError::OpenFailed => "error opening the primary GPU DRM node",
        }
    }
}

/// The node that renders for the primary GPU: its render node, or itself where it has none or
/// none that can be opened.
pub open spec fn render_node_or(
    render_node: Option<Result<DrmNode, NodeError>>,
    primary: DrmNode,
) -> DrmNode {
    match render_node {
        Some(Ok(node)) => node,
        _ => primary,
    }
}

/// The record at the start of a session.
pub open spec fn fresh_tty(
    seat_name: Seq<char>,
    primary_node: DrmNode,
    primary_render_node: DrmNode,
) -> TtyView {
    TtyView {
        primary_node,
        primary_render_node,
        devices: Map::empty(),
        seat_name,
        dmabuf_global: None,
    }
}

impl Tty {
    /// Starts the record of a session on the seat. The render node is the one that belongs to
    /// the primary GPU, if it has one.
    pub fn new(
        seat_name: String,
        primary_gpu: PrimaryGpu,
        render_node: Option<Result<DrmNode, NodeError>>,
    ) -> (tty: Result<Tty, StartError>)
        ensures
            match primary_gpu {
                PrimaryGpu::Found(node) => tty matches Ok(t) && t@ == fresh_tty(
                    seat_name@,
                    node,
                    render_node_or(render_node, node),
                ),
                PrimaryGpu::SearchFailed => tty matches Err(e) && e == StartError::SearchFailed,
                PrimaryGpu::Missing => tty matches Err(e) && e == StartError::NoGpu,
                PrimaryGpu::OpenFailed => tty matches Err(e) && e == StartError::OpenFailed,
            },
    {
        let primary_node: DrmNode = match primary_gpu {
            PrimaryGpu::Found(node) => node,
            PrimaryGpu::SearchFailed => {
                return Err(StartError::SearchFailed);
            },
            PrimaryGpu::Missing => {
                return Err(StartError::NoGpu);
            },
            PrimaryGpu::OpenFailed => {
                return Err(StartError::OpenFailed);
            },
        };
        let primary_render_node: DrmNode = match render_node {
            Some(Ok(node)) => node,
            _ => primary_node,
        };
        let tty = Tty {
            primary_node,
            primary_render_node,
            devices: HashMap::new(),
            seat_name,
            dmabuf_global: None,
        };
        assert(tty@.devices =~= Map::empty());
        Ok(tty)
    }
}

impl Tty {
    /// The name of the seat.
    pub fn seat_name(&self) -> (name: &str)
        ensures
            name@ == self@.seat_name,
    {
        self.seat_name.as_str()
    }

    /// The primary GPU.
    pub fn primary_node(&self) -> (node: DrmNode)
        ensures
            node == self@.primary_node,
    {
        self.primary_node
    }

    /// The node that renders for the primary GPU.
    pub fn primary_render_node(&self) -> (node: DrmNode)
        ensures
            node == self@.primary_render_node,
    {
        self.primary_render_node
    }

    /// The buffer global that clients are offered, if any.
    pub fn dmabuf_global(&self) -> (global: Option<u64>)
        ensures
            global == self@.dmabuf_global,
    {
        self.dmabuf_global
    }

    /// Whether the device is known.
    pub fn knows(&self, node: DrmNode) -> (known: bool)
        ensures
            known == self@.knows(node),
    {
        self.devices.contains_key(&node.dev_id)
    }

    /// The node that renders for a device, if the device is known.
    pub fn device_render_node(&self, node: DrmNode) -> (render_node: Option<DrmNode>)
        ensures
            render_node == if self@.knows(node) {
                Some(self@.device(node).render_node)
            } else {
                None
            },
    {
        match self.devices.get(&node.dev_id) {
            Some(device) => Some(device.render_node),
            None => None,
        }
    }
}

pub(crate) proof fn lemma_take_contains<A>(s: Seq<A>, i: int)
    requires
        0 <= i < s.len(),
    ensures
        forall|x: A| #[trigger] s.take(i + 1).contains(x) <==> s.take(i).contains(x) || x == s[i],
{
    assert forall|x: A| #[trigger] s.take(i + 1).contains(x) <==> s.take(i).contains(x) || x
        == s[i] by {
        if s.take(i + 1).contains(x) {
            let longer = s.take(i + 1);
            let j = choose|j: int| 0 <= j < longer.len() && longer[j] == x;
            if j < i {
                assert(s.take(i)[j] == x);
            }
        }
        if s.take(i).contains(x) {
            let shorter = s.take(i);
            let j = choose|j: int| 0 <= j < shorter.len() && shorter[j] == x;
            assert(s.take(i + 1)[j] == x);
        }
        if x == s[i] {
            assert(s.take(i + 1)[i] == x);
        }
    }
}

/// A session starts where a primary GPU was found, and each way of not finding one is told
/// apart. It starts on the seat, with the GPU that was found, with no device and no buffer global;
/// the GPU's render node renders for it where there is one that can be opened, and else the GPU
/// itself.
pub proof fn law_session_start(
    seat_name: String,
    primary_gpu: PrimaryGpu,
    render_node: Option<Result<DrmNode, NodeError>>,
    tty: Result<Tty, StartError>,
)
    requires
        call_ensures(Tty::new, (seat_name, primary_gpu, render_node), tty),
    ensures
        tty is Ok <==> primary_gpu is Found,
        primary_gpu is SearchFailed <==> (tty matches Err(e) && e == StartError::SearchFailed),
        primary_gpu is Missing <==> (tty matches Err(e) && e == StartError::NoGpu),
        primary_gpu is OpenFailed <==> (tty matches Err(e) && e == StartError::OpenFailed),
        tty matches Ok(t) ==> {
            &&& primary_gpu == PrimaryGpu::Found(t@.primary_node)
            &&& render_node matches Some(Ok(node)) ==> t@.primary_render_node == node
            &&& !(render_node is Some && render_node->Some_0 is Ok) ==> t@.primary_render_node
                == t@.primary_node
            &&& t@.seat_name == seat_name@
            &&& t@.devices.dom() == Set::<u64>::empty()
            &&& t@.dmabuf_global is None
        },
{
}

/// What is read of the record is what it holds; a device is known by its number, and renders on
/// its own render node.
pub proof fn law_record_reads(
    tty: &Tty,
    node: DrmNode,
    known: bool,
    render_node: Option<DrmNode>,
    primary: DrmNode,
    primary_render: DrmNode,
    global: Option<u64>,
    seat_name: &str,
)
    requires
        call_ensures(Tty::seat_name, (tty,), seat_name),
        call_ensures(Tty::knows, (tty, node), known),
        call_ensures(Tty::device_render_node, (tty, node), render_node),
        call_ensures(Tty::primary_node, (tty,), primary),
        call_ensures(Tty::primary_render_node, (tty,), primary_render),
        call_ensures(Tty::dmabuf_global, (tty,), global),
    ensures
        known <==> tty@.devices.contains_key(node.dev_id),
        render_node is Some <==> known,
        render_node matches Some(n) ==> n == tty@.devices[node.dev_id].render_node,
        primary == tty@.primary_node,
        primary_render == tty@.primary_render_node,
        global == tty@.dmabuf_global,
        seat_name@ == tty@.seat_name,
{
}

} // verus!
