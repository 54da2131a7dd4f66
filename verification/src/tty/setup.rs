//! How a connector that is plugged in becomes an output: one question to the hardware after the
//! other, and what each answer leads to.

use vstd::prelude::*;
use vstd::std_specs::hash::*;

use crate::formats::{
    probed_feedback, surface_dmabuf_feedback, surface_formats, without_compressed, FeedbackProbe,
    FormatSet, SurfaceDmabufFeedback, SUPPORTED_COLOR_FORMATS,
};
use crate::mode::{is_selected, law_selection_is_unique, select_mode, Mode};
use crate::text::{interface_text, is_vendor_driver, joined_name, output_name, vendor_driver};
use crate::tty::connectors::{
    after_disconnect, first_entry, is_first_entry, is_non_desktop, lemma_first_entry,
    lemma_no_entry, non_desktop, Property,
};
use crate::tty::{DrmNode, GpuDevice, GpuDeviceView, Surface, SurfaceView, Tty, TtyView};

verus! {

broadcast use group_hash_axioms;

/// What is known of a connector that is plugged in.
#[derive(Debug)]
pub struct ConnectorInfo {
    pub handle: u32,
    /// The kernel's number for the kind of plug.
    pub interface: u32,
    /// Which of the plugs of that kind it is.
    pub interface_id: u32,
    /// The modes that the display offers.
    pub modes: Vec<Mode>,
    /// Width and height of the display in millimetres, where known.
    pub size: Option<(u32, u32)>,
}

/// What a display says of itself.
#[derive(Debug)]
pub struct DisplayInfo {
    pub make: Option<String>,
    pub model: Option<String>,
}

/// The output that a connector becomes.
#[derive(Debug)]
pub struct OutputPlan {
    pub name: String,
    /// Width and height in millimetres.
    pub physical_size: (i32, i32),
    pub make: String,
    pub model: String,
    /// Where the output stands among all outputs.
    pub location: (i32, i32),
    /// Which of the connector's modes it is driven with.
    pub mode: usize,
}

/// A number as the signed number with the same bits.
pub open spec fn same_bits(n: u32) -> int {
    if n < 0x8000_0000 {
        n as int
    } else {
        n - 0x1_0000_0000
    }
}

fn to_signed(n: u32) -> (s: i32)
    ensures
        s == same_bits(n),
{
    if n < 0x8000_0000 {
        n as i32
    } else {
        (n - 0x8000_0000) as i32 + i32::MIN
    }
}

/// The text, or `Unknown` where there is none.
pub open spec fn text_or_unknown(text: Option<String>) -> Seq<char> {
    match text {
        Some(text) => text@,
        None => "Unknown"@,
    }
}

fn or_unknown(text: Option<String>) -> (res: String)
    ensures
        res@ == text_or_unknown(text),
{
    match text {
        Some(text) => text,
        None => "Unknown".to_owned(),
    }
}

/// The plan is the one for the connector and what its display says of itself.
pub open spec fn is_plan_for(
    plan: OutputPlan,
    connector: ConnectorInfo,
    display: Option<DisplayInfo>,
) -> bool {
    &&& plan.name@ == joined_name(interface_text(connector.interface), connector.interface_id)
    &&& match connector.size {
        Some((width, height)) => plan.physical_size.0 == same_bits(width) && plan.physical_size.1
            == same_bits(height),
        None => plan.physical_size == (0i32, 0i32),
    }
    &&& match display {
        Some(info) => plan.make@ == text_or_unknown(info.make) && plan.model@ == text_or_unknown(
            info.model,
        ),
        None => plan.make@ == "Unknown"@ && plan.model@ == "Unknown"@,
    }
    &&& plan.location == (0i32, 0i32)
    &&& plan.mode < connector.modes@.len()
    &&& is_selected(connector.modes@, plan.mode as int)
}

/// Plans the output of a connector that offers at least one mode.
pub fn plan_output(connector: &ConnectorInfo, display: Option<DisplayInfo>) -> (plan: OutputPlan)
    requires
        connector.modes@.len() > 0,
    ensures
        is_plan_for(plan, *connector, display),
{
    let (make, model) = match display {
        Some(info) => (or_unknown(info.make), or_unknown(info.model)),
        None => (or_unknown(None), or_unknown(None)),
    };
    let physical_size: (i32, i32) = match connector.size {
        Some((width, height)) => (to_signed(width), to_signed(height)),
        None => (0, 0),
    };
    OutputPlan {
        name: output_name(connector.interface, connector.interface_id),
        physical_size,
        make,
        model,
        location: (0, 0),
        mode: select_mode(&connector.modes),
    }
}

/// A driver's name and description.
#[derive(Debug)]
pub struct DriverInfo {
    pub name: String,
    pub description: String,
}

/// Something that was asked of the hardware failed.
#[derive(Clone, Copy, PartialEq, Eq, Structural, Debug)]
pub struct SetupError;

/// The answer that the setup of a connector waits for.
#[derive(Debug)]
pub enum SetupStage {
    Properties { connector: ConnectorInfo },
    Display { connector: ConnectorInfo },
    Output { mode: usize },
    Driver { mode: usize, output: u64 },
    Planes { mode: usize, output: u64, overlays_work: bool },
    Surface { output: u64 },
    RenderFormats { output: u64 },
    Compositor { output: u64 },
    Feedback { output: u64 },
}

/// A connector that is being set up, with the CRTC that is to drive it.
#[derive(Debug)]
pub struct ConnectorSetup {
    pub node: DrmNode,
    pub crtc: u32,
    pub stage: SetupStage,
}

/// An answer.
#[derive(Debug)]
pub enum SetupEvent {
    /// The properties of the connector, where they could be read.
    Properties(Option<Vec<Property>>),
    /// What the display says of itself, if anything.
    Display(Option<DisplayInfo>),
    /// The output is there; this is the one that surfaces are now shown on.
    OutputAdded(u64),
    Driver(Result<DriverInfo, SetupError>),
    /// The overlay planes of the CRTC.
    Planes(Result<Vec<u32>, SetupError>),
    SurfaceCreated(Result<(), SetupError>),
    /// The formats that the device's renderer can draw to.
    RenderFormats(FormatSet),
    CompositorCreated(Result<(), SetupError>),
    Feedback(FeedbackProbe),
}

/// Why a connector is not set up any further.
#[derive(Clone, Copy, PartialEq, Eq, Structural, Debug)]
pub enum StopReason {
    UnknownDevice,
    NonDesktop,
    NoDriver,
    NoPlanes,
    NoSurface,
    NoCompositor,
}

/// What is done next about a connector.
#[derive(Debug)]
pub enum SetupAction {
    QueryProperties,
    QueryDisplay,
    AddOutput(OutputPlan),
    QueryDriver,
    QueryPlanes,
    /// The overlay planes are those that work.
    CreateSurface { mode: usize, overlays: Vec<u32> },
    QueryRenderFormats,
    /// The output is composited in the first of the colour formats that works.
    CreateCompositor { color_formats: [u32; 4], formats: FormatSet },
    QueryFeedback,
    /// Render the new surface once the pending events are handled.
    Render,
    Stop(StopReason),
}

/// The answer is the one that the setup waits for.
pub open spec fn awaits(stage: SetupStage, event: SetupEvent) -> bool {
    match stage {
        SetupStage::Properties { .. } => event is Properties,
        SetupStage::Display { .. } => event is Display,
        SetupStage::Output { .. } => event is OutputAdded,
        SetupStage::Driver { .. } => event is Driver,
        SetupStage::Planes { .. } => event is Planes,
        SetupStage::Surface { .. } => event is SurfaceCreated,
        SetupStage::RenderFormats { .. } => event is RenderFormats,
        SetupStage::Compositor { .. } => event is CompositorCreated,
        SetupStage::Feedback { .. } => event is Feedback,
    }
}

/// The record with the connector and its CRTC entered as no desktop.
pub open spec fn with_entry(tty: TtyView, node: DrmNode, connector: u32, crtc: u32) -> TtyView {
    let device = tty.device(node);
    if device.non_desktop.contains((connector, crtc)) {
        tty
    } else {
        tty.with_device(
            node,
            GpuDeviceView { non_desktop: device.non_desktop.push((connector, crtc)), ..device },
        )
    }
}

/// The surface that a connector becomes in the end.
pub open spec fn new_surface(
    tty: TtyView,
    node: DrmNode,
    output: u64,
    probe: FeedbackProbe,
) -> SurfaceView {
    let render_node = tty.device(node).render_node;
    SurfaceView {
        output,
        device_id: node,
        render_node,
        dmabuf_feedback: probed_feedback(
            tty.primary_render_node.dev_id,
            render_node.dev_id,
            probe,
        ),
    }
}

/// The setup stops with nothing recorded.
pub open spec fn stops(
    before: TtyView,
    after: TtyView,
    next: Option<ConnectorSetup>,
    action: SetupAction,
    reason: StopReason,
) -> bool {
    after == before && next is None && action == SetupAction::Stop(reason)
}

/// The setup goes on to another stage with nothing recorded.
pub open spec fn goes_on(
    before: TtyView,
    after: TtyView,
    setup: ConnectorSetup,
    next: Option<ConnectorSetup>,
    stage: SetupStage,
) -> bool {
    after == before && next == Some(ConnectorSetup { stage, ..setup })
}

/// What an answer leads to: the record after it, the setup that is left to do, and the next
/// thing to be done.
pub open spec fn leads_to(
    before: TtyView,
    setup: ConnectorSetup,
    event: SetupEvent,
    after: TtyView,
    next: Option<ConnectorSetup>,
    action: SetupAction,
) -> bool {
    match (setup.stage, event) {
        (SetupStage::Properties { connector }, SetupEvent::Properties(properties)) => if is_non_desktop(
            properties,
        ) {
            if before.knows(setup.node) {
                &&& after == with_entry(before, setup.node, connector.handle, setup.crtc)
                &&& next is None
                &&& action == SetupAction::Stop(StopReason::NonDesktop)
            } else {
                stops(before, after, next, action, StopReason::UnknownDevice)
            }
        } else {
            &&& goes_on(before, after, setup, next, SetupStage::Display { connector })
            &&& action == SetupAction::QueryDisplay
        },
        (SetupStage::Display { connector }, SetupEvent::Display(display)) => {
            &&& action matches SetupAction::AddOutput(plan)
            &&& is_plan_for(plan, connector, display)
            &&& goes_on(before, after, setup, next, SetupStage::Output { mode: plan.mode })
        },
        (SetupStage::Output { mode }, SetupEvent::OutputAdded(output)) => {
            &&& goes_on(before, after, setup, next, SetupStage::Driver { mode, output })
            &&& action == SetupAction::QueryDriver
        },
        (SetupStage::Driver { mode, output }, SetupEvent::Driver(driver)) => match driver {
            Ok(driver) => {
                &&& goes_on(
                    before,
                    after,
                    setup,
                    next,
                    SetupStage::Planes {
                        mode,
                        output,
                        overlays_work: !vendor_driver(driver.name@, driver.description@),
                    },
                )
                &&& action == SetupAction::QueryPlanes
            },
            Err(_) => stops(before, after, next, action, StopReason::NoDriver),
        },
        (
            SetupStage::Planes { mode, output, overlays_work },
            SetupEvent::Planes(planes),
        ) => match planes {
            Ok(overlays) => {
                &&& goes_on(before, after, setup, next, SetupStage::Surface { output })
                &&& action matches SetupAction::CreateSurface { mode: m, overlays: usable }
                &&& m == mode
                &&& usable@ == if overlays_work {
                    overlays@
                } else {
                    Seq::empty()
                }
            },
            Err(_) => stops(before, after, next, action, StopReason::NoPlanes),
        },
        (SetupStage::Surface { output }, SetupEvent::SurfaceCreated(created)) => match created {
            Ok(_) => {
                &&& goes_on(before, after, setup, next, SetupStage::RenderFormats { output })
                &&& action == SetupAction::QueryRenderFormats
            },
            Err(_) => stops(before, after, next, action, StopReason::NoSurface),
        },
        (SetupStage::RenderFormats { output }, SetupEvent::RenderFormats(formats)) => {
            &&& goes_on(before, after, setup, next, SetupStage::Compositor { output })
            &&& action matches SetupAction::CreateCompositor { color_formats, formats: wanted }
            &&& color_formats == SUPPORTED_COLOR_FORMATS
            &&& wanted@ == without_compressed(formats@)
        },
        (SetupStage::Compositor { output }, SetupEvent::CompositorCreated(created)) => match created {
            Ok(_) => {
                &&& goes_on(before, after, setup, next, SetupStage::Feedback { output })
                &&& action == SetupAction::QueryFeedback
            },
            Err(_) => stops(before, after, next, action, StopReason::NoCompositor),
        },
        (SetupStage::Feedback { output }, SetupEvent::Feedback(probe)) => if before.knows(
            setup.node,
        ) {
            &&& after == before.with_surface(
                setup.node,
                setup.crtc,
                new_surface(before, setup.node, output, probe),
            )
            &&& next is None
            &&& action == SetupAction::Render
        } else {
            stops(before, after, next, action, StopReason::UnknownDevice)
        },
        _ => false,
    }
}

impl Tty {
    /// Begins to set up a connector that was plugged in. An unknown device has none.
    pub fn connector_connected(&self, node: DrmNode, connector: ConnectorInfo, crtc: u32) -> (res: (
        Option<ConnectorSetup>,
        SetupAction,
    ))
        ensures
            if self@.knows(node) {
                res.0 == Some(
                    ConnectorSetup { node, crtc, stage: SetupStage::Properties { connector } },
                ) && res.1 == SetupAction::QueryProperties
            } else {
                res.0 is None && res.1 == SetupAction::Stop(StopReason::UnknownDevice)
            },
    {
        if self.knows(node) {
            (
                Some(ConnectorSetup { node, crtc, stage: SetupStage::Properties { connector } }),
                SetupAction::QueryProperties,
            )
        } else {
            (None, SetupAction::Stop(StopReason::UnknownDevice))
        }
    }

    /// Goes on with the setup of a connector after an answer: gives the setup that is left to
    /// do, if any, and what is to be done next.
    pub fn connector_step(&mut self, setup: ConnectorSetup, event: SetupEvent) -> (res: (
        Option<ConnectorSetup>,
        SetupAction,
    ))
        requires
            awaits(setup.stage, event),
            setup.stage matches SetupStage::Display { connector } ==> connector.modes@.len() > 0,
        ensures
            leads_to(old(self)@, setup, event, final(self)@, res.0, res.1),
    {
        let ConnectorSetup { node, crtc, stage } = setup;
        match (stage, event) {
            (SetupStage::Properties { connector }, SetupEvent::Properties(properties)) => {
                if non_desktop(&properties) {
                    if self.enter_non_desktop(node, connector.handle, crtc) {
                        (None, SetupAction::Stop(StopReason::NonDesktop))
                    } else {
                        (None, SetupAction::Stop(StopReason::UnknownDevice))
                    }
                } else {
                    (
                        Some(ConnectorSetup { node, crtc, stage: SetupStage::Display { connector } }),
                        SetupAction::QueryDisplay,
                    )
                }
            },
            (SetupStage::Display { connector }, SetupEvent::Display(display)) => {
                let plan = plan_output(&connector, display);
                (
                    Some(
                        ConnectorSetup { node, crtc, stage: SetupStage::Output { mode: plan.mode } },
                    ),
                    SetupAction::AddOutput(plan),
                )
            },
            (SetupStage::Output { mode }, SetupEvent::OutputAdded(output)) => (
                Some(ConnectorSetup { node, crtc, stage: SetupStage::Driver { mode, output } }),
                SetupAction::QueryDriver,
            ),
            (SetupStage::Driver { mode, output }, SetupEvent::Driver(driver)) => match driver {
                Ok(driver) => {
                    let overlays_work: bool = !is_vendor_driver(
                        driver.name.as_str(),
                        driver.description.as_str(),
                    );
                    (
                        Some(
                            ConnectorSetup {
                                node,
                                crtc,
                                stage: SetupStage::Planes { mode, output, overlays_work },
                            },
                        ),
                        SetupAction::QueryPlanes,
                    )
                },
                Err(_) => (None, SetupAction::Stop(StopReason::NoDriver)),
            },
            (
                SetupStage::Planes { mode, output, overlays_work },
                SetupEvent::Planes(planes),
            ) => match planes {
                Ok(overlays) => {
                    let usable: Vec<u32> = if overlays_work {
                        overlays
                    } else {
                        Vec::new()
                    };
                    (
                        Some(ConnectorSetup { node, crtc, stage: SetupStage::Surface { output } }),
                        SetupAction::CreateSurface { mode, overlays: usable },
                    )
                },
                Err(_) => (None, SetupAction::Stop(StopReason::NoPlanes)),
            },
            (SetupStage::Surface { output }, SetupEvent::SurfaceCreated(created)) => match created {
                Ok(_) => (
                    Some(ConnectorSetup { node, crtc, stage: SetupStage::RenderFormats { output } }),
                    SetupAction::QueryRenderFormats,
                ),
                Err(_) => (None, SetupAction::Stop(StopReason::NoSurface)),
            },
            (SetupStage::RenderFormats { output }, SetupEvent::RenderFormats(formats)) => (
                Some(ConnectorSetup { node, crtc, stage: SetupStage::Compositor { output } }),
                SetupAction::CreateCompositor {
                    color_formats: SUPPORTED_COLOR_FORMATS,
                    formats: surface_formats(&formats),
                },
            ),
            (
                SetupStage::Compositor { output },
                SetupEvent::CompositorCreated(created),
            ) => match created {
                Ok(_) => (
                    Some(ConnectorSetup { node, crtc, stage: SetupStage::Feedback { output } }),
                    SetupAction::QueryFeedback,
                ),
                Err(_) => (None, SetupAction::Stop(StopReason::NoCompositor)),
            },
            (SetupStage::Feedback { output }, SetupEvent::Feedback(probe)) => {
                if self.enter_surface(node, crtc, output, &probe) {
                    (None, SetupAction::Render)
                } else {
                    (None, SetupAction::Stop(StopReason::UnknownDevice))
                }
            },
            _ => {
                assert(false);
                (None, SetupAction::Stop(StopReason::UnknownDevice))
            },
        }
    }

    /// Enters a connector with its CRTC as no desktop. Says whether the device is known.
    fn enter_non_desktop(&mut self, node: DrmNode, connector: u32, crtc: u32) -> (known: bool)
        ensures
            known == old(self)@.knows(node),
            final(self)@ == if known {
                with_entry(old(self)@, node, connector, crtc)
            } else {
                old(self)@
            },
    {
        let ghost before = self@;
        let device = match self.devices.remove(&node.dev_id) {
            Some(device) => device,
            None => {
                assert(self@ =~= before);
                return false;
            },
        };
        proof {
            use_type_invariant(&device);
        }
        let GpuDevice { token, render_node, surfaces, non_desktop_connectors } = device;
        let mut entries = non_desktop_connectors;
        if !has_entry(&entries, connector, crtc) {
            entries.push((connector, crtc));
        }
        let device = GpuDevice { token, render_node, surfaces, non_desktop_connectors: entries };
        let ghost expected = with_entry(before, node, connector, crtc);
        assert(device@ =~= expected.device(node));
        self.devices.insert(node.dev_id, device);
        assert(self@.devices =~= expected.devices);
        true
    }

    /// Enters the surface that a connector has become. Says whether the device is known.
    fn enter_surface(&mut self, node: DrmNode, crtc: u32, output: u64, probe: &FeedbackProbe) -> (known:
        bool)
        ensures
            known == old(self)@.knows(node),
            final(self)@ == if known {
                old(self)@.with_surface(node, crtc, new_surface(old(self)@, node, output, *probe))
            } else {
                old(self)@
            },
    {
        let ghost before = self@;
        let device = match self.devices.remove(&node.dev_id) {
            Some(device) => device,
            None => {
                assert(self@ =~= before);
                return false;
            },
        };
        proof {
            use_type_invariant(&device);
        }
        let GpuDevice { token, render_node, surfaces, non_desktop_connectors } = device;
        let mut surfaces = surfaces;
        let dmabuf_feedback = surface_dmabuf_feedback(
            self.primary_render_node.dev_id,
            render_node.dev_id,
            probe,
        );
        surfaces.insert(crtc, Surface { output, device_id: node, render_node, dmabuf_feedback });
        let device = GpuDevice { token, render_node, surfaces, non_desktop_connectors };
        let ghost expected = before.with_surface(
            node,
            crtc,
            new_surface(before, node, output, *probe),
        );
        assert(device@ =~= expected.device(node));
        self.devices.insert(node.dev_id, device);
        assert(self@.devices =~= expected.devices);
        true
    }
}

/// Whether the connector is entered with the CRTC.
fn has_entry(entries: &Vec<(u32, u32)>, connector: u32, crtc: u32) -> (found: bool)
    ensures
        found == entries@.contains((connector, crtc)),
{
    let mut i: usize = 0;
    while i < entries.len()
        invariant
            i <= entries.len(),
            forall|j: int| 0 <= j < i ==> entries@[j] != (connector, crtc),
        decreases entries.len() - i,
    {
        if entries[i].0 == connector && entries[i].1 == crtc {
            assert(entries@[i as int] == (connector, crtc));
            return true;
        }
        i = i + 1;
    }
    false
}

/// An answer leads to something else in the record only where it ends the setup: with a surface
/// that is rendered, or with a connector that is no desktop.
pub proof fn law_setup_records_at_its_end(
    before: TtyView,
    setup: ConnectorSetup,
    event: SetupEvent,
    after: TtyView,
    next: Option<ConnectorSetup>,
    action: SetupAction,
)
    requires
        leads_to(before, setup, event, after, next, action),
        after != before,
    ensures
        next is None,
        action == SetupAction::Render || action == SetupAction::Stop(StopReason::NonDesktop),
        before.knows(setup.node),
{
}

/// One answer of a setup and what it led to.
pub struct SetupRecord {
    pub event: SetupEvent,
    pub after: TtyView,
    pub next: Option<ConnectorSetup>,
    pub action: SetupAction,
}

/// The record tells what its answer leads to.
pub open spec fn tells(before: TtyView, setup: ConnectorSetup, record: SetupRecord) -> bool {
    leads_to(before, setup, record.event, record.after, record.next, record.action)
}

/// The records tell a setup from its beginning, each answer leading on to the next.
pub open spec fn is_history(
    tty: TtyView,
    setup: ConnectorSetup,
    history: Seq<SetupRecord>,
) -> bool {
    &&& setup.stage is Properties
    &&& history.len() > 0
    &&& tells(tty, setup, history[0])
    &&& forall|k: int|
        0 < k < history.len() ==> {
            let previous = history[k - 1];
            previous.next is Some && tells(
                previous.after,
                previous.next->Some_0,
                #[trigger] history[k],
            )
        }
}

/// How many answers a setup at this stage has had.
pub open spec fn answers(stage: SetupStage) -> nat {
    match stage {
        SetupStage::Properties { .. } => 0,
        SetupStage::Display { .. } => 1,
        SetupStage::Output { .. } => 2,
        SetupStage::Driver { .. } => 3,
        SetupStage::Planes { .. } => 4,
        SetupStage::Surface { .. } => 5,
        SetupStage::RenderFormats { .. } => 6,
        SetupStage::Compositor { .. } => 7,
        SetupStage::Feedback { .. } => 8,
    }
}

proof fn lemma_history(tty: TtyView, setup: ConnectorSetup, history: Seq<SetupRecord>, k: int)
    requires
        is_history(tty, setup, history),
        0 <= k < history.len(),
    ensures
        history[k].next matches Some(next) ==> {
            &&& history[k].after == tty
            &&& next.node == setup.node
            &&& next.crtc == setup.crtc
            &&& answers(next.stage) == k + 1
        },
    decreases k,
{
    if k > 0 {
        lemma_history(tty, setup, history, k - 1);
        assert(tells(history[k - 1].after, history[k - 1].next->Some_0, history[k]));
    }
}

/// A connector becomes a surface that is rendered only when every one of the nine questions was
/// answered well. Until the last answer nothing is recorded, and the surface that is recorded in
/// the end shows the output that was added.
pub proof fn law_surface_needs_all_answers(
    tty: TtyView,
    setup: ConnectorSetup,
    history: Seq<SetupRecord>,
)
    requires
        is_history(tty, setup, history),
    ensures
        history.last().next is Some ==> history.last().after == tty,
        history.last().action == SetupAction::Render ==> {
            &&& history.len() == 9
            &&& history[2].event matches SetupEvent::OutputAdded(output)
            &&& history[8].event matches SetupEvent::Feedback(probe)
            &&& history[8].after == tty.with_surface(
                setup.node,
                setup.crtc,
                new_surface(tty, setup.node, output, probe),
            )
        },
{
    let n = history.len() as int;
    lemma_history(tty, setup, history, n - 1);
    if history.last().action == SetupAction::Render {
        if n > 1 {
            lemma_history(tty, setup, history, n - 2);
            assert(tells(history[n - 2].after, history[n - 2].next->Some_0, history[n - 1]));
        }
        lemma_output_is_kept(tty, setup, history, n - 2);
    }
}

proof fn lemma_output_is_kept(
    tty: TtyView,
    setup: ConnectorSetup,
    history: Seq<SetupRecord>,
    k: int,
)
    requires
        is_history(tty, setup, history),
        2 <= k < history.len(),
        history[k].next is Some,
    ensures
        history[2].event is OutputAdded,
        ({
            let added = history[2].event->OutputAdded_0;
            match history[k].next->Some_0.stage {
                SetupStage::Driver { output, .. } => output == added,
                SetupStage::Planes { output, .. } => output == added,
                SetupStage::Surface { output } => output == added,
                SetupStage::RenderFormats { output } => output == added,
                SetupStage::Compositor { output } => output == added,
                SetupStage::Feedback { output } => output == added,
                _ => false,
            }
        }),
    decreases k,
{
    lemma_history(tty, setup, history, k);
    lemma_history(tty, setup, history, k - 1);
    assert(tells(history[k - 1].after, history[k - 1].next->Some_0, history[k]));
    if k > 2 {
        lemma_output_is_kept(tty, setup, history, k - 1);
    }
}

/// The surface is created with the mode that the output was planned with, and with the overlay
/// planes of its CRTC, but with none where the driver's cannot be used.
pub proof fn law_surface_follows_the_plan(
    tty: TtyView,
    setup: ConnectorSetup,
    history: Seq<SetupRecord>,
)
    requires
        is_history(tty, setup, history),
        history.last().action is CreateSurface,
    ensures
        history.len() == 5,
        ({
            &&& history[1].action matches SetupAction::AddOutput(plan)
            &&& history[3].event matches SetupEvent::Driver(Ok(driver))
            &&& history[4].event matches SetupEvent::Planes(Ok(found))
            &&& history[4].action matches SetupAction::CreateSurface { mode, overlays }
            &&& mode == plan.mode
            &&& overlays@ == if vendor_driver(driver.name@, driver.description@) {
                Seq::empty()
            } else {
                found@
            }
        }),
{
    let n = history.len() as int;
    if n > 1 {
        lemma_history(tty, setup, history, n - 2);
        assert(tells(history[n - 2].after, history[n - 2].next->Some_0, history[n - 1]));
        assert(n == 5);
        lemma_history(tty, setup, history, 0);
        lemma_history(tty, setup, history, 1);
        lemma_history(tty, setup, history, 2);
        assert(tells(history[0].after, history[0].next->Some_0, history[1]));
        assert(tells(history[1].after, history[1].next->Some_0, history[2]));
        assert(tells(history[2].after, history[2].next->Some_0, history[3]));
    }
}

/// Unplugging a connector undoes what plugging it in did, and gives up the output it became.
pub proof fn law_disconnect_undoes_connect(
    tty: TtyView,
    node: DrmNode,
    connector: u32,
    crtc: u32,
    output: u64,
    probe: FeedbackProbe,
)
    requires
        tty.knows(node),
        !tty.has_surface(node, crtc),
        first_entry(tty.device(node).non_desktop, connector) is None,
    ensures
        after_disconnect(
            tty.with_surface(node, crtc, new_surface(tty, node, output, probe)),
            node,
            connector,
            crtc,
        ) == (tty, Some(output)),
{
    let connected = tty.with_surface(node, crtc, new_surface(tty, node, output, probe));
    let after = after_disconnect(connected, node, connector, crtc).0;
    assert(after.device(node).surfaces =~= tty.device(node).surfaces);
    assert(after.device(node) =~= tty.device(node));
    assert(after.devices =~= tty.devices);
    assert(after =~= tty);
}

/// Unplugging a connector that is no desktop undoes what plugging it in did, and no output goes.
pub proof fn law_disconnect_undoes_entry(tty: TtyView, node: DrmNode, connector: u32, crtc: u32)
    requires
        tty.knows(node),
        first_entry(tty.device(node).non_desktop, connector) is None,
    ensures
        after_disconnect(with_entry(tty, node, connector, crtc), node, connector, crtc) == (
            tty,
            None::<u64>,
        ),
{
    let entries = tty.device(node).non_desktop;
    lemma_no_entry(entries, connector);
    let entered = with_entry(tty, node, connector, crtc);
    let longer = entries.push((connector, crtc));
    assert(entered.device(node).non_desktop == longer);
    assert(is_first_entry(longer, connector, entries.len() as int));
    lemma_first_entry(longer, connector, entries.len() as int);
    assert(longer.remove(entries.len() as int) =~= entries);
    let after = after_disconnect(entered, node, connector, crtc).0;
    assert(after.device(node) =~= tty.device(node));
    assert(after.devices =~= tty.devices);
    assert(after =~= tty);
}

/// An output is named after its connector; has the size of the display in millimetres, as signed
/// numbers, or none; has the make and model that the display gives, or `Unknown` for each that it
/// does not; stands at the origin; and is driven with the mode that is picked from the connector's.
pub proof fn law_output_plan(
    connector: &ConnectorInfo,
    display: Option<DisplayInfo>,
    plan: OutputPlan,
    name: String,
    mode: usize,
)
    requires
        connector.modes@.len() > 0,
        call_ensures(plan_output, (connector, display), plan),
        call_ensures(output_name, (connector.interface, connector.interface_id), name),
        call_ensures(select_mode, (&connector.modes,), mode),
    ensures
        plan.name@ == name@,
        plan.mode == mode,
        plan.location.0 == 0 && plan.location.1 == 0,
        connector.size is None ==> plan.physical_size.0 == 0 && plan.physical_size.1 == 0,
        connector.size matches Some((width, height)) ==> {
            &&& width < 0x8000_0000 ==> plan.physical_size.0 == width
            &&& width >= 0x8000_0000 ==> plan.physical_size.0 == width - 0x1_0000_0000
            &&& height < 0x8000_0000 ==> plan.physical_size.1 == height
            &&& height >= 0x8000_0000 ==> plan.physical_size.1 == height - 0x1_0000_0000
        },
        display is Some && display->Some_0.make is Some ==> plan.make@
            == display->Some_0.make->Some_0@,
        display is None || display->Some_0.make is None ==> plan.make@ == "Unknown"@,
        display is Some && display->Some_0.model is Some ==> plan.model@
            == display->Some_0.model->Some_0@,
        display is None || display->Some_0.model is None ==> plan.model@ == "Unknown"@,
{
    law_selection_is_unique(connector.modes@, plan.mode as int, mode as int);
}

/// A connector of a device that is known begins with the question for its properties, under its
/// own device and CRTC; one of any other device is given up.
pub proof fn law_setup_begins(
    tty: &Tty,
    node: DrmNode,
    connector: ConnectorInfo,
    crtc: u32,
    res: (Option<ConnectorSetup>, SetupAction),
)
    requires
        call_ensures(Tty::connector_connected, (tty, node, connector, crtc), res),
    ensures
        res.0 is Some <==> tty@.devices.contains_key(node.dev_id),
        res.0 matches Some(setup) ==> {
            &&& setup.node == node
            &&& setup.crtc == crtc
            &&& setup.stage == (SetupStage::Properties { connector })
            &&& res.1 == SetupAction::QueryProperties
        },
        res.0 is None ==> res.1 == SetupAction::Stop(StopReason::UnknownDevice),
{
}

/// A connector that is found to be no desktop is entered with its CRTC, behind the others of its
/// device and once, and not set up further; nothing else of the record changes. Any other
/// connector goes on to the question for its display, and nothing changes.
pub proof fn law_properties_answered(
    tty: &mut Tty,
    setup: ConnectorSetup,
    connector: ConnectorInfo,
    properties: Option<Vec<Property>>,
    no_desktop: bool,
    res: (Option<ConnectorSetup>, SetupAction),
)
    requires
        setup.stage == (SetupStage::Properties { connector }),
        call_ensures(non_desktop, (&properties,), no_desktop),
        call_ensures(Tty::connector_step, (tty, setup, SetupEvent::Properties(properties)), res),
    ensures
        !no_desktop ==> {
            &&& final(tty)@ == old(tty)@
            &&& res.0 == Some(
                ConnectorSetup {
                    node: setup.node,
                    crtc: setup.crtc,
                    stage: SetupStage::Display { connector },
                },
            )
            &&& res.1 == SetupAction::QueryDisplay
        },
        no_desktop ==> res.0 is None,
        no_desktop && !old(tty)@.devices.contains_key(setup.node.dev_id) ==> final(tty)@ == old(
            tty,
        )@ && res.1 == SetupAction::Stop(StopReason::UnknownDevice),
        no_desktop && old(tty)@.devices.contains_key(setup.node.dev_id) ==> {
            let before = old(tty)@.devices[setup.node.dev_id];
            let after = final(tty)@.devices[setup.node.dev_id];
            let entry = (connector.handle, setup.crtc);
            &&& res.1 == SetupAction::Stop(StopReason::NonDesktop)
            &&& before.non_desktop.contains(entry) ==> after.non_desktop == before.non_desktop
            &&& !before.non_desktop.contains(entry) ==> after.non_desktop == before.non_desktop
                + seq![entry]
            &&& after.token == before.token
            &&& after.render_node == before.render_node
            &&& after.surfaces == before.surfaces
            &&& final(tty)@.devices.dom() == old(tty)@.devices.dom()
            &&& forall|d: u64|
                d != setup.node.dev_id && #[trigger] old(tty)@.devices.contains_key(d)
                    ==> final(tty)@.devices[d] == old(tty)@.devices[d]
            &&& final(tty)@.primary_node == old(tty)@.primary_node
            &&& final(tty)@.primary_render_node == old(tty)@.primary_render_node
            &&& final(tty)@.seat_name == old(tty)@.seat_name
            &&& final(tty)@.dmabuf_global == old(tty)@.dmabuf_global
        },
{
    if no_desktop && old(tty)@.devices.contains_key(setup.node.dev_id) {
        let before = old(tty)@.devices[setup.node.dev_id].non_desktop;
        let entry = (connector.handle, setup.crtc);
        assert(before.push(entry) =~= before + seq![entry]);
        assert(final(tty)@.devices.dom() =~= old(tty)@.devices.dom());
    }
}

/// What the display says leads to the output that is planned from it and the connector, and the
/// setup goes on with the mode of that plan. Nothing is recorded.
pub proof fn law_display_answered(
    tty: &mut Tty,
    setup: ConnectorSetup,
    connector: ConnectorInfo,
    display: Option<DisplayInfo>,
    plan: OutputPlan,
    res: (Option<ConnectorSetup>, SetupAction),
)
    requires
        connector.modes@.len() > 0,
        setup.stage == (SetupStage::Display { connector }),
        call_ensures(plan_output, (&connector, display), plan),
        call_ensures(Tty::connector_step, (tty, setup, SetupEvent::Display(display)), res),
    ensures
        final(tty)@ == old(tty)@,
        res.1 matches SetupAction::AddOutput(added) && {
            &&& added.name@ == plan.name@
            &&& added.physical_size == plan.physical_size
            &&& added.make@ == plan.make@
            &&& added.model@ == plan.model@
            &&& added.location == plan.location
            &&& added.mode == plan.mode
        },
        res.0 == Some(
            ConnectorSetup {
                node: setup.node,
                crtc: setup.crtc,
                stage: SetupStage::Output { mode: plan.mode },
            },
        ),
{
    let added = res.1->AddOutput_0;
    law_selection_is_unique(connector.modes@, plan.mode as int, added.mode as int);
}

/// When the output is there the driver is asked for, and the mode and the output are kept. Nothing
/// is recorded.
pub proof fn law_output_added(
    tty: &mut Tty,
    setup: ConnectorSetup,
    mode: usize,
    output: u64,
    res: (Option<ConnectorSetup>, SetupAction),
)
    requires
        setup.stage == (SetupStage::Output { mode }),
        call_ensures(Tty::connector_step, (tty, setup, SetupEvent::OutputAdded(output)), res),
    ensures
        final(tty)@ == old(tty)@,
        res.0 == Some(
            ConnectorSetup {
                node: setup.node,
                crtc: setup.crtc,
                stage: SetupStage::Driver { mode, output },
            },
        ),
        res.1 == SetupAction::QueryDriver,
{
}

/// When the driver is known the planes are asked for; overlay planes work unless the driver is
/// found to be the vendor's. Without a driver the connector is given up. Nothing is recorded.
pub proof fn law_driver_answered(
    tty: &mut Tty,
    setup: ConnectorSetup,
    mode: usize,
    output: u64,
    driver: Result<DriverInfo, SetupError>,
    name: &str,
    description: &str,
    vendors: bool,
    res: (Option<ConnectorSetup>, SetupAction),
)
    requires
        setup.stage == (SetupStage::Driver { mode, output }),
        driver matches Ok(d) ==> name@ == d.name@ && description@ == d.description@,
        call_ensures(is_vendor_driver, (name, description), vendors),
        call_ensures(Tty::connector_step, (tty, setup, SetupEvent::Driver(driver)), res),
    ensures
        final(tty)@ == old(tty)@,
        driver is Ok ==> res.1 == SetupAction::QueryPlanes && res.0 == Some(
            ConnectorSetup {
                node: setup.node,
                crtc: setup.crtc,
                stage: SetupStage::Planes { mode, output, overlays_work: !vendors },
            },
        ),
        driver is Err ==> res.1 == SetupAction::Stop(StopReason::NoDriver) && res.0 is None,
{
}

/// When the planes are known the surface is created in the mode that was kept, with all overlay
/// planes where they work and with none where they do not. Without planes the connector is given
/// up. Nothing is recorded.
pub proof fn law_planes_answered(
    tty: &mut Tty,
    setup: ConnectorSetup,
    mode: usize,
    output: u64,
    overlays_work: bool,
    planes: Result<Vec<u32>, SetupError>,
    res: (Option<ConnectorSetup>, SetupAction),
)
    requires
        setup.stage == (SetupStage::Planes { mode, output, overlays_work }),
        call_ensures(Tty::connector_step, (tty, setup, SetupEvent::Planes(planes)), res),
    ensures
        final(tty)@ == old(tty)@,
        planes is Ok ==> res.0 == Some(
            ConnectorSetup {
                node: setup.node,
                crtc: setup.crtc,
                stage: SetupStage::Surface { output },
            },
        ),
        planes is Ok ==> (res.1 matches SetupAction::CreateSurface { mode: m, overlays } && {
            &&& m == mode
            &&& overlays_work ==> overlays@ == planes->Ok_0@
            &&& !overlays_work ==> overlays@.len() == 0
        }),
        planes is Err ==> res.1 == SetupAction::Stop(StopReason::NoPlanes) && res.0 is None,
{
}

/// When the surface is there the formats of the renderer are asked for; without it the connector
/// is given up. Nothing is recorded.
pub proof fn law_surface_answered(
    tty: &mut Tty,
    setup: ConnectorSetup,
    output: u64,
    created: Result<(), SetupError>,
    res: (Option<ConnectorSetup>, SetupAction),
)
    requires
        setup.stage == (SetupStage::Surface { output }),
        call_ensures(Tty::connector_step, (tty, setup, SetupEvent::SurfaceCreated(created)), res),
    ensures
        final(tty)@ == old(tty)@,
        created is Ok ==> res.1 == SetupAction::QueryRenderFormats && res.0 == Some(
            ConnectorSetup {
                node: setup.node,
                crtc: setup.crtc,
                stage: SetupStage::RenderFormats { output },
            },
        ),
        created is Err ==> res.1 == SetupAction::Stop(StopReason::NoSurface) && res.0 is None,
{
}

/// When the formats of the renderer are known the compositor is created with those of them that a
/// surface is rendered to, and with the pixel formats `AB30`, `AR30`, `AB24` and `AR24`, in this
/// order. Nothing is recorded.
pub proof fn law_render_formats_answered(
    tty: &mut Tty,
    setup: ConnectorSetup,
    output: u64,
    formats: FormatSet,
    kept: FormatSet,
    res: (Option<ConnectorSetup>, SetupAction),
)
    requires
        setup.stage == (SetupStage::RenderFormats { output }),
        call_ensures(surface_formats, (&formats,), kept),
        call_ensures(Tty::connector_step, (tty, setup, SetupEvent::RenderFormats(formats)), res),
    ensures
        final(tty)@ == old(tty)@,
        res.0 == Some(
            ConnectorSetup {
                node: setup.node,
                crtc: setup.crtc,
                stage: SetupStage::Compositor { output },
            },
        ),
        res.1 matches SetupAction::CreateCompositor { color_formats, formats: wanted } && {
            &&& wanted@ == kept@
            &&& color_formats@ == seq![0x3033_4241u32, 0x3033_5241, 0x3432_4241, 0x3432_5241]
        },
{
}

/// When the compositor is there what its feedback depends on is asked for; without it the
/// connector is given up. Nothing is recorded.
pub proof fn law_compositor_answered(
    tty: &mut Tty,
    setup: ConnectorSetup,
    output: u64,
    created: Result<(), SetupError>,
    res: (Option<ConnectorSetup>, SetupAction),
)
    requires
        setup.stage == (SetupStage::Compositor { output }),
        call_ensures(
            Tty::connector_step,
            (tty, setup, SetupEvent::CompositorCreated(created)),
            res,
        ),
    ensures
        final(tty)@ == old(tty)@,
        created is Ok ==> res.1 == SetupAction::QueryFeedback && res.0 == Some(
            ConnectorSetup {
                node: setup.node,
                crtc: setup.crtc,
                stage: SetupStage::Feedback { output },
            },
        ),
        created is Err ==> res.1 == SetupAction::Stop(StopReason::NoCompositor) && res.0 is None,
{
}

/// In the end the CRTC of the connector drives a surface that shows the output, belongs to the
/// device, is rendered by the device's render node, and has the feedback that what was found out
/// leads to; it is rendered. No other surface is touched, nor anything else of the record. Where
/// the device is not known any more the connector is given up and nothing changes.
pub proof fn law_feedback_answered(
    tty: &mut Tty,
    setup: ConnectorSetup,
    output: u64,
    probe: FeedbackProbe,
    worked_out: Option<SurfaceDmabufFeedback>,
    res: (Option<ConnectorSetup>, SetupAction),
)
    requires
        setup.stage == (SetupStage::Feedback { output }),
        call_ensures(
            surface_dmabuf_feedback,
            (
                old(tty)@.primary_render_node.dev_id,
                old(tty)@.devices[setup.node.dev_id].render_node.dev_id,
                &probe,
            ),
            worked_out,
        ),
        call_ensures(Tty::connector_step, (tty, setup, SetupEvent::Feedback(probe)), res),
    ensures
        res.0 is None,
        !old(tty)@.devices.contains_key(setup.node.dev_id) ==> final(tty)@ == old(tty)@ && res.1
            == SetupAction::Stop(StopReason::UnknownDevice),
        old(tty)@.devices.contains_key(setup.node.dev_id) ==> {
            let before = old(tty)@.devices[setup.node.dev_id];
            let after = final(tty)@.devices[setup.node.dev_id];
            let surface = after.surfaces[setup.crtc];
            &&& res.1 == SetupAction::Render
            &&& surface.output == output
            &&& surface.device_id == setup.node
            &&& surface.render_node == before.render_node
            &&& surface.dmabuf_feedback == match worked_out {
                Some(f) => Some(f@),
                None => None,
            }
            &&& after.surfaces.dom() == before.surfaces.dom().insert(setup.crtc)
            &&& forall|c: u32|
                c != setup.crtc && #[trigger] before.surfaces.contains_key(c) ==> after.surfaces[c]
                    == before.surfaces[c]
            &&& after.token == before.token
            &&& after.render_node == before.render_node
            &&& after.non_desktop == before.non_desktop
            &&& final(tty)@.devices.dom() == old(tty)@.devices.dom()
            &&& forall|d: u64|
                d != setup.node.dev_id && #[trigger] old(tty)@.devices.contains_key(d)
                    ==> final(tty)@.devices[d] == old(tty)@.devices[d]
            &&& final(tty)@.primary_node == old(tty)@.primary_node
            &&& final(tty)@.primary_render_node == old(tty)@.primary_render_node
            &&& final(tty)@.seat_name == old(tty)@.seat_name
            &&& final(tty)@.dmabuf_global == old(tty)@.dmabuf_global
        },
{
    if old(tty)@.devices.contains_key(setup.node.dev_id) {
        assert(final(tty)@.devices.dom() =~= old(tty)@.devices.dom());
    }
}

/// At every stage the answer that is waited for is accepted, whatever it says; only a display
/// whose connector offers no mode is not.
pub proof fn law_answers_are_accepted(
    tty: &mut Tty,
    node: DrmNode,
    crtc: u32,
    stage: SetupStage,
    event: SetupEvent,
)
    requires
        match event {
            SetupEvent::Properties(_) => stage is Properties,
            SetupEvent::Display(_) => stage matches SetupStage::Display { connector }
                && connector.modes@.len() > 0,
            SetupEvent::OutputAdded(_) => stage is Output,
            SetupEvent::Driver(_) => stage is Driver,
            SetupEvent::Planes(_) => stage is Planes,
            SetupEvent::SurfaceCreated(_) => stage is Surface,
            SetupEvent::RenderFormats(_) => stage is RenderFormats,
            SetupEvent::CompositorCreated(_) => stage is Compositor,
            SetupEvent::Feedback(_) => stage is Feedback,
        },
    ensures
        call_requires(
            Tty::connector_step,
            (tty, ConnectorSetup { node, crtc, stage }, event),
        ),
{
}

} // verus!
