use nuonuo::formats::{FeedbackProbe, Format, FormatSet};
use nuonuo::mode::Mode;
use nuonuo::tty::feedback::{ImportResult, SurfaceKey};
use nuonuo::tty::hotplug::{
    udev_event, ConnectorEvent, DeviceAction, DeviceError, OpenedDevice, ScanError, ScanEvent,
    UdevEvent,
};
use nuonuo::tty::connectors::Property;
use nuonuo::tty::removal::RemovalAction;
use nuonuo::tty::session::{SessionAction, SessionEvent};
use nuonuo::tty::setup::{
    ConnectorInfo, ConnectorSetup, DriverInfo, SetupAction, SetupEvent, StopReason,
};
use nuonuo::tty::{DrmNode, NodeError, PrimaryGpu, StartError, Tty};

fn node(dev_id: u64) -> DrmNode {
    DrmNode { dev_id }
}

fn tty() -> Tty {
    Tty::new("seat0".to_string(), PrimaryGpu::Found(node(1)), Some(Ok(node(128)))).unwrap()
}

fn formats(codes: &[u32]) -> FormatSet {
    let list: Vec<Format> = codes.iter().map(|&code| Format { code, modifier: 0 }).collect();
    FormatSet::from_formats(&list)
}

fn probe() -> FeedbackProbe {
    FeedbackProbe {
        primary_formats: Some(formats(&[1, 2])),
        render_formats: Some(formats(&[2])),
        plane_formats: formats(&[2, 3]),
        overlay_formats: Vec::new(),
        scanout_device: 1,
    }
}

fn info(handle: u32) -> ConnectorInfo {
    ConnectorInfo {
        handle,
        interface: 11,
        interface_id: 1,
        modes: vec![Mode { width: 640, height: 480, vrefresh: 60, mode_type: 8 }],
        size: None,
    }
}

fn step(tty: &mut Tty, setup: ConnectorSetup, event: SetupEvent) -> ConnectorSetup {
    tty.connector_step(setup, event).0.unwrap()
}

fn connect(tty: &mut Tty, on: DrmNode, handle: u32, crtc: u32, output: u64) {
    let setup = tty.connector_connected(on, info(handle), crtc).0.unwrap();
    let setup = step(tty, setup, SetupEvent::Properties(None));
    let setup = step(tty, setup, SetupEvent::Display(None));
    let setup = step(tty, setup, SetupEvent::OutputAdded(output));
    let driver = DriverInfo { name: "i915".to_string(), description: "Intel".to_string() };
    let setup = step(tty, setup, SetupEvent::Driver(Ok(driver)));
    let setup = step(tty, setup, SetupEvent::Planes(Ok(Vec::new())));
    let setup = step(tty, setup, SetupEvent::SurfaceCreated(Ok(())));
    let setup = step(tty, setup, SetupEvent::RenderFormats(formats(&[1])));
    let setup = step(tty, setup, SetupEvent::CompositorCreated(Ok(())));
    let (rest, action) = tty.connector_step(setup, SetupEvent::Feedback(probe()));
    assert!(rest.is_none());
    assert!(matches!(action, SetupAction::Render));
}

fn connect_headset(tty: &mut Tty, on: DrmNode, handle: u32, crtc: u32) {
    let setup = tty.connector_connected(on, info(handle), crtc).0.unwrap();
    let mark = Property { name: Some("non-desktop".to_string()), boolean: true, value: 1 };
    let (rest, action) = tty.connector_step(setup, SetupEvent::Properties(Some(vec![mark])));
    assert!(rest.is_none());
    assert!(matches!(action, SetupAction::Stop(StopReason::NonDesktop)));
}

fn add(tty: &mut Tty, dev_id: u64, token: u64, render_node: Option<DrmNode>) {
    assert_eq!(tty.device_added(node(dev_id), Ok(OpenedDevice { token, render_node })), Ok(()));
}

#[test]
fn a_session_starts_empty() {
    let t = tty();
    assert_eq!(t.seat_name(), "seat0");
    assert_eq!(t.primary_node(), node(1));
    assert_eq!(t.primary_render_node(), node(128));
    assert_eq!(t.early_import(), node(128));
    assert_eq!(t.dmabuf_global(), None);
    assert!(!t.knows(node(1)));
    assert!(t.surface_keys().is_empty());
}

#[test]
fn the_primary_gpu_renders_for_itself_without_render_node() {
    let gpu = PrimaryGpu::Found(node(1));
    let none = Tty::new("seat0".to_string(), gpu, None).unwrap();
    assert_eq!(none.primary_render_node(), node(1));
    let broken = Tty::new("seat0".to_string(), gpu, Some(Err(NodeError))).unwrap();
    assert_eq!(broken.primary_render_node(), node(1));
}

#[test]
fn a_session_needs_a_gpu() {
    let start = |gpu| Tty::new("seat0".to_string(), gpu, None).map(|_| ()).unwrap_err();
    assert_eq!(start(PrimaryGpu::SearchFailed), StartError::SearchFailed);
    assert_eq!(start(PrimaryGpu::Missing), StartError::NoGpu);
    assert_eq!(start(PrimaryGpu::OpenFailed), StartError::OpenFailed);
    assert_eq!(StartError::SearchFailed.message(), "error getting the primary GPU");
    assert_eq!(StartError::NoGpu.message(), "couldn't find a GPU");
    assert_eq!(StartError::OpenFailed.message(), "error opening the primary GPU DRM node");
}

#[test]
fn events_of_devices_without_node_are_dropped() {
    assert_eq!(udev_event(UdevEvent::Added, Ok(node(3))), Some(DeviceAction::Add(node(3))));
    assert_eq!(udev_event(UdevEvent::Changed, Ok(node(3))), Some(DeviceAction::Change(node(3))));
    assert_eq!(udev_event(UdevEvent::Removed, Ok(node(3))), Some(DeviceAction::Remove(node(3))));
    assert_eq!(udev_event(UdevEvent::Added, Err(NodeError)), None);
    assert_eq!(udev_event(UdevEvent::Removed, Err(NodeError)), None);
}

#[test]
fn a_device_that_cannot_be_opened_is_not_recorded() {
    let mut t = tty();
    for error in [
        DeviceError::Open,
        DeviceError::Drm,
        DeviceError::Gbm,
        DeviceError::Display,
        DeviceError::RenderNode,
        DeviceError::GpuManager,
    ] {
        assert_eq!(t.device_added(node(1), Err(error)), Err(error));
        assert!(!t.knows(node(1)));
    }
}

#[test]
fn a_device_renders_on_its_render_node_or_itself() {
    let mut t = tty();
    add(&mut t, 1, 5, Some(node(128)));
    add(&mut t, 2, 6, None);
    assert_eq!(t.device_render_node(node(1)), Some(node(128)));
    assert_eq!(t.device_render_node(node(2)), Some(node(2)));
    assert_eq!(t.device_render_node(node(3)), None);
    assert_eq!(OpenedDevice { token: 0, render_node: None }.renders_on(node(9)), node(9));
}

#[test]
fn only_connectors_with_a_crtc_are_handled() {
    let mut t = tty();
    let scan = vec![
        ScanEvent::Disconnected { connector: 1, crtc: Some(10) },
        ScanEvent::Disconnected { connector: 2, crtc: None },
        ScanEvent::Connected { connector: 3, crtc: None },
        ScanEvent::Connected { connector: 4, crtc: Some(11) },
    ];
    assert_eq!(t.device_changed(node(1), Ok(&scan)), Vec::new());
    add(&mut t, 1, 5, None);
    assert_eq!(t.device_changed(node(1), Err(ScanError)), Vec::new());
    assert_eq!(
        t.device_changed(node(1), Ok(&scan)),
        vec![
            ConnectorEvent::Disconnected { connector: 1, crtc: 10 },
            ConnectorEvent::Connected { connector: 4, crtc: 11 },
        ]
    );
}

#[test]
fn unplugging_a_connector_undoes_plugging_it_in() {
    let mut t = tty();
    add(&mut t, 1, 5, Some(node(128)));
    connect(&mut t, node(1), 40, 10, 77);
    assert_eq!(t.render_output(node(1), 10), Some(node(128)));
    assert_eq!(t.redraw_targets(node(1)), vec![10]);
    assert_eq!(t.connector_disconnected(node(1), 40, 10), Some(77));
    assert_eq!(t.render_output(node(1), 10), None);
    assert_eq!(t.connector_disconnected(node(1), 40, 10), None);
    assert_eq!(t.connector_disconnected(node(2), 40, 10), None);
}

#[test]
fn a_headset_goes_without_an_output() {
    let mut t = tty();
    add(&mut t, 1, 5, None);
    connect(&mut t, node(1), 40, 10, 77);
    connect_headset(&mut t, node(1), 41, 11);
    connect_headset(&mut t, node(1), 41, 11);
    assert_eq!(t.connector_disconnected(node(1), 41, 10), None);
    assert_eq!(t.render_output(node(1), 10), Some(node(1)));
    assert_eq!(t.connector_disconnected(node(1), 41, 10), Some(77));
}

#[test]
fn a_device_takes_its_outputs_along() {
    let mut t = tty();
    add(&mut t, 2, 5, Some(node(129)));
    connect(&mut t, node(2), 40, 10, 77);
    connect(&mut t, node(2), 41, 11, 78);
    connect_headset(&mut t, node(2), 42, 12);
    let actions = t.device_removed(node(2), &vec![(41, 11), (42, 12), (40, 10)]);
    assert_eq!(
        actions,
        vec![
            RemovalAction::RemoveOutput(78),
            RemovalAction::RemoveOutput(77),
            RemovalAction::RemoveRenderNode(node(129)),
            RemovalAction::RemoveSource(5),
        ]
    );
    assert!(!t.knows(node(2)));
    assert_eq!(t.device_removed(node(2), &vec![(41, 11)]), Vec::new());
}

#[test]
fn the_buffer_global_goes_with_the_primary_gpu() {
    let mut t = tty();
    add(&mut t, 1, 5, Some(node(128)));
    add(&mut t, 2, 6, Some(node(129)));
    connect(&mut t, node(2), 40, 10, 77);
    let plan = t.init(99);
    assert_eq!(t.dmabuf_global(), Some(99));
    assert_eq!(plan.syncobj, Some(node(1)));
    let key = SurfaceKey { node: node(2), crtc: 10, render_node: node(129) };
    assert_eq!(plan.surfaces, vec![key]);
    assert!(t.surface_feedback(node(2), 10).is_some());
    let actions = t.device_removed(node(1), &Vec::new());
    assert_eq!(
        actions,
        vec![
            RemovalAction::UnbindDisplay(node(128)),
            RemovalAction::DisableGlobal(99),
            RemovalAction::DestroyGlobalLater { global: 99, seconds: 10 },
            RemovalAction::RemoveRenderNode(node(128)),
            RemovalAction::RemoveSource(5),
        ]
    );
    assert_eq!(t.dmabuf_global(), None);
    assert!(t.knows(node(2)));
    assert!(t.surface_feedback(node(2), 10).is_none());
    assert_eq!(t.render_output(node(2), 10), Some(node(129)));
}

#[test]
fn the_device_that_renders_for_the_primary_gpu_counts_as_primary() {
    let mut t = tty();
    add(&mut t, 2, 6, Some(node(128)));
    let actions = t.device_removed(node(2), &Vec::new());
    assert_eq!(
        actions,
        vec![
            RemovalAction::UnbindDisplay(node(128)),
            RemovalAction::RemoveRenderNode(node(128)),
            RemovalAction::RemoveSource(6),
        ]
    );
}

#[test]
fn another_device_leaves_the_global_alone() {
    let mut t = tty();
    add(&mut t, 1, 5, Some(node(128)));
    add(&mut t, 2, 6, Some(node(129)));
    t.init(99);
    assert_eq!(
        t.device_removed(node(2), &Vec::new()),
        vec![RemovalAction::RemoveRenderNode(node(129)), RemovalAction::RemoveSource(6)]
    );
    assert_eq!(t.dmabuf_global(), Some(99));
}

#[test]
fn a_session_without_the_primary_device_has_no_explicit_sync() {
    let mut t = tty();
    assert_eq!(t.init(1).syncobj, None);
}

#[test]
fn feedback_is_worked_out_for_the_surface() {
    let mut t = tty();
    add(&mut t, 2, 6, Some(node(129)));
    connect(&mut t, node(2), 40, 10, 77);
    let mut other = probe();
    other.primary_formats = None;
    t.update_feedback(node(2), 10, &other);
    assert!(t.surface_feedback(node(2), 10).is_none());
    t.update_feedback(node(2), 10, &probe());
    let feedback = t.surface_feedback(node(2), 10).unwrap();
    assert_eq!(feedback.render_feedback.main_device, 128);
    assert_eq!(feedback.render_feedback.tranches[0].target_device, 129);
    assert_eq!(feedback.scanout_feedback.tranches[0].formats.formats(), formats(&[2]).formats());
    t.update_feedback(node(2), 11, &probe());
    t.update_feedback(node(3), 10, &probe());
    assert_eq!(t.surface_keys().len(), 1);
    assert!(t.surface_feedback(node(3), 10).is_none());
    assert_eq!(t.default_feedback(&formats(&[4])).main_device, 128);
}

#[test]
fn buffers_belong_to_the_primary_gpu() {
    let t = tty();
    assert_eq!(t.dmabuf_imported(ImportResult::Imported), Some(node(128)));
    assert_eq!(t.dmabuf_imported(ImportResult::Refused), None);
    assert_eq!(t.dmabuf_imported(ImportResult::NoRenderer), None);
}

#[test]
fn the_session_brings_all_devices_back() {
    let mut t = tty();
    assert_eq!(
        t.session_event(SessionEvent::ActivateSession),
        vec![SessionAction::ResumeInput]
    );
    add(&mut t, 1, 5, None);
    add(&mut t, 2, 6, None);
    let actions = t.session_event(SessionEvent::ActivateSession);
    assert_eq!(actions.len(), 5);
    assert_eq!(actions[0], SessionAction::ResumeInput);
    for n in [node(1), node(2)] {
        let at = actions.iter().position(|a| *a == SessionAction::ActivateDevice(n)).unwrap();
        assert_eq!(actions[at + 1], SessionAction::RedrawDevice(n));
    }
    assert!(t.redraw_targets(node(3)).is_empty());
}

#[test]
fn the_session_lets_all_devices_go() {
    let mut t = tty();
    add(&mut t, 1, 5, None);
    add(&mut t, 2, 6, None);
    let actions = t.session_event(SessionEvent::PauseSession);
    assert_eq!(actions.len(), 3);
    assert_eq!(actions[0], SessionAction::SuspendInput);
    assert!(actions.contains(&SessionAction::PauseDevice(node(1))));
    assert!(actions.contains(&SessionAction::PauseDevice(node(2))));
}

#[test]
fn every_surface_is_redrawn() {
    let mut t = tty();
    add(&mut t, 1, 5, None);
    connect(&mut t, node(1), 40, 10, 77);
    connect(&mut t, node(1), 41, 11, 78);
    let mut crtcs = t.redraw_targets(node(1));
    crtcs.sort();
    assert_eq!(crtcs, vec![10, 11]);
}

#[test]
fn removing_a_device_undoes_adding_it() {
    let mut t = tty();
    add(&mut t, 1, 5, None);
    add(&mut t, 2, 6, None);
    t.device_removed(node(2), &vec![(1, 2)]);
    assert!(t.knows(node(1)));
    assert!(!t.knows(node(2)));
}

#[test]
fn connectors_keep_to_their_device() {
    let mut t = tty();
    add(&mut t, 1, 5, Some(node(128)));
    add(&mut t, 2, 6, Some(node(129)));
    connect(&mut t, node(1), 40, 10, 77);
    connect(&mut t, node(2), 40, 10, 78);
    connect(&mut t, node(2), 41, 11, 79);
    assert_eq!(t.connector_disconnected(node(2), 40, 10), Some(78));
    assert_eq!(t.render_output(node(1), 10), Some(node(128)));
    assert_eq!(t.render_output(node(2), 11), Some(node(129)));
    assert_eq!(t.redraw_targets(node(2)), vec![11]);
    assert!(t.knows(node(1)) && t.knows(node(2)));
}

#[test]
fn surfaces_are_rendered_by_their_device() {
    let mut t = tty();
    add(&mut t, 1, 5, Some(node(128)));
    add(&mut t, 2, 6, None);
    connect(&mut t, node(1), 40, 10, 77);
    connect(&mut t, node(2), 41, 11, 78);
    let keys = t.init(99).surfaces;
    assert_eq!(keys.len(), 2);
    for key in keys {
        assert_eq!(t.device_render_node(key.node), Some(key.render_node));
        t.update_feedback(key.node, key.crtc, &probe());
        let feedback = t.surface_feedback(key.node, key.crtc).unwrap();
        assert_eq!(feedback.render_feedback.main_device, 128);
        assert_eq!(feedback.scanout_feedback.main_device, 128);
        assert_eq!(feedback.scanout_feedback.tranches[1].target_device, key.render_node.dev_id);
    }
}

#[test]
fn a_device_that_comes_again_starts_anew() {
    let mut t = tty();
    add(&mut t, 1, 5, None);
    connect(&mut t, node(1), 40, 10, 77);
    connect_headset(&mut t, node(1), 41, 11);
    add(&mut t, 1, 8, Some(node(128)));
    assert!(t.redraw_targets(node(1)).is_empty());
    assert_eq!(t.connector_disconnected(node(1), 41, 11), None);
    assert_eq!(t.device_render_node(node(1)), Some(node(128)));
}
