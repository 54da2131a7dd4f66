use nuonuo::formats::{FeedbackProbe, Format, FormatSet, SUPPORTED_COLOR_FORMATS};
use nuonuo::mode::Mode;
use nuonuo::tty::connectors::{non_desktop, Property};
use nuonuo::tty::hotplug::OpenedDevice;
use nuonuo::tty::setup::{
    plan_output, ConnectorInfo, ConnectorSetup, DisplayInfo, DriverInfo, SetupAction, SetupError,
    SetupEvent, SetupStage, StopReason,
};
use nuonuo::tty::{DrmNode, PrimaryGpu, Tty};

fn node(dev_id: u64) -> DrmNode {
    DrmNode { dev_id }
}

fn tty() -> Tty {
    let mut t = Tty::new("seat0".to_string(), PrimaryGpu::Found(node(1)), None).unwrap();
    t.device_added(node(1), Ok(OpenedDevice { token: 3, render_node: None })).unwrap();
    t
}

fn info(size: Option<(u32, u32)>) -> ConnectorInfo {
    ConnectorInfo {
        handle: 40,
        interface: 14,
        interface_id: 1,
        modes: vec![
            Mode { width: 640, height: 480, vrefresh: 60, mode_type: 0 },
            Mode { width: 1920, height: 1080, vrefresh: 60, mode_type: 8 },
        ],
        size,
    }
}

fn property(name: Option<&str>, boolean: bool, value: u64) -> Property {
    Property { name: name.map(|n| n.to_string()), boolean, value }
}

fn formats(list: &[(u32, u64)]) -> FormatSet {
    let list: Vec<Format> =
        list.iter().map(|&(code, modifier)| Format { code, modifier }).collect();
    FormatSet::from_formats(&list)
}

fn at(stage: SetupStage) -> ConnectorSetup {
    ConnectorSetup { node: node(1), crtc: 10, stage }
}

fn stopped(event: SetupEvent, stage: SetupStage) -> StopReason {
    let mut t = tty();
    let (rest, action) = t.connector_step(at(stage), event);
    assert!(rest.is_none());
    assert!(t.surface_keys().is_empty());
    match action {
        SetupAction::Stop(reason) => reason,
        _ => panic!("the setup goes on"),
    }
}

#[test]
fn connectors_of_unknown_devices_are_ignored() {
    let (rest, action) = tty().connector_connected(node(2), info(None), 10);
    assert!(rest.is_none());
    assert!(matches!(action, SetupAction::Stop(StopReason::UnknownDevice)));
}

#[test]
fn headsets_are_told_by_their_property() {
    assert!(!non_desktop(&None));
    assert!(!non_desktop(&Some(Vec::new())));
    assert!(non_desktop(&Some(vec![
        property(Some("EDID"), false, 5),
        property(None, true, 1),
        property(Some("non-desktop"), true, 1),
    ])));
    assert!(non_desktop(&Some(vec![property(Some("non-desktop"), true, 7)])));
    assert!(!non_desktop(&Some(vec![property(Some("non-desktop"), true, 0)])));
    assert!(!non_desktop(&Some(vec![property(Some("non-desktop"), false, 1)])));
    assert!(!non_desktop(&Some(vec![
        property(Some("non-desktop"), true, 0),
        property(Some("non-desktop"), true, 1),
    ])));
    assert!(!non_desktop(&Some(vec![property(Some("non-desktop "), true, 1)])));
}

#[test]
fn outputs_are_planned() {
    let display = DisplayInfo { make: Some("ACME".to_string()), model: None };
    let plan = plan_output(&info(Some((300, 200))), Some(display));
    assert_eq!(plan.name, "eDP-1");
    assert_eq!(plan.physical_size, (300, 200));
    assert_eq!(plan.make, "ACME");
    assert_eq!(plan.model, "Unknown");
    assert_eq!(plan.location, (0, 0));
    assert_eq!(plan.mode, 1);

    let plain = plan_output(&info(None), None);
    assert_eq!(plain.physical_size, (0, 0));
    assert_eq!(plain.make, "Unknown");
    assert_eq!(plain.model, "Unknown");

    let huge = plan_output(&info(Some((0xffff_ffff, 0x8000_0000))), None);
    assert_eq!(huge.physical_size, (-1, i32::MIN));
}

#[test]
fn a_connector_becomes_a_surface() {
    let mut t = tty();
    let (setup, action) = t.connector_connected(node(1), info(Some((300, 200))), 10);
    assert!(matches!(action, SetupAction::QueryProperties));
    let (setup, action) = t.connector_step(setup.unwrap(), SetupEvent::Properties(None));
    assert!(matches!(action, SetupAction::QueryDisplay));
    let (setup, action) = t.connector_step(setup.unwrap(), SetupEvent::Display(None));
    match action {
        SetupAction::AddOutput(plan) => assert_eq!(plan.name, "eDP-1"),
        _ => panic!("no output is added"),
    }
    let (setup, action) = t.connector_step(setup.unwrap(), SetupEvent::OutputAdded(5));
    assert!(matches!(action, SetupAction::QueryDriver));
    let driver = DriverInfo { name: "amdgpu".to_string(), description: "AMD GPU".to_string() };
    let (setup, action) = t.connector_step(setup.unwrap(), SetupEvent::Driver(Ok(driver)));
    assert!(matches!(action, SetupAction::QueryPlanes));
    let (setup, action) = t.connector_step(setup.unwrap(), SetupEvent::Planes(Ok(vec![7, 8])));
    match action {
        SetupAction::CreateSurface { mode, overlays } => {
            assert_eq!(mode, 1);
            assert_eq!(overlays, vec![7, 8]);
        }
        _ => panic!("no surface is created"),
    }
    let (setup, action) = t.connector_step(setup.unwrap(), SetupEvent::SurfaceCreated(Ok(())));
    assert!(matches!(action, SetupAction::QueryRenderFormats));
    let drawn = formats(&[(1, 0), (1, 0x0100_0000_0000_0004)]);
    let (setup, action) = t.connector_step(setup.unwrap(), SetupEvent::RenderFormats(drawn));
    match action {
        SetupAction::CreateCompositor { color_formats, formats: wanted } => {
            assert_eq!(color_formats, SUPPORTED_COLOR_FORMATS);
            assert_eq!(wanted.formats(), vec![Format { code: 1, modifier: 0 }]);
        }
        _ => panic!("no compositor is created"),
    }
    let (setup, action) = t.connector_step(setup.unwrap(), SetupEvent::CompositorCreated(Ok(())));
    assert!(matches!(action, SetupAction::QueryFeedback));
    assert!(t.surface_keys().is_empty());
    let probe = FeedbackProbe {
        primary_formats: None,
        render_formats: None,
        plane_formats: formats(&[]),
        overlay_formats: Vec::new(),
        scanout_device: 1,
    };
    let (setup, action) = t.connector_step(setup.unwrap(), SetupEvent::Feedback(probe));
    assert!(setup.is_none());
    assert!(matches!(action, SetupAction::Render));
    assert_eq!(t.render_output(node(1), 10), Some(node(1)));
    assert!(t.surface_feedback(node(1), 10).is_none());
    assert_eq!(t.connector_disconnected(node(1), 40, 10), Some(5));
}

#[test]
fn overlays_of_the_vendor_are_not_used() {
    let mut t = tty();
    let driver = DriverInfo { name: "nvidia-drm".to_string(), description: "x".to_string() };
    let setup = at(SetupStage::Driver { mode: 0, output: 5 });
    let (setup, _) = t.connector_step(setup, SetupEvent::Driver(Ok(driver)));
    let (_, action) = t.connector_step(setup.unwrap(), SetupEvent::Planes(Ok(vec![7, 8])));
    match action {
        SetupAction::CreateSurface { overlays, .. } => assert!(overlays.is_empty()),
        _ => panic!("no surface is created"),
    }
}

#[test]
fn each_failure_ends_the_setup() {
    let failed = SetupError;
    assert_eq!(
        stopped(
            SetupEvent::Driver(Err(failed)),
            SetupStage::Driver { mode: 0, output: 5 }
        ),
        StopReason::NoDriver
    );
    assert_eq!(
        stopped(
            SetupEvent::Planes(Err(failed)),
            SetupStage::Planes { mode: 0, output: 5, overlays_work: true }
        ),
        StopReason::NoPlanes
    );
    assert_eq!(
        stopped(SetupEvent::SurfaceCreated(Err(failed)), SetupStage::Surface { output: 5 }),
        StopReason::NoSurface
    );
    assert_eq!(
        stopped(SetupEvent::CompositorCreated(Err(failed)), SetupStage::Compositor { output: 5 }),
        StopReason::NoCompositor
    );
    assert_eq!(
        stopped(
            SetupEvent::Properties(Some(vec![property(Some("non-desktop"), true, 1)])),
            SetupStage::Properties { connector: info(None) }
        ),
        StopReason::NonDesktop
    );
}

#[test]
fn a_device_that_is_gone_gets_no_surface() {
    let mut t = tty();
    t.device_removed(node(1), &Vec::new());
    let probe = FeedbackProbe {
        primary_formats: None,
        render_formats: None,
        plane_formats: formats(&[]),
        overlay_formats: Vec::new(),
        scanout_device: 1,
    };
    let (rest, action) =
        t.connector_step(at(SetupStage::Feedback { output: 5 }), SetupEvent::Feedback(probe));
    assert!(rest.is_none());
    assert!(matches!(action, SetupAction::Stop(StopReason::UnknownDevice)));
    let mark = vec![property(Some("non-desktop"), true, 1)];
    let (_, action) = t.connector_step(
        at(SetupStage::Properties { connector: info(None) }),
        SetupEvent::Properties(Some(mark)),
    );
    assert!(matches!(action, SetupAction::Stop(StopReason::UnknownDevice)));
}
