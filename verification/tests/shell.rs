use nuonuo::compositor::{commit, commit_popup, commit_root, follow_parent, CommitStep};
use nuonuo::xdg_shell::{
    check_grab, find_window, handle_commit, handle_popup_commit, move_request, CommitAction, Grab,
    GrabStart, MoveGrab, Pointer, PopupKind, SurfaceId, Window,
};

fn surface(client: u64, object: u64) -> SurfaceId {
    SurfaceId { client, object }
}

fn window(client: u64, object: u64, initial_configure_sent: bool) -> Window {
    Window { toplevel: Some(surface(client, object)), initial_configure_sent, x: 3, y: -4 }
}

fn pointer(serial: u32, focus: Option<SurfaceId>) -> Option<Pointer> {
    Some(Pointer { grab: Some(Grab { serial, start: GrabStart { focus, button: 272 } }) })
}

#[test]
fn the_first_window_of_a_surface_is_found() {
    let windows = vec![window(1, 1, true), window(1, 2, true), window(1, 2, false)];
    assert_eq!(find_window(&windows, surface(1, 2)), Some(1));
    assert_eq!(find_window(&windows, surface(2, 2)), None);
}

#[test]
fn a_window_is_configured_once() {
    let mut windows = vec![window(1, 1, true), window(1, 2, false)];
    assert_eq!(
        handle_commit(&windows, surface(1, 2)),
        vec![CommitAction::ConfigureToplevel(1), CommitAction::CommitPopups]
    );
    windows[1].initial_configure_sent = true;
    assert_eq!(handle_commit(&windows, surface(1, 2)), vec![CommitAction::CommitPopups]);
    assert_eq!(handle_commit(&windows, surface(9, 9)), vec![CommitAction::CommitPopups]);
}

#[test]
fn a_popup_is_configured_once() {
    assert!(handle_popup_commit(Some(PopupKind::Xdg { initial_configure_sent: false })));
    assert!(!handle_popup_commit(Some(PopupKind::Xdg { initial_configure_sent: true })));
    assert!(!handle_popup_commit(Some(PopupKind::InputMethod)));
    assert!(!handle_popup_commit(None));
}

#[test]
fn synchronised_surfaces_wait_for_their_parent() {
    assert_eq!(commit(surface(1, 5), true), CommitStep::Cached);
    assert_eq!(commit(surface(1, 5), false), CommitStep::QueryParent(surface(1, 5)));
}

#[test]
fn the_walk_ends_at_the_root() {
    let parent = |s: SurfaceId| if s.object > 1 { Some(surface(1, s.object - 1)) } else { None };
    let mut step = commit(surface(1, 4), false);
    let mut answers = 0;
    while let CommitStep::QueryParent(current) = step {
        step = follow_parent(current, parent(current));
        answers += 1;
    }
    assert_eq!(step, CommitStep::Root(surface(1, 1)));
    assert_eq!(answers, 4);
}

#[test]
fn the_window_of_the_root_takes_note() {
    let windows = vec![window(1, 1, false), window(1, 2, false)];
    assert_eq!(
        commit_root(&windows, surface(1, 7), surface(1, 2)),
        vec![CommitAction::NotifyWindow(1), CommitAction::CommitPopups]
    );
    assert_eq!(
        commit_root(&windows, surface(1, 1), surface(1, 1)),
        vec![
            CommitAction::NotifyWindow(0),
            CommitAction::ConfigureToplevel(0),
            CommitAction::CommitPopups,
        ]
    );
    assert_eq!(
        commit_root(&windows, surface(1, 7), surface(1, 8)),
        vec![CommitAction::CommitPopups]
    );
}

#[test]
fn popups_come_before_resizes() {
    assert_eq!(
        commit_popup(Some(PopupKind::Xdg { initial_configure_sent: false })),
        vec![CommitAction::ConfigurePopup, CommitAction::UpdateResize]
    );
    assert_eq!(commit_popup(None), vec![CommitAction::UpdateResize]);
}

#[test]
fn a_grab_must_be_the_clients_own() {
    let own = pointer(7, Some(surface(1, 9)));
    let start = GrabStart { focus: Some(surface(1, 9)), button: 272 };
    assert_eq!(check_grab(own, surface(1, 2), 7), Some(start));
    assert_eq!(check_grab(own, surface(1, 2), 8), None);
    assert_eq!(check_grab(own, surface(2, 2), 7), None);
    assert_eq!(check_grab(pointer(7, None), surface(1, 2), 7), None);
    assert_eq!(check_grab(Some(Pointer { grab: None }), surface(1, 2), 7), None);
    assert_eq!(check_grab(None, surface(1, 2), 7), None);
}

#[test]
fn a_window_is_moved_from_where_it_stands() {
    let windows = vec![window(1, 1, true), window(1, 2, true)];
    let own = pointer(7, Some(surface(1, 9)));
    let start = GrabStart { focus: Some(surface(1, 9)), button: 272 };
    assert_eq!(
        move_request(own, &windows, surface(1, 2), 7),
        Some(MoveGrab { start, window: 1, initial_x: 3, initial_y: -4 })
    );
    assert_eq!(move_request(own, &windows, surface(2, 2), 7), None);
    assert_eq!(move_request(None, &windows, surface(1, 2), 7), None);
}
