//! What the shell does when a client commits a window or a popup, or asks to move a window.

use vstd::prelude::*;

verus! {

/// A surface, known by its client and by a number of its own.
#[derive(Clone, Copy, PartialEq, Eq, Structural, Debug)]
pub struct SurfaceId {
    pub client: u64,
    pub object: u64,
}

/// A window in the order in which windows are searched.
#[derive(Clone, Copy, PartialEq, Eq, Structural, Debug)]
pub struct Window {
    /// The surface of the window, if it is a toplevel of the shell.
    pub toplevel: Option<SurfaceId>,
    /// The client was told how large the window is to be.
    pub initial_configure_sent: bool,
    /// Where the window stands.
    pub x: i32,
    pub y: i32,
}

/// `i` is the first window of the surface.
pub open spec fn is_first_window(windows: Seq<Window>, surface: SurfaceId, i: int) -> bool {
    &&& 0 <= i < windows.len()
    &&& windows[i].toplevel == Some(surface)
    &&& forall|j: int| 0 <= j < i ==> (#[trigger] windows[j]).toplevel != Some(surface)
}

/// Where the first window of the surface stands, if it has one.
pub open spec fn first_window(windows: Seq<Window>, surface: SurfaceId) -> Option<int> {
    if exists|i: int| is_first_window(windows, surface, i) {
        Some(choose|i: int| is_first_window(windows, surface, i))
    } else {
        None
    }
}

/// Every window up to the first one of the surface is a toplevel of the shell.
pub open spec fn searchable(windows: Seq<Window>, surface: SurfaceId) -> bool {
    forall|j: int|
        0 <= j < windows.len() && (#[trigger] windows[j]).toplevel is None ==> exists|i: int|
            0 <= i < j && (#[trigger] windows[i]).toplevel == Some(surface)
}

proof fn lemma_first_window(windows: Seq<Window>, surface: SurfaceId, i: int)
    requires
        is_first_window(windows, surface, i),
    ensures
        first_window(windows, surface) == Some(i),
{
    let c = choose|c: int| is_first_window(windows, surface, c);
    assert(is_first_window(windows, surface, c));
    if c < i {
        assert(windows[c].toplevel != Some(surface));
    }
    if i < c {
        assert(windows[i].toplevel != Some(surface));
    }
}

/// Finds the first window of the surface.
pub fn find_window(windows: &Vec<Window>, surface: SurfaceId) -> (found: Option<usize>)
    requires
        searchable(windows@, surface),
    ensures
        match found {
            Some(i) => i < windows@.len() && first_window(windows@, surface) == Some(i as int)
                && is_first_window(windows@, surface, i as int),
            None => first_window(windows@, surface) is None,
        },
{
    let mut i: usize = 0;
    while i < windows.len()
        invariant
            i <= windows.len(),
            searchable(windows@, surface),
            forall|j: int| 0 <= j < i ==> (#[trigger] windows@[j]).toplevel != Some(surface),
        decreases windows.len() - i,
    {
        let toplevel: SurfaceId = match windows[i].toplevel {
            Some(toplevel) => toplevel,
            None => {
                assert(windows@[i as int].toplevel is None);
                assert(false);
                return None;
            },
        };
        if toplevel == surface {
            proof {
                lemma_first_window(windows@, surface, i as int);
            }
            return Some(i);
        }
        i = i + 1;
    }
    None
}

/// What a commit of a surface leads to.
#[derive(Clone, Copy, PartialEq, Eq, Structural, Debug)]
pub enum CommitAction {
    /// Let the window take note of the commit of its surface tree.
    NotifyWindow(usize),
    /// Tell the client how large the window is to be.
    ConfigureToplevel(usize),
    /// Let the popups take note of the commit.
    CommitPopups,
    /// Tell the client where the popup is to be.
    ConfigurePopup,
    /// Let a resize that is under way take note of the commit.
    UpdateResize,
}

/// The window that is told its size when the surface is committed: that of the surface, unless
/// it was told already.
pub open spec fn window_to_configure(windows: Seq<Window>, surface: SurfaceId) -> Option<int> {
    match first_window(windows, surface) {
        Some(i) if !windows[i].initial_configure_sent => Some(i),
        _ => None,
    }
}

/// What a commit of the surface leads to before its popup is looked up.
pub open spec fn commit_actions(windows: Seq<Window>, surface: SurfaceId) -> Seq<CommitAction> {
    match window_to_configure(windows, surface) {
        Some(i) => seq![CommitAction::ConfigureToplevel(i as usize), CommitAction::CommitPopups],
        None => seq![CommitAction::CommitPopups],
    }
}

/// What a commit of the surface leads to, in this order, before its popup is looked up.
pub fn handle_commit(windows: &Vec<Window>, surface: SurfaceId) -> (actions: Vec<CommitAction>)
    requires
        searchable(windows@, surface),
    ensures
        actions@ == commit_actions(windows@, surface),
{
    let mut actions: Vec<CommitAction> = Vec::new();
    match find_window(windows, surface) {
        Some(i) => {
            if !windows[i].initial_configure_sent {
                actions.push(CommitAction::ConfigureToplevel(i));
            }
        },
        None => {},
    }
    actions.push(CommitAction::CommitPopups);
    assert(actions@ =~= commit_actions(windows@, surface));
    actions
}

/// A popup.
#[derive(Clone, Copy, PartialEq, Eq, Structural, Debug)]
pub enum PopupKind {
    Xdg { initial_configure_sent: bool },
    InputMethod,
}

/// The popup is told where it is to be: if it is one of the shell that was not told yet.
pub open spec fn popup_needs_configure(popup: Option<PopupKind>) -> bool {
    popup == Some(PopupKind::Xdg { initial_configure_sent: false })
}

/// Whether the popup of a committed surface, if it has one, is told where it is to be.
pub fn handle_popup_commit(popup: Option<PopupKind>) -> (configure: bool)
    ensures
        configure == popup_needs_configure(popup),
{
    match popup {
        Some(PopupKind::Xdg { initial_configure_sent }) => !initial_configure_sent,
        _ => false,
    }
}

/// A window whose client was told its size is not told again by a later commit; until then each
/// commit tells it.
pub proof fn law_toplevel_configured_once(windows: Seq<Window>, surface: SurfaceId, i: int)
    requires
        first_window(windows, surface) == Some(i),
        0 <= i < windows.len(),
    ensures
        !windows[i].initial_configure_sent <==> window_to_configure(windows, surface) == Some(i),
        ({
            let told = windows.update(i, Window { initial_configure_sent: true, ..windows[i] });
            window_to_configure(told, surface) is None
        }),
{
    let told = windows.update(i, Window { initial_configure_sent: true, ..windows[i] });
    assert(is_first_window(windows, surface, i));
    assert(is_first_window(told, surface, i)) by {
        assert forall|j: int| 0 <= j < i implies (#[trigger] told[j]).toplevel != Some(surface) by {
            assert(windows[j].toplevel != Some(surface));
        }
    }
    lemma_first_window(told, surface, i);
}

/// How a grab of the pointer began.
#[derive(Clone, Copy, PartialEq, Eq, Structural, Debug)]
pub struct GrabStart {
    /// The surface under the pointer, if there was one.
    pub focus: Option<SurfaceId>,
    /// The button that began it.
    pub button: u32,
}

/// A grab of the pointer and the number of the event that began it.
#[derive(Clone, Copy, PartialEq, Eq, Structural, Debug)]
pub struct Grab {
    pub serial: u32,
    pub start: GrabStart,
}

/// A pointer and the grab that is under way, if any.
#[derive(Clone, Copy, PartialEq, Eq, Structural, Debug)]
pub struct Pointer {
    pub grab: Option<Grab>,
}

/// The client of the surface may act on the event of that number: the event began the grab that
/// is under way, on a surface of the same client.
pub open spec fn grab_for(pointer: Option<Pointer>, surface: SurfaceId, serial: u32) -> Option<
    GrabStart,
> {
    match pointer {
        Some(Pointer { grab: Some(grab) }) if grab.serial == serial => match grab.start.focus {
            Some(focus) if focus.client == surface.client => Some(grab.start),
            _ => None,
        },
        _ => None,
    }
}

/// How the grab began that lets the client of the surface act on the event of that number; none
/// where it may not.
pub fn check_grab(pointer: Option<Pointer>, surface: SurfaceId, serial: u32) -> (start: Option<
    GrabStart,
>)
    ensures
        start == grab_for(pointer, surface, serial),
{
    let pointer: Pointer = match pointer {
        Some(pointer) => pointer,
        None => {
            return None;
        },
    };
    let grab: Grab = match pointer.grab {
        Some(grab) => grab,
        None => {
            return None;
        },
    };
    if grab.serial != serial {
        return None;
    }
    match grab.start.focus {
        Some(focus) => {
            if focus.client == surface.client {
                Some(grab.start)
            } else {
                None
            }
        },
        None => None,
    }
}

/// A window that follows the pointer.
#[derive(Clone, Copy, PartialEq, Eq, Structural, Debug)]
pub struct MoveGrab {
    pub start: GrabStart,
    pub window: usize,
    /// Where the window stood at first.
    pub initial_x: i32,
    pub initial_y: i32,
}

/// The move that a client's request begins, if it may move the window.
pub open spec fn move_for(
    pointer: Option<Pointer>,
    windows: Seq<Window>,
    surface: SurfaceId,
    serial: u32,
) -> Option<MoveGrab> {
    match grab_for(pointer, surface, serial) {
        Some(start) => {
            let i = first_window(windows, surface)->Some_0;
            Some(
                MoveGrab {
                    start,
                    window: i as usize,
                    initial_x: windows[i].x,
                    initial_y: windows[i].y,
                },
            )
        },
        None => None,
    }
}

/// Begins to move the window of the surface, if its client may move it.
pub fn move_request(
    pointer: Option<Pointer>,
    windows: &Vec<Window>,
    surface: SurfaceId,
    serial: u32,
) -> (grab: Option<MoveGrab>)
    requires
        grab_for(pointer, surface, serial) is Some ==> searchable(windows@, surface)
            && first_window(windows@, surface) is Some,
    ensures
        grab == move_for(pointer, windows@, surface, serial),
{
    match check_grab(pointer, surface, serial) {
        Some(start) => match find_window(windows, surface) {
            Some(i) => Some(
                MoveGrab { start, window: i, initial_x: windows[i].x, initial_y: windows[i].y },
            ),
            None => {
                assert(false);
                None
            },
        },
        None => None,
    }
}

/// A client moves a window only during a grab that the event it names began on one of its own
/// surfaces, and what it moves is the window of the surface that it names.
pub proof fn law_move_needs_own_grab(
    pointer: Option<Pointer>,
    windows: Seq<Window>,
    surface: SurfaceId,
    serial: u32,
    i: int,
)
    requires
        move_for(pointer, windows, surface, serial) is Some,
        first_window(windows, surface) == Some(i),
        windows.len() <= usize::MAX,
    ensures
        pointer is Some && pointer->Some_0.grab is Some,
        ({
            let grab = pointer->Some_0.grab->Some_0;
            &&& grab.serial == serial
            &&& grab.start.focus is Some
            &&& grab.start.focus->Some_0.client == surface.client
        }),
        move_for(pointer, windows, surface, serial)->Some_0.window == i,
        windows[i].toplevel == Some(surface),
{
    assert(is_first_window(windows, surface, i));
}

proof fn lemma_some_first_window(windows: Seq<Window>, surface: SurfaceId, n: int)
    requires
        0 <= n <= windows.len(),
        exists|i: int| 0 <= i < n && (#[trigger] windows[i]).toplevel == Some(surface),
    ensures
        first_window(windows, surface) is Some,
    decreases n,
{
    if exists|i: int| 0 <= i < n - 1 && (#[trigger] windows[i]).toplevel == Some(surface) {
        lemma_some_first_window(windows, surface, n - 1);
    } else {
        assert(is_first_window(windows, surface, n - 1));
    }
}

/// A window is found where some window has the surface for its toplevel, and it is the first such
/// window.
pub(crate) proof fn lemma_window_search(windows: Seq<Window>, surface: SurfaceId)
    ensures
        match first_window(windows, surface) {
            Some(i) => 0 <= i < windows.len() && windows[i].toplevel == Some(surface) && forall|
                j: int,
            |
                0 <= j < i ==> (#[trigger] windows[j]).toplevel != Some(surface),
            None => forall|j: int|
                0 <= j < windows.len() ==> (#[trigger] windows[j]).toplevel != Some(surface),
        },
{
    if exists|j: int| 0 <= j < windows.len() && (#[trigger] windows[j]).toplevel == Some(surface) {
        lemma_some_first_window(windows, surface, windows.len() as int);
    }
    if let Some(i) = first_window(windows, surface) {
        assert(is_first_window(windows, surface, i));
    }
}

/// The window of a surface is the first one whose toplevel it is, and there is none only where it
/// is the toplevel of no window.
pub proof fn law_find_window(windows: &Vec<Window>, surface: SurfaceId, found: Option<usize>)
    requires
        call_ensures(find_window, (windows, surface), found),
    ensures
        found matches Some(i) ==> i < windows@.len() && windows@[i as int].toplevel == Some(surface)
            && forall|j: int| 0 <= j < i ==> (#[trigger] windows@[j]).toplevel != Some(surface),
        found is None <==> forall|j: int|
            0 <= j < windows@.len() ==> (#[trigger] windows@[j]).toplevel != Some(surface),
{
    lemma_window_search(windows@, surface);
}

/// The popups take note of every commit, last. Before that the first window whose toplevel was
/// committed is told its size if it was not told before; no other window is, and nothing else is
/// done.
pub proof fn law_handle_commit(
    windows: &Vec<Window>,
    surface: SurfaceId,
    actions: Vec<CommitAction>,
)
    requires
        call_ensures(handle_commit, (windows, surface), actions),
    ensures
        1 <= actions@.len() <= 2,
        actions@[actions@.len() - 1] == CommitAction::CommitPopups,
        actions@.len() == 2 <==> exists|i: int|
            0 <= i < windows@.len() && (#[trigger] windows@[i]).toplevel == Some(surface)
                && !windows@[i].initial_configure_sent && forall|j: int|
                0 <= j < i ==> (#[trigger] windows@[j]).toplevel != Some(surface),
        forall|i: int|
            0 <= i < windows@.len() && (#[trigger] windows@[i]).toplevel == Some(surface)
                && !windows@[i].initial_configure_sent && (forall|j: int|
                0 <= j < i ==> (#[trigger] windows@[j]).toplevel != Some(surface)) ==> actions@[0]
                == CommitAction::ConfigureToplevel(i as usize),
{
    lemma_window_search(windows@, surface);
    assert(windows.len() == windows@.len());
    if let Some(k) = first_window(windows@, surface) {
        assert(windows@[k].toplevel == Some(surface));
        assert forall|i: int|
            0 <= i < windows@.len() && (#[trigger] windows@[i]).toplevel == Some(surface) && (
            forall|j: int|
                0 <= j < i ==> (#[trigger] windows@[j]).toplevel != Some(surface)) implies i
            == k by {
            if i < k {
                assert(windows@[i].toplevel != Some(surface));
            }
            if k < i {
                assert(windows@[k].toplevel != Some(surface));
            }
        }
    }
}

/// The popup that is told its place is one of the shell that was not told before.
pub proof fn law_handle_popup_commit(popup: Option<PopupKind>, configure: bool)
    requires
        call_ensures(handle_popup_commit, (popup,), configure),
    ensures
        popup is None ==> !configure,
        popup matches Some(PopupKind::InputMethod) ==> !configure,
        popup matches Some(PopupKind::Xdg { initial_configure_sent }) ==> configure
            == !initial_configure_sent,
{
}

/// A client may act on an event where a grab is under way that the event began on a surface of
/// the same client, and on no other event; what it gets is how that grab began.
pub proof fn law_check_grab(
    pointer: Option<Pointer>,
    surface: SurfaceId,
    serial: u32,
    start: Option<GrabStart>,
)
    requires
        call_ensures(check_grab, (pointer, surface, serial), start),
    ensures
        start is Some <==> {
            &&& pointer is Some
            &&& pointer->Some_0.grab is Some
            &&& pointer->Some_0.grab->Some_0.serial == serial
            &&& pointer->Some_0.grab->Some_0.start.focus is Some
            &&& pointer->Some_0.grab->Some_0.start.focus->Some_0.client == surface.client
        },
        start is Some ==> start->Some_0 == pointer->Some_0.grab->Some_0.start,
{
}

/// A move begins where the client may act on the event. It names the first window whose toplevel
/// is the surface, and begins where that window stands and as the grab that is under way began.
pub proof fn law_move_begins_at_its_window(
    pointer: Option<Pointer>,
    windows: &Vec<Window>,
    surface: SurfaceId,
    serial: u32,
    grab: Option<MoveGrab>,
)
    requires
        call_ensures(move_request, (pointer, windows, surface, serial), grab),
    ensures
        grab is Some <==> {
            &&& pointer is Some
            &&& pointer->Some_0.grab is Some
            &&& pointer->Some_0.grab->Some_0.serial == serial
            &&& pointer->Some_0.grab->Some_0.start.focus is Some
            &&& pointer->Some_0.grab->Some_0.start.focus->Some_0.client == surface.client
        },
        grab matches Some(moved) ==> (exists|i: int|
            0 <= i < windows@.len() && (#[trigger] windows@[i]).toplevel == Some(surface)) ==> {
            &&& moved.window < windows@.len()
            &&& windows@[moved.window as int].toplevel == Some(surface)
            &&& forall|j: int|
                0 <= j < moved.window ==> (#[trigger] windows@[j]).toplevel != Some(surface)
            &&& moved.initial_x == windows@[moved.window as int].x
            &&& moved.initial_y == windows@[moved.window as int].y
            &&& moved.start == pointer->Some_0.grab->Some_0.start
        },
{
    lemma_window_search(windows@, surface);
    assert(windows.len() == windows@.len());
}

/// Commits and requests are accepted whatever the windows are, as long as each is a toplevel of
/// the shell; a request to move needs a window of the surface only where a grab is under way.
pub proof fn law_requests_are_accepted(
    pointer: Option<Pointer>,
    windows: &Vec<Window>,
    surface: SurfaceId,
    serial: u32,
)
    requires
        forall|i: int| 0 <= i < windows@.len() ==> (#[trigger] windows@[i]).toplevel is Some,
    ensures
        call_requires(find_window, (windows, surface)),
        call_requires(handle_commit, (windows, surface)),
        pointer is None || pointer->Some_0.grab is None || (exists|i: int|
            0 <= i < windows@.len() && (#[trigger] windows@[i]).toplevel == Some(surface))
            ==> call_requires(move_request, (pointer, windows, surface, serial)),
{
    lemma_window_search(windows@, surface);
}

} // verus!
