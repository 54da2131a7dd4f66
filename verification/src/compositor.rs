//! What a commit of a surface leads to: the walk to the root of its surface tree, and what is
//! done there.

use vstd::prelude::*;

use crate::xdg_shell::{
    commit_actions, find_window, first_window, handle_commit, handle_popup_commit,
    lemma_window_search,
    popup_needs_configure, searchable, CommitAction, PopupKind, SurfaceId, Window,
};

verus! {

/// How the handling of a commit goes on.
#[derive(Clone, Copy, PartialEq, Eq, Structural, Debug)]
pub enum CommitStep {
    /// The state is kept until the parent commits; nothing is done.
    Cached,
    /// Ask for the parent of this surface.
    QueryParent(SurfaceId),
    /// This is the root of the surface tree.
    Root(SurfaceId),
}

/// Begins to handle a commit. A surface that is synchronised with its parent is left to it.
pub fn commit(surface: SurfaceId, synchronised: bool) -> (step: CommitStep)
    ensures
        step == if synchronised {
            CommitStep::Cached
        } else {
            CommitStep::QueryParent(surface)
        },
{
    if synchronised {
        CommitStep::Cached
    } else {
        CommitStep::QueryParent(surface)
    }
}

/// The step after a surface was asked for its parent: to the parent, or to the end of the walk.
pub open spec fn step_from(current: SurfaceId, parent: Option<SurfaceId>) -> CommitStep {
    match parent {
        Some(parent) => CommitStep::QueryParent(parent),
        None => CommitStep::Root(current),
    }
}

/// Goes on from a surface that was asked for its parent.
pub fn follow_parent(current: SurfaceId, parent: Option<SurfaceId>) -> (step: CommitStep)
    ensures
        step == step_from(current, parent),
{
    match parent {
        Some(parent) => CommitStep::QueryParent(parent),
        None => CommitStep::Root(current),
    }
}

/// What is done once the root is known: the window of the root takes note of the commit, and
/// the shell handles the commit of the surface itself.
pub open spec fn root_actions(
    windows: Seq<Window>,
    surface: SurfaceId,
    root: SurfaceId,
) -> Seq<CommitAction> {
    match first_window(windows, root) {
        Some(i) => seq![CommitAction::NotifyWindow(i as usize)] + commit_actions(windows, surface),
        None => commit_actions(windows, surface),
    }
}

/// What is done once the root is known, in this order, before the popup of the surface is looked
/// up.
pub fn commit_root(windows: &Vec<Window>, surface: SurfaceId, root: SurfaceId) -> (actions: Vec<
    CommitAction,
>)
    requires
        searchable(windows@, root),
        searchable(windows@, surface),
    ensures
        actions@ == root_actions(windows@, surface, root),
{
    let mut actions: Vec<CommitAction> = Vec::new();
    match find_window(windows, root) {
        Some(i) => {
            actions.push(CommitAction::NotifyWindow(i));
        },
        None => {},
    }
    let mut rest = handle_commit(windows, surface);
    actions.append(&mut rest);
    assert(actions@ =~= root_actions(windows@, surface, root));
    actions
}

/// What is done once the popup of the surface was looked up.
pub open spec fn popup_actions(popup: Option<PopupKind>) -> Seq<CommitAction> {
    if popup_needs_configure(popup) {
        seq![CommitAction::ConfigurePopup, CommitAction::UpdateResize]
    } else {
        seq![CommitAction::UpdateResize]
    }
}

/// What is done, in this order, once the popup of the surface was looked up.
pub fn commit_popup(popup: Option<PopupKind>) -> (actions: Vec<CommitAction>)
    ensures
        actions@ == popup_actions(popup),
{
    let mut actions: Vec<CommitAction> = Vec::new();
    if handle_popup_commit(popup) {
        actions.push(CommitAction::ConfigurePopup);
    }
    actions.push(CommitAction::UpdateResize);
    assert(actions@ =~= popup_actions(popup));
    actions
}

/// The parent of a surface, if it has one.
pub open spec fn parent_of(parents: Map<SurfaceId, SurfaceId>, surface: SurfaceId) -> Option<
    SurfaceId,
> {
    if parents.contains_key(surface) {
        Some(parents[surface])
    } else {
        None
    }
}

/// The surface that is reached after a number of steps to the parent.
pub open spec fn ancestor(
    parents: Map<SurfaceId, SurfaceId>,
    surface: SurfaceId,
    steps: nat,
) -> Option<SurfaceId>
    decreases steps,
{
    if steps == 0 {
        Some(surface)
    } else {
        match ancestor(parents, surface, (steps - 1) as nat) {
            Some(below) => parent_of(parents, below),
            None => None,
        }
    }
}

/// The step that the walk from a surface takes after so many answers about parents.
pub open spec fn walk(
    parents: Map<SurfaceId, SurfaceId>,
    surface: SurfaceId,
    answers: nat,
) -> CommitStep
    decreases answers,
{
    if answers == 0 {
        CommitStep::QueryParent(surface)
    } else {
        match walk(parents, surface, (answers - 1) as nat) {
            CommitStep::QueryParent(current) => step_from(current, parent_of(parents, current)),
            done => done,
        }
    }
}

/// Parents stand above their children: each has a lower depth.
pub open spec fn is_forest(
    parents: Map<SurfaceId, SurfaceId>,
    depth: spec_fn(SurfaceId) -> nat,
) -> bool {
    forall|s: SurfaceId| #[trigger]
        parents.contains_key(s) ==> depth(parents[s]) < depth(s)
}

proof fn lemma_walk(
    parents: Map<SurfaceId, SurfaceId>,
    depth: spec_fn(SurfaceId) -> nat,
    surface: SurfaceId,
    answers: nat,
)
    requires
        is_forest(parents, depth),
    ensures
        match walk(parents, surface, answers) {
            CommitStep::QueryParent(current) => ancestor(parents, surface, answers) == Some(current)
                && depth(current) + answers <= depth(surface),
            CommitStep::Root(root) => parent_of(parents, root) is None && exists|steps: nat|
                steps < answers && #[trigger] ancestor(parents, surface, steps) == Some(root),
            CommitStep::Cached => false,
        },
    decreases answers,
{
    if answers > 0 {
        let fewer = (answers - 1) as nat;
        lemma_walk(parents, depth, surface, fewer);
        match walk(parents, surface, fewer) {
            CommitStep::QueryParent(current) => {
                assert(ancestor(parents, surface, fewer) == Some(current));
            },
            CommitStep::Root(root) => {
                let steps = choose|steps: nat|
                    steps < fewer && #[trigger] ancestor(parents, surface, steps) == Some(root);
                assert(ancestor(parents, surface, steps) == Some(root));
            },
            CommitStep::Cached => {},
        }
    }
}

/// The walk ends: after at most one answer more than the surface is deep it has found the
/// surface's ancestor that has no parent.
pub proof fn law_walk_ends_at_the_root(
    parents: Map<SurfaceId, SurfaceId>,
    depth: spec_fn(SurfaceId) -> nat,
    surface: SurfaceId,
)
    requires
        is_forest(parents, depth),
    ensures
        walk(parents, surface, depth(surface) + 1) matches CommitStep::Root(root) && parent_of(
            parents,
            root,
        ) is None && exists|steps: nat|
            steps <= depth(surface) && #[trigger] ancestor(parents, surface, steps) == Some(root),
{
    lemma_walk(parents, depth, surface, depth(surface) + 1);
    let root = walk(parents, surface, depth(surface) + 1)->Root_0;
    let steps = choose|steps: nat|
        steps < depth(surface) + 1 && #[trigger] ancestor(parents, surface, steps) == Some(root);
    assert(steps <= depth(surface) && ancestor(parents, surface, steps) == Some(root));
}

/// A commit is left to the parent of a surface that is synchronised with it; otherwise the walk
/// begins at the surface itself.
pub proof fn law_commit_begins_at_the_surface(
    surface: SurfaceId,
    synchronised: bool,
    step: CommitStep,
)
    requires
        call_ensures(commit, (surface, synchronised), step),
    ensures
        step == CommitStep::Cached <==> synchronised,
        step matches CommitStep::QueryParent(asked) ==> asked == surface,
        step !is Root,
{
}

/// The walk goes on at the parent, and ends at a surface that has none.
pub proof fn law_walk_follows_parents(
    current: SurfaceId,
    parent: Option<SurfaceId>,
    step: CommitStep,
)
    requires
        call_ensures(follow_parent, (current, parent), step),
    ensures
        step !is Cached,
        step matches CommitStep::QueryParent(asked) ==> parent == Some(asked),
        step matches CommitStep::Root(root) ==> parent is None && root == current,
{
}

/// The first window whose toplevel is the root takes note of the commit, before anything else and
/// once, whether or not it was told its size and whichever surface of the tree was committed.
/// Where the root is the toplevel of no window, none takes note. What the shell does about the
/// surface follows.
pub proof fn law_root_window_takes_note(
    windows: &Vec<Window>,
    surface: SurfaceId,
    root: SurfaceId,
    actions: Vec<CommitAction>,
    shell: Vec<CommitAction>,
)
    requires
        call_ensures(commit_root, (windows, surface, root), actions),
        call_ensures(handle_commit, (windows, surface), shell),
    ensures
        forall|i: int|
            0 <= i < windows@.len() && (#[trigger] windows@[i]).toplevel == Some(root) && (forall|
                j: int,
            |
                0 <= j < i ==> (#[trigger] windows@[j]).toplevel != Some(root)) ==> actions@[0]
                == CommitAction::NotifyWindow(i as usize) && actions@.skip(1) == shell@,
        (forall|i: int|
            0 <= i < windows@.len() ==> (#[trigger] windows@[i]).toplevel != Some(root))
            ==> actions@ == shell@,
        forall|a: int| 0 < a < actions@.len() ==> !((#[trigger] actions@[a]) is NotifyWindow),
        forall|a: int| 0 <= a < shell@.len() ==> !((#[trigger] shell@[a]) is NotifyWindow),
{
    lemma_window_search(windows@, root);
    assert(windows.len() == windows@.len());
    match first_window(windows@, root) {
        Some(k) => {
            assert forall|i: int|
                0 <= i < windows@.len() && (#[trigger] windows@[i]).toplevel == Some(root) && (
                forall|j: int|
                    0 <= j < i ==> (#[trigger] windows@[j]).toplevel != Some(root)) implies i
                == k by {
                if i < k {
                    assert(windows@[i].toplevel != Some(root));
                }
                if k < i {
                    assert(windows@[k].toplevel != Some(root));
                }
            }
            assert(windows@[k].toplevel == Some(root));
            assert(actions@.skip(1) =~= shell@);
        },
        None => {},
    }
}

/// A resize takes note of every commit, last; before it the popup is told its place if it is to
/// be, and nothing else is done.
pub proof fn law_commit_popup(
    popup: Option<PopupKind>,
    configure: bool,
    actions: Vec<CommitAction>,
)
    requires
        call_ensures(handle_popup_commit, (popup,), configure),
        call_ensures(commit_popup, (popup,), actions),
    ensures
        actions@.len() == if configure {
            2int
        } else {
            1
        },
        actions@[actions@.len() - 1] == CommitAction::UpdateResize,
        configure ==> actions@[0] == CommitAction::ConfigurePopup,
{
}

/// Once the root is known the commit is accepted whatever the windows are, as long as each is a
/// toplevel of the shell.
pub proof fn law_commits_are_accepted(
    windows: &Vec<Window>,
    surface: SurfaceId,
    root: SurfaceId,
)
    requires
        forall|i: int| 0 <= i < windows@.len() ==> (#[trigger] windows@[i]).toplevel is Some,
    ensures
        call_requires(commit_root, (windows, surface, root)),
{
}

} // verus!
