//! Which notifications of the window manager call for a rename pass.
use vstd::prelude::*;

verus! {

/// What happened to a window.
#[derive(Debug, Clone, Copy, PartialEq, Eq, Structural)]
pub enum WindowChange {
    New,
    Close,
    Focus,
    Title,
    FullscreenMode,
    Move,
    Floating,
    Urgent,
    Mark,
}

/// What happened to a workspace.
#[derive(Debug, Clone, Copy, PartialEq, Eq, Structural)]
pub enum WorkspaceChange {
    Init,
    Empty,
    Focus,
    Move,
    Rename,
    Urgent,
    Reload,
}

/// A notification from the window manager.
#[derive(Debug, Clone, Copy, PartialEq, Eq, Structural)]
pub enum Event {
    /// A window event of the tree/event-subscribe protocol.
    Window(WindowChange),
    /// A workspace event of the tree/event-subscribe protocol.
    Workspace(WorkspaceChange),
    /// A lifecycle hook of the hook/poll protocol fired (a window opened,
    /// closed or moved, a layer opened or closed).
    Hook,
}

/// The notifications that can change what a workspace should be called:
/// a window appearing, closing, changing title, moving, turning urgent or
/// changing mark; the focus moving to another workspace; any hook.
pub open spec fn triggers(e: Event) -> bool {
    match e {
        Event::Window(c) => match c {
            WindowChange::New | WindowChange::Close | WindowChange::Title | WindowChange::Move
            | WindowChange::Urgent | WindowChange::Mark => true,
            _ => false,
        },
        Event::Workspace(c) => c == WorkspaceChange::Focus,
        Event::Hook => true,
    }
}

/// Whether `e` calls for a rename pass.
pub fn needs_rename(e: Event) -> (r: bool)
    ensures
        r == triggers(e),
{
    match e {
        Event::Window(c) => match c {
            WindowChange::New | WindowChange::Close | WindowChange::Title | WindowChange::Move
            | WindowChange::Urgent | WindowChange::Mark => true,
            _ => false,
        },
        Event::Workspace(c) => match c {
            WorkspaceChange::Focus => true,
            _ => false,
        },
        Event::Hook => true,
    }
}

} // verus!
