//! Picking out this process's X11 windows, and the EWMH client messages sent
//! for them. Talking to the X server is the caller's part.

use vstd::prelude::*;

verus! {

/// `_NET_WM_STATE_ADD`, the action of a `_NET_WM_STATE` message that sets a state.
pub const NET_WM_STATE_ADD: u32 = 1;

/// The source indication of a `_NET_ACTIVE_WINDOW` message sent on behalf of
/// a pager or panel, which window managers honour.
pub const ACTIVATION_SOURCE_PAGER: u32 = 2;

/// Whether a window with this `_NET_WM_PID` (where it has one) belongs to `pid`.
pub open spec fn owned_by(owner: Option<u32>, pid: u32) -> bool {
    owner == Some(pid)
}

/// The windows, in their order, whose `_NET_WM_PID` is `pid`; each window is
/// given with the value of that property where it has one.
pub open spec fn windows_of(windows: Seq<(u32, Option<u32>)>, pid: u32) -> Seq<u32>
    decreases windows.len(),
{
    if windows.len() == 0 {
        Seq::empty()
    } else {
        let rest = windows_of(windows.drop_last(), pid);
        if owned_by(windows.last().1, pid) {
            rest.push(windows.last().0)
        } else {
            rest
        }
    }
}

/// This process's windows among `windows`.
pub fn windows_of_pid(windows: &[(u32, Option<u32>)], pid: u32) -> (r: Vec<u32>)
    ensures
        r@ == windows_of(windows@, pid),
{
    let mut r: Vec<u32> = Vec::new();
    let mut i: usize = 0;
    while i < windows.len()
        invariant
            i <= windows@.len(),
            r@ == windows_of(windows@.take(i as int), pid),
        decreases windows@.len() - i,
    {
        let (win, owner) = windows[i];
        if owner == Some(pid) {
            r.push(win);
        }
        proof {
            assert(windows@.take(i + 1).drop_last() =~= windows@.take(i as int));
        }
        i = i + 1;
    }
    assert(windows@.take(windows@.len() as int) =~= windows@);
    r
}

/// Where this process's windows are looked for.
#[derive(Debug, Clone, Copy, PartialEq, Eq, Structural)]
pub enum WindowSource {
    /// The window manager's client list (`_NET_CLIENT_LIST`).
    ClientList,
    /// The root window's children.
    RootChildren,
}

/// What a look at one source decided: the windows found, or the source to
/// look at next.
#[derive(Debug, Clone, PartialEq, Eq)]
pub enum WindowSearch {
    Found(Vec<u32>),
    LookAt(WindowSource),
}

/// The decision after looking at `source`, whose windows are given with
/// their `_NET_WM_PID` where they have one: this process's windows where the
/// client list holds some; else the root's children are looked at; what
/// they hold of this process's windows, possibly nothing, is the answer.
pub fn search_windows(source: WindowSource, windows: &[(u32, Option<u32>)], pid: u32) -> (r: WindowSearch)
    ensures
        match r {
            WindowSearch::Found(found) => found@ == windows_of(windows@, pid) && (source == WindowSource::ClientList
                ==> found@.len() > 0),
            WindowSearch::LookAt(next) => source == WindowSource::ClientList && next == WindowSource::RootChildren
                && windows_of(windows@, pid).len() == 0,
        },
        source == WindowSource::RootChildren ==> r is Found,
{
    let mine = windows_of_pid(windows, pid);
    match source {
        WindowSource::ClientList => if mine.len() > 0 {
            WindowSearch::Found(mine)
        } else {
            WindowSearch::LookAt(WindowSource::RootChildren)
        },
        WindowSource::RootChildren => WindowSearch::Found(mine),
    }
}

/// Whether the active window is this process's: `false` where no window is
/// active (window 0); else whether its `_NET_WM_PID` is `pid`.
pub fn active_window_is_ours(active: u32, owner: Option<u32>, pid: u32) -> (r: bool)
    ensures
        r == (active != 0 && owned_by(owner, pid)),
{
    active != 0 && owner == Some(pid)
}

/// The data of the `_NET_WM_STATE` message that adds the `skip` state
/// (`_NET_WM_STATE_SKIP_TASKBAR`), sent by an application (source 1).
pub fn skip_taskbar_message(skip: u32) -> (r: [u32; 5])
    ensures
        r@ == seq![NET_WM_STATE_ADD, skip, 0u32, 1u32, 0u32],
{
    let r = [NET_WM_STATE_ADD, skip, 0, 1, 0];
    assert(r@ =~= seq![NET_WM_STATE_ADD, skip, 0u32, 1u32, 0u32]);
    r
}

/// The data of the `_NET_ACTIVE_WINDOW` message that activates a window.
pub fn activate_message() -> (r: [u32; 5])
    ensures
        r@ == seq![ACTIVATION_SOURCE_PAGER, 0u32, 0u32, 0u32, 0u32],
{
    let r = [ACTIVATION_SOURCE_PAGER, 0, 0, 0, 0];
    assert(r@ =~= seq![ACTIVATION_SOURCE_PAGER, 0u32, 0u32, 0u32, 0u32]);
    r
}

} // verus!
