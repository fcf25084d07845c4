//! Start-up decisions of a tool process, on the values of its environment
//! variables (`None` where a variable is unset or not Unicode). Reading and
//! changing the environment is the caller's part.

use vstd::prelude::*;
use crate::text::{all_whitespace, all_ws, chars_of};

verus! {

broadcast use vstd::string::group_string_axioms;

/// A value, where it is set and not empty.
pub open spec fn non_empty(v: Option<Seq<char>>) -> Option<Seq<char>> {
    match v {
        Some(s) if s.len() > 0 => Some(s),
        _ => None,
    }
}

/// The virtual desktop the launcher asked for in `XTOOLS_TARGET_DESKTOP`
/// (its value given here), where it names one. Where it names none, the
/// caller asks KWin for the current desktop instead.
pub fn capture_target_desktop(env_value: Option<&str>) -> (r: Option<String>)
    ensures
        crate::config::opt_view(r) == non_empty(crate::instance::opt_str_view(env_value)),
{
    match env_value {
        Some(v) => if v.is_empty() {
            None
        } else {
            Some(v.to_owned())
        },
        None => None,
    }
}

/// The desktop captured at start-up: nothing before the capture, else what
/// it found.
pub fn target_desktop(captured: Option<&Option<String>>) -> (r: Option<String>)
    ensures
        r == match captured {
            Some(c) => *c,
            None => None,
        },
{
    match captured {
        Some(c) => c.clone(),
        None => None,
    }
}

/// What a process captured of its target desktop: nothing before the first
/// capture; after it, what that capture found, kept for the rest of the
/// process.
pub struct DesktopSnapshot {
    pub taken: Option<Option<String>>,
}

/// The snapshot `taken` after a capture that found `found`: the first
/// capture is kept.
pub open spec fn after_capture(taken: Option<Option<String>>, found: Option<String>) -> Option<Option<String>> {
    match taken {
        Some(t) => Some(t),
        None => Some(found),
    }
}

/// The desktop a snapshot gives: none before the capture.
pub open spec fn snapshot_target(taken: Option<Option<String>>) -> Option<String> {
    match taken {
        Some(t) => t,
        None => None,
    }
}

impl DesktopSnapshot {
    /// Nothing captured yet.
    pub fn new() -> (r: DesktopSnapshot)
        ensures
            r.taken is None,
    {
        DesktopSnapshot { taken: None }
    }

    /// Records `found` as the target desktop, unless a desktop was captured
    /// before: only the first capture counts.
    pub fn capture(&mut self, found: Option<String>)
        ensures
            final(self).taken == after_capture(old(self).taken, found),
    {
        if self.taken.is_none() {
            self.taken = Some(found);
        }
    }

    /// The captured desktop (see [`target_desktop`]).
    pub fn target(&self) -> (r: Option<String>)
        ensures
            r == snapshot_target(self.taken),
    {
        match &self.taken {
            Some(c) => target_desktop(Some(c)),
            None => target_desktop(None),
        }
    }
}

/// One snapshot per process: after a first capture that found `first`, any
/// number of later captures leave the target desktop at `first`.
pub proof fn lemma_first_capture_kept(first: Option<String>, later: Seq<Option<String>>)
    ensures
        later.fold_left(after_capture(None, first), |t: Option<Option<String>>, f: Option<String>| after_capture(t, f))
            == Some(first),
        snapshot_target(later.fold_left(after_capture(None, first), |t: Option<Option<String>>, f: Option<String>| after_capture(t, f)))
            == first,
    decreases later.len(),
{
    let step = |t: Option<Option<String>>, f: Option<String>| after_capture(t, f);
    if later.len() > 0 {
        lemma_first_capture_kept(first, later.drop_last());
        assert(later.fold_left(after_capture(None, first), step) == step(later.drop_last().fold_left(after_capture(None, first), step), later.last()));
    }
}

/// The activation token that the launcher left in `XDG_ACTIVATION_TOKEN`
/// (its value given here), where it left one. The caller then removes that
/// variable and `DESKTOP_STARTUP_ID`, so that no child inherits them.
pub fn take_activation_token(env_value: Option<String>) -> (r: Option<String>)
    ensures
        crate::config::opt_view(r) == non_empty(crate::config::opt_view(env_value)),
{
    match env_value {
        Some(v) => if v.as_str().is_empty() {
            None
        } else {
            Some(v)
        },
        None => None,
    }
}

/// Whether to drop `WAYLAND_DISPLAY`, so that the toolkit talks X11 (where
/// skipping the taskbar works): exactly when an X display is at hand.
pub fn prefer_x11_for_skip_taskbar(display_set: bool) -> (r: bool)
    ensures
        r == display_set,
{
    display_set
}

/// Whether an input-method variable needs its default: unset, or blank.
pub open spec fn needs_default(v: Option<Seq<char>>) -> bool {
    match v {
        Some(s) => all_ws(s),
        None => true,
    }
}

fn needs_default_value(v: Option<&str>) -> (r: bool)
    ensures
        r == needs_default(crate::instance::opt_str_view(v)),
{
    match v {
        Some(s) => {
            let cs = chars_of(s);
            all_whitespace(&cs)
        },
        None => true,
    }
}

/// The input-method variables to set, as `(name, value)` in this order:
/// `XMODIFIERS=@im=fcitx`, `GTK_IM_MODULE=fcitx` and `QT_IM_MODULE=fcitx`,
/// each where its current value (given here) needs the default.
pub open spec fn im_settings(
    xmodifiers: Option<Seq<char>>,
    gtk_im_module: Option<Seq<char>>,
    qt_im_module: Option<Seq<char>>,
) -> Seq<(Seq<char>, Seq<char>)> {
    let a: Seq<(Seq<char>, Seq<char>)> = if needs_default(xmodifiers) {
        seq![("XMODIFIERS"@, "@im=fcitx"@)]
    } else {
        Seq::empty()
    };
    let b = if needs_default(gtk_im_module) {
        a.push(("GTK_IM_MODULE"@, "fcitx"@))
    } else {
        a
    };
    if needs_default(qt_im_module) {
        b.push(("QT_IM_MODULE"@, "fcitx"@))
    } else {
        b
    }
}

/// The values of a list of variable settings.
pub open spec fn settings_view(r: Seq<(&'static str, &'static str)>) -> Seq<(Seq<char>, Seq<char>)> {
    r.map_values(|p: (&'static str, &'static str)| (p.0@, p.1@))
}

/// The input-method variables to set (see [`im_settings`]), so that X11 and
/// XWayland programs reach fcitx5. The caller also sets the C locale from
/// the environment.
pub fn init_input_method_env(xmodifiers: Option<&str>, gtk_im_module: Option<&str>, qt_im_module: Option<&str>) -> (r: Vec<(&'static str, &'static str)>)
    ensures
        settings_view(r@) == im_settings(
            crate::instance::opt_str_view(xmodifiers),
            crate::instance::opt_str_view(gtk_im_module),
            crate::instance::opt_str_view(qt_im_module),
        ),
{
    let mut r: Vec<(&'static str, &'static str)> = Vec::new();
    if needs_default_value(xmodifiers) {
        r.push(("XMODIFIERS", "@im=fcitx"));
    }
    if needs_default_value(gtk_im_module) {
        r.push(("GTK_IM_MODULE", "fcitx"));
    }
    if needs_default_value(qt_im_module) {
        r.push(("QT_IM_MODULE", "fcitx"));
    }
    assert(settings_view(r@) =~= im_settings(
        crate::instance::opt_str_view(xmodifiers),
        crate::instance::opt_str_view(gtk_im_module),
        crate::instance::opt_str_view(qt_im_module),
    ));
    r
}

} // verus!
