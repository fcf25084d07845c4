//! KWin helpers: reading what `busctl` prints, checking a virtual-desktop id
//! before it goes on a command line, and the steps that pin tool windows to
//! every desktop.
//!
//! Plasma ignores X11 sticky hints: a tool window started by the host lands
//! on the host's desktop and switches the view there. A long-lived KWin
//! script pins new tool windows to every desktop, and the user's desktop is
//! restored over DBus. Running `busctl` is the caller's part.

use vstd::prelude::*;
use vstd::utf8::encode_utf8;
use crate::text::{
    chars_of, contains, contains_chars, find_char, first_index_of, string_of, sub_chars, trim, trim_bounds,
};

verus! {

broadcast use vstd::string::group_string_axioms;

/// Name under which the pin script is loaded into KWin.
pub const SCRIPT_NAME: &'static str = "xtools-desktop-pin";

/// Whether a byte is an ASCII hexadecimal digit.
pub open spec fn is_hex_byte(b: u8) -> bool {
    (48 <= b <= 57) || (65 <= b <= 70) || (97 <= b <= 102)
}

/// A virtual-desktop id that may go on a command line: 1 to 79 bytes, each
/// a hexadecimal digit or `-`.
pub open spec fn desktop_id_ok(id: Seq<char>) -> bool {
    let b = encode_utf8(id);
    &&& b.len() > 0
    &&& b.len() < 80
    &&& forall|i: int| 0 <= i < b.len() ==> is_hex_byte(#[trigger] b[i]) || b[i] == 45u8
}

/// Whether `id` looks like a virtual-desktop UUID.
pub fn valid_desktop_id(id: &str) -> (r: bool)
    ensures
        r == desktop_id_ok(id@),
{
    let b = id.as_bytes();
    let n = b.len();
    if n == 0 || n >= 80 {
        return false;
    }
    let mut i: usize = 0;
    while i < n
        invariant
            n == b@.len(),
            b@ == encode_utf8(id@),
            i <= n,
            forall|j: int| 0 <= j < i ==> is_hex_byte(#[trigger] b@[j]) || b@[j] == 45u8,
        decreases n - i,
    {
        let c = b[i];
        let ok = (48 <= c && c <= 57) || (65 <= c && c <= 70) || (97 <= c && c <= 102) || c == 45;
        if !ok {
            return false;
        }
        i = i + 1;
    }
    true
}

/// The string that `busctl get-property` printed, as in `s "value"`: the
/// text between the first two double quotes of the trimmed output, where
/// there are two and something stands between them.
pub open spec fn busctl_string(raw: Seq<char>) -> Option<Seq<char>> {
    let t = trim(raw);
    match first_index_of(t, '"') {
        Some(i) => {
            let rest = t.skip(i + 1int);
            match first_index_of(rest, '"') {
                Some(j) => if j > 0 {
                    Some(rest.take(j as int))
                } else {
                    None
                },
                None => None,
            }
        },
        None => None,
    }
}

/// Reads the string value out of `busctl` output.
pub fn parse_busctl_string(raw: &str) -> (r: Option<String>)
    ensures
        match r {
            Some(s) => busctl_string(raw@) == Some(s@),
            None => busctl_string(raw@) is None,
        },
{
    let v = chars_of(raw);
    let (lo, hi) = trim_bounds(&v);
    let w = sub_chars(&v, lo, hi);
    proof {
        crate::text::lemma_first_index_of(w@, '"');
    }
    let start = match find_char(&w, '"') {
        Some(i) => i,
        None => return None,
    };
    let rest = sub_chars(&w, start + 1, w.len());
    assert(rest@ =~= w@.skip(start + 1));
    proof {
        crate::text::lemma_first_index_of(rest@, '"');
    }
    let end = match find_char(&rest, '"') {
        Some(j) => j,
        None => return None,
    };
    if end == 0 {
        return None;
    }
    let s = string_of(&rest, 0, end);
    assert(s@ =~= rest@.take(end as int));
    Some(s)
}

/// Whether `busctl call ... isScriptLoaded` answered that the script is
/// loaded: it succeeded and printed `true`.
pub fn script_reported_loaded(success: bool, stdout: &str) -> (r: bool)
    ensures
        r == (success && contains(stdout@, seq!['t', 'r', 'u', 'e'])),
{
    if !success {
        return false;
    }
    let v = chars_of(stdout);
    let r = contains_chars(&v, &['t', 'r', 'u', 'e']);
    assert(r == contains(stdout@, seq!['t', 'r', 'u', 'e'])) by {
        let lit: &[char] = &['t', 'r', 'u', 'e'];
        assert(lit@ =~= seq!['t', 'r', 'u', 'e']);
    }
    r
}

/// Whether `busctl call ... loadScript` loaded the script: it succeeded and
/// did not print the id -1 that KWin gives a script it refused.
pub fn script_load_ok(success: bool, stdout: &str) -> (r: bool)
    ensures
        r == (success && !contains(stdout@, seq!['-', '1'])),
{
    if !success {
        return false;
    }
    let v = chars_of(stdout);
    let lit: &[char] = &['-', '1'];
    assert(lit@ =~= seq!['-', '1']);
    !contains_chars(&v, lit)
}

/// A step of pinning tool windows.
#[derive(Debug, Clone, PartialEq, Eq)]
pub enum PinStep {
    /// Make sure the pin script is loaded and running.
    EnsurePinScript,
    /// Switch KWin back to this virtual desktop.
    RestoreDesktop(String),
}

/// The steps that pin a process's windows and, optionally, bring back the
/// user's desktop: the pin script first; then the desktop, where it is a
/// valid id (an invalid one is never put on a command line). The pin script
/// works on every tool window, so the process id itself is not needed.
pub fn pin_pid(pid: u32, restore: Option<&str>) -> (r: Vec<PinStep>)
    ensures
        r@.len() >= 1,
        r@[0] == PinStep::EnsurePinScript,
        match restore {
            Some(id) => if desktop_id_ok(id@) {
                r@.len() == 2 && (r@[1] matches PinStep::RestoreDesktop(d) && d@ == id@)
            } else {
                r@.len() == 1
            },
            None => r@.len() == 1,
        },
{
    let mut steps: Vec<PinStep> = Vec::new();
    steps.push(PinStep::EnsurePinScript);
    if let Some(id) = restore {
        if valid_desktop_id(id) {
            steps.push(PinStep::RestoreDesktop(id.to_owned()));
        }
    }
    steps
}

/// Where setting up the pin script stands; each step but the last names
/// what the caller does next.
#[derive(Debug, Clone, Copy, PartialEq, Eq, Structural)]
pub enum PinScriptStep {
    /// Ask KWin whether a copy of the script is loaded (`isScriptLoaded`).
    CheckLoaded,
    /// Unload the old copy (`unloadScript`).
    Unload,
    /// Write the script to its file.
    WriteScript,
    /// Have KWin load the file (`loadScript`).
    Load,
    /// Have KWin start its scripts (`start`); whether the load took.
    Start(bool),
    /// Finished; whether the script is now running.
    Done(bool),
}

/// What came of a step.
#[derive(Debug, Clone, PartialEq, Eq)]
pub enum PinScriptReply {
    /// A `busctl` call: whether it succeeded, and what it printed.
    Output(bool, String),
    /// Writing the file: whether it worked.
    Written(bool),
    /// A step whose outcome does not matter.
    Finished,
}

/// The first step: nothing to do where the script was set up before.
pub fn pin_script_begin(already_running: bool) -> (r: PinScriptStep)
    ensures
        r == if already_running { PinScriptStep::Done(true) } else { PinScriptStep::CheckLoaded },
{
    if already_running {
        PinScriptStep::Done(true)
    } else {
        PinScriptStep::CheckLoaded
    }
}

/// The step after `step`, given what came of it (see [`next_pin_step`]).
pub open spec fn pin_step_after(step: PinScriptStep, reply: PinScriptReply) -> PinScriptStep {
    match (step, reply) {
        (PinScriptStep::CheckLoaded, PinScriptReply::Output(ok, out)) => if ok && contains(
            out@,
            seq!['t', 'r', 'u', 'e'],
        ) {
            PinScriptStep::Unload
        } else {
            PinScriptStep::WriteScript
        },
        (PinScriptStep::Unload, _) => PinScriptStep::WriteScript,
        (PinScriptStep::WriteScript, PinScriptReply::Written(w)) => if w {
            PinScriptStep::Load
        } else {
            PinScriptStep::Done(false)
        },
        (PinScriptStep::Load, PinScriptReply::Output(ok, out)) => PinScriptStep::Start(
            ok && !contains(out@, seq!['-', '1']),
        ),
        (PinScriptStep::Start(loaded), _) => PinScriptStep::Done(loaded),
        _ => step,
    }
}

/// The step after `step`, given what came of it: an old copy is unloaded
/// before the file is written; a file that could not be written ends the
/// setup unsuccessfully; the load's answer decides, once the scripts are
/// started, whether the setup succeeded. A reply that does not fit the
/// step leaves the step as it is.
pub fn next_pin_step(step: PinScriptStep, reply: &PinScriptReply) -> (r: PinScriptStep)
    ensures
        r == pin_step_after(step, *reply),
{
    match (step, reply) {
        (PinScriptStep::CheckLoaded, PinScriptReply::Output(ok, out)) => {
            if script_reported_loaded(*ok, out.as_str()) {
                PinScriptStep::Unload
            } else {
                PinScriptStep::WriteScript
            }
        },
        (PinScriptStep::Unload, _) => PinScriptStep::WriteScript,
        (PinScriptStep::WriteScript, PinScriptReply::Written(w)) => {
            if *w {
                PinScriptStep::Load
            } else {
                PinScriptStep::Done(false)
            }
        },
        (PinScriptStep::Load, PinScriptReply::Output(ok, out)) => PinScriptStep::Start(
            script_load_ok(*ok, out.as_str()),
        ),
        (PinScriptStep::Start(loaded), _) => PinScriptStep::Done(loaded),
        _ => step,
    }
}

/// Where the setup stands after the replies `replies`, one per step, from
/// `step` on.
pub open spec fn pin_run(step: PinScriptStep, replies: Seq<PinScriptReply>) -> PinScriptStep
    decreases replies.len(),
{
    if replies.len() == 0 {
        step
    } else {
        pin_run(pin_step_after(step, replies[0]), replies.drop_first())
    }
}

/// A setup that was done before does nothing. Otherwise, whatever KWin says
/// of an old copy: a file that cannot be written ends the setup
/// unsuccessfully; else the setup succeeds exactly when `loadScript`
/// succeeded without printing `-1`.
pub proof fn lemma_pin_setup_outcome(
    loaded_ok: bool,
    loaded_out: String,
    written: bool,
    load_ok: bool,
    load_out: String,
)
    ensures
        pin_run(PinScriptStep::Done(true), seq![PinScriptReply::Finished]) == PinScriptStep::Done(true),
        ({
            let check = PinScriptReply::Output(loaded_ok, loaded_out);
            let old_copy = loaded_ok && contains(loaded_out@, seq!['t', 'r', 'u', 'e']);
            let load = PinScriptReply::Output(load_ok, load_out);
            let before_write = if old_copy { seq![check, PinScriptReply::Finished] } else { seq![check] };
            &&& !written ==> pin_run(PinScriptStep::CheckLoaded, before_write + seq![PinScriptReply::Written(false)])
                == PinScriptStep::Done(false)
            &&& written ==> pin_run(
                PinScriptStep::CheckLoaded,
                before_write + seq![PinScriptReply::Written(true), load, PinScriptReply::Finished],
            ) == PinScriptStep::Done(load_ok && !contains(load_out@, seq!['-', '1']))
        }),
{
    let check = PinScriptReply::Output(loaded_ok, loaded_out);
    let old_copy = loaded_ok && contains(loaded_out@, seq!['t', 'r', 'u', 'e']);
    let load = PinScriptReply::Output(load_ok, load_out);
    let before_write = if old_copy { seq![check, PinScriptReply::Finished] } else { seq![check] };
    reveal_with_fuel(pin_run, 6);
    let fail = before_write + seq![PinScriptReply::Written(false)];
    let full = before_write + seq![PinScriptReply::Written(true), load, PinScriptReply::Finished];
    if old_copy {
        assert(fail.drop_first() =~= seq![PinScriptReply::Finished, PinScriptReply::Written(false)]);
        assert(fail.drop_first().drop_first() =~= seq![PinScriptReply::Written(false)]);
        assert(full.drop_first() =~= seq![PinScriptReply::Finished, PinScriptReply::Written(true), load, PinScriptReply::Finished]);
        assert(full.drop_first().drop_first() =~= seq![PinScriptReply::Written(true), load, PinScriptReply::Finished]);
    } else {
        assert(fail.drop_first() =~= seq![PinScriptReply::Written(false)]);
        assert(full.drop_first() =~= seq![PinScriptReply::Written(true), load, PinScriptReply::Finished]);
    }
    assert(seq![PinScriptReply::Written(true), load, PinScriptReply::Finished].drop_first() =~= seq![load, PinScriptReply::Finished]);
    assert(seq![load, PinScriptReply::Finished].drop_first() =~= seq![PinScriptReply::Finished]);
    assert(seq![PinScriptReply::Finished].drop_first() =~= Seq::<PinScriptReply>::empty());
    assert(seq![PinScriptReply::Written(false)].drop_first() =~= Seq::<PinScriptReply>::empty());
}

} // verus!
