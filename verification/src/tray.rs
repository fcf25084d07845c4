//! The host's status-notifier item: its names, its menu, the actions it
//! sends, and the icon pixels it hands over.

use vstd::prelude::*;

verus! {

/// What the tray asks of the host window.
#[derive(Clone, Copy, Debug, PartialEq, Eq, Structural)]
pub enum TrayAction {
    Show,
    Hide,
    Toggle,
    Quit,
}

/// An entry of the tray menu.
#[derive(Clone, Copy, Debug, PartialEq, Eq)]
pub enum MenuEntry {
    /// A labelled item and the action it sends.
    Item(&'static str, TrayAction),
    Separator,
}

/// Identifier of the status-notifier item.
pub fn tray_id() -> (r: &'static str)
    ensures
        r@ == "dev.xtools.host"@,
{
    "dev.xtools.host"
}

/// Title of the item.
pub fn tray_title() -> (r: &'static str)
    ensures
        r@ == "xtools"@,
{
    "xtools"
}

/// Description shown in the tool tip.
pub fn tray_description() -> (r: &'static str)
    ensures
        r@ == "Linux 桌面悬浮工具箱"@,
{
    "Linux 桌面悬浮工具箱"
}

/// The themed icon's name: the tool's own where its icon was installed in
/// a theme directory (`theme_path` not empty), else a stock one.
pub fn icon_name(theme_path: &str) -> (r: &'static str)
    ensures
        theme_path@.len() == 0 ==> r@ == "applications-utilities"@,
        theme_path@.len() > 0 ==> r@ == "xtools"@,
{
    if theme_path.is_empty() {
        "applications-utilities"
    } else {
        "xtools"
    }
}

/// A click on the icon shows or hides the host.
pub fn activate_action() -> (r: TrayAction)
    ensures
        r == TrayAction::Toggle,
{
    TrayAction::Toggle
}

/// The menu: show, hide, a separator, quit.
pub fn menu() -> (r: Vec<MenuEntry>)
    ensures
        r@.len() == 4,
        r@[0] matches MenuEntry::Item(l, a) && l@ == "显示"@ && a == TrayAction::Show,
        r@[1] matches MenuEntry::Item(l, a) && l@ == "隐藏"@ && a == TrayAction::Hide,
        r@[2] == MenuEntry::Separator,
        r@[3] matches MenuEntry::Item(l, a) && l@ == "退出"@ && a == TrayAction::Quit,
{
    let mut r: Vec<MenuEntry> = Vec::new();
    r.push(MenuEntry::Item("显示", TrayAction::Show));
    r.push(MenuEntry::Item("隐藏", TrayAction::Hide));
    r.push(MenuEntry::Separator);
    r.push(MenuEntry::Item("退出", TrayAction::Quit));
    r
}

/// Icon sizes, in pixels, rendered for the item.
pub fn icon_sizes() -> (r: [i32; 5])
    ensures
        r@ == seq![22i32, 24, 32, 48, 64],
{
    let r = [22, 24, 32, 48, 64];
    assert(r@ =~= seq![22i32, 24, 32, 48, 64]);
    r
}

/// A pixel's colour as the tray shows it: near-black (each channel under
/// 50) becomes a light grey, so the dark mark stays visible on dark panels.
pub open spec fn tray_rgb(r: u8, g: u8, b: u8) -> (u8, u8, u8) {
    if r < 50 && g < 50 && b < 50 {
        (240u8, 240u8, 245u8)
    } else {
        (r, g, b)
    }
}

/// The ARGB bytes of the `i`-th pixel of RGBA data.
pub open spec fn argb_pixel(rgba: Seq<u8>, i: int) -> Seq<u8> {
    let c = tray_rgb(rgba[4 * i], rgba[4 * i + 1], rgba[4 * i + 2]);
    seq![rgba[4 * i + 3], c.0, c.1, c.2]
}

/// Converts rendered RGBA pixels (`rgba.len() / 4` of them) to the ARGB
/// order of the status-notifier protocol, lightening near-black.
pub fn argb_pixels(rgba: &[u8]) -> (r: Vec<u8>)
    ensures
        r@.len() == 4 * (rgba@.len() / 4),
        forall|i: int| 0 <= i < rgba@.len() / 4 ==> #[trigger] r@.subrange(4 * i, 4 * i + 4) == argb_pixel(rgba@, i),
{
    let len = rgba.len();
    let n = len / 4;
    let mut out: Vec<u8> = Vec::new();
    let mut i: usize = 0;
    while i < n
        invariant
            len == rgba@.len(),
            n == rgba@.len() / 4,
            i <= n,
            out@.len() == 4 * i,
            forall|k: int| 0 <= k < i ==> #[trigger] out@.subrange(4 * k, 4 * k + 4) == argb_pixel(rgba@, k),
        decreases n - i,
    {
        assert(4 * i + 4 <= rgba@.len()) by (nonlinear_arith)
            requires
                i < n,
                n == rgba@.len() / 4,
        ;
        let base: usize = 4 * i;
        let r = rgba[base];
        let g = rgba[base + 1];
        let b = rgba[base + 2];
        let a = rgba[base + 3];
        let (r, g, b) = if r < 50 && g < 50 && b < 50 {
            (240u8, 240u8, 245u8)
        } else {
            (r, g, b)
        };
        let ghost before = out@;
        out.push(a);
        out.push(r);
        out.push(g);
        out.push(b);
        proof {
            assert forall|k: int| 0 <= k < i + 1 implies #[trigger] out@.subrange(4 * k, 4 * k + 4) == argb_pixel(rgba@, k) by {
                if k < i {
                    assert(out@.subrange(4 * k, 4 * k + 4) =~= before.subrange(4 * k, 4 * k + 4));
                } else {
                    assert(out@.subrange(4 * k, 4 * k + 4) =~= argb_pixel(rgba@, k));
                }
            }
        }
        i = i + 1;
    }
    out
}

} // verus!
