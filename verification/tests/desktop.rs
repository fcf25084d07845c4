use xtools::boot::{
    capture_target_desktop, init_input_method_env, prefer_x11_for_skip_taskbar, take_activation_token,
    target_desktop, DesktopSnapshot,
};
use xtools::chrome::{cjk_candidate, cjk_font_path, CJK_CANDIDATE_COUNT};
use xtools::host_window::{animation_tick, click_main, toggle_visibility, Drag, Menu, Motion};
use xtools::instance::{
    decode_command, endpoint_name, pipe_unreachable, parse_command_line, pipe_name, pipe_read_budget, raise_instance, raise_token,
    take_pending_command, terminate_instance, wide, InboxStep, InstanceCommand, PeekStep, PendingOutcome, PipeInbox,
    ERROR_BROKEN_PIPE, ERROR_PIPE_CONNECTED,
};
use xtools::kwin::{
    next_pin_step, parse_busctl_string, pin_pid, pin_script_begin, script_load_ok, script_reported_loaded,
    valid_desktop_id, PinScriptReply, PinScriptStep, PinStep,
};
use xtools::surface::Surface;
use xtools::tray::{
    activate_action, argb_pixels, icon_name, icon_sizes, menu, tray_description, tray_id, tray_title, MenuEntry,
    TrayAction,
};
use xtools::window_state::{command_action, ExpandState, FocusWatch, SkipTaskbarTries, TimerAction};
use xtools::x11_windows::{
    activate_message, active_window_is_ours, search_windows, skip_taskbar_message, windows_of_pid, WindowSearch,
    WindowSource,
};
use xtools::{ToolId, JSON_INSTANCE, TIME_INSTANCE, TRANS_INSTANCE};

#[test]
fn parse_quoted_uuid() {
    assert_eq!(
        parse_busctl_string(r#"s "61f09d5f-1d87-4390-858d-b51dd1d34658""#).as_deref(),
        Some("61f09d5f-1d87-4390-858d-b51dd1d34658")
    );
}

#[test]
fn rejects_bad_desktop_id() {
    assert!(!valid_desktop_id(""));
    assert!(!valid_desktop_id("foo;rm -rf /"));
    assert!(valid_desktop_id("61f09d5f-1d87-4390-858d-b51dd1d34658"));
}

#[test]
fn quit_round_trip_is_decoded() {
    let bytes = terminate_instance();
    assert_eq!(bytes, b"QUIT\n".to_vec());
    assert_eq!(decode_command(&bytes), Some(InstanceCommand::Quit));
}

#[test]
fn raise_token_round_trip_is_decoded() {
    let bytes = raise_instance(Some("token"));
    assert_eq!(bytes, b"RAISE token\n".to_vec());
    assert_eq!(decode_command(&bytes), Some(InstanceCommand::Raise(Some("token".into()))));
}

#[test]
fn test_tray_menu_and_actions() {
    assert_eq!(tray_id(), "dev.xtools.host");
    assert_eq!(tray_title(), "xtools");
    assert_eq!(activate_action(), TrayAction::Toggle);
    let items = menu();
    assert_eq!(items.len(), 4);
    assert_eq!(items[0], MenuEntry::Item("显示", TrayAction::Show));
    assert_eq!(items[2], MenuEntry::Separator);
    assert_eq!(items[3], MenuEntry::Item("退出", TrayAction::Quit));
}

#[test]
fn unsendable_tokens_are_dropped() {
    assert_eq!(raise_instance(None), b"RAISE\n".to_vec());
    assert_eq!(raise_instance(Some("")), b"RAISE\n".to_vec());
    assert_eq!(raise_instance(Some("a b")), b"RAISE\n".to_vec());
    assert_eq!(raise_instance(Some("a\nb")), b"RAISE\n".to_vec());
    assert_eq!(raise_instance(Some("a\0b")), b"RAISE\n".to_vec());
    let long = "x".repeat(4000);
    assert_eq!(raise_instance(Some(&long)), b"RAISE\n".to_vec());
    let fits = "x".repeat(3999);
    assert_eq!(decode_command(&raise_instance(Some(&fits))), Some(InstanceCommand::Raise(Some(fits.clone()))));
    assert_eq!(decode_command(&raise_instance(None)), Some(InstanceCommand::Raise(None)));
}

#[test]
fn requests_that_are_refused() {
    assert_eq!(decode_command(b""), None);
    assert_eq!(decode_command(b"HELLO\n"), None);
    assert_eq!(decode_command(b"RAISE a b\n"), None);
    assert_eq!(decode_command(b"QU\0IT\n"), None);
    assert_eq!(decode_command(&[0xff, b'\n']), None);
    assert_eq!(decode_command(&vec![b'Q'; 4096]), None);
}

#[test]
fn requests_are_read_leniently() {
    assert_eq!(decode_command(b"QUIT"), Some(InstanceCommand::Quit));
    assert_eq!(decode_command(b"RAISE \n"), Some(InstanceCommand::Raise(None)));
    assert_eq!(decode_command(b"QUIT \r\nignored"), Some(InstanceCommand::Quit));
    assert_eq!(decode_command(b"RAISE tok\t\n"), Some(InstanceCommand::Raise(Some("tok".into()))));
}

#[test]
fn command_lines() {
    let line: Vec<char> = "RAISE abc".chars().collect();
    assert_eq!(parse_command_line(&line), Some(InstanceCommand::Raise(Some("abc".into()))));
    let bad: Vec<char> = "quit".chars().collect();
    assert_eq!(parse_command_line(&bad), None);
}

#[test]
fn raise_tokens_only_for_raises() {
    assert_eq!(raise_token(Some(InstanceCommand::Raise(Some("t".into())))), Some(Some("t".to_string())));
    assert_eq!(raise_token(Some(InstanceCommand::Raise(None))), Some(None));
    assert_eq!(raise_token(Some(InstanceCommand::Quit)), None);
    assert_eq!(raise_token(None), None);
}

#[test]
fn pending_pipe_bytes() {
    assert_eq!(take_pending_command(b"RAI"), PendingOutcome::Incomplete);
    assert_eq!(take_pending_command(b"RAISE tok\nrest\xff"), PendingOutcome::Accepted(InstanceCommand::Raise(Some("tok".into()))));
    assert_eq!(take_pending_command(b"NOPE\n"), PendingOutcome::Rejected);
    assert_eq!(take_pending_command(&[0xc3, b'\n']), PendingOutcome::Rejected);
    assert_eq!(take_pending_command(&vec![b'x'; 4096]), PendingOutcome::Rejected);
    assert_eq!(pipe_read_budget(0, 10), 10);
    assert_eq!(pipe_read_budget(4090, 10), 6);
    assert_eq!(pipe_read_budget(5000, 10), 0);
}

#[test]
fn pipe_names() {
    assert_eq!(endpoint_name("alice", "xtools-json"), "alice-xtools-json");
    assert_eq!(wide("a😀"), vec![0x61, 0xD83D, 0xDE00, 0]);
    let expected: Vec<u16> = r"\\.\pipe\xtools-u-x".encode_utf16().chain(std::iter::once(0)).collect();
    assert_eq!(pipe_name("u-x"), expected);
}

#[test]
fn kwin_outputs() {
    assert_eq!(parse_busctl_string("  s \"\"  "), None);
    assert_eq!(parse_busctl_string("no quotes"), None);
    assert_eq!(parse_busctl_string("s \"unterminated"), None);
    assert!(script_reported_loaded(true, "b true\n"));
    assert!(!script_reported_loaded(false, "b true\n"));
    assert!(!script_reported_loaded(true, "b false\n"));
    assert!(script_load_ok(true, "i 3\n"));
    assert!(!script_load_ok(true, "i -1\n"));
    assert!(!script_load_ok(false, "i 3\n"));
    assert!(!valid_desktop_id(&"a".repeat(80)));
    assert!(valid_desktop_id(&"A".repeat(79)));
}

#[test]
fn pin_steps() {
    assert_eq!(pin_pid(7, None), vec![PinStep::EnsurePinScript]);
    assert_eq!(pin_pid(7, Some("bad id")), vec![PinStep::EnsurePinScript]);
    assert_eq!(
        pin_pid(7, Some("abc-123")),
        vec![PinStep::EnsurePinScript, PinStep::RestoreDesktop("abc-123".into())]
    );
}

#[test]
fn boot_decisions() {
    assert_eq!(capture_target_desktop(Some("")), None);
    assert_eq!(capture_target_desktop(Some("d1")), Some("d1".to_string()));
    assert_eq!(capture_target_desktop(None), None);
    assert_eq!(target_desktop(None), None);
    assert_eq!(target_desktop(Some(&Some("d".to_string()))), Some("d".to_string()));
    assert_eq!(take_activation_token(Some(String::new())), None);
    assert_eq!(take_activation_token(Some("tok".into())), Some("tok".to_string()));
    assert!(prefer_x11_for_skip_taskbar(true));
    assert!(!prefer_x11_for_skip_taskbar(false));
    assert_eq!(
        init_input_method_env(None, Some(" "), Some("ibus")),
        vec![("XMODIFIERS", "@im=fcitx"), ("GTK_IM_MODULE", "fcitx")]
    );
    assert_eq!(init_input_method_env(Some("@im=ibus"), Some("gtk"), Some("qt")), vec![]);
}

#[test]
fn cjk_font_choice() {
    let mut present = [false; CJK_CANDIDATE_COUNT];
    assert_eq!(cjk_font_path(&present), None);
    present[4] = true;
    present[6] = true;
    assert_eq!(cjk_font_path(&present), Some(cjk_candidate(4)));
    assert_eq!(cjk_candidate(4), "/usr/share/fonts/opentype/noto/NotoSansCJK-Regular.ttc");
}

#[test]
fn focus_watch_leaves_after_focus_loss() {
    let mut w = FocusWatch::new();
    for _ in 0..4 {
        assert!(!w.step(Some(false)));
    }
    assert!(!w.step(Some(false)));
    assert!(!w.step(Some(true)));
    assert!(!w.step(None));
    assert!(w.step(Some(false)));
}

#[test]
fn focus_watch_remembers_early_focus() {
    let mut w = FocusWatch::new();
    assert!(!w.step(Some(true)));
    for _ in 0..3 {
        assert!(!w.step(None));
    }
    assert!(w.step(Some(false)));
}

#[test]
fn skip_taskbar_tries_twelve_times() {
    let mut t = SkipTaskbarTries::new();
    let applied = (0..20).filter(|_| t.tick()).count();
    assert_eq!(applied, 12);
}

#[test]
fn expand_then_restore() {
    let mut s = ExpandState::new();
    assert_eq!(s.toggle_expand((300, 200), (300, 200), (800, 600), 20), ((800, 600), true));
    assert_eq!(s.toggle_expand((790, 590), (300, 200), (800, 600), 20), ((300, 200), false));
    assert_eq!(s.toggle_expand((785, 600), (100, 100), (800, 600), 20), ((100, 100), false));
}

#[test]
fn timer_actions() {
    assert_eq!(command_action(&Some(InstanceCommand::Quit)), TimerAction::Exit);
    assert_eq!(command_action(&Some(InstanceCommand::Raise(None))), TimerAction::Show);
    assert_eq!(command_action(&None), TimerAction::Idle);
}

#[test]
fn tray_pixels() {
    let rgba = [10u8, 20, 30, 255, 100, 20, 30, 128];
    assert_eq!(argb_pixels(&rgba), vec![255, 240, 240, 245, 128, 100, 20, 30]);
    assert_eq!(argb_pixels(&[1, 2, 3]), Vec::<u8>::new());
    assert_eq!(icon_name(""), "applications-utilities");
    assert_eq!(icon_name("/run/user/1000/xtools-icons"), "xtools");
    assert_eq!(icon_sizes(), [22, 24, 32, 48, 64]);
    assert_eq!(tray_description(), "Linux 桌面悬浮工具箱");
}

#[test]
fn x11_window_choice() {
    let wins = [(1, Some(10)), (2, None), (3, Some(11)), (4, Some(10))];
    assert_eq!(windows_of_pid(&wins, 10), vec![1, 4]);
    assert_eq!(windows_of_pid(&wins, 12), Vec::<u32>::new());
    assert!(!active_window_is_ours(0, Some(10), 10));
    assert!(active_window_is_ours(5, Some(10), 10));
    assert!(!active_window_is_ours(5, None, 10));
    assert_eq!(skip_taskbar_message(77), [1, 77, 0, 1, 0]);
    assert_eq!(activate_message(), [2, 0, 0, 0, 0]);
}

#[test]
fn tool_ids() {
    assert_eq!(ToolId::Time.mark(), "clock");
    assert_eq!(ToolId::Json.binary_name(), "xtools-json");
    assert_eq!(ToolId::Trans.instance_name(), TRANS_INSTANCE);
    assert_eq!(ToolId::Time.instance_name(), TIME_INSTANCE);
    assert_eq!(JSON_INSTANCE, "xtools-json");
}

#[test]
fn pipe_reads_back_requests() {
    assert_eq!(take_pending_command(&terminate_instance()), PendingOutcome::Accepted(InstanceCommand::Quit));
    assert_eq!(
        take_pending_command(&raise_instance(Some("t-1"))),
        PendingOutcome::Accepted(InstanceCommand::Raise(Some("t-1".into())))
    );
    assert_eq!(take_pending_command(&raise_instance(Some("a b"))), PendingOutcome::Accepted(InstanceCommand::Raise(None)));
}

#[test]
fn surface_blending() {
    let mut s = Surface::new(3, 2);
    assert_eq!(s.pixels.len(), 6);
    assert!(s.pixels.iter().all(|&p| p == 0));
    s.blend_pixel_rgba8(1, 1, 10, 20, 30, 255);
    assert_eq!(s.pixels[4], 0xFF0A141E);
    s.blend_pixel_rgba8(1, 1, 0, 0, 0, 128);
    assert_eq!(s.pixels[4], 0xFF050A0F);
    s.blend_pixel_rgba8(3, 0, 1, 1, 1, 255);
    s.blend_pixel_rgba8(-1, 0, 1, 1, 1, 255);
    s.blend_pixel_rgba8(0, 0, 1, 1, 1, 0);
    assert_eq!(s.pixels.iter().filter(|&&p| p != 0).count(), 1);
    s.clear();
    assert!(s.pixels.iter().all(|&p| p == 0));
    assert_eq!(Surface::new(0, -4).pixels.len(), 1);
}

#[test]
fn pipe_inbox_session() {
    let mut inbox = PipeInbox::new();
    inbox.connect_result(false, 536);
    assert!(!inbox.connected);
    inbox.connect_result(false, ERROR_PIPE_CONNECTED);
    assert!(inbox.connected);
    assert_eq!(inbox.peek_result(true, 6, 0), PeekStep::Read(6));
    inbox.received(b"RAISE ");
    assert_eq!(inbox.take_command(), InboxStep::Wait);
    assert_eq!(inbox.peek_result(true, 4, 0), PeekStep::Read(4));
    inbox.received(b"ab\nx");
    assert_eq!(inbox.take_command(), InboxStep::Command(InstanceCommand::Raise(Some("ab".into()))));
    assert!(!inbox.connected && inbox.pending.is_empty());
    inbox.connect_result(true, 0);
    assert_eq!(inbox.peek_result(false, 0, ERROR_BROKEN_PIPE), PeekStep::Disconnect);
    assert!(!inbox.connected);
    assert_eq!(inbox.peek_result(false, 0, 5), PeekStep::Carry);
    inbox.received(b"BAD\n");
    assert_eq!(inbox.take_command(), InboxStep::Disconnect);
}

#[test]
fn pin_script_setup_steps() {
    assert_eq!(pin_script_begin(true), PinScriptStep::Done(true));
    let mut step = pin_script_begin(false);
    assert_eq!(step, PinScriptStep::CheckLoaded);
    step = next_pin_step(step, &PinScriptReply::Output(true, "b true\n".into()));
    assert_eq!(step, PinScriptStep::Unload);
    step = next_pin_step(step, &PinScriptReply::Finished);
    assert_eq!(step, PinScriptStep::WriteScript);
    step = next_pin_step(step, &PinScriptReply::Written(true));
    assert_eq!(step, PinScriptStep::Load);
    step = next_pin_step(step, &PinScriptReply::Output(true, "i 0\n".into()));
    assert_eq!(step, PinScriptStep::Start(true));
    step = next_pin_step(step, &PinScriptReply::Finished);
    assert_eq!(step, PinScriptStep::Done(true));
    assert_eq!(next_pin_step(PinScriptStep::CheckLoaded, &PinScriptReply::Output(false, "".into())), PinScriptStep::WriteScript);
    assert_eq!(next_pin_step(PinScriptStep::WriteScript, &PinScriptReply::Written(false)), PinScriptStep::Done(false));
    assert_eq!(next_pin_step(PinScriptStep::Load, &PinScriptReply::Output(true, "i -1\n".into())), PinScriptStep::Start(false));
    assert_eq!(next_pin_step(PinScriptStep::Load, &PinScriptReply::Finished), PinScriptStep::Load);
}

#[test]
fn host_ring_opens_and_closes() {
    let m = click_main(Menu::Collapsed, 1000);
    assert_eq!(m, Menu::Expanding(1000));
    assert_eq!(animation_tick(m, 1050), (m, true));
    assert_eq!(animation_tick(m, 1120), (Menu::Expanded, false));
    assert_eq!(animation_tick(m, 900), (m, true));
    assert_eq!(click_main(Menu::Expanded, 2000), Menu::Collapsing(2000));
    assert_eq!(click_main(Menu::Collapsing(5), 9), Menu::Expanding(9));
    assert_eq!(animation_tick(Menu::Collapsing(0), 500), (Menu::Collapsed, false));
    assert_eq!(animation_tick(Menu::Expanded, 0), (Menu::Expanded, false));
    assert_eq!(toggle_visibility(true, Menu::Expanded), (false, Menu::Collapsed));
    assert_eq!(toggle_visibility(false, Menu::Expanded), (true, Menu::Expanded));
}

#[test]
fn host_click_versus_drag() {
    let mut d = Drag::new();
    assert_eq!(d.motion((5, 5), (0, 100), (0, 100)), Motion::Ignore);
    d.press((10, 10), (50, 50));
    assert_eq!(d.motion((15, 12), (0, 100), (0, 100)), Motion::Ignore);
    assert!(d.release());
    d.press((10, 10), (50, 50));
    assert_eq!(d.motion((19, 10), (0, 100), (0, 100)), Motion::MoveTo(59, 50, true));
    assert_eq!(d.motion((200, 0), (0, 100), (0, 100)), Motion::MoveTo(100, 40, false));
    assert_eq!(d.motion((-500, 10), (-20, 100), (0, 100)), Motion::MoveTo(-20, 50, false));
    assert!(!d.release());
}

#[test]
fn unreachable_pipes() {
    assert!(pipe_unreachable(2));
    assert!(pipe_unreachable(5));
    assert!(pipe_unreachable(109));
    assert!(pipe_unreachable(231));
    assert!(!pipe_unreachable(232));
    assert!(!pipe_unreachable(0));
}

#[test]
fn surface_draws_pixmap() {
    let mut s = Surface::new(3, 2);
    let data = [
        255, 0, 0, 255, /* (0,0) */ 0, 255, 0, 255, /* (1,0) off the surface */
        0, 0, 0, 0, /* (0,1) transparent */ 0, 0, 255, 255, /* (1,1) off the surface */
    ];
    s.draw_pixmap(2, 0, 2, 2, &data);
    assert_eq!(s.pixels, vec![0, 0, 0xFFFF0000, 0, 0, 0]);
    s.draw_pixmap(0, 1, 2, 2, &data);
    assert_eq!(s.pixels, vec![0, 0, 0xFFFF0000, 0xFFFF0000, 0xFF00FF00, 0]);
}

#[test]
fn desktop_snapshot_keeps_the_first_capture() {
    let mut snap = DesktopSnapshot::new();
    assert_eq!(snap.target(), None);
    snap.capture(capture_target_desktop(Some("d1")));
    assert_eq!(snap.target(), Some("d1".to_string()));
    snap.capture(capture_target_desktop(Some("d2")));
    snap.capture(None);
    assert_eq!(snap.target(), Some("d1".to_string()));
    let mut empty = DesktopSnapshot::new();
    empty.capture(capture_target_desktop(Some("")));
    empty.capture(Some("late".to_string()));
    assert_eq!(empty.target(), None);
}

#[test]
fn window_search_falls_back_to_root_children() {
    let listed = [(1, Some(7)), (2, None)];
    assert_eq!(search_windows(WindowSource::ClientList, &listed, 9), WindowSearch::LookAt(WindowSource::RootChildren));
    assert_eq!(search_windows(WindowSource::ClientList, &listed, 7), WindowSearch::Found(vec![1]));
    let children = [(5, Some(9)), (6, Some(9)), (8, Some(1))];
    assert_eq!(search_windows(WindowSource::RootChildren, &children, 9), WindowSearch::Found(vec![5, 6]));
    assert_eq!(search_windows(WindowSource::RootChildren, &children, 3), WindowSearch::Found(vec![]));
}
