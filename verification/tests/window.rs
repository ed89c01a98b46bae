use binder::platform::{CloseWindowRequest, ProcessId};
use binder::protocol::RemoteWindowId;
use binder::window::{DesktopWindows, WindowControl, WindowId};

type Frame = (i32, i32, u32, u32);

const FRAME: Frame = (10, 10, 300, 200);
const WORK_AREA: Frame = (0, 40, 1280, 760);

#[test]
fn about_window_opens_once() {
    let mut desktop: DesktopWindows<Frame> = DesktopWindows::new();
    let first = desktop.open_about(ProcessId(1), String::from("About mochiOS"), true, FRAME);
    let again = desktop.open_about(ProcessId(1), String::from("About mochiOS"), true, FRAME);
    assert_eq!(first, again);
    assert_eq!(desktop.windows.len(), 1);
    assert_eq!(desktop.about_window(), Some(first.0));
    assert_eq!(desktop.focused, Some(first.0));
}

#[test]
fn minimising_the_focused_window_moves_the_focus() {
    let mut desktop: DesktopWindows<Frame> = DesktopWindows::new();
    let (a, _) = desktop.open_test(ProcessId(1), String::from("A"), true, FRAME);
    let (b, _) = desktop.open_test(ProcessId(1), String::from("B"), true, FRAME);
    assert_eq!(desktop.focused, Some(b));
    desktop.minimize(b);
    assert_eq!(desktop.focused, Some(a));
    desktop.minimize(a);
    assert_eq!(desktop.focused, None);
    desktop.focus(b);
    assert_eq!(desktop.focused, Some(b));
    assert!(!desktop.windows[1].minimized);
}

#[test]
fn maximising_twice_restores_the_frame() {
    let mut desktop: DesktopWindows<Frame> = DesktopWindows::new();
    let (a, _) = desktop.open_test(ProcessId(1), String::from("A"), true, FRAME);
    desktop.toggle_maximize(a, WORK_AREA);
    assert_eq!(desktop.windows[0].frame, WORK_AREA);
    assert_eq!(desktop.windows[0].restore_frame, Some(FRAME));
    desktop.toggle_maximize(a, WORK_AREA);
    assert_eq!(desktop.windows[0].frame, FRAME);
    assert_eq!(desktop.windows[0].restore_frame, None);
}

#[test]
fn closing_a_remote_window_asks_its_process_first() {
    let mut desktop: DesktopWindows<Frame> = DesktopWindows::new();
    let (a, remote) = desktop.open_test(ProcessId(4), String::from("A"), true, FRAME);
    desktop.close(a);
    desktop.close(a);
    assert_eq!(
        desktop.take_pending_close_requests(),
        vec![CloseWindowRequest { process_id: ProcessId(4), window: remote }]
    );
    assert_eq!(desktop.windows.len(), 1);
    desktop.close_remote(ProcessId(4), remote);
    assert!(desktop.windows.is_empty());
    assert_eq!(desktop.focused, None);
}

#[test]
fn closing_a_process_removes_its_windows() {
    let mut desktop: DesktopWindows<Frame> = DesktopWindows::new();
    desktop.open_test(ProcessId(1), String::from("A"), true, FRAME);
    let (b, _) = desktop.open_test(ProcessId(2), String::from("B"), true, FRAME);
    desktop.open_test(ProcessId(1), String::from("C"), true, FRAME);
    assert_eq!(desktop.process_ids(), vec![ProcessId(1), ProcessId(2), ProcessId(1)]);
    desktop.close_process(ProcessId(1));
    assert_eq!(desktop.process_ids(), vec![ProcessId(2)]);
    assert_eq!(desktop.focused, Some(b));
}

#[test]
fn a_control_acts_when_released_over_it() {
    let mut desktop: DesktopWindows<Frame> = DesktopWindows::new();
    let (a, _) = desktop.open_test(ProcessId(1), String::from("A"), true, FRAME);
    desktop.press_control(a, WindowControl::Minimize);
    assert_eq!(desktop.pressed_control(), Some((a, WindowControl::Minimize)));
    assert_eq!(desktop.release_action(Some(WindowControl::Close)), None);
    assert_eq!(desktop.release_action(Some(WindowControl::Minimize)), Some((a, WindowControl::Minimize)));
    desktop.clear_pressed_controls();
    assert_eq!(desktop.pressed_control(), None);
    desktop.set_hovered_control(Some((a, WindowControl::Close)));
    assert_eq!(desktop.windows[0].interaction.hovered, Some(WindowControl::Close));
    assert!(desktop.clear_focus_and_interactions());
    assert_eq!(desktop.focused, None);
    assert!(!desktop.clear_focus_and_interactions());
}

#[test]
fn activating_a_process_brings_its_window_forward() {
    let mut desktop: DesktopWindows<Frame> = DesktopWindows::new();
    let (a, _) = desktop.open_test(ProcessId(1), String::from("A"), true, FRAME);
    let (b, _) = desktop.open_test(ProcessId(2), String::from("B"), true, FRAME);
    desktop.activate_process(ProcessId(1));
    assert_eq!(desktop.focused, Some(a));
    assert_eq!(desktop.windows[1].id, a);
    assert_eq!(desktop.windows[0].id, b);
    desktop.activate_process(ProcessId(9));
    assert_eq!(desktop.focused, Some(a));
}

#[test]
fn window_state_is_reported_once() {
    let mut desktop: DesktopWindows<Frame> = DesktopWindows::new();
    let (_, remote) = desktop.open_test(ProcessId(1), String::from("A"), true, FRAME);
    let sizes = [(300, 200)];
    assert!(desktop.has_pending_platform_notifications(&sizes));
    let (resized, focused) = desktop.take_window_state_notifications(&sizes);
    assert_eq!(resized.len(), 1);
    assert_eq!(resized[0].window, remote);
    assert_eq!(focused.len(), 1);
    assert!(focused[0].focused);
    assert!(!desktop.has_pending_platform_notifications(&sizes));
    let (resized, focused) = desktop.take_window_state_notifications(&[(320, 200)]);
    assert_eq!(resized.len(), 1);
    assert_eq!(resized[0].width, 320);
    assert!(focused.is_empty());
}

#[test]
fn cascade_steps_cycle_through_six_places() {
    let mut desktop: DesktopWindows<Frame> = DesktopWindows::new();
    assert_eq!(desktop.cascade_step(), 0);
    for _ in 0..7 {
        desktop.open_test(ProcessId(1), String::from("T"), true, FRAME);
    }
    assert_eq!(desktop.cascade_step(), 1);
    assert_eq!(desktop.windows[6].id, WindowId(7));
    desktop.cancel_close_request(ProcessId(1), RemoteWindowId(7));
}

#[test]
fn the_focused_window_names_its_process() {
    let mut desktop: DesktopWindows<Frame> = DesktopWindows::new();
    assert_eq!(desktop.focused_process_id(), None);
    desktop.open_test(ProcessId(6), String::from("A"), true, FRAME);
    assert_eq!(desktop.focused_process_id(), Some(ProcessId(6)));
}

#[test]
fn reopening_about_raises_and_shows_the_window_it_has() {
    let mut desktop: DesktopWindows<Frame> = DesktopWindows::new();
    let about = desktop.open_about(ProcessId(1), String::from("About mochiOS"), true, FRAME);
    let (test, _) = desktop.open_test(ProcessId(2), String::from("Test"), true, FRAME);
    desktop.minimize(about.0);
    assert_eq!(desktop.focused, Some(test));
    let again = desktop.open_about(ProcessId(9), String::from("Other"), false, WORK_AREA);
    assert_eq!(again, about);
    assert_eq!(desktop.windows.len(), 2);
    let top = &desktop.windows[1];
    assert_eq!(top.id, about.0);
    assert!(!top.minimized);
    assert_eq!(top.title, "About mochiOS");
    assert_eq!(desktop.focused, Some(about.0));
}

#[test]
fn maximised_or_overlapping_windows_cover_the_dock() {
    let mut desktop: DesktopWindows<Frame> = DesktopWindows::new();
    let (a, _) = desktop.open_test(ProcessId(1), String::from("A"), true, FRAME);
    let (b, _) = desktop.open_test(ProcessId(1), String::from("B"), true, FRAME);
    assert!(!desktop.windows_cover_dock(&[false, false]));
    assert!(desktop.windows_cover_dock(&[false, true]));
    desktop.toggle_maximize(a, WORK_AREA);
    assert_eq!(desktop.windows[1].id, a);
    assert!(desktop.windows_cover_dock(&[false, false]));
    desktop.minimize(a);
    assert!(!desktop.windows_cover_dock(&[false, true]));
    assert!(desktop.windows_cover_dock(&[true, false]));
    desktop.minimize(b);
    assert!(!desktop.windows_cover_dock(&[true, true]));
}
