use binder::decoration::{
    decoration_step, DecorationStep, DECOR_EVENT_POINTER_BUTTON, encode_begin_move_request, encode_token_request, parse_window_event, pointer_button_action,
    title_bar_action_at, title_bar_page_count, TitleBarAction, DECOR_EVENT_WINDOW,
    OP_DECOR_BEGIN_MOVE, OP_DECOR_CLOSE_REQUEST,
};

fn window_event(window: u64, width: u32, height: u32, title: &[u8]) -> Vec<u8> {
    let mut event = vec![0u8; 48];
    event[0..4].copy_from_slice(&DECOR_EVENT_WINDOW.to_le_bytes());
    event[4..12].copy_from_slice(&window.to_le_bytes());
    event[12..16].copy_from_slice(&width.to_le_bytes());
    event[16..20].copy_from_slice(&height.to_le_bytes());
    event[44..48].copy_from_slice(&(title.len() as u32).to_le_bytes());
    event.extend_from_slice(title);
    event
}

#[test]
fn window_events_give_window_width_and_title() {
    let parsed = parse_window_event(&window_event(3, 640, 480, b"Files"));
    assert_eq!(parsed, Some((3, 640, String::from("Files"))));
    assert_eq!(parse_window_event(&window_event(0, 640, 480, b"Files")), None);
    assert_eq!(parse_window_event(&window_event(3, 5000, 480, b"Files")), None);
    assert_eq!(parse_window_event(&window_event(3, 640, 480, &[0xff])), None);
}

#[test]
fn title_bar_controls_sit_at_the_right_end() {
    assert_eq!(title_bar_action_at(400, 399), TitleBarAction::Close);
    assert_eq!(title_bar_action_at(400, 356), TitleBarAction::Close);
    assert_eq!(title_bar_action_at(400, 355), TitleBarAction::ToggleMaximize);
    assert_eq!(title_bar_action_at(400, 300), TitleBarAction::Minimize);
    assert_eq!(title_bar_action_at(400, 267), TitleBarAction::BeginMove);
}

#[test]
fn pointer_presses_need_a_serial_to_move() {
    let mut event = vec![0u8; 32];
    event[4..8].copy_from_slice(&10i32.to_le_bytes());
    event[12..16].copy_from_slice(&(1u32 << 16).to_le_bytes());
    event[24..32].copy_from_slice(&77u64.to_le_bytes());
    assert_eq!(pointer_button_action(400, &event), Ok(Some((TitleBarAction::BeginMove, 77))));
    event[24..32].copy_from_slice(&0u64.to_le_bytes());
    assert_eq!(pointer_button_action(400, &event), Err(5));
    event[4..8].copy_from_slice(&390i32.to_le_bytes());
    assert_eq!(pointer_button_action(400, &event), Ok(Some((TitleBarAction::Close, 0))));
    event[12..16].copy_from_slice(&0u32.to_le_bytes());
    assert_eq!(pointer_button_action(400, &event), Ok(None));
    assert_eq!(pointer_button_action(400, &event[..10]), Err(5));
}

#[test]
fn title_bar_buffers_fill_whole_pages() {
    assert_eq!(title_bar_page_count(0), Some(0));
    assert_eq!(title_bar_page_count(1), Some(1));
    assert_eq!(title_bar_page_count(640), Some(25));
}

#[test]
fn decoration_requests_are_laid_out() {
    let request = encode_token_request(OP_DECOR_CLOSE_REQUEST, 5);
    assert_eq!(&request[0..4], &OP_DECOR_CLOSE_REQUEST.to_le_bytes());
    assert_eq!(&request[4..12], &5u64.to_le_bytes());
    let moving = encode_begin_move_request(6, 8);
    assert_eq!(&moving[0..4], &OP_DECOR_BEGIN_MOVE.to_le_bytes());
    assert_eq!(&moving[4..12], &6u64.to_le_bytes());
    assert_eq!(&moving[12..20], &8u64.to_le_bytes());
}

fn press_event(window: u64, x: i32, serial: u64) -> Vec<u8> {
    let mut event = vec![0u8; 32];
    event[0..4].copy_from_slice(&DECOR_EVENT_POINTER_BUTTON.to_le_bytes());
    event[4..8].copy_from_slice(&x.to_le_bytes());
    event[12..16].copy_from_slice(&(1u32 << 16).to_le_bytes());
    event[16..24].copy_from_slice(&window.to_le_bytes());
    event[24..32].copy_from_slice(&serial.to_le_bytes());
    event
}

#[test]
fn title_bars_follow_the_compositor() {
    let bars = [(3u64, 640u32), (9, 300)];
    assert_eq!(
        decoration_step(&bars, &window_event(9, 320, 200, b"Notes")),
        Ok(DecorationStep::Redraw { index: 1, width: 320, title: String::from("Notes") })
    );
    assert_eq!(decoration_step(&bars, &window_event(3, 640, 480, b"Files")), Ok(DecorationStep::Nothing));
    assert_eq!(
        decoration_step(&bars, &window_event(4, 500, 400, b"New")),
        Ok(DecorationStep::Create { window: 4, width: 500, title: String::from("New") })
    );
    assert_eq!(decoration_step(&bars, &window_event(0, 500, 400, b"New")), Ok(DecorationStep::Nothing));
    assert_eq!(
        decoration_step(&bars, &press_event(9, 290, 0)),
        Ok(DecorationStep::Press { index: 1, action: TitleBarAction::Close, serial: 0 })
    );
    assert_eq!(
        decoration_step(&bars, &press_event(3, 20, 12)),
        Ok(DecorationStep::Press { index: 0, action: TitleBarAction::BeginMove, serial: 12 })
    );
    assert_eq!(decoration_step(&bars, &press_event(3, 20, 0)), Err(5));
    assert_eq!(decoration_step(&bars, &press_event(7, 20, 12)), Ok(DecorationStep::Nothing));
    assert_eq!(decoration_step(&bars, &press_event(3, 20, 12)[..20]), Err(5));
    assert_eq!(decoration_step(&bars, &[1, 2, 3, 4, 5]), Ok(DecorationStep::Unhandled));
    assert_eq!(decoration_step(&bars, &[1, 2]), Ok(DecorationStep::Unhandled));
}
