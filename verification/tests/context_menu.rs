use binder::context_menu::{
    classify_message, encode_complete_request, encode_subscribe_request, parse_show, reply_status,
    ContextMenuError, ContextMenuModel, ContextMenuState, MenuMessage, MenuOutcome, CONTEXT_MENU_EVENT_DISMISS,
    CONTEXT_MENU_EVENT_SHOW, OP_CONTEXT_MENU_SUBSCRIBE,
};

fn show_message() -> Vec<u8> {
    let mut message = vec![0u8; 36];
    message[0..4].copy_from_slice(&CONTEXT_MENU_EVENT_SHOW.to_le_bytes());
    message[4..8].copy_from_slice(&40i32.to_le_bytes());
    message[8..12].copy_from_slice(&60i32.to_le_bytes());
    message[12..16].copy_from_slice(&1u32.to_le_bytes());
    message[16..24].copy_from_slice(&9u64.to_le_bytes());
    message[24..28].copy_from_slice(&7u32.to_le_bytes());
    message[28..30].copy_from_slice(&2u16.to_le_bytes());
    message[30..32].copy_from_slice(&4u16.to_le_bytes());
    message[32..36].copy_from_slice(b"Open");
    message
}

#[test]
fn parses_forwarded_menu() {
    let message = show_message();
    let model = parse_show(&message);
    assert!(model.is_some());
    let model = model.unwrap_or(ContextMenuModel {
        request_id: 0,
        x: 0,
        y: 0,
        entries: Vec::new(),
    });
    assert_eq!(model.request_id, 9);
    assert_eq!(model.entries[0].command_id, 7);
    assert!(model.entries[0].enabled);
}

#[test]
fn menu_position_and_label_are_read() {
    let model = parse_show(&show_message());
    let model = match model {
        Some(model) => model,
        None => panic!("menu"),
    };
    assert_eq!((model.x, model.y), (40, 60));
    assert_eq!(model.entries[0].label, "Open");
    assert!(!model.entries[0].separator);
}

#[test]
fn truncated_menu_is_refused() {
    let message = show_message();
    assert!(parse_show(&message[..35]).is_none());
    assert!(matches!(classify_message(&message[..35]), Err(ContextMenuError(22))));
}

#[test]
fn dismissals_and_other_messages_are_told_apart() {
    let mut dismiss = vec![0u8; 16];
    dismiss[0..4].copy_from_slice(&CONTEXT_MENU_EVENT_DISMISS.to_le_bytes());
    dismiss[8..16].copy_from_slice(&5u64.to_le_bytes());
    assert!(matches!(classify_message(&dismiss), Ok(MenuMessage::Dismiss(5))));
    assert!(matches!(classify_message(&[1, 0, 0, 0]), Ok(MenuMessage::Other)));
}

#[test]
fn requests_to_the_compositor_are_laid_out() {
    let subscribe = encode_subscribe_request(3);
    assert_eq!(&subscribe[0..4], &OP_CONTEXT_MENU_SUBSCRIBE.to_le_bytes());
    assert_eq!(&subscribe[4..12], &3u64.to_le_bytes());
    let complete = encode_complete_request(9, Some(7)).unwrap_or_default();
    assert_eq!(complete.len(), 24);
    assert_eq!(&complete[4..8], &0u32.to_le_bytes());
    assert_eq!(&complete[8..16], &9u64.to_le_bytes());
    assert_eq!(&complete[16..20], &7u32.to_le_bytes());
    let dismissed = encode_complete_request(9, None).unwrap_or_default();
    assert_eq!(&dismissed[4..8], &1u32.to_le_bytes());
    assert_eq!(encode_complete_request(0, None), Err(ContextMenuError(22)));
    assert_eq!(reply_status(4, &[0, 0, 0, 0]), Ok(()));
    assert_eq!(reply_status(4, &[2, 0, 0, 0]), Err(ContextMenuError(2)));
    assert_eq!(reply_status(2, &[0, 0, 0, 0]), Err(ContextMenuError(5)));
}

fn dismiss_message(request_id: u64) -> Vec<u8> {
    let mut message = vec![0u8; 16];
    message[0..4].copy_from_slice(&CONTEXT_MENU_EVENT_DISMISS.to_le_bytes());
    message[8..16].copy_from_slice(&request_id.to_le_bytes());
    message
}

#[test]
fn the_menu_on_screen_follows_the_compositor() {
    let mut state = ContextMenuState::new();
    assert_eq!(state.receive(&dismiss_message(9)), Ok(MenuOutcome::Handled));
    assert_eq!(state.receive(&show_message()), Ok(MenuOutcome::Handled));
    assert_eq!(state.shown.as_ref().map(|model| model.request_id), Some(9));
    assert_eq!(state.receive(&dismiss_message(4)), Ok(MenuOutcome::Handled));
    assert!(state.shown.is_some());
    assert_eq!(state.receive(&dismiss_message(9)), Ok(MenuOutcome::Complete(9)));
    assert!(state.shown.is_some());
    state.completed(9);
    assert!(state.shown.is_none());
    assert_eq!(state.receive(&dismiss_message(9)[..12]), Err(ContextMenuError(22)));
    assert_eq!(state.receive(&[0, 0, 0, 0]), Ok(MenuOutcome::Unhandled));
    assert_eq!(state.receive(&show_message()[..20]), Err(ContextMenuError(22)));
    assert!(state.shown.is_none());
}
