use binder::linux::{
    create_window_request, default_bundle_id, internal_app_for_entry, role_argument,
    InternalWindowSession, LinuxPlatform, TransportEvent, CLOSE_TIMEOUT_MS,
};
use binder::platform::{
    CreateWindowRequest, PlatformError, ProcessId, SystemBarState, WindowFocusChangedNotification,
    WindowResizedNotification,
};
use binder::protocol::{
    encode_client_request, encode_server_event, try_decode_client_request, ApplicationId,
    ClientRequest, RemoteWindowId, ServerEvent,
};
use binder::window::WindowContent;

fn platform() -> LinuxPlatform {
    let state = SystemBarState::default();
    LinuxPlatform::new(state)
}

fn create_request(title: &str) -> ClientRequest {
    ClientRequest::CreateWindow {
        application: ApplicationId::About,
        title: title.to_owned(),
        width: 420,
        height: 300,
        resizable: true,
    }
}

#[test]
fn about_process_asks_for_its_window() {
    assert_eq!(
        create_window_request(ApplicationId::About),
        ClientRequest::CreateWindow {
            application: ApplicationId::About,
            title: String::from("About mochiOS"),
            width: 420,
            height: 300,
            resizable: true,
        }
    );
    let frame = InternalWindowSession::opening_frame(ApplicationId::About).unwrap_or_default();
    let mut buffer = frame.clone();
    assert_eq!(
        try_decode_client_request(&mut buffer),
        Ok(Some(create_window_request(ApplicationId::About)))
    );
}

#[test]
fn internal_session_closes_its_own_window_only() {
    let mut session = InternalWindowSession::new();
    let mut bytes = encode_server_event(&ServerEvent::CloseRequested { window: RemoteWindowId(1) }).unwrap_or_default();
    bytes.extend(encode_server_event(&ServerEvent::WindowCreated { window: RemoteWindowId(2) }).unwrap_or_default());
    assert_eq!(session.receive(&bytes), Ok(None));
    let close = encode_server_event(&ServerEvent::CloseRequested { window: RemoteWindowId(2) }).unwrap_or_default();
    let reply = session.receive(&close);
    let expected = encode_client_request(&ClientRequest::CloseWindow { window: RemoteWindowId(2) }).unwrap_or_default();
    assert_eq!(reply, Ok(Some(expected)));
    assert_eq!(session.receive(&[]), Err(PlatformError::TransportFailure));
    assert_eq!(session.receive(&[0x58; 12]), Err(PlatformError::InvalidResponse));
}

#[test]
fn internal_entries_map_to_their_roles() {
    assert_eq!(internal_app_for_entry("internal:about"), Some(WindowContent::About));
    assert_eq!(internal_app_for_entry("internal:test"), Some(WindowContent::Test));
    assert_eq!(internal_app_for_entry("entry.elf"), None);
    assert_eq!(role_argument(WindowContent::Test), "--role=test");
    assert_eq!(default_bundle_id(WindowContent::About), "com.mochi.binder.about");
}

#[test]
fn a_child_registers_when_it_asks_for_a_window() {
    let mut platform = platform();
    platform.insert_child(ProcessId(40), WindowContent::About, String::from("com.mochi.binder.about"), 100);
    assert_eq!(platform.process_for_bundle("com.mochi.binder.about"), Some(ProcessId(40)));
    assert_eq!(
        platform.window_registration(ProcessId(40), RemoteWindowId(1)),
        Err(PlatformError::InvalidResponse)
    );
    platform.handle_transport_event(
        TransportEvent::Request { process_id: ProcessId(40), request: create_request("About mochiOS") },
        150,
    );
    assert_eq!(
        platform.take_create_window_requests(),
        vec![CreateWindowRequest {
            process_id: ProcessId(40),
            content: WindowContent::About,
            title: String::from("About mochiOS"),
            width: 420,
            height: 300,
            resizable: true,
        }]
    );
    assert_eq!(
        platform.window_registration(ProcessId(40), RemoteWindowId(1)),
        Ok(ServerEvent::WindowCreated { window: RemoteWindowId(1) })
    );
    assert_eq!(
        platform.window_registration(ProcessId(41), RemoteWindowId(1)),
        Err(PlatformError::ServiceUnavailable)
    );
}

#[test]
fn close_is_asked_once_and_only_for_owned_windows() {
    let mut platform = platform();
    platform.insert_child(ProcessId(40), WindowContent::About, String::from("a.b"), 0);
    platform.handle_create_window(ProcessId(40), String::from("t"), 10, 10, true, 0);
    platform.record_window(ProcessId(40), RemoteWindowId(1));
    assert_eq!(
        platform.close_request(ProcessId(40), RemoteWindowId(2)),
        Err(PlatformError::PermissionDenied)
    );
    assert_eq!(
        platform.close_request(ProcessId(40), RemoteWindowId(1)),
        Ok(Some(ServerEvent::CloseRequested { window: RemoteWindowId(1) }))
    );
    platform.record_close_deadline(ProcessId(40), RemoteWindowId(1), 10);
    assert_eq!(platform.close_request(ProcessId(40), RemoteWindowId(1)), Ok(None));
    assert_eq!(platform.expired_processes(&[ProcessId(40)], 10 + CLOSE_TIMEOUT_MS - 1), Vec::<ProcessId>::new());
    assert_eq!(platform.expired_processes(&[ProcessId(40)], 10 + CLOSE_TIMEOUT_MS), vec![ProcessId(40)]);
}

#[test]
fn closing_a_window_forgets_it() {
    let mut platform = platform();
    platform.insert_child(ProcessId(40), WindowContent::Test, String::from("a.b"), 0);
    platform.handle_create_window(ProcessId(40), String::from("t"), 10, 10, true, 0);
    platform.record_window(ProcessId(40), RemoteWindowId(1));
    platform.record_close_deadline(ProcessId(40), RemoteWindowId(1), 0);
    platform.handle_transport_event(
        TransportEvent::Request {
            process_id: ProcessId(40),
            request: ClientRequest::CloseWindow { window: RemoteWindowId(1) },
        },
        5,
    );
    let closes = platform.take_close_window_requests();
    assert_eq!(closes.len(), 1);
    assert_eq!(closes[0].window, RemoteWindowId(1));
    assert_eq!(
        platform.close_request(ProcessId(40), RemoteWindowId(1)),
        Err(PlatformError::PermissionDenied)
    );
    assert_eq!(
        platform.resize_event(WindowResizedNotification {
            process_id: ProcessId(40),
            window: RemoteWindowId(1),
            width: 5,
            height: 5,
        }),
        Err(PlatformError::PermissionDenied)
    );
}

#[test]
fn lifecycle_ends_silent_orphaned_and_disconnected_children() {
    let mut platform = platform();
    platform.insert_child(ProcessId(1), WindowContent::About, String::from("one.app"), 0);
    platform.insert_child(ProcessId(2), WindowContent::About, String::from("two.app"), 0);
    platform.insert_child(ProcessId(3), WindowContent::About, String::from("three.app"), 0);
    platform.handle_create_window(ProcessId(2), String::from("t"), 10, 10, true, 1_000);
    platform.handle_create_window(ProcessId(3), String::from("t"), 10, 10, true, 1_000);
    platform.handle_transport_event(TransportEvent::Disconnected { process_id: ProcessId(3) }, 1_500);
    assert_eq!(platform.expired_processes(&[ProcessId(2), ProcessId(3)], 1_999), Vec::<ProcessId>::new());
    assert_eq!(platform.expired_processes(&[ProcessId(2), ProcessId(3)], 2_500), vec![ProcessId(3)]);
    assert_eq!(platform.expired_processes(&[ProcessId(3)], 2_500), vec![ProcessId(2), ProcessId(3)]);
    assert_eq!(platform.expired_processes(&[ProcessId(2)], 5_000), vec![ProcessId(1), ProcessId(3)]);
    assert!(platform.remove_child(ProcessId(1), true));
    assert!(platform.remove_child(ProcessId(3), false));
    assert!(!platform.remove_child(ProcessId(9), true));
    assert_eq!(platform.take_exited_processes(), vec![ProcessId(1)]);
    assert_eq!(platform.running_app_bundle_ids(), vec![String::from("two.app")]);
    assert_eq!(platform.process_ids(), vec![ProcessId(2)]);
}

#[test]
fn focus_notices_go_to_window_owners() {
    let mut platform = platform();
    platform.insert_child(ProcessId(8), WindowContent::About, String::from("x.y"), 0);
    platform.handle_create_window(ProcessId(8), String::from("t"), 10, 10, true, 0);
    platform.record_window(ProcessId(8), RemoteWindowId(3));
    assert_eq!(
        platform.focus_event(WindowFocusChangedNotification {
            process_id: ProcessId(8),
            window: RemoteWindowId(3),
            focused: true,
        }),
        Ok(ServerEvent::FocusChanged { window: RemoteWindowId(3), focused: true })
    );
    assert_eq!(
        platform.focus_event(WindowFocusChangedNotification {
            process_id: ProcessId(9),
            window: RemoteWindowId(3),
            focused: true,
        }),
        Err(PlatformError::ServiceUnavailable)
    );
}
