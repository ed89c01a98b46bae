use binder::client::{
    convert_server_event, BinderClient, ConnectAttempt, Error, WindowEvent, WindowHandle,
    WindowOptions,
};
use binder::protocol::{encode_server_event, RemoteWindowId, ServerEvent};

fn frame(event: ServerEvent) -> Vec<u8> {
    encode_server_event(&event).unwrap_or_default()
}

#[test]
fn window_options_keep_what_they_are_given() {
    let options = WindowOptions::new("Notes", 300, 200);
    assert_eq!(options.title(), "Notes");
    assert_eq!(options.width(), 300);
    assert_eq!(options.height(), 200);
    assert!(options.is_resizable());
    assert!(!options.resizable(false).is_resizable());
}

#[test]
fn window_handles_carry_the_remote_id() {
    let handle = WindowHandle::from_remote(RemoteWindowId(77));
    assert_eq!(handle.raw(), 77);
    assert_eq!(handle.to_remote(), RemoteWindowId(77));
}

#[test]
fn connecting_reports_each_failure() {
    assert!(matches!(BinderClient::connect(ConnectAttempt::NoSocket), Err(Error::TransportUnavailable)));
    assert!(matches!(BinderClient::connect(ConnectAttempt::Refused), Err(Error::ConnectionFailed)));
    assert!(BinderClient::connect(ConnectAttempt::Connected).is_ok());
}

#[test]
fn events_before_creation_are_kept_for_later() {
    let mut client = match BinderClient::connect(ConnectAttempt::Connected) {
        Ok(client) => client,
        Err(_) => panic!("connected"),
    };
    let frame_bytes = client.create_window(&WindowOptions::new("About", 420, 300));
    assert!(frame_bytes.is_ok());
    let mut bytes = frame(ServerEvent::FocusChanged { window: RemoteWindowId(4), focused: true });
    bytes.extend(frame(ServerEvent::WindowCreated { window: RemoteWindowId(5) }));
    bytes.extend(frame(ServerEvent::CloseRequested { window: RemoteWindowId(5) }));
    assert_eq!(client.receive(&bytes), Ok(()));
    assert_eq!(client.window_created(), Ok(Some(WindowHandle(5))));
    assert_eq!(
        client.next_event(),
        Ok(Some(WindowEvent::FocusChanged { window: WindowHandle(4), focused: true }))
    );
    assert_eq!(
        client.next_event(),
        Ok(Some(WindowEvent::CloseRequested { window: WindowHandle(5) }))
    );
    assert_eq!(client.next_event(), Ok(None));
    assert_eq!(client.receive(&[]), Err(Error::ConnectionClosed));
}

#[test]
fn invalid_window_options_are_a_protocol_error() {
    let client = match BinderClient::connect(ConnectAttempt::Connected) {
        Ok(client) => client,
        Err(_) => panic!("connected"),
    };
    assert_eq!(client.create_test_window(&WindowOptions::new("", 10, 10)), Err(Error::ProtocolError));
    assert!(client.close_window(WindowHandle(3)).is_ok());
}

#[test]
fn window_creation_is_not_an_event() {
    assert_eq!(convert_server_event(ServerEvent::WindowCreated { window: RemoteWindowId(1) }), None);
    assert_eq!(
        convert_server_event(ServerEvent::Resized { window: RemoteWindowId(1), width: 2, height: 3 }),
        Some(WindowEvent::Resized { window: WindowHandle(1), width: 2, height: 3 })
    );
}

#[test]
fn errors_describe_themselves() {
    assert!(!Error::ConnectionClosed.description().is_empty());
    assert_ne!(Error::ProtocolError.description(), Error::SendFailed.description());
}
