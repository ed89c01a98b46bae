use binder::protocol::{
    encode_client_request, encode_frame, encode_server_event, take_frame,
    try_decode_client_request, try_decode_server_event, validate_window_size, ApplicationId,
    ClientRequest, PayloadReader, ProtocolError, RemoteWindowId, ServerEvent, CLIENT_CLOSE_WINDOW,
    MAX_PAYLOAD_SIZE,
};

fn about_request(title: &str, width: u32, height: u32) -> ClientRequest {
    ClientRequest::CreateWindow {
        application: ApplicationId::About,
        title: title.to_owned(),
        width,
        height,
        resizable: true,
    }
}

#[test]
fn frame_layout_is_magic_version_kind_and_length() {
    let frame = encode_frame(7, &[1, 2, 3]).unwrap_or_default();
    assert_eq!(frame, vec![b'B', b'N', b'D', b'R', 1, 7, 0, 0, 3, 0, 0, 0, 1, 2, 3]);
    assert_eq!(encode_frame(7, &vec![0u8; MAX_PAYLOAD_SIZE + 1]), Err(ProtocolError::PayloadTooLarge));
}

#[test]
fn create_window_request_encodes_every_field() {
    let frame = encode_client_request(&about_request("Hi", 420, 300)).unwrap_or_default();
    assert_eq!(
        frame,
        vec![
            b'B', b'N', b'D', b'R', 1, 1, 0, 0, 14, 0, 0, 0, 1, 1, 164, 1, 0, 0, 44, 1, 0, 0, 2,
            0, b'H', b'i'
        ]
    );
}

#[test]
fn refused_requests_name_their_error() {
    assert_eq!(
        encode_client_request(&about_request("Hi", 0, 300)),
        Err(ProtocolError::InvalidWindowSize)
    );
    assert_eq!(
        encode_client_request(&about_request("", 100, 100)),
        Err(ProtocolError::InvalidTitle)
    );
    let long = "x".repeat(257);
    assert_eq!(
        encode_client_request(&about_request(&long, 100, 100)),
        Err(ProtocolError::InvalidTitle)
    );
    assert_eq!(validate_window_size(16385, 1), Err(ProtocolError::InvalidWindowSize));
    assert_eq!(validate_window_size(16384, 16384), Ok(()));
}

#[test]
fn requests_decode_back_in_order() {
    let mut buffer = encode_client_request(&about_request("Über", 300, 200)).unwrap_or_default();
    buffer.extend(encode_client_request(&ClientRequest::CloseWindow { window: RemoteWindowId(9) }).unwrap_or_default());
    buffer.push(0x42);
    assert_eq!(try_decode_client_request(&mut buffer), Ok(Some(about_request("Über", 300, 200))));
    assert_eq!(
        try_decode_client_request(&mut buffer),
        Ok(Some(ClientRequest::CloseWindow { window: RemoteWindowId(9) }))
    );
    assert_eq!(try_decode_client_request(&mut buffer), Ok(None));
    assert_eq!(buffer, vec![0x42]);
}

#[test]
fn events_decode_back_in_order() {
    let events = [
        ServerEvent::WindowCreated { window: RemoteWindowId(1) },
        ServerEvent::Resized { window: RemoteWindowId(1), width: 640, height: 480 },
        ServerEvent::FocusChanged { window: RemoteWindowId(1), focused: true },
        ServerEvent::CloseRequested { window: RemoteWindowId(1) },
    ];
    let mut buffer = Vec::new();
    for event in &events {
        buffer.extend(encode_server_event(event).unwrap_or_default());
    }
    for event in &events {
        assert_eq!(try_decode_server_event(&mut buffer), Ok(Some(*event)));
    }
    assert_eq!(try_decode_server_event(&mut buffer), Ok(None));
    assert!(buffer.is_empty());
}

#[test]
fn oversized_resize_is_not_sent() {
    assert_eq!(
        encode_server_event(&ServerEvent::Resized { window: RemoteWindowId(1), width: 0, height: 5 }),
        Err(ProtocolError::InvalidWindowSize)
    );
}

#[test]
fn incomplete_frame_waits_and_keeps_the_bytes() {
    let frame = encode_server_event(&ServerEvent::CloseRequested { window: RemoteWindowId(3) }).unwrap_or_default();
    let mut partial = frame[..frame.len() - 1].to_vec();
    assert_eq!(try_decode_server_event(&mut partial), Ok(None));
    assert_eq!(partial, frame[..frame.len() - 1].to_vec());
}

#[test]
fn malformed_frames_are_refused() {
    let mut bad_magic = vec![b'X', b'N', b'D', b'R', 1, 1, 0, 0, 0, 0, 0, 0];
    assert_eq!(take_frame(&mut bad_magic), Err(ProtocolError::InvalidMagic));
    let mut bad_version = vec![b'B', b'N', b'D', b'R', 2, 1, 0, 0, 0, 0, 0, 0];
    assert_eq!(take_frame(&mut bad_version), Err(ProtocolError::UnsupportedVersion));
    let mut too_large = vec![b'B', b'N', b'D', b'R', 1, 1, 0, 0, 0x01, 0x10, 0, 0];
    assert_eq!(take_frame(&mut too_large), Err(ProtocolError::PayloadTooLarge));
    let mut unknown = encode_frame(99, &[]).unwrap_or_default();
    assert_eq!(try_decode_server_event(&mut unknown), Err(ProtocolError::InvalidMessage));
    let mut short_close = encode_frame(CLIENT_CLOSE_WINDOW, &[1, 2, 3]).unwrap_or_default();
    assert_eq!(try_decode_client_request(&mut short_close), Err(ProtocolError::InvalidPayload));
    let mut bad_title = encode_frame(1, &[1, 1, 10, 0, 0, 0, 10, 0, 0, 0, 1, 0, 0xff]).unwrap_or_default();
    assert_eq!(try_decode_client_request(&mut bad_title), Err(ProtocolError::InvalidTitle));
}

#[test]
fn payload_reader_reads_fields_in_order() {
    let payload = [1u8, 2, 0, 0, 0, 3, 0, 0, 0, 0, 0, 0, 0];
    let mut reader = PayloadReader::new(&payload);
    assert_eq!(reader.read_u8(), Ok(1));
    assert_eq!(reader.read_u32(), Ok(2));
    assert_eq!(reader.read_u64(), Ok(3));
    assert_eq!(reader.read_u8(), Err(ProtocolError::InvalidPayload));
    assert_eq!(reader.finish(), Ok(()));
}
