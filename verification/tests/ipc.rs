use binder::ipc::{decode_client_request, encode_create_window, ApplicationId, ClientRequest, ProtocolError};

#[test]
fn create_window_packet_round_trips() {
    let packet = encode_create_window(ApplicationId::About);
    assert_eq!(packet, [b'B', b'N', b'D', b'R', 1, 1, 1, 0]);
    assert_eq!(
        decode_client_request(&packet),
        Ok(ClientRequest::CreateWindow { application: ApplicationId::About })
    );
}

#[test]
fn malformed_packets_name_their_fault() {
    assert_eq!(decode_client_request(&[b'X', b'N', b'D', b'R', 1, 1, 1, 0]), Err(ProtocolError::InvalidMagic));
    assert_eq!(decode_client_request(&[b'B', b'N', b'D', b'R', 2, 1, 1, 0]), Err(ProtocolError::UnsupportedVersion));
    assert_eq!(decode_client_request(&[b'B', b'N', b'D', b'R', 1, 1, 9, 0]), Err(ProtocolError::UnknownApplication));
    assert_eq!(decode_client_request(&[b'B', b'N', b'D', b'R', 1, 9, 1, 0]), Err(ProtocolError::UnknownOpcode));
}
