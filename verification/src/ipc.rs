//! The fixed-size request packet with which an internal application asks the
//! desktop for its window.
use vstd::prelude::*;

verus! {

pub const CLIENT_PACKET_SIZE: usize = 8;

pub const PROTOCOL_VERSION: u8 = 1;

pub const OPCODE_CREATE_WINDOW: u8 = 1;

pub const APPLICATION_ABOUT: u8 = 1;

/// The applications that this packet can name.
#[derive(Clone, Copy, Debug, PartialEq, Eq, Hash, Structural)]
pub enum ApplicationId {
    About,
}

#[derive(Clone, Copy, Debug, PartialEq, Eq, Structural)]
pub enum ClientRequest {
    CreateWindow { application: ApplicationId },
}

#[derive(Clone, Copy, Debug, PartialEq, Eq, Structural)]
pub enum ProtocolError {
    InvalidMagic,
    UnsupportedVersion,
    UnknownOpcode,
    UnknownApplication,
}

#[derive(Clone, Copy, Debug, PartialEq, Eq, Structural)]
pub enum ClientIpcError {
    MissingSocket,
    ConnectionFailed,
    WriteFailed,
    UnsupportedPlatform,
}

pub open spec fn application_code(application: ApplicationId) -> u8 {
    match application {
        ApplicationId::About => APPLICATION_ABOUT,
    }
}

/// The packet: `BNDR`, the version, the opcode, the application, a zero.
pub open spec fn create_window_packet(application: ApplicationId) -> Seq<u8> {
    seq![
        0x42u8,
        0x4eu8,
        0x44u8,
        0x52u8,
        PROTOCOL_VERSION,
        OPCODE_CREATE_WINDOW,
        application_code(application),
        0u8,
    ]
}

/// What a packet means: the magic is checked first, then the version, then
/// the application, and the opcode last.
pub open spec fn decoded_packet(packet: Seq<u8>) -> Result<ClientRequest, ProtocolError> {
    if packet.subrange(0, 4) != seq![0x42u8, 0x4eu8, 0x44u8, 0x52u8] {
        Err(ProtocolError::InvalidMagic)
    } else if packet[4] != PROTOCOL_VERSION {
        Err(ProtocolError::UnsupportedVersion)
    } else if packet[6] != APPLICATION_ABOUT {
        Err(ProtocolError::UnknownApplication)
    } else if packet[5] != OPCODE_CREATE_WINDOW {
        Err(ProtocolError::UnknownOpcode)
    } else {
        Ok(ClientRequest::CreateWindow { application: ApplicationId::About })
    }
}

pub fn encode_create_window(application: ApplicationId) -> (packet: [u8; CLIENT_PACKET_SIZE])
    ensures
        packet@ == create_window_packet(application),
{
    let application_code = match application {
        ApplicationId::About => APPLICATION_ABOUT,
    };
    let packet = [
        0x42u8,
        0x4eu8,
        0x44u8,
        0x52u8,
        PROTOCOL_VERSION,
        OPCODE_CREATE_WINDOW,
        application_code,
        0u8,
    ];
    assert(packet@ =~= create_window_packet(application));
    packet
}

pub fn decode_client_request(packet: &[u8; CLIENT_PACKET_SIZE]) -> (result: Result<
    ClientRequest,
    ProtocolError,
>)
    ensures
        result == decoded_packet(packet@),
{
    if packet[0] != 0x42u8 || packet[1] != 0x4eu8 || packet[2] != 0x44u8 || packet[3] != 0x52u8 {
        proof {
            let magic = seq![0x42u8, 0x4eu8, 0x44u8, 0x52u8];
            if packet@.subrange(0, 4) == magic {
                assert(packet@[0] == packet@.subrange(0, 4)[0]);
                assert(packet@[1] == packet@.subrange(0, 4)[1]);
                assert(packet@[2] == packet@.subrange(0, 4)[2]);
                assert(packet@[3] == packet@.subrange(0, 4)[3]);
            }
        }
        return Err(ProtocolError::InvalidMagic);
    }
    assert(packet@.subrange(0, 4) =~= seq![0x42u8, 0x4eu8, 0x44u8, 0x52u8]);
    if packet[4] != PROTOCOL_VERSION {
        return Err(ProtocolError::UnsupportedVersion);
    }
    let application = if packet[6] == APPLICATION_ABOUT {
        ApplicationId::About
    } else {
        return Err(ProtocolError::UnknownApplication);
    };
    if packet[5] == OPCODE_CREATE_WINDOW {
        Ok(ClientRequest::CreateWindow { application })
    } else {
        Err(ProtocolError::UnknownOpcode)
    }
}

/// The desktop understands every packet that an application writes: decoding
/// an encoded request gives that request back.
pub proof fn lemma_packet_round_trip(application: ApplicationId)
    ensures
        decoded_packet(create_window_packet(application)) == Ok::<ClientRequest, ProtocolError>(
            ClientRequest::CreateWindow { application },
        ),
{
    assert(create_window_packet(application).subrange(0, 4) =~= seq![
        0x42u8,
        0x4eu8,
        0x44u8,
        0x52u8,
    ]);
}

} // verus!
