//! The Binder wire protocol spoken between the desktop and its client
//! applications.
//!
//! Every message is a frame: the magic `BNDR`, a version byte, a kind byte,
//! two reserved zero bytes, the payload length as a little-endian `u32`, and
//! the payload itself.
use vstd::bytes::*;
use vstd::prelude::*;
use vstd::slice::slice_subrange;
use vstd::utf8::{decode_utf8, encode_utf8, valid_utf8};
use crate::text::utf8_text;

verus! {

pub const PROTOCOL_VERSION: u8 = 1;

pub const HEADER_SIZE: usize = 12;

pub const MAX_PAYLOAD_SIZE: usize = 4096;

pub const MAX_TITLE_SIZE: usize = 256;

pub const MAX_WINDOW_SIZE: u32 = 16384;

pub const CLIENT_CREATE_WINDOW: u8 = 1;

pub const CLIENT_CLOSE_WINDOW: u8 = 2;

pub const SERVER_WINDOW_CREATED: u8 = 129;

pub const SERVER_CLOSE_REQUESTED: u8 = 130;

pub const SERVER_RESIZED: u8 = 131;

pub const SERVER_FOCUS_CHANGED: u8 = 132;

pub const APPLICATION_ABOUT: u8 = 1;

pub const APPLICATION_TEST: u8 = 2;

/// The applications that may ask the desktop for a window.
#[derive(Clone, Copy, Debug, PartialEq, Eq, Hash, Structural)]
pub enum ApplicationId {
    About,
    Test,
}

/// A window as the desktop names it to the process that owns it.
#[derive(Clone, Copy, Debug, PartialEq, Eq, Hash, Structural)]
pub struct RemoteWindowId(pub u64);

/// What a client may ask of the desktop.
#[derive(Clone, Debug, PartialEq, Eq)]
pub enum ClientRequest {
    CreateWindow {
        application: ApplicationId,
        title: String,
        width: u32,
        height: u32,
        resizable: bool,
    },
    CloseWindow { window: RemoteWindowId },
}

/// What the desktop tells a client.
#[derive(Clone, Copy, Debug, PartialEq, Eq, Structural)]
pub enum ServerEvent {
    WindowCreated { window: RemoteWindowId },
    CloseRequested { window: RemoteWindowId },
    Resized { window: RemoteWindowId, width: u32, height: u32 },
    FocusChanged { window: RemoteWindowId, focused: bool },
}

#[derive(Clone, Copy, Debug, PartialEq, Eq, Structural)]
pub enum ProtocolError {
    InvalidMagic,
    UnsupportedVersion,
    PayloadTooLarge,
    InvalidPayload,
    InvalidMessage,
    InvalidTitle,
    InvalidWindowSize,
}

// ---------------------------------------------------------------------------
// The wire format, as mathematics.
// ---------------------------------------------------------------------------

/// The four bytes `B`, `N`, `D`, `R` that open every frame.
pub open spec fn magic() -> Seq<u8> {
    seq![0x42u8, 0x4eu8, 0x44u8, 0x52u8]
}

/// The frame that carries `payload` as a message of the given kind.
pub open spec fn frame(kind: u8, payload: Seq<u8>) -> Seq<u8> {
    magic() + seq![PROTOCOL_VERSION, kind, 0u8, 0u8] + spec_u32_to_le_bytes(payload.len() as u32)
        + payload
}

pub open spec fn window_size_ok(width: u32, height: u32) -> bool {
    1 <= width <= MAX_WINDOW_SIZE && 1 <= height <= MAX_WINDOW_SIZE
}

pub open spec fn application_code(application: ApplicationId) -> u8 {
    match application {
        ApplicationId::About => APPLICATION_ABOUT,
        ApplicationId::Test => APPLICATION_TEST,
    }
}

pub open spec fn bool_byte(value: bool) -> u8 {
    if value {
        1
    } else {
        0
    }
}

/// The payload of a create-window request whose title is `title` in UTF-8.
pub open spec fn create_window_payload(
    application: ApplicationId,
    title: Seq<u8>,
    width: u32,
    height: u32,
    resizable: bool,
) -> Seq<u8> {
    seq![application_code(application), bool_byte(resizable)] + spec_u32_to_le_bytes(width)
        + spec_u32_to_le_bytes(height) + spec_u16_to_le_bytes(title.len() as u16) + title
}

/// What encoding a create-window request gives: its frame, or the reason it
/// is refused. The title is given as characters and sent as UTF-8.
pub open spec fn encoded_create_window(
    application: ApplicationId,
    title: Seq<char>,
    width: u32,
    height: u32,
    resizable: bool,
) -> Result<Seq<u8>, ProtocolError> {
    let bytes = encode_utf8(title);
    if !window_size_ok(width, height) {
        Err(ProtocolError::InvalidWindowSize)
    } else if bytes.len() == 0 || bytes.len() > MAX_TITLE_SIZE {
        Err(ProtocolError::InvalidTitle)
    } else {
        Ok(
            frame(
                CLIENT_CREATE_WINDOW,
                create_window_payload(application, bytes, width, height, resizable),
            ),
        )
    }
}

/// What encoding a request gives: its frame, or the reason it is refused.
pub open spec fn encoded_request(request: ClientRequest) -> Result<Seq<u8>, ProtocolError> {
    match request {
        ClientRequest::CreateWindow { application, title, width, height, resizable } =>
            encoded_create_window(application, title@, width, height, resizable),
        ClientRequest::CloseWindow { window } => Ok(
            frame(CLIENT_CLOSE_WINDOW, spec_u64_to_le_bytes(window.0)),
        ),
    }
}

/// The payload length that a buffer's header announces.
pub open spec fn announced_length(buffer: Seq<u8>) -> u32 {
    spec_u32_from_le_bytes(buffer.subrange(8, 12))
}

/// Splitting the first frame off a buffer: `Ok(None)` while the frame is
/// incomplete, else its kind, its payload and the bytes after it.
pub open spec fn split_frame(buffer: Seq<u8>) -> Result<Option<(u8, Seq<u8>, Seq<u8>)>, ProtocolError> {
    if buffer.len() < HEADER_SIZE {
        Ok(None)
    } else if buffer.subrange(0, 4) != magic() {
        Err(ProtocolError::InvalidMagic)
    } else if buffer[4] != PROTOCOL_VERSION {
        Err(ProtocolError::UnsupportedVersion)
    } else if announced_length(buffer) > MAX_PAYLOAD_SIZE {
        Err(ProtocolError::PayloadTooLarge)
    } else if buffer.len() < HEADER_SIZE + announced_length(buffer) {
        Ok(None)
    } else {
        let end = HEADER_SIZE + announced_length(buffer);
        Ok(Some((buffer[5], buffer.subrange(HEADER_SIZE as int, end), buffer.subrange(end, buffer.len() as int))))
    }
}

pub open spec fn window_at(payload: Seq<u8>) -> RemoteWindowId {
    RemoteWindowId(spec_u64_from_le_bytes(payload.subrange(0, 8)))
}

/// The event that a server frame of the given kind and payload stands for.
pub open spec fn decoded_event(kind: u8, payload: Seq<u8>) -> Result<ServerEvent, ProtocolError> {
    if kind == SERVER_WINDOW_CREATED {
        if payload.len() == 8 {
            Ok(ServerEvent::WindowCreated { window: window_at(payload) })
        } else {
            Err(ProtocolError::InvalidPayload)
        }
    } else if kind == SERVER_CLOSE_REQUESTED {
        if payload.len() == 8 {
            Ok(ServerEvent::CloseRequested { window: window_at(payload) })
        } else {
            Err(ProtocolError::InvalidPayload)
        }
    } else if kind == SERVER_RESIZED {
        if payload.len() < 16 {
            Err(ProtocolError::InvalidPayload)
        } else {
            let width = spec_u32_from_le_bytes(payload.subrange(8, 12));
            let height = spec_u32_from_le_bytes(payload.subrange(12, 16));
            if !window_size_ok(width, height) {
                Err(ProtocolError::InvalidWindowSize)
            } else if payload.len() != 16 {
                Err(ProtocolError::InvalidPayload)
            } else {
                Ok(ServerEvent::Resized { window: window_at(payload), width, height })
            }
        }
    } else if kind == SERVER_FOCUS_CHANGED {
        if payload.len() == 9 && payload[8] <= 1 {
            Ok(ServerEvent::FocusChanged { window: window_at(payload), focused: payload[8] == 1 })
        } else {
            Err(ProtocolError::InvalidPayload)
        }
    } else {
        Err(ProtocolError::InvalidMessage)
    }
}

/// Decoding the first event of a buffer: the result and the buffer left
/// behind. A complete frame leaves the buffer even when its payload is
/// refused.
pub open spec fn decode_first_event(buffer: Seq<u8>) -> (Result<Option<ServerEvent>, ProtocolError>, Seq<u8>) {
    match split_frame(buffer) {
        Err(error) => (Err(error), buffer),
        Ok(None) => (Ok(None), buffer),
        Ok(Some((kind, payload, rest))) => (
            match decoded_event(kind, payload) {
                Ok(event) => Ok(Some(event)),
                Err(error) => Err(error),
            },
            rest,
        ),
    }
}

pub open spec fn event_kind(event: ServerEvent) -> u8 {
    match event {
        ServerEvent::WindowCreated { .. } => SERVER_WINDOW_CREATED,
        ServerEvent::CloseRequested { .. } => SERVER_CLOSE_REQUESTED,
        ServerEvent::Resized { .. } => SERVER_RESIZED,
        ServerEvent::FocusChanged { .. } => SERVER_FOCUS_CHANGED,
    }
}

pub open spec fn event_payload(event: ServerEvent) -> Seq<u8> {
    match event {
        ServerEvent::WindowCreated { window } => spec_u64_to_le_bytes(window.0),
        ServerEvent::CloseRequested { window } => spec_u64_to_le_bytes(window.0),
        ServerEvent::Resized { window, width, height } => spec_u64_to_le_bytes(window.0)
            + spec_u32_to_le_bytes(width) + spec_u32_to_le_bytes(height),
        ServerEvent::FocusChanged { window, focused } => spec_u64_to_le_bytes(window.0) + seq![
            bool_byte(focused),
        ],
    }
}

/// The frame in which the desktop sends `event`.
pub open spec fn event_frame(event: ServerEvent) -> Seq<u8> {
    frame(event_kind(event), event_payload(event))
}

/// An event that the desktop may send: a resize names a size it accepts.
pub open spec fn event_well_formed(event: ServerEvent) -> bool {
    match event {
        ServerEvent::Resized { width, height, .. } => window_size_ok(width, height),
        _ => true,
    }
}


/// A client request, as mathematics.
pub enum RequestView {
    CreateWindow {
        application: ApplicationId,
        title: Seq<char>,
        width: u32,
        height: u32,
        resizable: bool,
    },
    CloseWindow { window: RemoteWindowId },
}

pub open spec fn request_view(request: ClientRequest) -> RequestView {
    match request {
        ClientRequest::CreateWindow { application, title, width, height, resizable } =>
            RequestView::CreateWindow { application, title: title@, width, height, resizable },
        ClientRequest::CloseWindow { window } => RequestView::CloseWindow { window },
    }
}

/// The application that a code on the wire names.
pub open spec fn application_for_code(code: u8) -> Option<ApplicationId> {
    if code == APPLICATION_ABOUT {
        Some(ApplicationId::About)
    } else if code == APPLICATION_TEST {
        Some(ApplicationId::Test)
    } else {
        None
    }
}

/// The request that a create-window payload stands for, read field by field
/// in the order the payload lays them out; the first field that is missing
/// or refused decides the error.
pub open spec fn decoded_create_window(payload: Seq<u8>) -> Result<RequestView, ProtocolError> {
    if payload.len() < 1 || application_for_code(payload[0]) is None {
        Err(ProtocolError::InvalidPayload)
    } else if payload.len() < 2 || payload[1] > 1 {
        Err(ProtocolError::InvalidPayload)
    } else if payload.len() < 10 {
        Err(ProtocolError::InvalidPayload)
    } else {
        let width = spec_u32_from_le_bytes(payload.subrange(2, 6));
        let height = spec_u32_from_le_bytes(payload.subrange(6, 10));
        if !window_size_ok(width, height) {
            Err(ProtocolError::InvalidWindowSize)
        } else if payload.len() < 12 {
            Err(ProtocolError::InvalidPayload)
        } else {
            let length = spec_u16_from_le_bytes(payload.subrange(10, 12)) as int;
            if length == 0 || length > MAX_TITLE_SIZE {
                Err(ProtocolError::InvalidTitle)
            } else if payload.len() < 12 + length {
                Err(ProtocolError::InvalidPayload)
            } else if !valid_utf8(payload.subrange(12, 12 + length)) {
                Err(ProtocolError::InvalidTitle)
            } else if payload.len() != 12 + length {
                Err(ProtocolError::InvalidPayload)
            } else {
                Ok(
                    RequestView::CreateWindow {
                        application: application_for_code(payload[0])->Some_0,
                        title: decode_utf8(payload.subrange(12, 12 + length)),
                        width,
                        height,
                        resizable: payload[1] == 1,
                    },
                )
            }
        }
    }
}

/// The request that a client frame of the given kind and payload stands for.
pub open spec fn decoded_request(kind: u8, payload: Seq<u8>) -> Result<RequestView, ProtocolError> {
    if kind == CLIENT_CREATE_WINDOW {
        decoded_create_window(payload)
    } else if kind == CLIENT_CLOSE_WINDOW {
        if payload.len() == 8 {
            Ok(RequestView::CloseWindow { window: window_at(payload) })
        } else {
            Err(ProtocolError::InvalidPayload)
        }
    } else {
        Err(ProtocolError::InvalidMessage)
    }
}

/// Decoding the first request of a buffer: the result and the buffer left
/// behind. A complete frame leaves the buffer even when its payload is
/// refused.
pub open spec fn decode_first_request(buffer: Seq<u8>) -> (Result<Option<RequestView>, ProtocolError>, Seq<u8>) {
    match split_frame(buffer) {
        Err(error) => (Err(error), buffer),
        Ok(None) => (Ok(None), buffer),
        Ok(Some((kind, payload, rest))) => (
            match decoded_request(kind, payload) {
                Ok(request) => Ok(Some(request)),
                Err(error) => Err(error),
            },
            rest,
        ),
    }
}


// ---------------------------------------------------------------------------
// Encoding.
// ---------------------------------------------------------------------------

fn push_all(out: &mut Vec<u8>, bytes: &[u8])
    ensures
        final(out)@ == old(out)@ + bytes@,
{
    let mut index: usize = 0;
    while index < bytes.len()
        invariant
            index <= bytes@.len(),
            out@ == old(out)@ + bytes@.subrange(0, index as int),
        decreases bytes@.len() - index,
    {
        out.push(bytes[index]);
        index = index + 1;
        assert(out@ =~= old(out)@ + bytes@.subrange(0, index as int));
    }
    assert(bytes@.subrange(0, bytes@.len() as int) =~= bytes@);
}

/// Wraps `payload` in a frame of the given kind; a payload over the limit is
/// refused.
pub fn encode_frame(kind: u8, payload: &[u8]) -> (result: Result<Vec<u8>, ProtocolError>)
    ensures
        payload@.len() > MAX_PAYLOAD_SIZE ==> result == Err::<Vec<u8>, ProtocolError>(
            ProtocolError::PayloadTooLarge,
        ),
        payload@.len() <= MAX_PAYLOAD_SIZE ==> result is Ok && result->Ok_0@ == frame(kind, payload@),
{
    if payload.len() > MAX_PAYLOAD_SIZE {
        return Err(ProtocolError::PayloadTooLarge);
    }
    let mut out: Vec<u8> = Vec::with_capacity(HEADER_SIZE + payload.len());
    out.push(0x42u8);
    out.push(0x4eu8);
    out.push(0x44u8);
    out.push(0x52u8);
    out.push(PROTOCOL_VERSION);
    out.push(kind);
    out.push(0u8);
    out.push(0u8);
    let length = u32_to_le_bytes(payload.len() as u32);
    push_all(&mut out, length.as_slice());
    push_all(&mut out, payload);
    assert(out@ =~= frame(kind, payload@));
    Ok(out)
}

pub fn encode_application(application: ApplicationId) -> (code: u8)
    ensures
        code == application_code(application),
{
    match application {
        ApplicationId::About => APPLICATION_ABOUT,
        ApplicationId::Test => APPLICATION_TEST,
    }
}

/// Accepts a window size of at least one and at most `MAX_WINDOW_SIZE`
/// pixels in each direction.
pub fn validate_window_size(width: u32, height: u32) -> (result: Result<(), ProtocolError>)
    ensures
        result is Ok <==> window_size_ok(width, height),
        result is Err ==> result == Err::<(), ProtocolError>(ProtocolError::InvalidWindowSize),
{
    if width == 0 || height == 0 || width > MAX_WINDOW_SIZE || height > MAX_WINDOW_SIZE {
        return Err(ProtocolError::InvalidWindowSize);
    }
    Ok(())
}

/// Encodes a client request into the frame that carries it.
pub fn encode_client_request(request: &ClientRequest) -> (result: Result<Vec<u8>, ProtocolError>)
    ensures
        match (result, encoded_request(*request)) {
            (Ok(bytes), Ok(expected)) => bytes@ == expected,
            (Err(error), Err(expected)) => error == expected,
            _ => false,
        },
{
    match request {
        ClientRequest::CreateWindow { application, title, width, height, resizable } => {
            validate_window_size(*width, *height)?;
            let title_bytes = title.as_str().as_bytes();
            if title_bytes.len() == 0 || title_bytes.len() > MAX_TITLE_SIZE {
                return Err(ProtocolError::InvalidTitle);
            }
            let mut payload: Vec<u8> = Vec::with_capacity(12 + title_bytes.len());
            payload.push(encode_application(*application));
            payload.push(if *resizable { 1u8 } else { 0u8 });
            let width_bytes = u32_to_le_bytes(*width);
            push_all(&mut payload, width_bytes.as_slice());
            let height_bytes = u32_to_le_bytes(*height);
            push_all(&mut payload, height_bytes.as_slice());
            let length_bytes = u16_to_le_bytes(title_bytes.len() as u16);
            push_all(&mut payload, length_bytes.as_slice());
            push_all(&mut payload, title_bytes);
            assert(payload@ =~= create_window_payload(
                *application,
                encode_utf8(title@),
                *width,
                *height,
                *resizable,
            ));
            encode_frame(CLIENT_CREATE_WINDOW, payload.as_slice())
        },
        ClientRequest::CloseWindow { window } => {
            let bytes = u64_to_le_bytes(window.0);
            encode_frame(CLIENT_CLOSE_WINDOW, bytes.as_slice())
        },
    }
}


/// Encodes an event into the frame that carries it; a resize to a size that
/// clients refuse is not sent.
pub fn encode_server_event(event: &ServerEvent) -> (result: Result<Vec<u8>, ProtocolError>)
    ensures
        match result {
            Ok(bytes) => event_well_formed(*event) && bytes@ == event_frame(*event),
            Err(error) => !event_well_formed(*event) && error == ProtocolError::InvalidWindowSize,
        },
{
    match event {
        ServerEvent::WindowCreated { window } => {
            let bytes = u64_to_le_bytes(window.0);
            encode_frame(SERVER_WINDOW_CREATED, bytes.as_slice())
        },
        ServerEvent::CloseRequested { window } => {
            let bytes = u64_to_le_bytes(window.0);
            encode_frame(SERVER_CLOSE_REQUESTED, bytes.as_slice())
        },
        ServerEvent::Resized { window, width, height } => {
            validate_window_size(*width, *height)?;
            let mut payload = u64_to_le_bytes(window.0);
            let width_bytes = u32_to_le_bytes(*width);
            push_all(&mut payload, width_bytes.as_slice());
            let height_bytes = u32_to_le_bytes(*height);
            push_all(&mut payload, height_bytes.as_slice());
            encode_frame(SERVER_RESIZED, payload.as_slice())
        },
        ServerEvent::FocusChanged { window, focused } => {
            let mut payload = u64_to_le_bytes(window.0);
            payload.push(if *focused { 1u8 } else { 0u8 });
            encode_frame(SERVER_FOCUS_CHANGED, payload.as_slice())
        },
    }
}


// ---------------------------------------------------------------------------
// Decoding.
// ---------------------------------------------------------------------------

/// Splits the first complete frame off `buffer`: its kind and payload. An
/// incomplete frame leaves the buffer as it is and gives `None`.
pub fn take_frame(buffer: &mut Vec<u8>) -> (result: Result<Option<(u8, Vec<u8>)>, ProtocolError>)
    ensures
        match split_frame(old(buffer)@) {
            Err(error) => result == Err::<Option<(u8, Vec<u8>)>, ProtocolError>(error)
                && final(buffer)@ == old(buffer)@,
            Ok(None) => result matches Ok(None) && final(buffer)@ == old(buffer)@,
            Ok(Some((kind, payload, rest))) => result matches Ok(Some((k, p))) && k == kind && p@
                == payload && final(buffer)@ == rest,
        },
{
    if buffer.len() < HEADER_SIZE {
        return Ok(None);
    }
    if buffer[0] != 0x42u8 || buffer[1] != 0x4eu8 || buffer[2] != 0x44u8 || buffer[3] != 0x52u8 {
        proof {
            if buffer@.subrange(0, 4) == magic() {
                assert(buffer@[0] == buffer@.subrange(0, 4)[0]);
                assert(buffer@[1] == buffer@.subrange(0, 4)[1]);
                assert(buffer@[2] == buffer@.subrange(0, 4)[2]);
                assert(buffer@[3] == buffer@.subrange(0, 4)[3]);
            }
        }
        return Err(ProtocolError::InvalidMagic);
    }
    assert(buffer@.subrange(0, 4) =~= magic());
    if buffer[4] != PROTOCOL_VERSION {
        return Err(ProtocolError::UnsupportedVersion);
    }
    let kind = buffer[5];
    let length_bytes = slice_subrange(buffer.as_slice(), 8, 12);
    let announced = u32_from_le_bytes(length_bytes);
    if announced as usize > MAX_PAYLOAD_SIZE {
        return Err(ProtocolError::PayloadTooLarge);
    }
    let frame_length = HEADER_SIZE + announced as usize;
    if buffer.len() < frame_length {
        return Ok(None);
    }
    let ghost original = buffer@;
    let mut rest = buffer.split_off(frame_length);
    std::mem::swap(buffer, &mut rest);
    let mut whole = rest;
    let payload = whole.split_off(HEADER_SIZE);
    assert(payload@ =~= original.subrange(HEADER_SIZE as int, frame_length as int));
    Ok(Some((kind, payload)))
}

/// A cursor over a payload that reads little-endian fields in order.
pub struct PayloadReader<'a> {
    payload: &'a [u8],
    offset: usize,
}

impl<'a> PayloadReader<'a> {
    pub closed spec fn bytes(&self) -> Seq<u8> {
        self.payload@
    }

    pub closed spec fn position(&self) -> int {
        self.offset as int
    }

    pub open spec fn wf(&self) -> bool {
        0 <= self.position() <= self.bytes().len()
    }

    pub fn new(payload: &'a [u8]) -> (reader: Self)
        ensures
            reader.wf(),
            reader.bytes() == payload@,
            reader.position() == 0,
    {
        PayloadReader { payload, offset: 0 }
    }

    /// The next `length` bytes, or `InvalidPayload` when fewer remain; a
    /// refused read moves nothing.
    pub fn read_slice(&mut self, length: usize) -> (result: Result<&'a [u8], ProtocolError>)
        requires
            old(self).wf(),
        ensures
            final(self).wf(),
            final(self).bytes() == old(self).bytes(),
            match result {
                Ok(bytes) => old(self).position() + length <= old(self).bytes().len()
                    && bytes@ == old(self).bytes().subrange(
                    old(self).position(),
                    old(self).position() + length,
                ) && final(self).position() == old(self).position() + length,
                Err(error) => error == ProtocolError::InvalidPayload && old(self).position()
                    + length > old(self).bytes().len() && final(self).position() == old(self).position(),
            },
    {
        let total = self.payload.len();
        let end = match self.offset.checked_add(length) {
            Some(end) => end,
            None => {
                assert(total as int == self.payload@.len());
                return Err(ProtocolError::InvalidPayload);
            },
        };
        if end > total {
            return Err(ProtocolError::InvalidPayload);
        }
        let bytes = slice_subrange(self.payload, self.offset, end);
        self.offset = end;
        Ok(bytes)
    }

    pub fn read_u8(&mut self) -> (result: Result<u8, ProtocolError>)
        requires
            old(self).wf(),
        ensures
            final(self).wf(),
            final(self).bytes() == old(self).bytes(),
            match result {
                Ok(value) => old(self).position() + 1 <= old(self).bytes().len() && value == old(self).bytes()[old(self).position()] && final(self).position() == old(self).position()
                    + 1,
                Err(error) => error == ProtocolError::InvalidPayload && old(self).position() + 1
                    > old(self).bytes().len(),
            },
    {
        let bytes = self.read_slice(1)?;
        Ok(bytes[0])
    }

    pub fn read_u16(&mut self) -> (result: Result<u16, ProtocolError>)
        requires
            old(self).wf(),
        ensures
            final(self).wf(),
            final(self).bytes() == old(self).bytes(),
            match result {
                Ok(value) => old(self).position() + 2 <= old(self).bytes().len() && value
                    == spec_u16_from_le_bytes(
                    old(self).bytes().subrange(old(self).position(), old(self).position() + 2),
                ) && final(self).position() == old(self).position() + 2,
                Err(error) => error == ProtocolError::InvalidPayload && old(self).position() + 2
                    > old(self).bytes().len(),
            },
    {
        let bytes = self.read_slice(2)?;
        Ok(u16_from_le_bytes(bytes))
    }

    pub fn read_u32(&mut self) -> (result: Result<u32, ProtocolError>)
        requires
            old(self).wf(),
        ensures
            final(self).wf(),
            final(self).bytes() == old(self).bytes(),
            match result {
                Ok(value) => old(self).position() + 4 <= old(self).bytes().len() && value
                    == spec_u32_from_le_bytes(
                    old(self).bytes().subrange(old(self).position(), old(self).position() + 4),
                ) && final(self).position() == old(self).position() + 4,
                Err(error) => error == ProtocolError::InvalidPayload && old(self).position() + 4
                    > old(self).bytes().len(),
            },
    {
        let bytes = self.read_slice(4)?;
        Ok(u32_from_le_bytes(bytes))
    }

    pub fn read_u64(&mut self) -> (result: Result<u64, ProtocolError>)
        requires
            old(self).wf(),
        ensures
            final(self).wf(),
            final(self).bytes() == old(self).bytes(),
            match result {
                Ok(value) => old(self).position() + 8 <= old(self).bytes().len() && value
                    == spec_u64_from_le_bytes(
                    old(self).bytes().subrange(old(self).position(), old(self).position() + 8),
                ) && final(self).position() == old(self).position() + 8,
                Err(error) => error == ProtocolError::InvalidPayload && old(self).position() + 8
                    > old(self).bytes().len(),
            },
    {
        let bytes = self.read_slice(8)?;
        Ok(u64_from_le_bytes(bytes))
    }

    /// Succeeds exactly when every byte of the payload has been read.
    pub fn finish(self) -> (result: Result<(), ProtocolError>)
        ensures
            result is Ok <==> self.position() == self.bytes().len(),
            result is Err ==> result == Err::<(), ProtocolError>(ProtocolError::InvalidPayload),
    {
        if self.offset != self.payload.len() {
            return Err(ProtocolError::InvalidPayload);
        }
        Ok(())
    }
}

/// Decodes the first event in `buffer` and removes its frame. `Ok(None)`
/// means that the buffer does not yet hold a whole frame.
pub fn try_decode_server_event(buffer: &mut Vec<u8>) -> (result: Result<
    Option<ServerEvent>,
    ProtocolError,
>)
    ensures
        (result, final(buffer)@) == decode_first_event(old(buffer)@),
{
    let (kind, payload) = match take_frame(buffer)? {
        Some(frame) => frame,
        None => {
            return Ok(None);
        },
    };
    let mut reader = PayloadReader::new(payload.as_slice());
    let event = if kind == SERVER_WINDOW_CREATED {
        let window = RemoteWindowId(reader.read_u64()?);
        reader.finish()?;
        ServerEvent::WindowCreated { window }
    } else if kind == SERVER_CLOSE_REQUESTED {
        let window = RemoteWindowId(reader.read_u64()?);
        reader.finish()?;
        ServerEvent::CloseRequested { window }
    } else if kind == SERVER_RESIZED {
        let window = RemoteWindowId(reader.read_u64()?);
        let width = reader.read_u32()?;
        let height = reader.read_u32()?;
        validate_window_size(width, height)?;
        reader.finish()?;
        ServerEvent::Resized { window, width, height }
    } else if kind == SERVER_FOCUS_CHANGED {
        let window = RemoteWindowId(reader.read_u64()?);
        let focused = match reader.read_u8()? {
            0 => false,
            1 => true,
            _ => {
                return Err(ProtocolError::InvalidPayload);
            },
        };
        reader.finish()?;
        ServerEvent::FocusChanged { window, focused }
    } else {
        return Err(ProtocolError::InvalidMessage);
    };
    Ok(Some(event))
}


fn decode_create_window(payload: &[u8]) -> (result: Result<ClientRequest, ProtocolError>)
    ensures
        match (result, decoded_create_window(payload@)) {
            (Ok(request), Ok(expected)) => request_view(request) == expected,
            (Err(error), Err(expected)) => error == expected,
            _ => false,
        },
{
    let mut reader = PayloadReader::new(payload);
    let application = match reader.read_u8()? {
        APPLICATION_ABOUT => ApplicationId::About,
        APPLICATION_TEST => ApplicationId::Test,
        _ => {
            return Err(ProtocolError::InvalidPayload);
        },
    };
    let resizable = match reader.read_u8()? {
        0 => false,
        1 => true,
        _ => {
            return Err(ProtocolError::InvalidPayload);
        },
    };
    let width = reader.read_u32()?;
    let height = reader.read_u32()?;
    validate_window_size(width, height)?;
    let length = reader.read_u16()?;
    if length == 0 || length as usize > MAX_TITLE_SIZE {
        return Err(ProtocolError::InvalidTitle);
    }
    let title_bytes = reader.read_slice(length as usize)?;
    let title = match utf8_text(title_bytes) {
        Some(title) => title,
        None => {
            return Err(ProtocolError::InvalidTitle);
        },
    };
    reader.finish()?;
    Ok(ClientRequest::CreateWindow { application, title, width, height, resizable })
}

/// Decodes the first request in `buffer` and removes its frame. `Ok(None)`
/// means that the buffer does not yet hold a whole frame.
pub fn try_decode_client_request(buffer: &mut Vec<u8>) -> (result: Result<
    Option<ClientRequest>,
    ProtocolError,
>)
    ensures
        match (result, decode_first_request(old(buffer)@).0) {
            (Ok(Some(request)), Ok(Some(expected))) => request_view(request) == expected,
            (Ok(None), Ok(None)) => true,
            (Err(error), Err(expected)) => error == expected,
            _ => false,
        },
        final(buffer)@ == decode_first_request(old(buffer)@).1,
{
    let (kind, payload) = match take_frame(buffer)? {
        Some(frame) => frame,
        None => {
            return Ok(None);
        },
    };
    if kind == CLIENT_CREATE_WINDOW {
        let request = decode_create_window(payload.as_slice())?;
        Ok(Some(request))
    } else if kind == CLIENT_CLOSE_WINDOW {
        let mut reader = PayloadReader::new(payload.as_slice());
        let window = RemoteWindowId(reader.read_u64()?);
        reader.finish()?;
        Ok(Some(ClientRequest::CloseWindow { window }))
    } else {
        Err(ProtocolError::InvalidMessage)
    }
}


// ---------------------------------------------------------------------------
// Laws of the framing.
// ---------------------------------------------------------------------------

/// A frame, followed by anything, splits back into its kind, its payload and
/// exactly the bytes that followed it.
pub proof fn lemma_frame_splits(kind: u8, payload: Seq<u8>, rest: Seq<u8>)
    requires
        payload.len() <= MAX_PAYLOAD_SIZE,
    ensures
        split_frame(frame(kind, payload) + rest) == Ok::<
            Option<(u8, Seq<u8>, Seq<u8>)>,
            ProtocolError,
        >(Some((kind, payload, rest))),
{
    lemma_auto_spec_u32_to_from_le_bytes();
    let length = spec_u32_to_le_bytes(payload.len() as u32);
    let buffer = frame(kind, payload) + rest;
    assert(buffer.subrange(0, 4) =~= magic());
    assert(buffer.subrange(8, 12) =~= length);
    assert(announced_length(buffer) == payload.len());
    let end = HEADER_SIZE + payload.len();
    assert(buffer.subrange(HEADER_SIZE as int, end as int) =~= payload);
    assert(buffer.subrange(end as int, buffer.len() as int) =~= rest);
}

/// Every prefix of a frame that stops short of its end is an incomplete
/// frame: the decoder waits for more bytes and consumes nothing.
pub proof fn lemma_frame_prefix_waits(kind: u8, payload: Seq<u8>, n: int)
    requires
        payload.len() <= MAX_PAYLOAD_SIZE,
        0 <= n < frame(kind, payload).len(),
    ensures
        split_frame(frame(kind, payload).take(n)) == Ok::<
            Option<(u8, Seq<u8>, Seq<u8>)>,
            ProtocolError,
        >(None),
{
    lemma_auto_spec_u32_to_from_le_bytes();
    let whole = frame(kind, payload);
    let prefix = whole.take(n);
    if n >= HEADER_SIZE {
        assert(prefix.subrange(0, 4) =~= magic());
        assert(prefix.subrange(8, 12) =~= spec_u32_to_le_bytes(payload.len() as u32));
    }
}

/// What a write gives, a read gives back: an event that the desktop may send,
/// framed and followed by anything, decodes to that very event and leaves
/// exactly the bytes that followed it.
pub proof fn lemma_event_round_trip(event: ServerEvent, rest: Seq<u8>)
    requires
        event_well_formed(event),
    ensures
        decode_first_event(event_frame(event) + rest) == (
            Ok::<Option<ServerEvent>, ProtocolError>(Some(event)),
            rest,
        ),
{
    lemma_auto_spec_u32_to_from_le_bytes();
    lemma_auto_spec_u64_to_from_le_bytes();
    let payload = event_payload(event);
    lemma_frame_splits(event_kind(event), payload, rest);
    match event {
        ServerEvent::WindowCreated { window } => {
            assert(payload.subrange(0, 8) =~= spec_u64_to_le_bytes(window.0));
        },
        ServerEvent::CloseRequested { window } => {
            assert(payload.subrange(0, 8) =~= spec_u64_to_le_bytes(window.0));
        },
        ServerEvent::Resized { window, width, height } => {
            assert(payload.subrange(0, 8) =~= spec_u64_to_le_bytes(window.0));
            assert(payload.subrange(8, 12) =~= spec_u32_to_le_bytes(width));
            assert(payload.subrange(12, 16) =~= spec_u32_to_le_bytes(height));
        },
        ServerEvent::FocusChanged { window, focused } => {
            assert(payload.subrange(0, 8) =~= spec_u64_to_le_bytes(window.0));
        },
    }
}

/// Events sent one after another are decoded one after another, in order.
pub proof fn lemma_events_decode_in_order(first: ServerEvent, second: ServerEvent, rest: Seq<u8>)
    requires
        event_well_formed(first),
        event_well_formed(second),
    ensures
        decode_first_event(event_frame(first) + event_frame(second) + rest) == (
            Ok::<Option<ServerEvent>, ProtocolError>(Some(first)),
            event_frame(second) + rest,
        ),
        decode_first_event(event_frame(second) + rest).0 == Ok::<
            Option<ServerEvent>,
            ProtocolError,
        >(Some(second)),
{
    assert(event_frame(first) + event_frame(second) + rest =~= event_frame(first) + (
    event_frame(second) + rest));
    lemma_event_round_trip(first, event_frame(second) + rest);
    lemma_event_round_trip(second, rest);
}

/// What a client writes, the desktop reads back: a request that encodes,
/// followed by anything, decodes to that very request and leaves exactly the
/// bytes that followed it.
pub proof fn lemma_request_round_trip(request: ClientRequest, rest: Seq<u8>)
    requires
        encoded_request(request) is Ok,
    ensures
        decode_first_request(encoded_request(request)->Ok_0 + rest) == (
            Ok::<Option<RequestView>, ProtocolError>(Some(request_view(request))),
            rest,
        ),
{
    broadcast use vstd::utf8::encode_utf8_valid_utf8, vstd::utf8::encode_utf8_decode_utf8;

    lemma_auto_spec_u16_to_from_le_bytes();
    lemma_auto_spec_u32_to_from_le_bytes();
    lemma_auto_spec_u64_to_from_le_bytes();
    match request {
        ClientRequest::CreateWindow { application, title, width, height, resizable } => {
            let bytes = encode_utf8(title@);
            let payload = create_window_payload(application, bytes, width, height, resizable);
            lemma_frame_splits(CLIENT_CREATE_WINDOW, payload, rest);
            assert(payload.subrange(2, 6) =~= spec_u32_to_le_bytes(width));
            assert(payload.subrange(6, 10) =~= spec_u32_to_le_bytes(height));
            assert(payload.subrange(10, 12) =~= spec_u16_to_le_bytes(bytes.len() as u16));
            assert(payload.subrange(12, 12 + bytes.len() as int) =~= bytes);
        },
        ClientRequest::CloseWindow { window } => {
            let payload = spec_u64_to_le_bytes(window.0);
            lemma_frame_splits(CLIENT_CLOSE_WINDOW, payload, rest);
            assert(payload.subrange(0, 8) =~= payload);
        },
    }
}

} // verus!
