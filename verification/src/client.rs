//! The client side of Binder: what an application keeps while it talks to
//! the desktop. The socket itself belongs to the caller, which hands over the
//! bytes it reads and sends the bytes this module prepares.
use std::collections::VecDeque;

use crate::protocol::{
    decoded_event, encode_client_request, encoded_create_window, encoded_request, split_frame,
    try_decode_server_event, ApplicationId, ClientRequest, RemoteWindowId, ServerEvent,
};
use vstd::prelude::*;

verus! {

/// A window created for this client.
#[derive(Clone, Copy, Debug, PartialEq, Eq, Hash, Structural)]
pub struct WindowHandle(pub u64);

impl WindowHandle {
    pub fn raw(self) -> (raw: u64)
        ensures
            raw == self.0,
    {
        self.0
    }

    pub fn from_remote(window: RemoteWindowId) -> (handle: Self)
        ensures
            handle.0 == window.0,
    {
        WindowHandle(window.0)
    }

    pub fn to_remote(self) -> (window: RemoteWindowId)
        ensures
            window.0 == self.0,
    {
        RemoteWindowId(self.0)
    }
}

/// What a client asks for when it asks for a window.
#[derive(Clone, Debug, PartialEq, Eq)]
pub struct WindowOptions {
    title: String,
    width: u32,
    height: u32,
    resizable: bool,
}

impl WindowOptions {
    pub closed spec fn title_view(&self) -> Seq<char> {
        self.title@
    }

    pub closed spec fn width_view(&self) -> u32 {
        self.width
    }

    pub closed spec fn height_view(&self) -> u32 {
        self.height
    }

    pub closed spec fn resizable_view(&self) -> bool {
        self.resizable
    }

    /// Options for a window with this title and size; windows are resizable
    /// unless asked otherwise.
    pub fn new(title: &str, width: u32, height: u32) -> (options: Self)
        ensures
            options.title_view() == title@,
            options.width_view() == width,
            options.height_view() == height,
            options.resizable_view(),
    {
        WindowOptions { title: title.to_owned(), width, height, resizable: true }
    }

    pub fn resizable(self, resizable: bool) -> (options: Self)
        ensures
            options.title_view() == self.title_view(),
            options.width_view() == self.width_view(),
            options.height_view() == self.height_view(),
            options.resizable_view() == resizable,
    {
        let mut options = self;
        options.resizable = resizable;
        options
    }

    pub fn title(&self) -> (title: &str)
        ensures
            title@ == self.title_view(),
    {
        self.title.as_str()
    }

    pub fn width(&self) -> (width: u32)
        ensures
            width == self.width_view(),
    {
        self.width
    }

    pub fn height(&self) -> (height: u32)
        ensures
            height == self.height_view(),
    {
        self.height
    }

    pub fn is_resizable(&self) -> (resizable: bool)
        ensures
            resizable == self.resizable_view(),
    {
        self.resizable
    }
}

/// What the desktop tells a client about one of its windows.
#[derive(Clone, Copy, Debug, PartialEq, Eq, Structural)]
pub enum WindowEvent {
    CloseRequested { window: WindowHandle },
    Resized { window: WindowHandle, width: u32, height: u32 },
    FocusChanged { window: WindowHandle, focused: bool },
}

#[derive(Clone, Copy, Debug, PartialEq, Eq, Structural)]
pub enum Error {
    TransportUnavailable,
    UnsupportedPlatform,
    ConnectionFailed,
    ConnectionClosed,
    SendFailed,
    ReceiveFailed,
    ProtocolError,
}


impl Error {
    /// A sentence that says what went wrong.
    pub fn description(&self) -> (text: &'static str)
        ensures
            text@ == error_description(*self),
    {
        match self {
            Error::TransportUnavailable => "Binder transport is unavailable",
            Error::UnsupportedPlatform => "Binder is unsupported on this platform",
            Error::ConnectionFailed => "failed to connect to Binder",
            Error::ConnectionClosed => "Binder closed the connection",
            Error::SendFailed => "failed to send a Binder request",
            Error::ReceiveFailed => "failed to receive a Binder event",
            Error::ProtocolError => "Binder protocol error",
        }
    }
}

pub open spec fn error_description(error: Error) -> Seq<char> {
    match error {
        Error::TransportUnavailable => "Binder transport is unavailable"@,
        Error::UnsupportedPlatform => "Binder is unsupported on this platform"@,
        Error::ConnectionFailed => "failed to connect to Binder"@,
        Error::ConnectionClosed => "Binder closed the connection"@,
        Error::SendFailed => "failed to send a Binder request"@,
        Error::ReceiveFailed => "failed to receive a Binder event"@,
        Error::ProtocolError => "Binder protocol error"@,
    }
}

/// The event that a client sees for what the desktop sent; the creation of
/// a window is answered elsewhere and is no event.
pub open spec fn event_for(event: ServerEvent) -> Option<WindowEvent> {
    match event {
        ServerEvent::WindowCreated { .. } => None,
        ServerEvent::CloseRequested { window } => Some(
            WindowEvent::CloseRequested { window: WindowHandle(window.0) },
        ),
        ServerEvent::Resized { window, width, height } => Some(
            WindowEvent::Resized { window: WindowHandle(window.0), width, height },
        ),
        ServerEvent::FocusChanged { window, focused } => Some(
            WindowEvent::FocusChanged { window: WindowHandle(window.0), focused },
        ),
    }
}

pub fn convert_server_event(event: ServerEvent) -> (converted: Option<WindowEvent>)
    ensures
        converted == event_for(event),
{
    match event {
        ServerEvent::WindowCreated { .. } => None,
        ServerEvent::CloseRequested { window } => Some(
            WindowEvent::CloseRequested { window: WindowHandle::from_remote(window) },
        ),
        ServerEvent::Resized { window, width, height } => Some(
            WindowEvent::Resized { window: WindowHandle::from_remote(window), width, height },
        ),
        ServerEvent::FocusChanged { window, focused } => Some(
            WindowEvent::FocusChanged { window: WindowHandle::from_remote(window), focused },
        ),
    }
}

/// What became of the attempt to reach the desktop's socket.
#[derive(Clone, Copy, Debug, PartialEq, Eq, Structural)]
pub enum ConnectAttempt {
    /// The environment names no socket.
    NoSocket,
    /// The socket is named but could not be reached.
    Refused,
    /// The socket is connected.
    Connected,
}

/// Waiting for the desktop to answer a create-window request: the answer,
/// if the buffer holds it, the buffer left behind, and the events that came
/// before the answer, queued behind `pending`.
pub open spec fn scan_for_creation(buffer: Seq<u8>, pending: Seq<WindowEvent>) -> (
    Result<Option<WindowHandle>, Error>,
    Seq<u8>,
    Seq<WindowEvent>,
)
    decreases buffer.len(),
{
    match split_frame(buffer) {
        Err(_) => (Err(Error::ProtocolError), buffer, pending),
        Ok(None) => (Ok(None), buffer, pending),
        Ok(Some((kind, payload, rest))) => {
            if rest.len() < buffer.len() {
                match decoded_event(kind, payload) {
                    Err(_) => (Err(Error::ProtocolError), rest, pending),
                    Ok(ServerEvent::WindowCreated { window }) => (
                        Ok(Some(WindowHandle(window.0))),
                        rest,
                        pending,
                    ),
                    Ok(event) => scan_for_creation(rest, pending.push(event_for(event)->Some_0)),
                }
            } else {
                (Ok(None), buffer, pending)
            }
        },
    }
}

/// Waiting for the next event: the event, if the buffer holds one, and the
/// buffer left behind. Answers to create-window requests are passed over.
pub open spec fn scan_for_event(buffer: Seq<u8>) -> (Result<Option<WindowEvent>, Error>, Seq<u8>)
    decreases buffer.len(),
{
    match split_frame(buffer) {
        Err(_) => (Err(Error::ProtocolError), buffer),
        Ok(None) => (Ok(None), buffer),
        Ok(Some((kind, payload, rest))) => {
            if rest.len() < buffer.len() {
                match decoded_event(kind, payload) {
                    Err(_) => (Err(Error::ProtocolError), rest),
                    Ok(ServerEvent::WindowCreated { .. }) => scan_for_event(rest),
                    Ok(event) => (Ok(event_for(event)), rest),
                }
            } else {
                (Ok(None), buffer)
            }
        },
    }
}

proof fn lemma_split_frame_shortens(buffer: Seq<u8>)
    ensures
        split_frame(buffer) matches Ok(Some((kind, payload, rest))) ==> rest.len() < buffer.len(),
{
}

/// A connection to the desktop: the bytes received and not yet decoded, and
/// the events that arrived while a window was being created.
pub struct BinderClient {
    read_buffer: Vec<u8>,
    pending_events: VecDeque<WindowEvent>,
}

impl BinderClient {
    pub closed spec fn buffered(&self) -> Seq<u8> {
        self.read_buffer@
    }

    pub closed spec fn pending(&self) -> Seq<WindowEvent> {
        self.pending_events@
    }

    /// A client over a connected socket; the other outcomes of connecting
    /// are the errors that name them.
    pub fn connect(attempt: ConnectAttempt) -> (result: Result<Self, Error>)
        ensures
            match attempt {
                ConnectAttempt::NoSocket => result matches Err(Error::TransportUnavailable),
                ConnectAttempt::Refused => result matches Err(Error::ConnectionFailed),
                ConnectAttempt::Connected => result matches Ok(client) && client.buffered()
                    == Seq::<u8>::empty() && client.pending() == Seq::<WindowEvent>::empty(),
            },
    {
        match attempt {
            ConnectAttempt::NoSocket => Err(Error::TransportUnavailable),
            ConnectAttempt::Refused => Err(Error::ConnectionFailed),
            ConnectAttempt::Connected => Ok(
                BinderClient { read_buffer: Vec::new(), pending_events: VecDeque::new() },
            ),
        }
    }

    fn create_window_for_application(
        &self,
        application: ApplicationId,
        options: &WindowOptions,
    ) -> (frame: Result<Vec<u8>, Error>)
        ensures
            match encoded_create_window(
                application,
                options.title_view(),
                options.width_view(),
                options.height_view(),
                options.resizable_view(),
            ) {
                Ok(bytes) => frame matches Ok(sent) && sent@ == bytes,
                Err(_) => frame matches Err(Error::ProtocolError),
            },
    {
        let request = ClientRequest::CreateWindow {
            application,
            title: options.title.clone(),
            width: options.width,
            height: options.height,
            resizable: options.resizable,
        };
        match encode_client_request(&request) {
            Ok(bytes) => Ok(bytes),
            Err(_) => Err(Error::ProtocolError),
        }
    }

    /// The frame that asks the desktop for an About window with these
    /// options; send it, then wait with `window_created`.
    pub fn create_window(&self, options: &WindowOptions) -> (frame: Result<Vec<u8>, Error>)
        ensures
            match encoded_create_window(
                ApplicationId::About,
                options.title_view(),
                options.width_view(),
                options.height_view(),
                options.resizable_view(),
            ) {
                Ok(bytes) => frame matches Ok(sent) && sent@ == bytes,
                Err(_) => frame matches Err(Error::ProtocolError),
            },
    {
        self.create_window_for_application(ApplicationId::About, options)
    }

    /// The frame that asks the desktop for a test window with these options.
    pub fn create_test_window(&self, options: &WindowOptions) -> (frame: Result<Vec<u8>, Error>)
        ensures
            match encoded_create_window(
                ApplicationId::Test,
                options.title_view(),
                options.width_view(),
                options.height_view(),
                options.resizable_view(),
            ) {
                Ok(bytes) => frame matches Ok(sent) && sent@ == bytes,
                Err(_) => frame matches Err(Error::ProtocolError),
            },
    {
        self.create_window_for_application(ApplicationId::Test, options)
    }

    /// The frame that tells the desktop that this client closed `window`.
    pub fn close_window(&self, window: WindowHandle) -> (frame: Result<Vec<u8>, Error>)
        ensures
            frame matches Ok(sent) && sent@ == encoded_request(
                ClientRequest::CloseWindow { window: RemoteWindowId(window.0) },
            )->Ok_0,
    {
        let request = ClientRequest::CloseWindow { window: window.to_remote() };
        match encode_client_request(&request) {
            Ok(bytes) => Ok(bytes),
            Err(_) => Err(Error::ProtocolError),
        }
    }

    /// Takes in bytes read from the socket; reading nothing means that the
    /// desktop closed the connection.
    pub fn receive(&mut self, bytes: &[u8]) -> (result: Result<(), Error>)
        ensures
            bytes@.len() == 0 ==> result == Err::<(), Error>(Error::ConnectionClosed)
                && final(self).buffered() == old(self).buffered()
                && final(self).pending() == old(self).pending(),
            bytes@.len() > 0 ==> result is Ok && final(self).buffered() == old(self).buffered()
                + bytes@ && final(self).pending() == old(self).pending(),
    {
        if bytes.len() == 0 {
            return Err(Error::ConnectionClosed);
        }
        let mut index: usize = 0;
        while index < bytes.len()
            invariant
                index <= bytes@.len(),
                self.read_buffer@ == old(self).read_buffer@ + bytes@.subrange(0, index as int),
                self.pending_events == old(self).pending_events,
            decreases bytes@.len() - index,
        {
            self.read_buffer.push(bytes[index]);
            index = index + 1;
            assert(self.read_buffer@ =~= old(self).read_buffer@ + bytes@.subrange(0, index as int));
        }
        assert(bytes@.subrange(0, bytes@.len() as int) =~= bytes@);
        Ok(())
    }

    /// Looks in the bytes received for the answer to a create-window
    /// request. `Ok(None)` asks for more bytes; events that come first are
    /// kept for `next_event`, in the order they came.
    pub fn window_created(&mut self) -> (result: Result<Option<WindowHandle>, Error>)
        ensures
            (result, final(self).buffered(), final(self).pending()) == scan_for_creation(
                old(self).buffered(),
                old(self).pending(),
            ),
    {
        loop
            invariant
                scan_for_creation(self.read_buffer@, self.pending_events@) == scan_for_creation(
                    old(self).read_buffer@,
                    old(self).pending_events@,
                ),
            decreases self.read_buffer@.len(),
        {
            proof {
                lemma_split_frame_shortens(self.read_buffer@);
            }
            match try_decode_server_event(&mut self.read_buffer) {
                Err(_) => {
                    return Err(Error::ProtocolError);
                },
                Ok(None) => {
                    return Ok(None);
                },
                Ok(Some(ServerEvent::WindowCreated { window })) => {
                    return Ok(Some(WindowHandle::from_remote(window)));
                },
                Ok(Some(event)) => {
                    if let Some(converted) = convert_server_event(event) {
                        self.pending_events.push_back(converted);
                    }
                },
            }
        }
    }

    /// The next event: first those kept while a window was being created,
    /// then those in the bytes received. `Ok(None)` asks for more bytes.
    pub fn next_event(&mut self) -> (result: Result<Option<WindowEvent>, Error>)
        ensures
            old(self).pending().len() > 0 ==> result == Ok::<Option<WindowEvent>, Error>(
                Some(old(self).pending()[0]),
            ) && final(self).pending() == old(self).pending().drop_first()
                && final(self).buffered() == old(self).buffered(),
            old(self).pending().len() == 0 ==> (result, final(self).buffered()) == scan_for_event(
                old(self).buffered(),
            ) && final(self).pending() == old(self).pending(),
    {
        if let Some(event) = self.pending_events.pop_front() {
            return Ok(Some(event));
        }
        loop
            invariant
                scan_for_event(self.read_buffer@) == scan_for_event(old(self).read_buffer@),
                self.pending_events@ == old(self).pending_events@,
                self.pending_events@.len() == 0,
            decreases self.read_buffer@.len(),
        {
            proof {
                lemma_split_frame_shortens(self.read_buffer@);
            }
            match try_decode_server_event(&mut self.read_buffer) {
                Err(_) => {
                    return Err(Error::ProtocolError);
                },
                Ok(None) => {
                    return Ok(None);
                },
                Ok(Some(event)) => {
                    if let Some(converted) = convert_server_event(event) {
                        return Ok(Some(converted));
                    }
                },
            }
        }
    }
}

} // verus!
