//! Binder on Linux: the internal applications that run as child processes of
//! the desktop, and the desktop's bookkeeping of those children.
use crate::apps::{ABOUT_BUNDLE_ID, ABOUT_ENTRY, ABOUT_ROLE, TEST_BUNDLE_ID, TEST_ENTRY, TEST_ROLE};
use crate::platform::{
    one_entry_per_process, string_views, ClockState, CloseWindowRequest, CreateWindowRequest, PlatformError, ProcessId, SystemBarState,
    WindowFocusChangedNotification, WindowResizedNotification,
};
use crate::text::{same_text, text_equals};
use crate::window::WindowContent;
use crate::protocol::{
    decoded_event, encode_client_request, encoded_create_window, encoded_request, split_frame, try_decode_server_event,
    ApplicationId, ClientRequest, RemoteWindowId, ServerEvent,
};
use vstd::prelude::*;

verus! {

/// The window that an internal application asks the desktop for.
pub open spec fn window_request_of(application: ApplicationId) -> (Seq<char>, u32, u32, bool) {
    match application {
        ApplicationId::About => ("About mochiOS"@, 420, 300, true),
        ApplicationId::Test => ("Test Window"@, 360, 220, true),
    }
}

/// The request with which an internal application asks for its window.
pub fn create_window_request(application: ApplicationId) -> (request: ClientRequest)
    ensures
        request matches ClientRequest::CreateWindow { application: a, title, width, height, resizable }
            && a == application && (title@, width, height, resizable) == window_request_of(application),
{
    proof {
        reveal_strlit("About mochiOS");
        reveal_strlit("Test Window");
    }
    match application {
        ApplicationId::About => ClientRequest::CreateWindow {
            application,
            title: "About mochiOS".to_owned(),
            width: 420,
            height: 300,
            resizable: true,
        },
        ApplicationId::Test => ClientRequest::CreateWindow {
            application,
            title: "Test Window".to_owned(),
            width: 360,
            height: 220,
            resizable: true,
        },
    }
}

/// An internal application waiting on the desktop: the window the desktop
/// created for it, if any, until the desktop asks to close that window.
/// The result is the window to close, if the buffer holds the request, the
/// buffer left behind and the window created so far.
pub open spec fn scan_for_close(buffer: Seq<u8>, created: Option<RemoteWindowId>) -> (
    Result<Option<RemoteWindowId>, PlatformError>,
    Seq<u8>,
    Option<RemoteWindowId>,
)
    decreases buffer.len(),
{
    match split_frame(buffer) {
        Err(_) => (Err(PlatformError::InvalidResponse), buffer, created),
        Ok(None) => (Ok(None), buffer, created),
        Ok(Some((kind, payload, rest))) => {
            if rest.len() < buffer.len() {
                match decoded_event(kind, payload) {
                    Err(_) => (Err(PlatformError::InvalidResponse), rest, created),
                    Ok(ServerEvent::WindowCreated { window }) => scan_for_close(rest, Some(window)),
                    Ok(ServerEvent::CloseRequested { window }) => {
                        if created == Some(window) {
                            (Ok(Some(window)), rest, created)
                        } else {
                            scan_for_close(rest, created)
                        }
                    },
                    Ok(_) => scan_for_close(rest, created),
                }
            } else {
                (Ok(None), buffer, created)
            }
        },
    }
}

proof fn lemma_split_frame_shortens(buffer: Seq<u8>)
    ensures
        split_frame(buffer) matches Ok(Some((kind, payload, rest))) ==> rest.len() < buffer.len(),
{
}

/// The session of an internal application with the desktop: it asks for its
/// window, then waits until the desktop asks to close it, and answers by
/// closing it.
pub struct InternalWindowSession {
    read_buffer: Vec<u8>,
    created_window: Option<RemoteWindowId>,
}

impl InternalWindowSession {
    pub closed spec fn buffered(&self) -> Seq<u8> {
        self.read_buffer@
    }

    pub closed spec fn created(&self) -> Option<RemoteWindowId> {
        self.created_window
    }

    /// A session that has received nothing yet.
    pub fn new() -> (session: Self)
        ensures
            session.buffered() == Seq::<u8>::empty(),
            session.created() is None,
    {
        InternalWindowSession { read_buffer: Vec::new(), created_window: None }
    }

    /// The frame that asks the desktop for the application's window.
    pub fn opening_frame(application: ApplicationId) -> (frame: Result<Vec<u8>, PlatformError>)
        ensures
            match encoded_create_window(
                application,
                window_request_of(application).0,
                window_request_of(application).1,
                window_request_of(application).2,
                window_request_of(application).3,
            ) {
                Ok(bytes) => frame matches Ok(sent) && sent@ == bytes,
                Err(_) => frame matches Err(PlatformError::InvalidResponse),
            },
    {
        let request = create_window_request(application);
        match encode_client_request(&request) {
            Ok(bytes) => Ok(bytes),
            Err(_) => Err(PlatformError::InvalidResponse),
        }
    }

    /// Takes in bytes read from the desktop. Reading nothing means that the
    /// desktop went away. Once the desktop asks to close the window it
    /// created, the result is the frame that closes it, to be sent before
    /// the application ends; `Ok(None)` asks for more bytes.
    pub fn receive(&mut self, bytes: &[u8]) -> (result: Result<Option<Vec<u8>>, PlatformError>)
        ensures
            bytes@.len() == 0 ==> result == Err::<Option<Vec<u8>>, PlatformError>(
                PlatformError::TransportFailure,
            ) && final(self).buffered() == old(self).buffered() && final(self).created()
                == old(self).created(),
            bytes@.len() > 0 ==> {
                let scan = scan_for_close(old(self).buffered() + bytes@, old(self).created());
                &&& final(self).buffered() == scan.1
                &&& final(self).created() == scan.2
                &&& match scan.0 {
                    Err(error) => result == Err::<Option<Vec<u8>>, PlatformError>(error),
                    Ok(None) => result matches Ok(None),
                    Ok(Some(window)) => result matches Ok(Some(frame)) && frame@ == encoded_request(
                        ClientRequest::CloseWindow { window },
                    )->Ok_0,
                }
            },
    {
        if bytes.len() == 0 {
            return Err(PlatformError::TransportFailure);
        }
        let mut index: usize = 0;
        while index < bytes.len()
            invariant
                index <= bytes@.len(),
                self.read_buffer@ == old(self).read_buffer@ + bytes@.subrange(0, index as int),
                self.created_window == old(self).created_window,
            decreases bytes@.len() - index,
        {
            self.read_buffer.push(bytes[index]);
            index = index + 1;
            assert(self.read_buffer@ =~= old(self).read_buffer@ + bytes@.subrange(0, index as int));
        }
        assert(bytes@.subrange(0, bytes@.len() as int) =~= bytes@);
        loop
            invariant
                bytes@.len() > 0,
                scan_for_close(self.read_buffer@, self.created_window) == scan_for_close(
                    old(self).read_buffer@ + bytes@,
                    old(self).created_window,
                ),
            decreases self.read_buffer@.len(),
        {
            proof {
                lemma_split_frame_shortens(self.read_buffer@);
            }
            match try_decode_server_event(&mut self.read_buffer) {
                Err(_) => {
                    return Err(PlatformError::InvalidResponse);
                },
                Ok(None) => {
                    return Ok(None);
                },
                Ok(Some(ServerEvent::WindowCreated { window })) => {
                    self.created_window = Some(window);
                },
                Ok(Some(ServerEvent::CloseRequested { window })) => {
                    if self.created_window == Some(window) {
                        let response = ClientRequest::CloseWindow { window };
                        return match encode_client_request(&response) {
                            Ok(frame) => Ok(Some(frame)),
                            Err(_) => Err(PlatformError::InvalidResponse),
                        };
                    }
                },
                Ok(Some(_)) => {},
            }
        }
    }
}


// ---------------------------------------------------------------------------
// The desktop's children.
// ---------------------------------------------------------------------------

/// How long a child may take to ask for its first window, in milliseconds.
pub const REGISTRATION_TIMEOUT_MS: u64 = 5_000;

/// How long a child whose windows the desktop no longer shows may live on.
pub const ORPHAN_TIMEOUT_MS: u64 = 1_000;

/// How long a child may stay disconnected before it is ended.
pub const DISCONNECT_TIMEOUT_MS: u64 = 1_000;

/// How long a child may take to close a window the desktop asked it to close.
pub const CLOSE_TIMEOUT_MS: u64 = 5_000;

/// What the desktop's socket reports: a request of a child, or that a child
/// went away.
#[derive(Clone, Debug, PartialEq, Eq)]
pub enum TransportEvent {
    Request { process_id: ProcessId, request: ClientRequest },
    Disconnected { process_id: ProcessId },
}

/// A child process of the desktop. Times are milliseconds on one monotonic
/// clock, chosen by the caller.
#[derive(Debug)]
pub struct LinuxChild {
    pub content: WindowContent,
    pub bundle_id: String,
    pub launched_at: u64,
    /// When it first asked for a window.
    pub registered_at: Option<u64>,
    /// When its connection went away, unless it asked for a window since.
    pub disconnected_at: Option<u64>,
    /// The windows the desktop created for it.
    pub windows: Vec<RemoteWindowId>,
    /// The windows the desktop asked it to close, each with the time by
    /// which it must have closed it.
    pub close_deadlines: Vec<(RemoteWindowId, u64)>,
}

/// A child process of the desktop, as mathematics.
pub struct ChildView {
    pub content: WindowContent,
    pub bundle_id: Seq<char>,
    pub launched_at: u64,
    pub registered_at: Option<u64>,
    pub disconnected_at: Option<u64>,
    pub windows: Seq<RemoteWindowId>,
    pub close_deadlines: Seq<(RemoteWindowId, u64)>,
}

pub open spec fn child_view(child: LinuxChild) -> ChildView {
    ChildView {
        content: child.content,
        bundle_id: child.bundle_id@,
        launched_at: child.launched_at,
        registered_at: child.registered_at,
        disconnected_at: child.disconnected_at,
        windows: child.windows@,
        close_deadlines: child.close_deadlines@,
    }
}

pub open spec fn child_views(children: Seq<(ProcessId, LinuxChild)>) -> Seq<(ProcessId, ChildView)> {
    children.map_values(|entry: (ProcessId, LinuxChild)| (entry.0, child_view(entry.1)))
}

/// Whether `i` is the first child of this process.
pub open spec fn is_first_child(children: Seq<(ProcessId, ChildView)>, process_id: ProcessId, i: int) -> bool {
    0 <= i < children.len() && children[i].0 == process_id && forall|j: int|
        0 <= j < i ==> (#[trigger] children[j]).0 != process_id
}

pub open spec fn has_child(children: Seq<(ProcessId, ChildView)>, process_id: ProcessId) -> bool {
    exists|i: int| 0 <= i < children.len() && (#[trigger] children[i]).0 == process_id
}

pub open spec fn child_index(children: Seq<(ProcessId, ChildView)>, process_id: ProcessId) -> int {
    choose|i: int| is_first_child(children, process_id, i)
}

/// The child of this process, if the desktop has one.
pub open spec fn child_of(children: Seq<(ProcessId, ChildView)>, process_id: ProcessId) -> Option<ChildView> {
    if has_child(children, process_id) {
        Some(children[child_index(children, process_id)].1)
    } else {
        None
    }
}

proof fn lemma_child_index(children: Seq<(ProcessId, ChildView)>, process_id: ProcessId, i: int)
    requires
        is_first_child(children, process_id, i),
    ensures
        child_index(children, process_id) == i,
        has_child(children, process_id),
{
    let k = child_index(children, process_id);
    assert(is_first_child(children, process_id, k));
    if k < i {
        assert(children[k].0 != process_id);
    } else if k > i {
        assert(children[i].0 != process_id);
    }
}

/// The children with the child of `process_id` replaced by `child`.
pub open spec fn with_child_updated(
    children: Seq<(ProcessId, ChildView)>,
    process_id: ProcessId,
    child: ChildView,
) -> Seq<(ProcessId, ChildView)> {
    if has_child(children, process_id) {
        children.update(child_index(children, process_id), (process_id, child))
    } else {
        children
    }
}

/// The children with `child` recorded for `process_id`: it replaces the
/// child of that process, or comes last.
pub open spec fn with_child_stored(
    children: Seq<(ProcessId, ChildView)>,
    process_id: ProcessId,
    child: ChildView,
) -> Seq<(ProcessId, ChildView)> {
    if has_child(children, process_id) {
        children.update(child_index(children, process_id), (process_id, child))
    } else {
        children.push((process_id, child))
    }
}

/// The children without the child of `process_id`.
pub open spec fn without_child(children: Seq<(ProcessId, ChildView)>, process_id: ProcessId) -> Seq<
    (ProcessId, ChildView),
> {
    if has_child(children, process_id) {
        children.remove(child_index(children, process_id))
    } else {
        children
    }
}

/// The bundle identifiers of the children, in order.
pub open spec fn child_bundle_ids(children: Seq<(ProcessId, ChildView)>) -> Seq<Seq<char>> {
    children.map_values(|entry: (ProcessId, ChildView)| entry.1.bundle_id)
}

/// The windows with `window` added, unless it is there already.
pub open spec fn with_window(windows: Seq<RemoteWindowId>, window: RemoteWindowId) -> Seq<RemoteWindowId> {
    if windows.contains(window) {
        windows
    } else {
        windows.push(window)
    }
}

/// The windows without `window`.
pub open spec fn without_window(windows: Seq<RemoteWindowId>, window: RemoteWindowId) -> Seq<RemoteWindowId>
    decreases windows.len(),
{
    if windows.len() == 0 {
        windows
    } else if windows.last() == window {
        without_window(windows.drop_last(), window)
    } else {
        without_window(windows.drop_last(), window).push(windows.last())
    }
}

/// The windows that have a close deadline.
pub open spec fn deadline_windows(deadlines: Seq<(RemoteWindowId, u64)>) -> Seq<RemoteWindowId> {
    deadlines.map_values(|entry: (RemoteWindowId, u64)| entry.0)
}

/// The deadlines without that of `window`.
pub open spec fn without_deadline(deadlines: Seq<(RemoteWindowId, u64)>, window: RemoteWindowId) -> Seq<
    (RemoteWindowId, u64),
>
    decreases deadlines.len(),
{
    if deadlines.len() == 0 {
        deadlines
    } else if deadlines.last().0 == window {
        without_deadline(deadlines.drop_last(), window)
    } else {
        without_deadline(deadlines.drop_last(), window).push(deadlines.last())
    }
}

/// The deadlines with `at` as the deadline of `window`.
pub open spec fn with_deadline(deadlines: Seq<(RemoteWindowId, u64)>, window: RemoteWindowId, at: u64) -> Seq<
    (RemoteWindowId, u64),
> {
    without_deadline(deadlines, window).push((window, at))
}

/// The child once it asked for a window at `now`: registered from its first
/// such request on, and connected.
pub open spec fn registered(child: ChildView, now: u64) -> ChildView {
    ChildView {
        registered_at: if child.registered_at is Some {
            child.registered_at
        } else {
            Some(now)
        },
        disconnected_at: None,
        ..child
    }
}

/// The child once it closed `window`: the window and its close deadline are
/// forgotten.
pub open spec fn closed_window(child: ChildView, window: RemoteWindowId) -> ChildView {
    ChildView {
        windows: without_window(child.windows, window),
        close_deadlines: without_deadline(child.close_deadlines, window),
        ..child
    }
}

/// The child once its connection went away at `now`.
pub open spec fn disconnected(child: ChildView, now: u64) -> ChildView {
    ChildView { disconnected_at: Some(now), ..child }
}

/// The deadline by which a child asked at `now` must close a window.
pub open spec fn close_deadline(now: u64) -> u64 {
    if now + CLOSE_TIMEOUT_MS > u64::MAX {
        u64::MAX
    } else {
        (now + CLOSE_TIMEOUT_MS) as u64
    }
}

/// Time gone by from `since` to `now`, none if `since` is later.
pub open spec fn elapsed(now: u64, since: u64) -> int {
    if now >= since {
        now - since
    } else {
        0
    }
}

/// Whether the desktop ends this child at `now`: it never asked for a window
/// in time, the desktop shows none of its windows any more, its connection
/// has been gone too long, or it let a close deadline pass.
pub open spec fn child_expired(process_id: ProcessId, child: ChildView, active: Seq<ProcessId>, now: u64) -> bool {
    ||| child.registered_at is None && elapsed(now, child.launched_at) >= REGISTRATION_TIMEOUT_MS
    ||| child.registered_at matches Some(at) && !active.contains(process_id) && elapsed(now, at)
        >= ORPHAN_TIMEOUT_MS
    ||| child.disconnected_at matches Some(at) && elapsed(now, at) >= DISCONNECT_TIMEOUT_MS
    ||| exists|i: int| 0 <= i < child.close_deadlines.len() && now >= (#[trigger] child.close_deadlines[i]).1
}

/// The processes of the children that the desktop ends at `now`, in order.
pub open spec fn expired_children(children: Seq<(ProcessId, ChildView)>, active: Seq<ProcessId>, now: u64) -> Seq<
    ProcessId,
>
    decreases children.len(),
{
    if children.len() == 0 {
        Seq::empty()
    } else {
        let earlier = expired_children(children.drop_last(), active, now);
        if child_expired(children.last().0, children.last().1, active, now) {
            earlier.push(children.last().0)
        } else {
            earlier
        }
    }
}

/// The content that an internal entry launches, if it names one.
pub open spec fn internal_content_for_entry(entry: Seq<char>) -> Option<WindowContent> {
    if entry == ABOUT_ENTRY@ {
        Some(WindowContent::About)
    } else if entry == TEST_ENTRY@ {
        Some(WindowContent::Test)
    } else {
        None
    }
}

/// The internal application that an entry names, if any.
pub fn internal_app_for_entry(entry: &str) -> (content: Option<WindowContent>)
    ensures
        content == internal_content_for_entry(entry@),
{
    if text_equals(entry, ABOUT_ENTRY) {
        Some(WindowContent::About)
    } else if text_equals(entry, TEST_ENTRY) {
        Some(WindowContent::Test)
    } else {
        None
    }
}

/// The argument with which the desktop's own executable runs an internal
/// application.
pub fn role_argument(content: WindowContent) -> (argument: &'static str)
    ensures
        argument@ == match content {
            WindowContent::About => ABOUT_ROLE@,
            WindowContent::Test => TEST_ROLE@,
        },
{
    match content {
        WindowContent::About => ABOUT_ROLE,
        WindowContent::Test => TEST_ROLE,
    }
}

/// The bundle identifier under which an internal application runs when the
/// desktop launches it itself.
pub fn default_bundle_id(content: WindowContent) -> (bundle_id: &'static str)
    ensures
        bundle_id@ == match content {
            WindowContent::About => ABOUT_BUNDLE_ID@,
            WindowContent::Test => TEST_BUNDLE_ID@,
        },
{
    match content {
        WindowContent::About => ABOUT_BUNDLE_ID,
        WindowContent::Test => TEST_BUNDLE_ID,
    }
}

proof fn lemma_child_of_updated(children: Seq<(ProcessId, ChildView)>, process_id: ProcessId, child: ChildView)
    requires
        has_child(children, process_id),
    ensures
        child_of(with_child_updated(children, process_id, child), process_id) == Some(child),
{
    let i = child_index(children, process_id);
    let witness = choose|j: int| 0 <= j < children.len() && (#[trigger] children[j]).0 == process_id;
    lemma_first_child_exists(children, process_id, witness);
    let after = children.update(i, (process_id, child));
    assert(is_first_child(after, process_id, i));
    lemma_child_index(after, process_id, i);
}

proof fn lemma_first_child_exists(children: Seq<(ProcessId, ChildView)>, process_id: ProcessId, j: int)
    requires
        0 <= j < children.len(),
        children[j].0 == process_id,
    ensures
        is_first_child(children, process_id, child_index(children, process_id)),
    decreases j,
{
    if exists|m: int| 0 <= m < j && (#[trigger] children[m]).0 == process_id {
        let m = choose|m: int| 0 <= m < j && (#[trigger] children[m]).0 == process_id;
        lemma_first_child_exists(children, process_id, m);
    } else {
        assert(is_first_child(children, process_id, j));
    }
}

/// Every change the desktop makes to its children on Linux (updating a
/// child, recording one, forgetting one) keeps one entry per process.
pub proof fn lemma_children_stay_one_per_process(
    children: Seq<(ProcessId, ChildView)>,
    process_id: ProcessId,
    child: ChildView,
)
    requires
        one_entry_per_process(children),
    ensures
        one_entry_per_process(with_child_updated(children, process_id, child)),
        one_entry_per_process(with_child_stored(children, process_id, child)),
        one_entry_per_process(without_child(children, process_id)),
{
    if has_child(children, process_id) {
        let witness = choose|j: int| 0 <= j < children.len() && (#[trigger] children[j]).0 == process_id;
        lemma_first_child_exists(children, process_id, witness);
        let k = child_index(children, process_id);
        let updated = children.update(k, (process_id, child));
        assert forall|i: int, j: int| 0 <= i < j < updated.len() implies (#[trigger] updated[i]).0
            != (#[trigger] updated[j]).0 by {
            assert(children[i].0 != children[j].0);
        }
        let removed = children.remove(k);
        assert forall|i: int, j: int| 0 <= i < j < removed.len() implies (#[trigger] removed[i]).0
            != (#[trigger] removed[j]).0 by {
            let a = if i < k { i } else { i + 1 };
            let b = if j < k { j } else { j + 1 };
            assert(removed[i] == children[a] && removed[j] == children[b]);
            assert(children[a].0 != children[b].0);
        }
    } else {
        let pushed = children.push((process_id, child));
        assert forall|i: int, j: int| 0 <= i < j < pushed.len() implies (#[trigger] pushed[i]).0
            != (#[trigger] pushed[j]).0 by {
            if j == children.len() {
                assert(pushed[i] == children[i]);
            } else {
                assert(children[i].0 != children[j].0);
            }
        }
    }
}

proof fn lemma_without_window(windows: Seq<RemoteWindowId>, window: RemoteWindowId)
    ensures
        !without_window(windows, window).contains(window),
    decreases windows.len(),
{
    if windows.len() > 0 {
        lemma_without_window(windows.drop_last(), window);
    }
}

proof fn lemma_without_deadline(deadlines: Seq<(RemoteWindowId, u64)>, window: RemoteWindowId)
    ensures
        !deadline_windows(without_deadline(deadlines, window)).contains(window),
    decreases deadlines.len(),
{
    if deadlines.len() > 0 {
        lemma_without_deadline(deadlines.drop_last(), window);
        let shorter = without_deadline(deadlines.drop_last(), window);
        if deadlines.last().0 != window {
            assert(deadline_windows(shorter.push(deadlines.last())) =~= deadline_windows(shorter).push(
                deadlines.last().0,
            ));
        }
    }
}

/// Once the desktop asked a child to close one of its windows, it does not
/// ask again while the deadline runs: the window is still the child's, and
/// it has a deadline.
pub proof fn lemma_close_asked_once(
    children: Seq<(ProcessId, ChildView)>,
    process_id: ProcessId,
    window: RemoteWindowId,
    now: u64,
)
    requires
        child_of(children, process_id) matches Some(child) && child.windows.contains(window),
    ensures
        ({
            let child = child_of(children, process_id)->Some_0;
            let after = with_child_updated(
                children,
                process_id,
                ChildView {
                    close_deadlines: with_deadline(child.close_deadlines, window, close_deadline(now)),
                    ..child
                },
            );
            &&& child_of(after, process_id) matches Some(asked) && asked.windows.contains(window)
                && deadline_windows(asked.close_deadlines).contains(window)
        }),
{
    let child = child_of(children, process_id)->Some_0;
    let deadlines = with_deadline(child.close_deadlines, window, close_deadline(now));
    lemma_child_of_updated(children, process_id, ChildView { close_deadlines: deadlines, ..child });
    assert(deadline_windows(deadlines)[deadlines.len() - 1] == window);
}

/// A window that its child closed is forgotten: the child no longer owns it,
/// so the desktop may not ask about it any more, and no deadline runs for it.
pub proof fn lemma_closed_window_forgotten(child: ChildView, window: RemoteWindowId)
    ensures
        !closed_window(child, window).windows.contains(window),
        !deadline_windows(closed_window(child, window).close_deadlines).contains(window),
{
    lemma_without_window(child.windows, window);
    lemma_without_deadline(child.close_deadlines, window);
}

fn contains_window(windows: &Vec<RemoteWindowId>, window: RemoteWindowId) -> (found: bool)
    ensures
        found == windows@.contains(window),
{
    let mut i: usize = 0;
    while i < windows.len()
        invariant
            i <= windows@.len(),
            forall|j: int| 0 <= j < i ==> windows@[j] != window,
        decreases windows@.len() - i,
    {
        if windows[i] == window {
            return true;
        }
        i = i + 1;
    }
    false
}

fn has_deadline(deadlines: &Vec<(RemoteWindowId, u64)>, window: RemoteWindowId) -> (found: bool)
    ensures
        found == deadline_windows(deadlines@).contains(window),
{
    let mut i: usize = 0;
    while i < deadlines.len()
        invariant
            i <= deadlines@.len(),
            forall|j: int| 0 <= j < i ==> deadlines@[j].0 != window,
        decreases deadlines@.len() - i,
    {
        if deadlines[i].0 == window {
            assert(deadline_windows(deadlines@)[i as int] == window);
            return true;
        }
        i = i + 1;
    }
    assert forall|j: int| 0 <= j < deadline_windows(deadlines@).len() implies deadline_windows(
        deadlines@,
    )[j] != window by {
        assert(deadline_windows(deadlines@)[j] == deadlines@[j].0);
    }
    false
}

fn windows_without(windows: &Vec<RemoteWindowId>, window: RemoteWindowId) -> (kept: Vec<RemoteWindowId>)
    ensures
        kept@ == without_window(windows@, window),
{
    let mut kept: Vec<RemoteWindowId> = Vec::new();
    let mut i: usize = 0;
    while i < windows.len()
        invariant
            i <= windows@.len(),
            kept@ == without_window(windows@.take(i as int), window),
        decreases windows@.len() - i,
    {
        assert(windows@.take(i + 1).drop_last() =~= windows@.take(i as int));
        if windows[i] != window {
            kept.push(windows[i]);
        }
        i = i + 1;
    }
    assert(windows@.take(i as int) =~= windows@);
    kept
}

fn deadlines_without(deadlines: &Vec<(RemoteWindowId, u64)>, window: RemoteWindowId) -> (kept: Vec<
    (RemoteWindowId, u64),
>)
    ensures
        kept@ == without_deadline(deadlines@, window),
{
    let mut kept: Vec<(RemoteWindowId, u64)> = Vec::new();
    let mut i: usize = 0;
    while i < deadlines.len()
        invariant
            i <= deadlines@.len(),
            kept@ == without_deadline(deadlines@.take(i as int), window),
        decreases deadlines@.len() - i,
    {
        assert(deadlines@.take(i + 1).drop_last() =~= deadlines@.take(i as int));
        if deadlines[i].0 != window {
            kept.push(deadlines[i]);
        }
        i = i + 1;
    }
    assert(deadlines@.take(i as int) =~= deadlines@);
    kept
}

fn contains_process(processes: &[ProcessId], process_id: ProcessId) -> (found: bool)
    ensures
        found == processes@.contains(process_id),
{
    let mut i: usize = 0;
    while i < processes.len()
        invariant
            i <= processes@.len(),
            forall|j: int| 0 <= j < i ==> processes@[j] != process_id,
        decreases processes@.len() - i,
    {
        if processes[i] == process_id {
            return true;
        }
        i = i + 1;
    }
    false
}

/// The desktop's bookkeeping on Linux: the system bar, its children, and
/// what the desktop has yet to be told about them.
pub struct LinuxPlatform {
    system_bar: SystemBarState,
    children: Vec<(ProcessId, LinuxChild)>,
    create_window_requests: Vec<CreateWindowRequest>,
    close_window_requests: Vec<CloseWindowRequest>,
    exited_processes: Vec<ProcessId>,
}


impl LinuxPlatform {
    pub closed spec fn children_view(&self) -> Seq<(ProcessId, ChildView)> {
        child_views(self.children@)
    }

    pub closed spec fn pending_creates(&self) -> Seq<CreateWindowRequest> {
        self.create_window_requests@
    }

    pub closed spec fn pending_closes(&self) -> Seq<CloseWindowRequest> {
        self.close_window_requests@
    }

    pub closed spec fn exited(&self) -> Seq<ProcessId> {
        self.exited_processes@
    }

    pub closed spec fn clock(&self) -> (Seq<char>, Seq<char>) {
        (self.system_bar.clock.date@, self.system_bar.clock.time@)
    }

    /// The bookkeeping of a desktop that has launched nothing yet.
    pub fn new(system_bar: SystemBarState) -> (platform: Self)
        ensures
            platform.clock() == (system_bar.clock.date@, system_bar.clock.time@),
            platform.children_view().len() == 0,
            platform.pending_creates().len() == 0,
            platform.pending_closes().len() == 0,
            platform.exited().len() == 0,
    {
        LinuxPlatform {
            system_bar,
            children: Vec::new(),
            create_window_requests: Vec::new(),
            close_window_requests: Vec::new(),
            exited_processes: Vec::new(),
        }
    }

    /// The system bar as last read.
    pub fn system_bar_state(&self) -> (state: &SystemBarState)
        ensures
            (state.clock.date@, state.clock.time@) == self.clock(),
    {
        &self.system_bar
    }

    /// Takes a newly read clock; says whether it differs from the one shown.
    pub fn update_clock(&mut self, clock: ClockState) -> (changed: bool)
        ensures
            changed == ((clock.date@, clock.time@) != old(self).clock()),
            final(self).clock() == (clock.date@, clock.time@),
            final(self).children_view() == old(self).children_view(),
            final(self).pending_creates() == old(self).pending_creates(),
            final(self).pending_closes() == old(self).pending_closes(),
            final(self).exited() == old(self).exited(),
    {
        let changed = !(self.system_bar.clock.date == clock.date && self.system_bar.clock.time == clock.time);
        if changed {
            self.system_bar.clock = clock;
        }
        changed
    }

    fn find_child(&self, process_id: ProcessId) -> (index: Option<usize>)
        ensures
            match index {
                Some(i) => is_first_child(self.children_view(), process_id, i as int) && i
                    < self.children@.len(),
                None => !has_child(self.children_view(), process_id),
            },
    {
        let mut i: usize = 0;
        while i < self.children.len()
            invariant
                i <= self.children@.len(),
                forall|j: int| 0 <= j < i ==> (#[trigger] self.children_view()[j]).0 != process_id,
            decreases self.children@.len() - i,
        {
            if self.children[i].0 == process_id {
                return Some(i);
            }
            i = i + 1;
        }
        None
    }

    /// The processes of the children, in the order they were launched.
    pub fn process_ids(&self) -> (ids: Vec<ProcessId>)
        ensures
            ids@ == self.children_view().map_values(|entry: (ProcessId, ChildView)| entry.0),
    {
        let mut ids: Vec<ProcessId> = Vec::new();
        let mut i: usize = 0;
        while i < self.children.len()
            invariant
                i <= self.children@.len(),
                ids@ == self.children_view().take(i as int).map_values(
                    |entry: (ProcessId, ChildView)| entry.0,
                ),
            decreases self.children@.len() - i,
        {
            ids.push(self.children[i].0);
            i = i + 1;
            assert(ids@ =~= self.children_view().take(i as int).map_values(
                |entry: (ProcessId, ChildView)| entry.0,
            ));
        }
        assert(self.children_view().take(i as int) =~= self.children_view());
        ids
    }

    /// The process of the first child running this bundle, if any: the
    /// desktop runs each bundle once.
    pub fn process_for_bundle(&self, bundle_id: &str) -> (process_id: Option<ProcessId>)
        ensures
            match process_id {
                Some(pid) => exists|i: int|
                    0 <= i < self.children_view().len() && (#[trigger] self.children_view()[i]).0 == pid
                        && self.children_view()[i].1.bundle_id == bundle_id@ && forall|j: int|
                        0 <= j < i ==> (#[trigger] self.children_view()[j]).1.bundle_id != bundle_id@,
                None => forall|i: int|
                    0 <= i < self.children_view().len() ==> (#[trigger] self.children_view()[i]).1.bundle_id
                        != bundle_id@,
            },
    {
        let mut i: usize = 0;
        while i < self.children.len()
            invariant
                i <= self.children@.len(),
                forall|j: int| 0 <= j < i ==> (#[trigger] self.children_view()[j]).1.bundle_id != bundle_id@,
            decreases self.children@.len() - i,
        {
            if same_text(&self.children[i].1.bundle_id, bundle_id) {
                assert(self.children_view()[i as int].1.bundle_id == bundle_id@);
                return Some(self.children[i].0);
            }
            i = i + 1;
        }
        None
    }

    /// The bundle identifiers of the children, in the order they were
    /// launched.
    pub fn running_app_bundle_ids(&self) -> (ids: Vec<String>)
        ensures
            string_views(ids@) == child_bundle_ids(self.children_view()),
    {
        let mut ids: Vec<String> = Vec::new();
        let mut i: usize = 0;
        while i < self.children.len()
            invariant
                i <= self.children@.len(),
                ids@.len() == i,
                string_views(ids@) == child_bundle_ids(self.children_view().take(i as int)),
            decreases self.children@.len() - i,
        {
            let id = self.children[i].1.bundle_id.clone();
            let ghost previous = ids@;
            ids.push(id);
            assert(ids@ == previous.push(id));
            assert(self.children_view()[i as int].1.bundle_id == id@);
            assert(self.children_view().take(i + 1) =~= self.children_view().take(i as int).push(
                self.children_view()[i as int],
            ));
            assert forall|j: int| 0 <= j < i + 1 implies string_views(ids@)[j] == child_bundle_ids(
                self.children_view().take(i + 1),
            )[j] by {
                if j < i {
                    assert(string_views(previous)[j] == child_bundle_ids(
                        self.children_view().take(i as int),
                    )[j]);
                }
            }
            assert(string_views(ids@) =~= child_bundle_ids(self.children_view().take(i + 1)));
            i = i + 1;
        }
        assert(self.children_view().take(self.children@.len() as int) =~= self.children_view());
        ids
    }

    /// Takes a child's request for a window: the child counts as registered
    /// and connected, and the desktop is to create the window, with the
    /// content the child was launched for. Requests of processes that are not
    /// children are ignored.
    pub fn handle_create_window(
        &mut self,
        process_id: ProcessId,
        title: String,
        width: u32,
        height: u32,
        resizable: bool,
        now: u64,
    )
        ensures
            match child_of(old(self).children_view(), process_id) {
                None => final(self).children_view() == old(self).children_view()
                    && final(self).pending_creates() == old(self).pending_creates(),
                Some(child) => final(self).children_view() == with_child_updated(
                    old(self).children_view(),
                    process_id,
                    registered(child, now),
                ) && final(self).pending_creates() == old(self).pending_creates().push(
                    CreateWindowRequest { process_id, content: child.content, title, width, height, resizable },
                ),
            },
            final(self).clock() == old(self).clock(),
            final(self).pending_closes() == old(self).pending_closes(),
            final(self).exited() == old(self).exited(),
    {
        let index = match self.find_child(process_id) {
            Some(index) => index,
            None => {
                return;
            },
        };
        proof {
            lemma_child_index(self.children_view(), process_id, index as int);
        }
        let ghost before = self.children_view()[index as int].1;
        if self.children[index].1.registered_at.is_none() {
            self.children[index].1.registered_at = Some(now);
        }
        self.children[index].1.disconnected_at = None;
        assert(self.children_view() =~= old(self).children_view().update(
            index as int,
            (process_id, registered(before, now)),
        ));
        let content = self.children[index].1.content;
        self.create_window_requests.push(
            CreateWindowRequest { process_id, content, title, width, height, resizable },
        );
    }

    /// Takes a child's word that it closed one of its windows: the desktop
    /// forgets the window and is to remove it. Words about windows that the
    /// child does not own are ignored.
    pub fn handle_close_window(&mut self, process_id: ProcessId, window: RemoteWindowId)
        ensures
            match child_of(old(self).children_view(), process_id) {
                Some(child) if child.windows.contains(window) => final(self).children_view()
                    == with_child_updated(
                    old(self).children_view(),
                    process_id,
                    closed_window(child, window),
                ) && final(self).pending_closes() == old(self).pending_closes().push(
                    CloseWindowRequest { process_id, window },
                ),
                _ => final(self).children_view() == old(self).children_view()
                    && final(self).pending_closes() == old(self).pending_closes(),
            },
            final(self).clock() == old(self).clock(),
            final(self).pending_creates() == old(self).pending_creates(),
            final(self).exited() == old(self).exited(),
    {
        let index = match self.find_child(process_id) {
            Some(index) => index,
            None => {
                return;
            },
        };
        proof {
            lemma_child_index(self.children_view(), process_id, index as int);
        }
        let ghost before = self.children_view()[index as int].1;
        if !contains_window(&self.children[index].1.windows, window) {
            return;
        }
        let windows = windows_without(&self.children[index].1.windows, window);
        let deadlines = deadlines_without(&self.children[index].1.close_deadlines, window);
        self.children[index].1.windows = windows;
        self.children[index].1.close_deadlines = deadlines;
        assert(self.children_view() =~= old(self).children_view().update(
            index as int,
            (process_id, closed_window(before, window)),
        ));
        self.close_window_requests.push(CloseWindowRequest { process_id, window });
    }

    /// Takes the news that a child's connection went away at `now`.
    pub fn handle_disconnected(&mut self, process_id: ProcessId, now: u64)
        ensures
            match child_of(old(self).children_view(), process_id) {
                None => final(self).children_view() == old(self).children_view(),
                Some(child) => final(self).children_view() == with_child_updated(
                    old(self).children_view(),
                    process_id,
                    disconnected(child, now),
                ),
            },
            final(self).clock() == old(self).clock(),
            final(self).pending_creates() == old(self).pending_creates(),
            final(self).pending_closes() == old(self).pending_closes(),
            final(self).exited() == old(self).exited(),
    {
        if let Some(index) = self.find_child(process_id) {
            proof {
                lemma_child_index(self.children_view(), process_id, index as int);
            }
            let ghost before = self.children_view()[index as int].1;
            self.children[index].1.disconnected_at = Some(now);
            assert(self.children_view() =~= old(self).children_view().update(
                index as int,
                (process_id, disconnected(before, now)),
            ));
        }
    }

    /// Takes what the desktop's socket reported at `now`.
    pub fn handle_transport_event(&mut self, event: TransportEvent, now: u64)
        ensures
            match event {
                TransportEvent::Request {
                    process_id,
                    request: ClientRequest::CreateWindow { title, width, height, resizable, .. },
                } => {
                    &&& final(self).pending_closes() == old(self).pending_closes()
                    &&& match child_of(old(self).children_view(), process_id) {
                        None => final(self).children_view() == old(self).children_view()
                            && final(self).pending_creates() == old(self).pending_creates(),
                        Some(child) => final(self).children_view() == with_child_updated(
                            old(self).children_view(),
                            process_id,
                            registered(child, now),
                        ) && final(self).pending_creates() == old(self).pending_creates().push(
                            CreateWindowRequest { process_id, content: child.content, title, width, height, resizable },
                        ),
                    }
                },
                TransportEvent::Request { process_id, request: ClientRequest::CloseWindow { window } } => {
                    &&& final(self).pending_creates() == old(self).pending_creates()
                    &&& match child_of(old(self).children_view(), process_id) {
                        Some(child) if child.windows.contains(window) => final(self).children_view()
                            == with_child_updated(
                            old(self).children_view(),
                            process_id,
                            closed_window(child, window),
                        ) && final(self).pending_closes() == old(self).pending_closes().push(
                            CloseWindowRequest { process_id, window },
                        ),
                        _ => final(self).children_view() == old(self).children_view()
                            && final(self).pending_closes() == old(self).pending_closes(),
                    }
                },
                TransportEvent::Disconnected { process_id } => {
                    &&& final(self).pending_creates() == old(self).pending_creates()
                    &&& final(self).pending_closes() == old(self).pending_closes()
                    &&& match child_of(old(self).children_view(), process_id) {
                        None => final(self).children_view() == old(self).children_view(),
                        Some(child) => final(self).children_view() == with_child_updated(
                            old(self).children_view(),
                            process_id,
                            disconnected(child, now),
                        ),
                    }
                },
            },
            final(self).clock() == old(self).clock(),
            final(self).exited() == old(self).exited(),
    {
        match event {
            TransportEvent::Request { process_id, request } => match request {
                ClientRequest::CreateWindow { title, width, height, resizable, .. } => {
                    self.handle_create_window(process_id, title, width, height, resizable, now);
                },
                ClientRequest::CloseWindow { window } => {
                    self.handle_close_window(process_id, window);
                },
            },
            TransportEvent::Disconnected { process_id } => {
                self.handle_disconnected(process_id, now);
            },
        }
    }

    /// The event that tells a child of a window the desktop created for it;
    /// only a child that asked for a window may be given one.
    pub fn window_registration(&self, process_id: ProcessId, window: RemoteWindowId) -> (event: Result<
        ServerEvent,
        PlatformError,
    >)
        ensures
            event == match child_of(self.children_view(), process_id) {
                None => Err(PlatformError::ServiceUnavailable),
                Some(child) => if child.registered_at is None {
                    Err(PlatformError::InvalidResponse)
                } else {
                    Ok(ServerEvent::WindowCreated { window })
                },
            },
    {
        let index = match self.find_child(process_id) {
            Some(index) => index,
            None => {
                return Err(PlatformError::ServiceUnavailable);
            },
        };
        proof {
            lemma_child_index(self.children_view(), process_id, index as int);
        }
        if self.children[index].1.registered_at.is_none() {
            return Err(PlatformError::InvalidResponse);
        }
        Ok(ServerEvent::WindowCreated { window })
    }

    /// Records that the desktop gave `window` to the child, once it was told.
    pub fn record_window(&mut self, process_id: ProcessId, window: RemoteWindowId)
        ensures
            match child_of(old(self).children_view(), process_id) {
                None => final(self).children_view() == old(self).children_view(),
                Some(child) => final(self).children_view() == with_child_updated(
                    old(self).children_view(),
                    process_id,
                    ChildView { windows: with_window(child.windows, window), ..child },
                ),
            },
            final(self).clock() == old(self).clock(),
            final(self).pending_creates() == old(self).pending_creates(),
            final(self).pending_closes() == old(self).pending_closes(),
            final(self).exited() == old(self).exited(),
    {
        if let Some(index) = self.find_child(process_id) {
            proof {
                lemma_child_index(self.children_view(), process_id, index as int);
            }
            let ghost before = self.children_view()[index as int].1;
            if !contains_window(&self.children[index].1.windows, window) {
                self.children[index].1.windows.push(window);
            }
            assert(self.children_view() =~= old(self).children_view().update(
                index as int,
                (process_id, ChildView { windows: with_window(before.windows, window), ..before }),
            ));
        }
    }

    /// The event that asks a child to close one of its windows: `None` when
    /// it was asked already and the deadline runs; a child may only be asked
    /// about its own windows.
    pub fn close_request(&self, process_id: ProcessId, window: RemoteWindowId) -> (event: Result<
        Option<ServerEvent>,
        PlatformError,
    >)
        ensures
            event == match child_of(self.children_view(), process_id) {
                None => Err(PlatformError::ServiceUnavailable),
                Some(child) => if !child.windows.contains(window) {
                    Err(PlatformError::PermissionDenied)
                } else if deadline_windows(child.close_deadlines).contains(window) {
                    Ok(None)
                } else {
                    Ok(Some(ServerEvent::CloseRequested { window }))
                },
            },
    {
        let index = match self.find_child(process_id) {
            Some(index) => index,
            None => {
                return Err(PlatformError::ServiceUnavailable);
            },
        };
        proof {
            lemma_child_index(self.children_view(), process_id, index as int);
        }
        if !contains_window(&self.children[index].1.windows, window) {
            return Err(PlatformError::PermissionDenied);
        }
        if has_deadline(&self.children[index].1.close_deadlines, window) {
            return Ok(None);
        }
        Ok(Some(ServerEvent::CloseRequested { window }))
    }

    /// Records that the child was asked at `now` to close `window`, once it
    /// was told; it has `CLOSE_TIMEOUT_MS` to do so.
    pub fn record_close_deadline(&mut self, process_id: ProcessId, window: RemoteWindowId, now: u64)
        ensures
            match child_of(old(self).children_view(), process_id) {
                None => final(self).children_view() == old(self).children_view(),
                Some(child) => final(self).children_view() == with_child_updated(
                    old(self).children_view(),
                    process_id,
                    ChildView {
                        close_deadlines: with_deadline(child.close_deadlines, window, close_deadline(now)),
                        ..child
                    },
                ),
            },
            final(self).clock() == old(self).clock(),
            final(self).pending_creates() == old(self).pending_creates(),
            final(self).pending_closes() == old(self).pending_closes(),
            final(self).exited() == old(self).exited(),
    {
        if let Some(index) = self.find_child(process_id) {
            proof {
                lemma_child_index(self.children_view(), process_id, index as int);
            }
            let ghost before = self.children_view()[index as int].1;
            let mut deadlines = deadlines_without(&self.children[index].1.close_deadlines, window);
            deadlines.push((window, now.saturating_add(CLOSE_TIMEOUT_MS)));
            self.children[index].1.close_deadlines = deadlines;
            assert(self.children_view() =~= old(self).children_view().update(
                index as int,
                (
                    process_id,
                    ChildView {
                        close_deadlines: with_deadline(before.close_deadlines, window, close_deadline(now)),
                        ..before
                    },
                ),
            ));
        }
    }

    fn check_window_owner(&self, process_id: ProcessId, window: RemoteWindowId) -> (checked: Result<
        (),
        PlatformError,
    >)
        ensures
            checked == match child_of(self.children_view(), process_id) {
                None => Err(PlatformError::ServiceUnavailable),
                Some(child) => if child.windows.contains(window) {
                    Ok(())
                } else {
                    Err(PlatformError::PermissionDenied)
                },
            },
    {
        let index = match self.find_child(process_id) {
            Some(index) => index,
            None => {
                return Err(PlatformError::ServiceUnavailable);
            },
        };
        proof {
            lemma_child_index(self.children_view(), process_id, index as int);
        }
        if !contains_window(&self.children[index].1.windows, window) {
            return Err(PlatformError::PermissionDenied);
        }
        Ok(())
    }

    /// The event that tells a child that one of its windows was resized.
    pub fn resize_event(&self, notification: WindowResizedNotification) -> (event: Result<
        ServerEvent,
        PlatformError,
    >)
        ensures
            event == match child_of(self.children_view(), notification.process_id) {
                None => Err(PlatformError::ServiceUnavailable),
                Some(child) => if child.windows.contains(notification.window) {
                    Ok(
                        ServerEvent::Resized {
                            window: notification.window,
                            width: notification.width,
                            height: notification.height,
                        },
                    )
                } else {
                    Err(PlatformError::PermissionDenied)
                },
            },
    {
        self.check_window_owner(notification.process_id, notification.window)?;
        Ok(
            ServerEvent::Resized {
                window: notification.window,
                width: notification.width,
                height: notification.height,
            },
        )
    }

    /// The event that tells a child that one of its windows gained or lost
    /// the focus.
    pub fn focus_event(&self, notification: WindowFocusChangedNotification) -> (event: Result<
        ServerEvent,
        PlatformError,
    >)
        ensures
            event == match child_of(self.children_view(), notification.process_id) {
                None => Err(PlatformError::ServiceUnavailable),
                Some(child) => if child.windows.contains(notification.window) {
                    Ok(
                        ServerEvent::FocusChanged {
                            window: notification.window,
                            focused: notification.focused,
                        },
                    )
                } else {
                    Err(PlatformError::PermissionDenied)
                },
            },
    {
        self.check_window_owner(notification.process_id, notification.window)?;
        Ok(ServerEvent::FocusChanged { window: notification.window, focused: notification.focused })
    }

    /// The processes of the children that the desktop ends at `now`, given
    /// the processes whose windows it still shows, in order.
    pub fn expired_processes(&self, active: &[ProcessId], now: u64) -> (expired: Vec<ProcessId>)
        ensures
            expired@ == expired_children(self.children_view(), active@, now),
    {
        let mut expired: Vec<ProcessId> = Vec::new();
        let mut i: usize = 0;
        while i < self.children.len()
            invariant
                i <= self.children@.len(),
                expired@ == expired_children(self.children_view().take(i as int), active@, now),
            decreases self.children@.len() - i,
        {
            let process_id = self.children[i].0;
            let child = &self.children[i].1;
            let ghost view = self.children_view()[i as int];
            assert(self.children_view().take(i + 1).drop_last() =~= self.children_view().take(i as int));
            assert(self.children_view().take(i + 1).last() == view);
            let registration_timeout = child.registered_at.is_none() && now.saturating_sub(child.launched_at)
                >= REGISTRATION_TIMEOUT_MS;
            let orphaned = match child.registered_at {
                Some(at) => !contains_process(active, process_id) && now.saturating_sub(at)
                    >= ORPHAN_TIMEOUT_MS,
                None => false,
            };
            let gone = match child.disconnected_at {
                Some(at) => now.saturating_sub(at) >= DISCONNECT_TIMEOUT_MS,
                None => false,
            };
            assert(child_view(*child) == view.1);
            let mut close_timeout = false;
            let mut d: usize = 0;
            while d < child.close_deadlines.len()
                invariant
                    d <= child.close_deadlines@.len(),
                    view.1.close_deadlines == child.close_deadlines@,
                    close_timeout == exists|m: int| 0 <= m < d && now >= (#[trigger] view.1.close_deadlines[m]).1,
                decreases child.close_deadlines@.len() - d,
            {
                if now >= child.close_deadlines[d].1 {
                    assert(now >= view.1.close_deadlines[d as int].1);
                    close_timeout = true;
                }
                d = d + 1;
            }
            assert(child_view(*child) == view.1);
            assert(view.0 == process_id);
            assert(close_timeout == exists|m: int|
                0 <= m < view.1.close_deadlines.len() && now >= (#[trigger] view.1.close_deadlines[m]).1);
            assert((registration_timeout || orphaned || gone || close_timeout) == child_expired(
                process_id,
                view.1,
                active@,
                now,
            ));
            if registration_timeout || orphaned || gone || close_timeout {
                expired.push(process_id);
            }
            i = i + 1;
        }
        assert(self.children_view().take(i as int) =~= self.children_view());
        expired
    }

    /// Forgets the child of `process_id`, and reports its process as exited
    /// when `exited` says that it ended; says whether there was such a child.
    pub fn remove_child(&mut self, process_id: ProcessId, exited: bool) -> (removed: bool)
        ensures
            removed == has_child(old(self).children_view(), process_id),
            final(self).children_view() == without_child(old(self).children_view(), process_id),
            final(self).exited() == if removed && exited {
                old(self).exited().push(process_id)
            } else {
                old(self).exited()
            },
            final(self).clock() == old(self).clock(),
            final(self).pending_creates() == old(self).pending_creates(),
            final(self).pending_closes() == old(self).pending_closes(),
    {
        match self.find_child(process_id) {
            Some(index) => {
                proof {
                    lemma_child_index(self.children_view(), process_id, index as int);
                }
                self.children.remove(index);
                assert(self.children_view() =~= old(self).children_view().remove(index as int));
                if exited {
                    self.exited_processes.push(process_id);
                }
                true
            },
            None => false,
        }
    }

    /// The windows the desktop is to create, oldest first; none are left.
    pub fn take_create_window_requests(&mut self) -> (requests: Vec<CreateWindowRequest>)
        ensures
            requests@ == old(self).pending_creates(),
            final(self).pending_creates().len() == 0,
            final(self).children_view() == old(self).children_view(),
            final(self).pending_closes() == old(self).pending_closes(),
            final(self).exited() == old(self).exited(),
            final(self).clock() == old(self).clock(),
    {
        let mut requests: Vec<CreateWindowRequest> = Vec::new();
        std::mem::swap(&mut requests, &mut self.create_window_requests);
        requests
    }

    /// The windows the desktop is to remove, oldest first; none are left.
    pub fn take_close_window_requests(&mut self) -> (requests: Vec<CloseWindowRequest>)
        ensures
            requests@ == old(self).pending_closes(),
            final(self).pending_closes().len() == 0,
            final(self).children_view() == old(self).children_view(),
            final(self).pending_creates() == old(self).pending_creates(),
            final(self).exited() == old(self).exited(),
            final(self).clock() == old(self).clock(),
    {
        let mut requests: Vec<CloseWindowRequest> = Vec::new();
        std::mem::swap(&mut requests, &mut self.close_window_requests);
        requests
    }

    /// The processes that exited, oldest first; none are left.
    pub fn take_exited_processes(&mut self) -> (exited: Vec<ProcessId>)
        ensures
            exited@ == old(self).exited(),
            final(self).exited().len() == 0,
            final(self).children_view() == old(self).children_view(),
            final(self).pending_creates() == old(self).pending_creates(),
            final(self).pending_closes() == old(self).pending_closes(),
            final(self).clock() == old(self).clock(),
    {
        let mut exited: Vec<ProcessId> = Vec::new();
        std::mem::swap(&mut exited, &mut self.exited_processes);
        exited
    }

    /// Records a child just launched at `now` for this bundle and content;
    /// a child already recorded for the same process is replaced.
    pub fn insert_child(&mut self, process_id: ProcessId, content: WindowContent, bundle_id: String, now: u64)
        ensures
            final(self).children_view() == with_child_stored(
                old(self).children_view(),
                process_id,
                ChildView {
                    content,
                    bundle_id: bundle_id@,
                    launched_at: now,
                    registered_at: None,
                    disconnected_at: None,
                    windows: Seq::empty(),
                    close_deadlines: Seq::empty(),
                },
            ),
            final(self).clock() == old(self).clock(),
            final(self).pending_creates() == old(self).pending_creates(),
            final(self).pending_closes() == old(self).pending_closes(),
            final(self).exited() == old(self).exited(),
    {
        let child = LinuxChild {
            content,
            bundle_id,
            launched_at: now,
            registered_at: None,
            disconnected_at: None,
            windows: Vec::new(),
            close_deadlines: Vec::new(),
        };
        let ghost view = child_view(child);
        match self.find_child(process_id) {
            Some(index) => {
                proof {
                    lemma_child_index(self.children_view(), process_id, index as int);
                }
                self.children.set(index, (process_id, child));
                assert(self.children_view() =~= old(self).children_view().update(
                    index as int,
                    (process_id, view),
                ));
            },
            None => {
                self.children.push((process_id, child));
                assert(self.children_view() =~= old(self).children_view().push((process_id, view)));
            },
        }
    }
}

} // verus!
