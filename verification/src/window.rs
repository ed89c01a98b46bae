//! The desktop's windows: their stacking order, focus, minimised and
//! maximised states, the controls under the pointer, and what the owning
//! processes must be told.
use crate::platform::{
    CloseWindowRequest, ProcessId, WindowFocusChangedNotification, WindowResizedNotification,
};
use crate::protocol::RemoteWindowId;
use vstd::prelude::*;

verus! {

#[derive(Clone, Copy, Debug, PartialEq, Eq, Hash, Structural)]
pub struct WindowId(pub u64);

/// What a window shows.
#[derive(Clone, Copy, Debug, PartialEq, Eq, Structural)]
pub enum WindowContent {
    About,
    Test,
}

/// The buttons in a window's title bar.
#[derive(Clone, Copy, Debug, PartialEq, Eq, Structural)]
pub enum WindowControl {
    Minimize,
    Maximize,
    Close,
}

/// The title-bar control under the pointer, and the one held down.
#[derive(Clone, Copy, Debug, Default, PartialEq, Eq, Structural)]
pub struct WindowInteraction {
    pub hovered: Option<WindowControl>,
    pub pressed: Option<WindowControl>,
}


/// A window on the desktop. The frame is kept in whatever type the toolkit
/// draws with; the model only moves frames around.
#[derive(Clone, Debug, PartialEq)]
pub struct DesktopWindow<F> {
    pub id: WindowId,
    pub title: String,
    pub frame: F,
    pub resizable: bool,
    pub minimized: bool,
    pub close_requested: bool,
    pub content: WindowContent,
    pub process_id: Option<ProcessId>,
    pub remote_window: Option<RemoteWindowId>,
    pub interaction: WindowInteraction,
    pub restore_frame: Option<F>,
}

/// The windows from bottom to top, the focused one, and what the processes
/// that own windows have and have not been told.
#[derive(Clone, Debug, PartialEq)]
pub struct DesktopWindows<F> {
    pub windows: Vec<DesktopWindow<F>>,
    pub focused: Option<WindowId>,
    next_id: u64,
    pending_close_requests: Vec<CloseWindowRequest>,
    reported_sizes: Vec<((ProcessId, RemoteWindowId), (u32, u32))>,
    reported_focus: Vec<((ProcessId, RemoteWindowId), bool)>,
}

/// The lowest window with a title-bar control held down, and that control.
pub open spec fn first_pressed<F>(windows: Seq<DesktopWindow<F>>) -> Option<(WindowId, WindowControl)>
    decreases windows.len(),
{
    if windows.len() == 0 {
        None
    } else {
        match windows[0].interaction.pressed {
            Some(control) => Some((windows[0].id, control)),
            None => first_pressed(windows.drop_first()),
        }
    }
}

pub open spec fn no_interaction() -> WindowInteraction {
    WindowInteraction { hovered: None, pressed: None }
}

/// Whether `i` is the position of the lowest window with this id.
pub open spec fn is_first_with_id<F>(windows: Seq<DesktopWindow<F>>, id: WindowId, i: int) -> bool {
    0 <= i < windows.len() && windows[i].id == id && forall|j: int|
        0 <= j < i ==> (#[trigger] windows[j]).id != id
}

pub open spec fn has_window<F>(windows: Seq<DesktopWindow<F>>, id: WindowId) -> bool {
    exists|i: int| 0 <= i < windows.len() && (#[trigger] windows[i]).id == id
}

/// The position of the lowest window with this id.
pub open spec fn first_with_id<F>(windows: Seq<DesktopWindow<F>>, id: WindowId) -> int {
    choose|i: int| is_first_with_id(windows, id, i)
}

/// The topmost window that is not minimised.
pub open spec fn topmost_visible<F>(windows: Seq<DesktopWindow<F>>) -> Option<WindowId>
    decreases windows.len(),
{
    if windows.len() == 0 {
        None
    } else if !windows.last().minimized {
        Some(windows.last().id)
    } else {
        topmost_visible(windows.drop_last())
    }
}

/// The windows of a process.
pub open spec fn owned_by<F>(window: DesktopWindow<F>, process_id: ProcessId) -> bool {
    window.process_id == Some(process_id)
}

/// The processes that own the windows, bottom to top, once per window.
pub open spec fn owning_processes<F>(windows: Seq<DesktopWindow<F>>) -> Seq<ProcessId>
    decreases windows.len(),
{
    if windows.len() == 0 {
        Seq::empty()
    } else {
        match windows.last().process_id {
            Some(process_id) => owning_processes(windows.drop_last()).push(process_id),
            None => owning_processes(windows.drop_last()),
        }
    }
}

/// The windows without those that have this id.
pub open spec fn without_window<F>(windows: Seq<DesktopWindow<F>>, id: WindowId) -> Seq<DesktopWindow<F>>
    decreases windows.len(),
{
    if windows.len() == 0 {
        windows
    } else if windows.last().id == id {
        without_window(windows.drop_last(), id)
    } else {
        without_window(windows.drop_last(), id).push(windows.last())
    }
}

/// The windows without those of this process.
pub open spec fn without_process<F>(windows: Seq<DesktopWindow<F>>, process_id: ProcessId) -> Seq<
    DesktopWindow<F>,
>
    decreases windows.len(),
{
    if windows.len() == 0 {
        windows
    } else if owned_by(windows.last(), process_id) {
        without_process(windows.drop_last(), process_id)
    } else {
        without_process(windows.drop_last(), process_id).push(windows.last())
    }
}

/// The close requests without those of this process.
pub open spec fn requests_without_process(requests: Seq<CloseWindowRequest>, process_id: ProcessId) -> Seq<
    CloseWindowRequest,
>
    decreases requests.len(),
{
    if requests.len() == 0 {
        requests
    } else if requests.last().process_id == process_id {
        requests_without_process(requests.drop_last(), process_id)
    } else {
        requests_without_process(requests.drop_last(), process_id).push(requests.last())
    }
}

/// The control that a hover target shows as hovered on the window `id`.
pub open spec fn hovered_for(target: Option<(WindowId, WindowControl)>, id: WindowId) -> Option<
    WindowControl,
> {
    match target {
        Some((window, control)) => if window == id {
            Some(control)
        } else {
            None
        },
        None => None,
    }
}

/// Whether `i` is the lowest window of this process showing this remote window.
pub open spec fn is_first_remote<F>(
    windows: Seq<DesktopWindow<F>>,
    process_id: ProcessId,
    remote: RemoteWindowId,
    i: int,
) -> bool {
    &&& 0 <= i < windows.len()
    &&& windows[i].process_id == Some(process_id)
    &&& windows[i].remote_window == Some(remote)
    &&& forall|j: int|
        0 <= j < i ==> !((#[trigger] windows[j]).process_id == Some(process_id)
            && windows[j].remote_window == Some(remote))
}

pub open spec fn has_remote<F>(windows: Seq<DesktopWindow<F>>, process_id: ProcessId, remote: RemoteWindowId) -> bool {
    exists|i: int|
        0 <= i < windows.len() && (#[trigger] windows[i]).process_id == Some(process_id)
            && windows[i].remote_window == Some(remote)
}

/// The lowest window of the process that is not minimised.
pub open spec fn lowest_visible_of<F>(windows: Seq<DesktopWindow<F>>, process_id: ProcessId) -> Option<
    WindowId,
>
    decreases windows.len(),
{
    if windows.len() == 0 {
        None
    } else {
        match lowest_visible_of(windows.drop_last(), process_id) {
            Some(id) => Some(id),
            None => if owned_by(windows.last(), process_id) && !windows.last().minimized {
                Some(windows.last().id)
            } else {
                None
            },
        }
    }
}

/// The topmost window of the process that is not minimised.
pub open spec fn topmost_visible_of<F>(windows: Seq<DesktopWindow<F>>, process_id: ProcessId) -> Option<
    WindowId,
>
    decreases windows.len(),
{
    if windows.len() == 0 {
        None
    } else if owned_by(windows.last(), process_id) && !windows.last().minimized {
        Some(windows.last().id)
    } else {
        topmost_visible_of(windows.drop_last(), process_id)
    }
}

/// The topmost window of the process.
pub open spec fn topmost_of<F>(windows: Seq<DesktopWindow<F>>, process_id: ProcessId) -> Option<WindowId>
    decreases windows.len(),
{
    if windows.len() == 0 {
        None
    } else if owned_by(windows.last(), process_id) {
        Some(windows.last().id)
    } else {
        topmost_of(windows.drop_last(), process_id)
    }
}

/// Whether the focused window belongs to the process and is on screen.
pub open spec fn focused_process_visible<F>(
    windows: Seq<DesktopWindow<F>>,
    focused: Option<WindowId>,
    process_id: ProcessId,
) -> bool {
    match focused {
        Some(id) => has_window(windows, id) && owned_by(windows[first_with_id(windows, id)], process_id)
            && !windows[first_with_id(windows, id)].minimized,
        None => false,
    }
}

/// The window that activating a process brings forward: while one of its
/// windows has the focus, its lowest visible window; otherwise its topmost
/// visible window, or failing that its topmost window.
pub open spec fn activation_target<F>(
    windows: Seq<DesktopWindow<F>>,
    focused: Option<WindowId>,
    process_id: ProcessId,
) -> Option<WindowId> {
    if focused_process_visible(windows, focused, process_id) {
        lowest_visible_of(windows, process_id)
    } else {
        match topmost_visible_of(windows, process_id) {
            Some(id) => Some(id),
            None => topmost_of(windows, process_id),
        }
    }
}

/// The window with another control hovered.
pub open spec fn with_hovered<F>(window: DesktopWindow<F>, hovered: Option<WindowControl>) -> DesktopWindow<F> {
    DesktopWindow { interaction: WindowInteraction { hovered, ..window.interaction }, ..window }
}

/// The window with another control pressed.
pub open spec fn with_pressed<F>(window: DesktopWindow<F>, pressed: Option<WindowControl>) -> DesktopWindow<F> {
    DesktopWindow { interaction: WindowInteraction { pressed, ..window.interaction }, ..window }
}

/// The window with no control hovered or pressed.
pub open spec fn at_rest<F>(window: DesktopWindow<F>) -> DesktopWindow<F> {
    DesktopWindow { interaction: no_interaction(), ..window }
}

/// The window after a toggle of its maximised state: back to the frame it
/// had, or filling the work area and remembering the frame it had.
pub open spec fn toggled<F>(window: DesktopWindow<F>, work_area: F) -> DesktopWindow<F> {
    match window.restore_frame {
        Some(restore) => DesktopWindow {
            frame: restore,
            restore_frame: None,
            interaction: no_interaction(),
            ..window
        },
        None => DesktopWindow {
            frame: work_area,
            restore_frame: Some(window.frame),
            interaction: no_interaction(),
            ..window
        },
    }
}

/// The position of the lowest window showing About.
pub open spec fn about_index<F>(windows: Seq<DesktopWindow<F>>) -> Option<int> {
    if exists|i: int| 0 <= i < windows.len() && (#[trigger] windows[i]).content == WindowContent::About {
        Some(
            choose|i: int|
                0 <= i < windows.len() && windows[i].content == WindowContent::About && forall|j: int|
                    0 <= j < i ==> (#[trigger] windows[j]).content != WindowContent::About,
        )
    } else {
        None
    }
}

proof fn lemma_about_index<F>(windows: Seq<DesktopWindow<F>>, a: int)
    requires
        0 <= a < windows.len(),
        windows[a].content == WindowContent::About,
        forall|j: int| 0 <= j < a ==> (#[trigger] windows[j]).content != WindowContent::About,
    ensures
        about_index(windows) == Some(a),
{
    let k = choose|i: int|
        0 <= i < windows.len() && windows[i].content == WindowContent::About && forall|j: int|
            0 <= j < i ==> (#[trigger] windows[j]).content != WindowContent::About;
    assert(0 <= k < windows.len() && windows[k].content == WindowContent::About);
    if k < a {
        assert(windows[k].content != WindowContent::About);
    } else if k > a {
        assert(windows[a].content != WindowContent::About);
    }
}

proof fn lemma_no_about<F>(windows: Seq<DesktopWindow<F>>)
    requires
        forall|j: int| 0 <= j < windows.len() ==> (#[trigger] windows[j]).content != WindowContent::About,
    ensures
        about_index(windows) is None,
{
}

/// Whether the focused window is one of the process's windows.
pub open spec fn focus_owned_by<F>(
    windows: Seq<DesktopWindow<F>>,
    focused: Option<WindowId>,
    process_id: ProcessId,
) -> bool {
    match focused {
        Some(id) => exists|j: int|
            0 <= j < windows.len() && (#[trigger] windows[j]).id == id && owned_by(
                windows[j],
                process_id,
            ),
        None => false,
    }
}

proof fn lemma_lowest_visible_prefix<F>(windows: Seq<DesktopWindow<F>>, process_id: ProcessId, n: int)
    requires
        1 <= n <= windows.len(),
        lowest_visible_of(windows.take(n - 1), process_id) is None,
        owned_by(windows[n - 1], process_id),
        !windows[n - 1].minimized,
    ensures
        lowest_visible_of(windows, process_id) == Some(windows[n - 1].id),
    decreases windows.len(),
{
    assert(windows.take(n).drop_last() =~= windows.take(n - 1));
    if n < windows.len() {
        assert(windows.drop_last().take(n - 1) =~= windows.take(n - 1));
        lemma_lowest_visible_prefix(windows.drop_last(), process_id, n);
    } else {
        assert(windows.take(n) =~= windows);
    }
}

proof fn lemma_lowest_visible_index<F>(windows: Seq<DesktopWindow<F>>, process_id: ProcessId) -> (i: int)
    requires
        exists|k: int| 0 <= k < windows.len() && (#[trigger] windows[k]).process_id == Some(process_id) && !windows[k].minimized,
    ensures
        0 <= i < windows.len(),
        windows[i].process_id == Some(process_id),
        !windows[i].minimized,
        forall|j: int| 0 <= j < i ==> !((#[trigger] windows[j]).process_id == Some(process_id) && !windows[j].minimized),
        lowest_visible_of(windows, process_id) == Some(windows[i].id),
    decreases windows.len(),
{
    let rest = windows.drop_last();
    if exists|k: int| 0 <= k < rest.len() && (#[trigger] rest[k]).process_id == Some(process_id) && !rest[k].minimized {
        let i = lemma_lowest_visible_index(rest, process_id);
        assert(rest[i] == windows[i]);
        assert forall|j: int| 0 <= j < i implies !((#[trigger] windows[j]).process_id == Some(process_id)
            && !windows[j].minimized) by {
            assert(rest[j] == windows[j]);
        }
        i
    } else {
        let i = windows.len() - 1;
        lemma_no_lowest_visible(rest, process_id);
        assert forall|j: int| 0 <= j < i implies !((#[trigger] windows[j]).process_id == Some(process_id)
            && !windows[j].minimized) by {
            assert(rest[j] == windows[j]);
        }
        if !(windows[i].process_id == Some(process_id) && !windows[i].minimized) {
            let k = choose|k: int| 0 <= k < windows.len() && (#[trigger] windows[k]).process_id == Some(process_id)
                && !windows[k].minimized;
            assert(k < i);
            assert(rest[k] == windows[k]);
            assert(false);
        }
        i
    }
}

proof fn lemma_no_lowest_visible<F>(windows: Seq<DesktopWindow<F>>, process_id: ProcessId)
    requires
        !exists|k: int| 0 <= k < windows.len() && (#[trigger] windows[k]).process_id == Some(process_id) && !windows[k].minimized,
    ensures
        lowest_visible_of(windows, process_id) is None,
    decreases windows.len(),
{
    if windows.len() > 0 {
        let rest = windows.drop_last();
        assert forall|k: int| 0 <= k < rest.len() implies !((#[trigger] rest[k]).process_id == Some(process_id)
            && !rest[k].minimized) by {
            assert(rest[k] == windows[k]);
        }
        lemma_no_lowest_visible(rest, process_id);
        assert(windows.last() == windows[windows.len() - 1]);
    }
}

/// Activating a process whose window has the focus cycles through its
/// windows: the window brought forward is the process's lowest window that
/// is on screen. When another of its windows on screen lies below the
/// focused one, the focus therefore moves to a different window.
pub proof fn lemma_activation_cycles_windows<F>(
    windows: Seq<DesktopWindow<F>>,
    focused: WindowId,
    at: int,
    process_id: ProcessId,
)
    requires
        0 <= at < windows.len(),
        windows[at].id == focused,
        forall|j: int| 0 <= j < at ==> (#[trigger] windows[j]).id != focused,
        windows[at].process_id == Some(process_id),
        !windows[at].minimized,
    ensures
        exists|i: int|
            0 <= i <= at && activation_target(windows, Some(focused), process_id) == Some((#[trigger] windows[i]).id)
                && windows[i].process_id == Some(process_id) && !windows[i].minimized && forall|j: int|
                0 <= j < i ==> !((#[trigger] windows[j]).process_id == Some(process_id) && !windows[j].minimized),
        (exists|k: int| 0 <= k < at && (#[trigger] windows[k]).process_id == Some(process_id) && !windows[k].minimized)
            ==> activation_target(windows, Some(focused), process_id) != Some(focused),
{
    assert(is_first_with_id(windows, focused, at));
    lemma_first_with_id(windows, focused, at);
    assert(focused_process_visible(windows, Some(focused), process_id));
    assert(windows[at].process_id == Some(process_id) && !windows[at].minimized);
    let i = lemma_lowest_visible_index(windows, process_id);
    assert(i <= at);
    assert(activation_target(windows, Some(focused), process_id) == Some(windows[i].id));
    if exists|k: int| 0 <= k < at && (#[trigger] windows[k]).process_id == Some(process_id) && !windows[k].minimized {
        let k = choose|k: int| 0 <= k < at && (#[trigger] windows[k]).process_id == Some(process_id) && !windows[k].minimized;
        assert(i <= k);
        assert(windows[i].id != focused);
    }
}

proof fn lemma_found_windows_exist<F>(windows: Seq<DesktopWindow<F>>, process_id: ProcessId)
    ensures
        lowest_visible_of(windows, process_id) matches Some(id) ==> has_window(windows, id),
        topmost_visible_of(windows, process_id) matches Some(id) ==> has_window(windows, id),
        topmost_of(windows, process_id) matches Some(id) ==> has_window(windows, id),
    decreases windows.len(),
{
    if windows.len() > 0 {
        lemma_found_windows_exist(windows.drop_last(), process_id);
        let last = windows.len() - 1;
        assert(windows[last] == windows.last());
        assert forall|id: WindowId| has_window(windows.drop_last(), id) implies has_window(windows, id) by {
            let k = choose|k: int| 0 <= k < windows.drop_last().len() && (#[trigger] windows.drop_last()[k]).id == id;
            assert(windows[k].id == id);
        }
    }
}

proof fn lemma_activation_target_exists<F>(
    windows: Seq<DesktopWindow<F>>,
    focused: Option<WindowId>,
    process_id: ProcessId,
)
    ensures
        activation_target(windows, focused, process_id) matches Some(id) ==> has_window(windows, id),
{
    lemma_found_windows_exist(windows, process_id);
}

/// A window that a process owns, as its process should see it.
#[derive(Clone, Copy, Debug, PartialEq, Eq, Structural)]
pub struct WindowSnapshot {
    pub process_id: ProcessId,
    pub window: RemoteWindowId,
    pub width: u32,
    pub height: u32,
    pub focused: bool,
}

pub open spec fn snapshot_key(snapshot: WindowSnapshot) -> (ProcessId, RemoteWindowId) {
    (snapshot.process_id, snapshot.window)
}

/// The windows that processes own, bottom to top, with the size that each
/// is shown at (`sizes` gives one per window) and whether it has the focus.
pub open spec fn snapshots<F>(
    windows: Seq<DesktopWindow<F>>,
    sizes: Seq<(u32, u32)>,
    focused: Option<WindowId>,
) -> Seq<WindowSnapshot>
    decreases windows.len(),
{
    if windows.len() == 0 {
        Seq::empty()
    } else {
        let rest = snapshots(windows.drop_last(), sizes.drop_last(), focused);
        let window = windows.last();
        match (window.process_id, window.remote_window) {
            (Some(process_id), Some(remote)) => rest.push(
                WindowSnapshot {
                    process_id,
                    window: remote,
                    width: sizes.last().0,
                    height: sizes.last().1,
                    focused: focused == Some(window.id),
                },
            ),
            _ => rest,
        }
    }
}

/// What a table of reports says for `key`: its first entry with that key.
pub open spec fn lookup<K, V>(entries: Seq<(K, V)>, key: K) -> Option<V>
    decreases entries.len(),
{
    if entries.len() == 0 {
        None
    } else if entries[0].0 == key {
        Some(entries[0].1)
    } else {
        lookup(entries.drop_first(), key)
    }
}

/// The table with `value` recorded for `key`: the first entry for the key
/// changes, or a new entry comes last.
pub open spec fn store<K, V>(entries: Seq<(K, V)>, key: K, value: V) -> Seq<(K, V)>
    decreases entries.len(),
{
    if entries.len() == 0 {
        seq![(key, value)]
    } else if entries[0].0 == key {
        entries.update(0, (key, value))
    } else {
        seq![entries[0]] + store(entries.drop_first(), key, value)
    }
}

/// The entries of the table whose keys are among `keys`.
pub open spec fn keep_keys<K, V>(entries: Seq<(K, V)>, keys: Seq<K>) -> Seq<(K, V)>
    decreases entries.len(),
{
    if entries.len() == 0 {
        entries
    } else if keys.contains(entries.last().0) {
        keep_keys(entries.drop_last(), keys).push(entries.last())
    } else {
        keep_keys(entries.drop_last(), keys)
    }
}

/// The state of reporting: the sizes and focus reported, and the
/// notifications that telling them requires.
pub struct Reporting {
    pub sizes: Seq<((ProcessId, RemoteWindowId), (u32, u32))>,
    pub focus: Seq<((ProcessId, RemoteWindowId), bool)>,
    pub resized: Seq<WindowResizedNotification>,
    pub focus_changed: Seq<WindowFocusChangedNotification>,
}

/// Reporting one window: a notification for each of its size and focus that
/// differs from what was reported, which is then what is reported.
pub open spec fn report_step(state: Reporting, snapshot: WindowSnapshot) -> Reporting {
    let key = snapshot_key(snapshot);
    let size = (snapshot.width, snapshot.height);
    Reporting {
        sizes: store(state.sizes, key, size),
        focus: store(state.focus, key, snapshot.focused),
        resized: if lookup(state.sizes, key) != Some(size) {
            state.resized.push(
                WindowResizedNotification {
                    process_id: snapshot.process_id,
                    window: snapshot.window,
                    width: snapshot.width,
                    height: snapshot.height,
                },
            )
        } else {
            state.resized
        },
        focus_changed: if lookup(state.focus, key) != Some(snapshot.focused) {
            state.focus_changed.push(
                WindowFocusChangedNotification {
                    process_id: snapshot.process_id,
                    window: snapshot.window,
                    focused: snapshot.focused,
                },
            )
        } else {
            state.focus_changed
        },
    }
}

pub open spec fn report_all(snapshots: Seq<WindowSnapshot>, start: Reporting) -> Reporting
    decreases snapshots.len(),
{
    if snapshots.len() == 0 {
        start
    } else {
        report_step(report_all(snapshots.drop_last(), start), snapshots.last())
    }
}

pub open spec fn snapshot_keys(snapshots: Seq<WindowSnapshot>) -> Seq<(ProcessId, RemoteWindowId)> {
    snapshots.map_values(|snapshot: WindowSnapshot| snapshot_key(snapshot))
}

/// Whether anything remains to be told: a close request, a window whose
/// size or focus differs from what was reported, or a report about a window
/// that is gone.
pub open spec fn notifications_pending(
    pending_closes: Seq<CloseWindowRequest>,
    sizes: Seq<((ProcessId, RemoteWindowId), (u32, u32))>,
    focus: Seq<((ProcessId, RemoteWindowId), bool)>,
    snapshots: Seq<WindowSnapshot>,
) -> bool {
    ||| pending_closes.len() > 0
    ||| exists|i: int|
        0 <= i < snapshots.len() && (lookup(sizes, snapshot_key(#[trigger] snapshots[i])) != Some(
            (snapshots[i].width, snapshots[i].height),
        ) || lookup(focus, snapshot_key(snapshots[i])) != Some(snapshots[i].focused))
    ||| exists|j: int| 0 <= j < sizes.len() && !snapshot_keys(snapshots).contains(#[trigger] sizes[j].0)
    ||| exists|j: int| 0 <= j < focus.len() && !snapshot_keys(snapshots).contains(#[trigger] focus[j].0)
}

proof fn lemma_lookup_push<K, V>(entries: Seq<(K, V)>, entry: (K, V), key: K)
    ensures
        lookup(entries.push(entry), key) == (if lookup(entries, key) is Some {
            lookup(entries, key)
        } else if entry.0 == key {
            Some(entry.1)
        } else {
            None
        }),
    decreases entries.len(),
{
    let pushed = entries.push(entry);
    if entries.len() == 0 {
        assert(pushed[0] == entry);
        assert(pushed.drop_first() =~= Seq::<(K, V)>::empty());
        assert(lookup(pushed.drop_first(), key) == None::<V>);
        assert(lookup(entries, key) == None::<V>);
    } else {
        assert(pushed[0] == entries[0]);
        assert(pushed.drop_first() =~= entries.drop_first().push(entry));
        lemma_lookup_push(entries.drop_first(), entry, key);
        if entries[0].0 == key {
            assert(lookup(pushed, key) == Some(entries[0].1));
            assert(lookup(entries, key) == Some(entries[0].1));
        } else {
            assert(lookup(pushed, key) == lookup(pushed.drop_first(), key));
            assert(lookup(entries, key) == lookup(entries.drop_first(), key));
        }
    }
}

proof fn lemma_lookup_store<K, V>(entries: Seq<(K, V)>, key: K, value: V, other: K)
    ensures
        lookup(store(entries, key, value), key) == Some(value),
        other != key ==> lookup(store(entries, key, value), other) == lookup(entries, other),
    decreases entries.len(),
{
    let stored = store(entries, key, value);
    if entries.len() == 0 {
        assert(stored[0] == (key, value));
        assert(stored.drop_first() =~= Seq::<(K, V)>::empty());
        assert(lookup(stored.drop_first(), other) == None::<V>);
        assert(lookup(entries, other) == None::<V>);
    } else if entries[0].0 == key {
        assert(stored[0] == (key, value));
        assert(stored.drop_first() =~= entries.drop_first());
        if other != key {
            assert(lookup(stored, other) == lookup(stored.drop_first(), other));
            assert(lookup(entries, other) == lookup(entries.drop_first(), other));
        }
    } else {
        lemma_lookup_store(entries.drop_first(), key, value, other);
        assert(stored[0] == entries[0]);
        assert(stored.drop_first() =~= store(entries.drop_first(), key, value));
        assert(lookup(stored, key) == lookup(stored.drop_first(), key));
        if other != key {
            if entries[0].0 == other {
                assert(lookup(stored, other) == Some(entries[0].1));
            } else {
                assert(lookup(stored, other) == lookup(stored.drop_first(), other));
                assert(lookup(entries, other) == lookup(entries.drop_first(), other));
            }
        }
    }
}

proof fn lemma_keep_keys_lookup<K, V>(entries: Seq<(K, V)>, keys: Seq<K>, key: K)
    requires
        keys.contains(key),
    ensures
        lookup(keep_keys(entries, keys), key) == lookup(entries, key),
        forall|j: int| 0 <= j < keep_keys(entries, keys).len() ==> keys.contains(
            (#[trigger] keep_keys(entries, keys)[j]).0,
        ),
    decreases entries.len(),
{
    if entries.len() > 0 {
        let rest = entries.drop_last();
        let last = entries.last();
        lemma_keep_keys_lookup(rest, keys, key);
        lemma_lookup_push(keep_keys(rest, keys), last, key);
        lemma_lookup_push(rest, last, key);
        assert(rest.push(last) =~= entries);
        let kept = keep_keys(entries, keys);
        assert forall|j: int| 0 <= j < kept.len() implies keys.contains((#[trigger] kept[j]).0) by {
            if keys.contains(last.0) && j == kept.len() - 1 {
                assert(kept[j] == last);
            } else {
                assert(kept[j] == keep_keys(rest, keys)[j]);
            }
        }
    }
}

proof fn lemma_report_all_settles(snaps: Seq<WindowSnapshot>, start: Reporting, i: int)
    requires
        snapshot_keys(snaps).no_duplicates(),
        0 <= i < snaps.len(),
    ensures
        lookup(report_all(snaps, start).sizes, snapshot_key(snaps[i])) == Some((snaps[i].width, snaps[i].height)),
        lookup(report_all(snaps, start).focus, snapshot_key(snaps[i])) == Some(snaps[i].focused),
    decreases snaps.len(),
{
    let rest = snaps.drop_last();
    let last = snaps.last();
    let before = report_all(rest, start);
    lemma_lookup_store(before.sizes, snapshot_key(last), (last.width, last.height), snapshot_key(snaps[i]));
    lemma_lookup_store(before.focus, snapshot_key(last), last.focused, snapshot_key(snaps[i]));
    if i < snaps.len() - 1 {
        assert(snapshot_keys(rest) =~= snapshot_keys(snaps).drop_last());
        assert(snapshot_keys(snaps)[i] != snapshot_keys(snaps)[snaps.len() - 1]);
        assert(rest[i] == snaps[i]);
        lemma_report_all_settles(rest, start, i);
    }
}

/// Once every report has been taken, nothing remains to be told: each
/// window's size and focus are what was reported, and no report speaks of a
/// window that is gone. It holds where no two windows share a process and a
/// remote identifier, as every window the desktop opens has its own.
pub proof fn lemma_reports_settle<F>(
    windows: Seq<DesktopWindow<F>>,
    sizes: Seq<(u32, u32)>,
    focused: Option<WindowId>,
    reported_sizes: Seq<((ProcessId, RemoteWindowId), (u32, u32))>,
    reported_focus: Seq<((ProcessId, RemoteWindowId), bool)>,
)
    requires
        snapshot_keys(snapshots(windows, sizes, focused)).no_duplicates(),
    ensures
        ({
            let snaps = snapshots(windows, sizes, focused);
            let report = report_all(
                snaps,
                Reporting {
                    sizes: reported_sizes,
                    focus: reported_focus,
                    resized: Seq::empty(),
                    focus_changed: Seq::empty(),
                },
            );
            !notifications_pending(
                Seq::empty(),
                keep_keys(report.sizes, snapshot_keys(snaps)),
                keep_keys(report.focus, snapshot_keys(snaps)),
                snaps,
            )
        }),
{
    let snaps = snapshots(windows, sizes, focused);
    let keys = snapshot_keys(snaps);
    let start = Reporting {
        sizes: reported_sizes,
        focus: reported_focus,
        resized: Seq::empty(),
        focus_changed: Seq::empty(),
    };
    let report = report_all(snaps, start);
    let kept_sizes = keep_keys(report.sizes, keys);
    let kept_focus = keep_keys(report.focus, keys);
    assert forall|i: int| 0 <= i < snaps.len() implies lookup(kept_sizes, snapshot_key(#[trigger] snaps[i]))
        == Some((snaps[i].width, snaps[i].height)) && lookup(kept_focus, snapshot_key(snaps[i])) == Some(
        snaps[i].focused,
    ) by {
        assert(keys[i] == snapshot_key(snaps[i]));
        lemma_report_all_settles(snaps, start, i);
        lemma_keep_keys_lookup(report.sizes, keys, snapshot_key(snaps[i]));
        lemma_keep_keys_lookup(report.focus, keys, snapshot_key(snaps[i]));
    }
    if snaps.len() > 0 {
        assert(keys[0] == snapshot_key(snaps[0]));
        lemma_keep_keys_lookup(report.sizes, keys, snapshot_key(snaps[0]));
        lemma_keep_keys_lookup(report.focus, keys, snapshot_key(snaps[0]));
    } else {
        assert(kept_sizes.len() == 0) by {
            lemma_keep_keys_empty(report.sizes, keys);
        }
        assert(kept_focus.len() == 0) by {
            lemma_keep_keys_empty(report.focus, keys);
        }
    }
}

proof fn lemma_store_same<K, V>(entries: Seq<(K, V)>, key: K, value: V)
    requires
        lookup(entries, key) == Some(value),
    ensures
        store(entries, key, value) == entries,
    decreases entries.len(),
{
    if entries[0].0 == key {
        assert(entries.update(0, (key, value)) =~= entries);
    } else {
        lemma_store_same(entries.drop_first(), key, value);
        assert(seq![entries[0]] + entries.drop_first() =~= entries);
    }
}

proof fn lemma_keep_all_keys<K, V>(entries: Seq<(K, V)>, keys: Seq<K>)
    requires
        forall|j: int| 0 <= j < entries.len() ==> keys.contains((#[trigger] entries[j]).0),
    ensures
        keep_keys(entries, keys) == entries,
    decreases entries.len(),
{
    if entries.len() > 0 {
        let rest = entries.drop_last();
        assert forall|j: int| 0 <= j < rest.len() implies keys.contains((#[trigger] rest[j]).0) by {
            assert(rest[j] == entries[j]);
        }
        lemma_keep_all_keys(rest, keys);
        assert(keys.contains(entries[entries.len() - 1].0));
        assert(rest.push(entries.last()) =~= entries);
    }
}

proof fn lemma_report_all_quiet(snaps: Seq<WindowSnapshot>, start: Reporting)
    requires
        start.resized.len() == 0,
        start.focus_changed.len() == 0,
        forall|i: int|
            0 <= i < snaps.len() ==> lookup(start.sizes, snapshot_key(#[trigger] snaps[i])) == Some(
                (snaps[i].width, snaps[i].height),
            ) && lookup(start.focus, snapshot_key(snaps[i])) == Some(snaps[i].focused),
    ensures
        report_all(snaps, start) == start,
    decreases snaps.len(),
{
    if snaps.len() > 0 {
        let rest = snaps.drop_last();
        assert forall|i: int| 0 <= i < rest.len() implies lookup(start.sizes, snapshot_key(#[trigger] rest[i]))
            == Some((rest[i].width, rest[i].height)) && lookup(start.focus, snapshot_key(rest[i])) == Some(
            rest[i].focused,
        ) by {
            assert(rest[i] == snaps[i]);
        }
        lemma_report_all_quiet(rest, start);
        let last = snaps[snaps.len() - 1];
        assert(snaps.last() == last);
        lemma_store_same(start.sizes, snapshot_key(last), (last.width, last.height));
        lemma_store_same(start.focus, snapshot_key(last), last.focused);
    }
}

/// Telling the processes about their windows settles after one round: taken
/// again with the windows as they are, the reports give no notification and
/// are left as they were. It holds where no two windows share a process and
/// a remote identifier.
pub proof fn lemma_second_take_reports_nothing<F>(
    windows: Seq<DesktopWindow<F>>,
    sizes: Seq<(u32, u32)>,
    focused: Option<WindowId>,
    reported_sizes: Seq<((ProcessId, RemoteWindowId), (u32, u32))>,
    reported_focus: Seq<((ProcessId, RemoteWindowId), bool)>,
)
    requires
        snapshot_keys(snapshots(windows, sizes, focused)).no_duplicates(),
    ensures
        ({
            let snaps = snapshots(windows, sizes, focused);
            let keys = snapshot_keys(snaps);
            let first = report_all(
                snaps,
                Reporting { sizes: reported_sizes, focus: reported_focus, resized: Seq::empty(), focus_changed: Seq::empty() },
            );
            let settled_sizes = keep_keys(first.sizes, keys);
            let settled_focus = keep_keys(first.focus, keys);
            let second = report_all(
                snaps,
                Reporting { sizes: settled_sizes, focus: settled_focus, resized: Seq::empty(), focus_changed: Seq::empty() },
            );
            &&& second.resized.len() == 0
            &&& second.focus_changed.len() == 0
            &&& keep_keys(second.sizes, keys) == settled_sizes
            &&& keep_keys(second.focus, keys) == settled_focus
        }),
{
    let snaps = snapshots(windows, sizes, focused);
    let keys = snapshot_keys(snaps);
    let first = report_all(
        snaps,
        Reporting { sizes: reported_sizes, focus: reported_focus, resized: Seq::empty(), focus_changed: Seq::empty() },
    );
    let settled_sizes = keep_keys(first.sizes, keys);
    let settled_focus = keep_keys(first.focus, keys);
    lemma_reports_settle(windows, sizes, focused, reported_sizes, reported_focus);
    let start = Reporting { sizes: settled_sizes, focus: settled_focus, resized: Seq::empty(), focus_changed: Seq::empty() };
    assert forall|i: int| 0 <= i < snaps.len() implies lookup(start.sizes, snapshot_key(#[trigger] snaps[i])) == Some(
        (snaps[i].width, snaps[i].height),
    ) && lookup(start.focus, snapshot_key(snaps[i])) == Some(snaps[i].focused) by {
        if lookup(settled_sizes, snapshot_key(snaps[i])) != Some((snaps[i].width, snaps[i].height))
            || lookup(settled_focus, snapshot_key(snaps[i])) != Some(snaps[i].focused) {
            assert(notifications_pending(Seq::empty(), settled_sizes, settled_focus, snaps));
        }
    }
    lemma_report_all_quiet(snaps, start);
    assert forall|j: int| 0 <= j < settled_sizes.len() implies keys.contains((#[trigger] settled_sizes[j]).0) by {
        if !keys.contains(settled_sizes[j].0) {
            assert(notifications_pending(Seq::empty(), settled_sizes, settled_focus, snaps));
        }
    }
    assert forall|j: int| 0 <= j < settled_focus.len() implies keys.contains((#[trigger] settled_focus[j]).0) by {
        if !keys.contains(settled_focus[j].0) {
            assert(notifications_pending(Seq::empty(), settled_sizes, settled_focus, snaps));
        }
    }
    lemma_keep_all_keys(settled_sizes, keys);
    lemma_keep_all_keys(settled_focus, keys);
}

proof fn lemma_keep_keys_empty<K, V>(entries: Seq<(K, V)>, keys: Seq<K>)
    requires
        keys.len() == 0,
    ensures
        keep_keys(entries, keys).len() == 0,
    decreases entries.len(),
{
    if entries.len() > 0 {
        lemma_keep_keys_empty(entries.drop_last(), keys);
    }
}

/// Whether a table of reports holds at most one entry for each key.
pub open spec fn one_entry_per_key<K, V>(entries: Seq<(K, V)>) -> bool {
    forall|i: int, j: int| 0 <= i < j < entries.len() ==> (#[trigger] entries[i]).0 != (#[trigger] entries[j]).0
}

proof fn lemma_store_keys<K, V>(entries: Seq<(K, V)>, key: K, value: V)
    ensures
        forall|k: int| 0 <= k < store(entries, key, value).len() ==> (#[trigger] store(entries, key, value)[k]).0
            == key || exists|m: int| 0 <= m < entries.len() && entries[m].0 == store(entries, key, value)[k].0,
        one_entry_per_key(entries) ==> one_entry_per_key(store(entries, key, value)),
    decreases entries.len(),
{
    let stored = store(entries, key, value);
    if entries.len() == 0 {
    } else if entries[0].0 == key {
        assert forall|k: int| 0 <= k < stored.len() implies (#[trigger] stored[k]).0 == key || exists|m: int|
            0 <= m < entries.len() && entries[m].0 == stored[k].0 by {
            if k > 0 {
                assert(entries[k].0 == stored[k].0);
            }
        }
        if one_entry_per_key(entries) {
            assert forall|i: int, j: int| 0 <= i < j < stored.len() implies (#[trigger] stored[i]).0
                != (#[trigger] stored[j]).0 by {
                assert(entries[i].0 != entries[j].0);
            }
        }
    } else {
        let rest = entries.drop_first();
        lemma_store_keys(rest, key, value);
        let inner = store(rest, key, value);
        assert(stored =~= seq![entries[0]] + inner);
        assert forall|k: int| 0 <= k < stored.len() implies (#[trigger] stored[k]).0 == key || exists|m: int|
            0 <= m < entries.len() && entries[m].0 == stored[k].0 by {
            if k == 0 {
                assert(entries[0].0 == stored[0].0);
            } else {
                assert(stored[k] == inner[k - 1]);
                if inner[k - 1].0 != key {
                    let m = choose|m: int| 0 <= m < rest.len() && rest[m].0 == inner[k - 1].0;
                    assert(entries[m + 1].0 == stored[k].0);
                }
            }
        }
        if one_entry_per_key(entries) {
            assert(one_entry_per_key(rest)) by {
                assert forall|i: int, j: int| 0 <= i < j < rest.len() implies (#[trigger] rest[i]).0
                    != (#[trigger] rest[j]).0 by {
                    assert(entries[i + 1].0 != entries[j + 1].0);
                }
            }
            assert forall|i: int, j: int| 0 <= i < j < stored.len() implies (#[trigger] stored[i]).0
                != (#[trigger] stored[j]).0 by {
                if i == 0 {
                    assert(stored[j] == inner[j - 1]);
                    if inner[j - 1].0 != key {
                        let m = choose|m: int| 0 <= m < rest.len() && rest[m].0 == inner[j - 1].0;
                        assert(entries[0].0 != entries[m + 1].0);
                    }
                } else {
                    assert(stored[i] == inner[i - 1] && stored[j] == inner[j - 1]);
                }
            }
        }
    }
}

proof fn lemma_keep_keys_unique<K, V>(entries: Seq<(K, V)>, keys: Seq<K>)
    requires
        one_entry_per_key(entries),
    ensures
        one_entry_per_key(keep_keys(entries, keys)),
        forall|k: int| 0 <= k < keep_keys(entries, keys).len() ==> entries.contains(
            #[trigger] keep_keys(entries, keys)[k],
        ),
    decreases entries.len(),
{
    if entries.len() > 0 {
        let rest = entries.drop_last();
        let last = entries.last();
        assert(one_entry_per_key(rest)) by {
            assert forall|i: int, j: int| 0 <= i < j < rest.len() implies (#[trigger] rest[i]).0
                != (#[trigger] rest[j]).0 by {
                assert(rest[i] == entries[i] && rest[j] == entries[j]);
            }
        }
        lemma_keep_keys_unique(rest, keys);
        let kept = keep_keys(rest, keys);
        assert forall|k: int| 0 <= k < kept.len() implies entries.contains(#[trigger] kept[k]) by {
            let m = choose|m: int| 0 <= m < rest.len() && rest[m] == kept[k];
            assert(entries[m] == kept[k]);
        }
        if keys.contains(last.0) {
            let pushed = kept.push(last);
            assert forall|i: int, j: int| 0 <= i < j < pushed.len() implies (#[trigger] pushed[i]).0
                != (#[trigger] pushed[j]).0 by {
                if j == kept.len() {
                    assert(pushed[i] == kept[i]);
                    let m = choose|m: int| 0 <= m < rest.len() && rest[m] == kept[i];
                    assert(entries[m] == kept[i]);
                    assert(entries[m].0 != entries[entries.len() - 1].0);
                } else {
                    assert(pushed[i] == kept[i] && pushed[j] == kept[j]);
                }
            }
            assert forall|k: int| 0 <= k < pushed.len() implies entries.contains(#[trigger] pushed[k]) by {
                if k == kept.len() {
                    assert(entries[entries.len() - 1] == last);
                } else {
                    assert(pushed[k] == kept[k]);
                }
            }
        }
    }
}

/// Recording a report and forgetting the reports about windows that are
/// gone keep one entry per window in each table of reports.
pub proof fn lemma_reports_stay_one_per_window<K, V>(entries: Seq<(K, V)>, key: K, value: V, keys: Seq<K>)
    requires
        one_entry_per_key(entries),
    ensures
        one_entry_per_key(store(entries, key, value)),
        one_entry_per_key(keep_keys(entries, keys)),
{
    lemma_store_keys(entries, key, value);
    lemma_keep_keys_unique(entries, keys);
}

fn same_key(a: (ProcessId, RemoteWindowId), b: (ProcessId, RemoteWindowId)) -> (same: bool)
    ensures
        same == (a == b),
{
    a.0 == b.0 && a.1 == b.1
}

fn lookup_entry<V: Copy>(entries: &Vec<((ProcessId, RemoteWindowId), V)>, key: (ProcessId, RemoteWindowId)) -> (found: Option<V>)
    ensures
        found == lookup(entries@, key),
{
    let mut i: usize = 0;
    assert(entries@.skip(0) =~= entries@);
    while i < entries.len()
        invariant
            i <= entries@.len(),
            lookup(entries@, key) == lookup(entries@.skip(i as int), key),
        decreases entries@.len() - i,
    {
        assert(entries@.skip(i as int).drop_first() =~= entries@.skip(i + 1));
        assert(entries@.skip(i as int)[0] == entries@[i as int]);
        if same_key(entries[i].0, key) {
            return Some(entries[i].1);
        }
        i = i + 1;
    }
    None
}

proof fn lemma_store_split<K, V>(entries: Seq<(K, V)>, key: K, value: V, i: int)
    requires
        0 <= i <= entries.len(),
        forall|j: int| 0 <= j < i ==> (#[trigger] entries[j]).0 != key,
    ensures
        store(entries, key, value) == entries.take(i) + store(entries.skip(i), key, value),
    decreases i,
{
    if i > 0 {
        assert(entries[0].0 != key);
        let rest = entries.drop_first();
        assert forall|j: int| 0 <= j < i - 1 implies (#[trigger] rest[j]).0 != key by {
            assert(rest[j] == entries[j + 1]);
        }
        lemma_store_split(rest, key, value, i - 1);
        assert(rest.skip(i - 1) =~= entries.skip(i));
        assert(seq![entries[0]] + rest.take(i - 1) =~= entries.take(i));
    } else {
        assert(entries.skip(0) =~= entries);
        assert(entries.take(0) + store(entries, key, value) =~= store(entries, key, value));
    }
}

fn store_entry<V: Copy>(entries: &mut Vec<((ProcessId, RemoteWindowId), V)>, key: (ProcessId, RemoteWindowId), value: V)
    ensures
        final(entries)@ == store(old(entries)@, key, value),
{
    let mut i: usize = 0;
    while i < entries.len()
        invariant
            i <= entries@.len(),
            entries@ == old(entries)@,
            forall|j: int| 0 <= j < i ==> (#[trigger] entries@[j]).0 != key,
        decreases entries@.len() - i,
    {
        if same_key(entries[i].0, key) {
            proof {
                lemma_store_split(entries@, key, value, i as int);
                assert(entries@.skip(i as int)[0] == entries@[i as int]);
            }
            entries.set(i, (key, value));
            assert(entries@ =~= old(entries)@.take(i as int) + old(entries)@.skip(i as int).update(0, (key, value)));
            return;
        }
        i = i + 1;
    }
    proof {
        lemma_store_split(entries@, key, value, i as int);
        assert(entries@.skip(i as int) =~= Seq::<((ProcessId, RemoteWindowId), V)>::empty());
        assert(entries@.take(i as int) =~= entries@);
    }
    entries.push((key, value));
}

fn keys_contain(keys: &Vec<(ProcessId, RemoteWindowId)>, key: (ProcessId, RemoteWindowId)) -> (found: bool)
    ensures
        found == keys@.contains(key),
{
    let mut i: usize = 0;
    while i < keys.len()
        invariant
            i <= keys@.len(),
            forall|j: int| 0 <= j < i ==> keys@[j] != key,
        decreases keys@.len() - i,
    {
        if same_key(keys[i], key) {
            assert(keys@[i as int] == key);
            return true;
        }
        i = i + 1;
    }
    false
}

fn keep_entries<V: Copy>(entries: &mut Vec<((ProcessId, RemoteWindowId), V)>, keys: &Vec<(ProcessId, RemoteWindowId)>)
    ensures
        final(entries)@ == keep_keys(old(entries)@, keys@),
{
    let mut kept: Vec<((ProcessId, RemoteWindowId), V)> = Vec::new();
    let mut i: usize = 0;
    assert(entries@.take(0) =~= Seq::<((ProcessId, RemoteWindowId), V)>::empty());
    while i < entries.len()
        invariant
            i <= entries@.len(),
            entries@ == old(entries)@,
            kept@ == keep_keys(entries@.take(i as int), keys@),
        decreases entries@.len() - i,
    {
        assert(entries@.take(i + 1).drop_last() =~= entries@.take(i as int));
        if keys_contain(keys, entries[i].0) {
            kept.push(entries[i]);
        }
        i = i + 1;
    }
    assert(entries@.take(entries@.len() as int) =~= entries@);
    *entries = kept;
}

/// The window after `focus` raised it: on top and no longer minimised.
pub open spec fn raised<F>(windows: Seq<DesktopWindow<F>>, id: WindowId) -> Seq<DesktopWindow<F>> {
    let i = first_with_id(windows, id);
    windows.remove(i).push(DesktopWindow { minimized: false, ..windows[i] })
}

proof fn lemma_first_with_id<F>(windows: Seq<DesktopWindow<F>>, id: WindowId, i: int)
    requires
        is_first_with_id(windows, id, i),
    ensures
        first_with_id(windows, id) == i,
        has_window(windows, id),
{
    let k = first_with_id(windows, id);
    assert(is_first_with_id(windows, id, k));
    if k < i {
        assert(windows[k].id != id);
    } else if k > i {
        assert(windows[i].id != id);
    }
}

/// Whether a window covers the Dock: it is on screen, and maximised (it
/// keeps a frame to restore) or overlapping the Dock.
pub open spec fn covers_dock<F>(window: DesktopWindow<F>, overlaps: bool) -> bool {
    !window.minimized && (window.restore_frame is Some || overlaps)
}

/// Whether the focus rests on a window that is on screen, or on none.
pub open spec fn focus_shown<F>(windows: Seq<DesktopWindow<F>>, focused: Option<WindowId>) -> bool {
    match focused {
        Some(id) => exists|i: int| 0 <= i < windows.len() && (#[trigger] windows[i]).id == id && !windows[i].minimized,
        None => true,
    }
}

/// The topmost window on screen is on screen.
pub proof fn lemma_topmost_visible_shown<F>(windows: Seq<DesktopWindow<F>>)
    ensures
        focus_shown(windows, topmost_visible(windows)),
    decreases windows.len(),
{
    if windows.len() > 0 {
        if windows.last().minimized {
            lemma_topmost_visible_shown(windows.drop_last());
            if let Some(id) = topmost_visible(windows.drop_last()) {
                let i = choose|i: int|
                    0 <= i < windows.drop_last().len() && (#[trigger] windows.drop_last()[i]).id == id
                        && !windows.drop_last()[i].minimized;
                assert(windows[i] == windows.drop_last()[i]);
            }
        } else {
            assert(windows[windows.len() - 1].id == windows.last().id);
        }
    }
}

proof fn lemma_raised_shown<F>(windows: Seq<DesktopWindow<F>>, id: WindowId)
    requires
        has_window(windows, id),
    ensures
        focus_shown(raised(windows, id), Some(id)),
{
    let witness = choose|j: int| 0 <= j < windows.len() && (#[trigger] windows[j]).id == id;
    lemma_first_exists(windows, id, witness);
    let r = raised(windows, id);
    assert(r[r.len() - 1].id == id);
}

proof fn lemma_first_exists<F>(windows: Seq<DesktopWindow<F>>, id: WindowId, j: int)
    requires
        0 <= j < windows.len(),
        windows[j].id == id,
    ensures
        is_first_with_id(windows, id, first_with_id(windows, id)),
    decreases j,
{
    if exists|m: int| 0 <= m < j && (#[trigger] windows[m]).id == id {
        let m = choose|m: int| 0 <= m < j && (#[trigger] windows[m]).id == id;
        lemma_first_exists(windows, id, m);
    } else {
        assert(is_first_with_id(windows, id, j));
    }
}

proof fn lemma_same_shape_shown<F>(a: Seq<DesktopWindow<F>>, b: Seq<DesktopWindow<F>>, focused: Option<WindowId>)
    requires
        a.len() == b.len(),
        forall|i: int| 0 <= i < a.len() ==> (#[trigger] b[i]).id == a[i].id && b[i].minimized == a[i].minimized,
        focus_shown(a, focused),
    ensures
        focus_shown(b, focused),
{
    if let Some(id) = focused {
        let i = choose|i: int| 0 <= i < a.len() && (#[trigger] a[i]).id == id && !a[i].minimized;
        assert(b[i].id == id);
    }
}

proof fn lemma_without_window_shown<F>(windows: Seq<DesktopWindow<F>>, id: WindowId, focused: Option<WindowId>)
    requires
        focus_shown(windows, focused),
        focused != Some(id),
    ensures
        focus_shown(without_window(windows, id), focused),
    decreases windows.len(),
{
    if let Some(f) = focused {
        let i = choose|i: int| 0 <= i < windows.len() && (#[trigger] windows[i]).id == f && !windows[i].minimized;
        let rest = windows.drop_last();
        let shorter = without_window(rest, id);
        if i < windows.len() - 1 {
            assert(rest[i] == windows[i]);
            lemma_without_window_shown(rest, id, focused);
            let k = choose|k: int| 0 <= k < shorter.len() && (#[trigger] shorter[k]).id == f && !shorter[k].minimized;
            if windows.last().id != id {
                assert(shorter.push(windows.last())[k] == shorter[k]);
            }
        } else {
            assert(windows.last().id == f);
            let whole = shorter.push(windows.last());
            assert(whole[whole.len() - 1] == windows.last());
        }
    }
}

proof fn lemma_without_process_shown<F>(windows: Seq<DesktopWindow<F>>, process_id: ProcessId, focused: Option<WindowId>)
    requires
        focus_shown(windows, focused),
        !focus_owned_by(windows, focused, process_id),
    ensures
        focus_shown(without_process(windows, process_id), focused),
    decreases windows.len(),
{
    if let Some(f) = focused {
        let i = choose|i: int| 0 <= i < windows.len() && (#[trigger] windows[i]).id == f && !windows[i].minimized;
        let rest = windows.drop_last();
        let shorter = without_process(rest, process_id);
        assert(!owned_by(windows[i], process_id));
        if i < windows.len() - 1 {
            assert(rest[i] == windows[i]);
            assert(!focus_owned_by(rest, focused, process_id)) by {
                if focus_owned_by(rest, focused, process_id) {
                    let j = choose|j: int| 0 <= j < rest.len() && (#[trigger] rest[j]).id == f && owned_by(rest[j], process_id);
                    assert(windows[j] == rest[j]);
                }
            }
            lemma_without_process_shown(rest, process_id, focused);
            let k = choose|k: int| 0 <= k < shorter.len() && (#[trigger] shorter[k]).id == f && !shorter[k].minimized;
            if !owned_by(windows.last(), process_id) {
                assert(shorter.push(windows.last())[k] == shorter[k]);
            }
        } else {
            let whole = shorter.push(windows.last());
            assert(whole[whole.len() - 1] == windows.last());
        }
    }
}

impl<F: Copy> DesktopWindows<F> {
    /// The windows, bottom to top.
    pub closed spec fn stack(&self) -> Seq<DesktopWindow<F>> {
        self.windows@
    }

    /// The focused window.
    pub closed spec fn focus_of(&self) -> Option<WindowId> {
        self.focused
    }

    pub closed spec fn next_window_id(&self) -> u64 {
        self.next_id
    }

    pub closed spec fn pending_closes(&self) -> Seq<CloseWindowRequest> {
        self.pending_close_requests@
    }

    /// An empty desktop, whose first window will be window 1.
    pub fn new() -> (desktop: Self)
        ensures
            desktop.stack().len() == 0,
            desktop.focus_of() is None,
            focus_shown(desktop.stack(), desktop.focus_of()),
            desktop.next_window_id() == 1,
            desktop.pending_closes().len() == 0,
    {
        DesktopWindows {
            windows: Vec::new(),
            focused: None,
            next_id: 1,
            pending_close_requests: Vec::new(),
            reported_sizes: Vec::new(),
            reported_focus: Vec::new(),
        }
    }

    fn find(&self, id: WindowId) -> (index: Option<usize>)
        ensures
            match index {
                Some(i) => is_first_with_id(self.stack(), id, i as int),
                None => !has_window(self.stack(), id),
            },
    {
        let mut i: usize = 0;
        while i < self.windows.len()
            invariant
                i <= self.stack().len(),
                forall|j: int| 0 <= j < i ==> (#[trigger] self.stack()[j]).id != id,
            decreases self.stack().len() - i,
        {
            if self.windows[i].id == id {
                return Some(i);
            }
            i = i + 1;
        }
        None
    }

    /// The About window, if one is open: the lowest window showing About.
    pub fn about_window(&self) -> (id: Option<WindowId>)
        ensures
            match id {
                Some(id) => exists|i: int|
                    0 <= i < self.stack().len() && self.stack()[i].content == WindowContent::About
                        && self.stack()[i].id == id && forall|j: int|
                        0 <= j < i ==> (#[trigger] self.stack()[j]).content != WindowContent::About,
                None => forall|j: int|
                    0 <= j < self.stack().len() ==> (#[trigger] self.stack()[j]).content
                        != WindowContent::About,
            },
    {
        let mut i: usize = 0;
        while i < self.windows.len()
            invariant
                i <= self.stack().len(),
                forall|j: int|
                    0 <= j < i ==> (#[trigger] self.stack()[j]).content != WindowContent::About,
            decreases self.stack().len() - i,
        {
            if self.windows[i].content == WindowContent::About {
                return Some(self.windows[i].id);
            }
            i = i + 1;
        }
        None
    }

    fn find_about(&self) -> (index: Option<usize>)
        ensures
            match index {
                Some(a) => 0 <= a < self.stack().len() && self.stack()[a as int].content
                    == WindowContent::About && forall|j: int|
                    0 <= j < a ==> (#[trigger] self.stack()[j]).content != WindowContent::About,
                None => about_index(self.stack()) is None,
            },
    {
        let mut a: usize = 0;
        while a < self.windows.len()
            invariant
                a <= self.stack().len(),
                forall|j: int| 0 <= j < a ==> (#[trigger] self.stack()[j]).content != WindowContent::About,
            decreases self.stack().len() - a,
        {
            if self.windows[a].content == WindowContent::About {
                return Some(a);
            }
            a = a + 1;
        }
        proof {
            lemma_no_about(self.stack());
        }
        None
    }

    /// The process of each window that has one, bottom to top.
    pub fn process_ids(&self) -> (ids: Vec<ProcessId>)
        ensures
            ids@ == owning_processes(self.stack()),
    {
        let mut ids: Vec<ProcessId> = Vec::new();
        let mut i: usize = 0;
        assert(self.stack().take(0) =~= Seq::<DesktopWindow<F>>::empty());
        while i < self.windows.len()
            invariant
                i <= self.stack().len(),
                ids@ == owning_processes(self.stack().take(i as int)),
            decreases self.stack().len() - i,
        {
            assert(self.stack().take(i + 1).drop_last() =~= self.stack().take(i as int));
            if let Some(process_id) = self.windows[i].process_id {
                ids.push(process_id);
            }
            i = i + 1;
        }
        assert(self.stack().take(self.stack().len() as int) =~= self.stack());
        ids
    }

    /// The close requests not yet handed to the platform; none remain.
    pub fn take_pending_close_requests(&mut self) -> (requests: Vec<CloseWindowRequest>)
        ensures
            focus_shown(old(self).stack(), old(self).focus_of()) ==> focus_shown(final(self).stack(), final(self).focus_of()),
            requests@ == old(self).pending_closes(),
            final(self).pending_closes().len() == 0,
            final(self).stack() == old(self).stack(),
            final(self).focus_of() == old(self).focus_of(),
            final(self).next_window_id() == old(self).next_window_id(),
    {
        let mut requests: Vec<CloseWindowRequest> = Vec::new();
        std::mem::swap(&mut requests, &mut self.pending_close_requests);
        requests
    }

    pub closed spec fn reports(&self) -> (
        Seq<((ProcessId, RemoteWindowId), (u32, u32))>,
        Seq<((ProcessId, RemoteWindowId), bool)>,
    ) {
        (self.reported_sizes@, self.reported_focus@)
    }

    /// Raises the window `id` to the top, shows it if it was minimised, and
    /// focuses it; nothing happens when there is no such window.
    pub fn focus(&mut self, id: WindowId)
        ensures
            has_window(old(self).stack(), id) ==> focus_shown(final(self).stack(), final(self).focus_of()),
            focus_shown(old(self).stack(), old(self).focus_of()) ==> focus_shown(final(self).stack(), final(self).focus_of()),
            has_window(old(self).stack(), id) ==> final(self).stack() == raised(old(self).stack(), id)
                && final(self).focus_of() == Some(id),
            !has_window(old(self).stack(), id) ==> final(self).stack() == old(self).stack()
                && final(self).focus_of() == old(self).focus_of(),
            final(self).pending_closes() == old(self).pending_closes(),
            final(self).next_window_id() == old(self).next_window_id(),
            final(self).reports() == old(self).reports(),
    {
        let index = match self.find(id) {
            Some(index) => index,
            None => {
                return;
            },
        };
        proof {
            lemma_first_with_id(self.stack(), id, index as int);
        }
        let mut window = self.windows.remove(index);
        window.minimized = false;
        self.windows.push(window);
        self.focused = Some(id);
        proof {
            lemma_raised_shown(old(self).stack(), id);
        }
    }

    fn remove_window(&mut self, id: WindowId)
        ensures
            focus_shown(old(self).stack(), old(self).focus_of()) ==> focus_shown(final(self).stack(), final(self).focus_of()),
            final(self).stack() == without_window(old(self).stack(), id),
            final(self).focus_of() == if old(self).focus_of() == Some(id) {
                topmost_visible(without_window(old(self).stack(), id))
            } else {
                old(self).focus_of()
            },
            final(self).pending_closes() == old(self).pending_closes(),
            final(self).next_window_id() == old(self).next_window_id(),
            final(self).reports() == old(self).reports(),
    {
        let was_focused = match self.focused {
            Some(focused) => focused == id,
            None => false,
        };
        let mut kept: Vec<DesktopWindow<F>> = Vec::new();
        let mut old_windows: Vec<DesktopWindow<F>> = Vec::new();
        std::mem::swap(&mut old_windows, &mut self.windows);
        let ghost all = old_windows@;
        let mut taken: Vec<DesktopWindow<F>> = Vec::new();
        // Walk the stack bottom to top, keeping what does not carry `id`.
        let mut i: usize = 0;
        let n = old_windows.len();
        assert(all.take(0) =~= Seq::<DesktopWindow<F>>::empty());
        while old_windows.len() > 0
            invariant
                i + old_windows@.len() == n == all.len(),
                old_windows@ == all.skip(i as int),
                kept@ == without_window(all.take(i as int), id),
            decreases old_windows@.len(),
        {
            let window = old_windows.remove(0);
            assert(all.take(i + 1).drop_last() =~= all.take(i as int));
            assert(all.take(i + 1).last() == all[i as int]);
            if window.id != id {
                kept.push(window);
            }
            i = i + 1;
            assert(old_windows@ =~= all.skip(i as int));
        }
        assert(all.take(n as int) =~= all);
        self.windows = kept;
        if was_focused {
            self.focus_topmost_visible();
        }
        proof {
            if was_focused {
                lemma_topmost_visible_shown(self.stack());
            } else if focus_shown(old(self).stack(), old(self).focus_of()) {
                lemma_without_window_shown(old(self).stack(), id, old(self).focus_of());
            }
        }
    }

    fn find_remote(&self, process_id: ProcessId, remote: RemoteWindowId) -> (index: Option<usize>)
        ensures
            match index {
                Some(i) => is_first_remote(self.stack(), process_id, remote, i as int),
                None => !has_remote(self.stack(), process_id, remote),
            },
    {
        let mut i: usize = 0;
        while i < self.windows.len()
            invariant
                i <= self.stack().len(),
                forall|j: int|
                    0 <= j < i ==> !((#[trigger] self.stack()[j]).process_id == Some(process_id)
                        && self.stack()[j].remote_window == Some(remote)),
            decreases self.stack().len() - i,
        {
            if self.windows[i].process_id == Some(process_id) && self.windows[i].remote_window == Some(
                remote,
            ) {
                return Some(i);
            }
            i = i + 1;
        }
        None
    }

    /// The process withdrew its request to close the remote window: the
    /// lowest window showing it is no longer waiting to close.
    pub fn cancel_close_request(&mut self, process_id: ProcessId, remote_window: RemoteWindowId)
        ensures
            focus_shown(old(self).stack(), old(self).focus_of()) ==> focus_shown(final(self).stack(), final(self).focus_of()),
            match old(self).find_remote_spec(process_id, remote_window) {
                Some(i) => final(self).stack() == old(self).stack().update(
                    i,
                    DesktopWindow { close_requested: false, ..old(self).stack()[i] },
                ),
                None => final(self).stack() == old(self).stack(),
            },
            final(self).focus_of() == old(self).focus_of(),
            final(self).pending_closes() == old(self).pending_closes(),
            final(self).next_window_id() == old(self).next_window_id(),
            final(self).reports() == old(self).reports(),
    {
        if let Some(index) = self.find_remote(process_id, remote_window) {
            proof {
                self.lemma_find_remote_spec(process_id, remote_window, index as int);
            }
            let mut window = self.windows.remove(index);
            window.close_requested = false;
            self.windows.insert(index, window);
            assert(self.stack() =~= old(self).stack().update(
                index as int,
                DesktopWindow { close_requested: false, ..old(self).stack()[index as int] },
            ));
            proof {
                if focus_shown(old(self).stack(), old(self).focus_of()) {
                    lemma_same_shape_shown(old(self).stack(), self.stack(), self.focus_of());
                }
            }
        }
    }

    /// The lowest window of the process that shows the remote window.
    pub open spec fn find_remote_spec(&self, process_id: ProcessId, remote: RemoteWindowId) -> Option<int> {
        if has_remote(self.stack(), process_id, remote) {
            Some(choose|i: int| is_first_remote(self.stack(), process_id, remote, i))
        } else {
            None
        }
    }

    proof fn lemma_find_remote_spec(&self, process_id: ProcessId, remote: RemoteWindowId, i: int)
        requires
            is_first_remote(self.stack(), process_id, remote, i),
        ensures
            self.find_remote_spec(process_id, remote) == Some(i),
    {
        assert(has_remote(self.stack(), process_id, remote));
        let k = choose|k: int| is_first_remote(self.stack(), process_id, remote, k);
        assert(is_first_remote(self.stack(), process_id, remote, k));
        if k < i {
            assert(self.stack()[k].process_id == Some(process_id));
        } else if k > i {
            assert(self.stack()[i].process_id == Some(process_id));
        }
    }

    /// The process closed the remote window: its window leaves the desktop.
    pub fn close_remote(&mut self, process_id: ProcessId, remote_window: RemoteWindowId)
        ensures
            focus_shown(old(self).stack(), old(self).focus_of()) ==> focus_shown(final(self).stack(), final(self).focus_of()),
            match old(self).find_remote_spec(process_id, remote_window) {
                Some(i) => {
                    let id = old(self).stack()[i].id;
                    &&& final(self).stack() == without_window(old(self).stack(), id)
                    &&& final(self).focus_of() == if old(self).focus_of() == Some(id) {
                        topmost_visible(without_window(old(self).stack(), id))
                    } else {
                        old(self).focus_of()
                    }
                },
                None => final(self).stack() == old(self).stack() && final(self).focus_of() == old(self).focus_of(),
            },
            final(self).pending_closes() == old(self).pending_closes(),
            final(self).next_window_id() == old(self).next_window_id(),
            final(self).reports() == old(self).reports(),
    {
        if let Some(index) = self.find_remote(process_id, remote_window) {
            proof {
                self.lemma_find_remote_spec(process_id, remote_window, index as int);
            }
            let id = self.windows[index].id;
            self.remove_window(id);
        }
    }

    /// The process ended: its windows and its pending close requests go, and
    /// if it held the focus, the topmost visible window takes it.
    pub fn close_process(&mut self, process_id: ProcessId)
        ensures
            focus_shown(old(self).stack(), old(self).focus_of()) ==> focus_shown(final(self).stack(), final(self).focus_of()),
            final(self).stack() == without_process(old(self).stack(), process_id),
            final(self).pending_closes() == requests_without_process(
                old(self).pending_closes(),
                process_id,
            ),
            final(self).focus_of() == if focus_owned_by(old(self).stack(), old(self).focus_of(), process_id) {
                topmost_visible(without_process(old(self).stack(), process_id))
            } else {
                old(self).focus_of()
            },
            final(self).next_window_id() == old(self).next_window_id(),
            final(self).reports() == old(self).reports(),
    {
        let mut focused_was_removed = false;
        if let Some(focused) = self.focused {
            let mut i: usize = 0;
            while i < self.windows.len()
                invariant
                    i <= self.stack().len(),
                    self.focus_of() == Some(focused),
                    focused_was_removed == exists|j: int|
                        0 <= j < i && (#[trigger] self.stack()[j]).id == focused && owned_by(
                            self.stack()[j],
                            process_id,
                        ),
                decreases self.stack().len() - i,
            {
                if self.windows[i].id == focused && self.windows[i].process_id == Some(process_id) {
                    focused_was_removed = true;
                }
                i = i + 1;
            }
        }
        let mut old_windows: Vec<DesktopWindow<F>> = Vec::new();
        std::mem::swap(&mut old_windows, &mut self.windows);
        let ghost all = old_windows@;
        let mut kept: Vec<DesktopWindow<F>> = Vec::new();
        let mut i: usize = 0;
        let n = old_windows.len();
        assert(all.take(0) =~= Seq::<DesktopWindow<F>>::empty());
        while old_windows.len() > 0
            invariant
                i + old_windows@.len() == n == all.len(),
                old_windows@ == all.skip(i as int),
                kept@ == without_process(all.take(i as int), process_id),
            decreases old_windows@.len(),
        {
            let window = old_windows.remove(0);
            assert(all.take(i + 1).drop_last() =~= all.take(i as int));
            assert(all.take(i + 1).last() == all[i as int]);
            if window.process_id != Some(process_id) {
                kept.push(window);
            }
            i = i + 1;
            assert(old_windows@ =~= all.skip(i as int));
        }
        assert(all.take(n as int) =~= all);
        self.windows = kept;
        let mut requests: Vec<CloseWindowRequest> = Vec::new();
        std::mem::swap(&mut requests, &mut self.pending_close_requests);
        let ghost old_requests = requests@;
        let mut kept_requests: Vec<CloseWindowRequest> = Vec::new();
        let mut k: usize = 0;
        assert(old_requests.take(0) =~= Seq::<CloseWindowRequest>::empty());
        while k < requests.len()
            invariant
                k <= requests@.len(),
                requests@ == old_requests,
                kept_requests@ == requests_without_process(old_requests.take(k as int), process_id),
            decreases requests@.len() - k,
        {
            assert(old_requests.take(k + 1).drop_last() =~= old_requests.take(k as int));
            if requests[k].process_id != process_id {
                kept_requests.push(requests[k]);
            }
            k = k + 1;
        }
        assert(old_requests.take(requests@.len() as int) =~= old_requests);
        self.pending_close_requests = kept_requests;
        if focused_was_removed {
            self.focus_topmost_visible();
        }
        proof {
            if focused_was_removed {
                lemma_topmost_visible_shown(self.stack());
            } else if focus_shown(old(self).stack(), old(self).focus_of()) {
                lemma_without_process_shown(old(self).stack(), process_id, old(self).focus_of());
            }
        }
    }

    /// Shows `target`'s control as hovered on its window and no control as
    /// hovered anywhere else.
    pub fn set_hovered_control(&mut self, target: Option<(WindowId, WindowControl)>)
        ensures
            focus_shown(old(self).stack(), old(self).focus_of()) ==> focus_shown(final(self).stack(), final(self).focus_of()),
            final(self).stack().len() == old(self).stack().len(),
            forall|i: int|
                0 <= i < old(self).stack().len() ==> (#[trigger] final(self).stack()[i])
                    == with_hovered(old(self).stack()[i], hovered_for(target, old(self).stack()[i].id)),
            final(self).focus_of() == old(self).focus_of(),
            final(self).pending_closes() == old(self).pending_closes(),
            final(self).next_window_id() == old(self).next_window_id(),
            final(self).reports() == old(self).reports(),
    {
        let mut i: usize = 0;
        while i < self.windows.len()
            invariant
                i <= self.stack().len() == old(self).stack().len(),
                forall|j: int|
                    0 <= j < i ==> (#[trigger] self.stack()[j]) == with_hovered(
                        old(self).stack()[j],
                        hovered_for(target, old(self).stack()[j].id),
                    ),
                forall|j: int| i <= j < self.stack().len() ==> (#[trigger] self.stack()[j]) == old(self).stack()[j],
                self.focus_of() == old(self).focus_of(),
                self.pending_closes() == old(self).pending_closes(),
                self.next_window_id() == old(self).next_window_id(),
                self.reports() == old(self).reports(),
            decreases self.stack().len() - i,
        {
            let hovered = match target {
                Some((id, control)) => if id == self.windows[i].id {
                    Some(control)
                } else {
                    None
                },
                None => None,
            };
            self.windows[i].interaction.hovered = hovered;
            i = i + 1;
        }
        proof {
            if focus_shown(old(self).stack(), old(self).focus_of()) {
                lemma_same_shape_shown(old(self).stack(), self.stack(), self.focus_of());
            }
        }
    }

    /// No control is pressed on any window.
    pub fn clear_pressed_controls(&mut self)
        ensures
            focus_shown(old(self).stack(), old(self).focus_of()) ==> focus_shown(final(self).stack(), final(self).focus_of()),
            final(self).stack().len() == old(self).stack().len(),
            forall|i: int|
                0 <= i < old(self).stack().len() ==> (#[trigger] final(self).stack()[i])
                    == with_pressed(old(self).stack()[i], None),
            final(self).focus_of() == old(self).focus_of(),
            final(self).pending_closes() == old(self).pending_closes(),
            final(self).next_window_id() == old(self).next_window_id(),
            final(self).reports() == old(self).reports(),
    {
        let mut i: usize = 0;
        while i < self.windows.len()
            invariant
                i <= self.stack().len() == old(self).stack().len(),
                forall|j: int|
                    0 <= j < i ==> (#[trigger] self.stack()[j]) == with_pressed(old(self).stack()[j], None),
                forall|j: int| i <= j < self.stack().len() ==> (#[trigger] self.stack()[j]) == old(self).stack()[j],
                self.focus_of() == old(self).focus_of(),
                self.pending_closes() == old(self).pending_closes(),
                self.next_window_id() == old(self).next_window_id(),
                self.reports() == old(self).reports(),
            decreases self.stack().len() - i,
        {
            self.windows[i].interaction.pressed = None;
            i = i + 1;
        }
        proof {
            if focus_shown(old(self).stack(), old(self).focus_of()) {
                lemma_same_shape_shown(old(self).stack(), self.stack(), self.focus_of());
            }
        }
    }

    /// No control is hovered or pressed on any window.
    pub fn clear_interactions(&mut self)
        ensures
            focus_shown(old(self).stack(), old(self).focus_of()) ==> focus_shown(final(self).stack(), final(self).focus_of()),
            final(self).stack().len() == old(self).stack().len(),
            forall|i: int|
                0 <= i < old(self).stack().len() ==> (#[trigger] final(self).stack()[i]) == at_rest(
                    old(self).stack()[i],
                ),
            final(self).focus_of() == old(self).focus_of(),
            final(self).pending_closes() == old(self).pending_closes(),
            final(self).next_window_id() == old(self).next_window_id(),
            final(self).reports() == old(self).reports(),
    {
        let mut i: usize = 0;
        while i < self.windows.len()
            invariant
                i <= self.stack().len() == old(self).stack().len(),
                forall|j: int| 0 <= j < i ==> (#[trigger] self.stack()[j]) == at_rest(old(self).stack()[j]),
                forall|j: int| i <= j < self.stack().len() ==> (#[trigger] self.stack()[j]) == old(self).stack()[j],
                self.focus_of() == old(self).focus_of(),
                self.pending_closes() == old(self).pending_closes(),
                self.next_window_id() == old(self).next_window_id(),
                self.reports() == old(self).reports(),
            decreases self.stack().len() - i,
        {
            self.windows[i].interaction = WindowInteraction { hovered: None, pressed: None };
            i = i + 1;
        }
        proof {
            if focus_shown(old(self).stack(), old(self).focus_of()) {
                lemma_same_shape_shown(old(self).stack(), self.stack(), self.focus_of());
            }
        }
    }

    /// The control is held down on the window `id`, and hovered there; no
    /// control is held down anywhere else.
    pub fn press_control(&mut self, id: WindowId, control: WindowControl)
        ensures
            focus_shown(old(self).stack(), old(self).focus_of()) ==> focus_shown(final(self).stack(), final(self).focus_of()),
            final(self).stack().len() == old(self).stack().len(),
            forall|i: int|
                0 <= i < old(self).stack().len() && !is_first_with_id(old(self).stack(), id, i)
                    ==> (#[trigger] final(self).stack()[i]) == with_pressed(old(self).stack()[i], None),
            has_window(old(self).stack(), id) ==> final(self).stack()[first_with_id(old(self).stack(), id)]
                == (DesktopWindow {
                    interaction: WindowInteraction { hovered: Some(control), pressed: Some(control) },
                    ..old(self).stack()[first_with_id(old(self).stack(), id)]
                }),
            final(self).focus_of() == old(self).focus_of(),
            final(self).pending_closes() == old(self).pending_closes(),
            final(self).next_window_id() == old(self).next_window_id(),
            final(self).reports() == old(self).reports(),
    {
        self.clear_pressed_controls();
        if let Some(index) = self.find(id) {
            proof {
                lemma_first_with_id(self.stack(), id, index as int);
                assert forall|j: int| 0 <= j < index implies (#[trigger] old(self).stack()[j]).id != id by {
                    assert(self.stack()[j].id != id);
                }
                lemma_first_with_id(old(self).stack(), id, index as int);
            }
            self.windows[index].interaction.pressed = Some(control);
            self.windows[index].interaction.hovered = Some(control);
        } else {
            proof {
                if has_window(old(self).stack(), id) {
                    let k = choose|k: int| 0 <= k < old(self).stack().len() && (#[trigger] old(self).stack()[k]).id == id;
                    assert(self.stack()[k].id == id);
                }
            }
        }
        proof {
            if focus_shown(old(self).stack(), old(self).focus_of()) {
                assert forall|i: int| 0 <= i < old(self).stack().len() implies (#[trigger] self.stack()[i]).id
                    == old(self).stack()[i].id && self.stack()[i].minimized == old(self).stack()[i].minimized by {
                    if has_window(old(self).stack(), id) && i == first_with_id(old(self).stack(), id) {
                    } else {
                        assert(!is_first_with_id(old(self).stack(), id, i) || !has_window(old(self).stack(), id));
                    }
                }
                lemma_same_shape_shown(old(self).stack(), self.stack(), self.focus_of());
            }
        }
    }

    /// Minimises the window `id`; if it had the focus, the topmost visible
    /// window takes it.
    pub fn minimize(&mut self, id: WindowId)
        ensures
            focus_shown(old(self).stack(), old(self).focus_of()) ==> focus_shown(final(self).stack(), final(self).focus_of()),
            has_window(old(self).stack(), id) ==> final(self).stack() == old(self).stack().update(
                first_with_id(old(self).stack(), id),
                at_rest(DesktopWindow { minimized: true, ..old(self).stack()[first_with_id(old(self).stack(), id)] }),
            ),
            !has_window(old(self).stack(), id) ==> final(self).stack() == old(self).stack(),
            final(self).focus_of() == if old(self).focus_of() == Some(id) {
                topmost_visible(final(self).stack())
            } else {
                old(self).focus_of()
            },
            final(self).pending_closes() == old(self).pending_closes(),
            final(self).next_window_id() == old(self).next_window_id(),
            final(self).reports() == old(self).reports(),
    {
        if let Some(index) = self.find(id) {
            proof {
                lemma_first_with_id(self.stack(), id, index as int);
            }
            self.windows[index].minimized = true;
            self.windows[index].interaction = WindowInteraction { hovered: None, pressed: None };
            assert(self.stack() =~= old(self).stack().update(
                index as int,
                at_rest(DesktopWindow { minimized: true, ..old(self).stack()[index as int] }),
            ));
        }
        let was_focused = match self.focused {
            Some(focused) => focused == id,
            None => false,
        };
        if was_focused {
            self.focus_topmost_visible();
        }
        proof {
            if was_focused {
                lemma_topmost_visible_shown(self.stack());
            } else if focus_shown(old(self).stack(), old(self).focus_of()) {
                if let Some(f) = old(self).focus_of() {
                    let j = choose|j: int|
                        0 <= j < old(self).stack().len() && (#[trigger] old(self).stack()[j]).id == f
                            && !old(self).stack()[j].minimized;
                    if has_window(old(self).stack(), id) {
                        let first = first_with_id(old(self).stack(), id);
                        let w = choose|w: int| 0 <= w < old(self).stack().len() && (#[trigger] old(self).stack()[w]).id == id;
                        lemma_first_exists(old(self).stack(), id, w);
                        assert(j != first);
                    }
                    assert(self.stack()[j] == old(self).stack()[j]);
                }
            }
        }
    }

    /// Maximises the window `id` to `work_area`, or gives it back the frame
    /// it had before; either way the window is raised and focused.
    pub fn toggle_maximize(&mut self, id: WindowId, work_area: F)
        ensures
            focus_shown(old(self).stack(), old(self).focus_of()) ==> focus_shown(final(self).stack(), final(self).focus_of()),
            has_window(old(self).stack(), id) ==> {
                let toggled_stack = old(self).stack().update(
                    first_with_id(old(self).stack(), id),
                    toggled(old(self).stack()[first_with_id(old(self).stack(), id)], work_area),
                );
                &&& final(self).stack() == raised(toggled_stack, id)
                &&& final(self).focus_of() == Some(id)
            },
            !has_window(old(self).stack(), id) ==> final(self).stack() == old(self).stack()
                && final(self).focus_of() == old(self).focus_of(),
            final(self).pending_closes() == old(self).pending_closes(),
            final(self).next_window_id() == old(self).next_window_id(),
            final(self).reports() == old(self).reports(),
    {
        let index = match self.find(id) {
            Some(index) => index,
            None => {
                return;
            },
        };
        proof {
            lemma_first_with_id(self.stack(), id, index as int);
        }
        match self.windows[index].restore_frame {
            Some(restore) => {
                self.windows[index].frame = restore;
                self.windows[index].restore_frame = None;
            },
            None => {
                let frame = self.windows[index].frame;
                self.windows[index].restore_frame = Some(frame);
                self.windows[index].frame = work_area;
            },
        }
        self.windows[index].interaction = WindowInteraction { hovered: None, pressed: None };
        let ghost toggled_stack = old(self).stack().update(
            index as int,
            toggled(old(self).stack()[index as int], work_area),
        );
        assert(self.stack() =~= toggled_stack);
        proof {
            assert forall|j: int| 0 <= j < index implies (#[trigger] toggled_stack[j]).id != id by {
                assert(old(self).stack()[j].id != id);
            }
            lemma_first_with_id(toggled_stack, id, index as int);
        }
        self.focus(id);
    }

    /// Closes the window `id`. A window that belongs to a process is not
    /// removed: it is marked as waiting to close and its process is asked,
    /// once; any other window leaves the desktop at once.
    pub fn close(&mut self, id: WindowId)
        ensures
            focus_shown(old(self).stack(), old(self).focus_of()) ==> focus_shown(final(self).stack(), final(self).focus_of()),
            ({
                let before = old(self).stack();
                let i = first_with_id(before, id);
                if has_window(before, id) && before[i].process_id is Some && before[i].remote_window is Some {
                    &&& final(self).focus_of() == old(self).focus_of()
                    &&& before[i].close_requested ==> final(self).stack() == before
                        && final(self).pending_closes() == old(self).pending_closes()
                    &&& !before[i].close_requested ==> final(self).stack() == before.update(
                        i,
                        at_rest(DesktopWindow { close_requested: true, ..before[i] }),
                    ) && final(self).pending_closes() == old(self).pending_closes().push(
                        CloseWindowRequest {
                            process_id: before[i].process_id->Some_0,
                            window: before[i].remote_window->Some_0,
                        },
                    )
                } else {
                    &&& final(self).stack() == without_window(before, id)
                    &&& final(self).pending_closes() == old(self).pending_closes()
                    &&& final(self).focus_of() == if old(self).focus_of() == Some(id) {
                        topmost_visible(without_window(before, id))
                    } else {
                        old(self).focus_of()
                    }
                }
            }),
            final(self).next_window_id() == old(self).next_window_id(),
            final(self).reports() == old(self).reports(),
    {
        if let Some(index) = self.find(id) {
            proof {
                lemma_first_with_id(self.stack(), id, index as int);
            }
            if let (Some(process_id), Some(remote_window)) = (
                self.windows[index].process_id,
                self.windows[index].remote_window,
            ) {
                if !self.windows[index].close_requested {
                    self.windows[index].close_requested = true;
                    self.windows[index].interaction = WindowInteraction { hovered: None, pressed: None };
                    assert(self.stack() =~= old(self).stack().update(
                        index as int,
                        at_rest(DesktopWindow { close_requested: true, ..old(self).stack()[index as int] }),
                    ));
                    self.pending_close_requests.push(CloseWindowRequest { process_id, window: remote_window });
                    proof {
                        if focus_shown(old(self).stack(), old(self).focus_of()) {
                            lemma_same_shape_shown(old(self).stack(), self.stack(), self.focus_of());
                        }
                    }
                }
                return;
            }
        }
        self.remove_window(id);
    }

    /// The id that the next window will have.
    fn allocate_id(&mut self) -> (id: WindowId)
        ensures
            id.0 == old(self).next_window_id(),
            final(self).next_window_id() == if old(self).next_window_id() == u64::MAX {
                u64::MAX
            } else {
                (old(self).next_window_id() + 1) as u64
            },
            final(self).stack() == old(self).stack(),
            final(self).focus_of() == old(self).focus_of(),
            final(self).pending_closes() == old(self).pending_closes(),
            final(self).reports() == old(self).reports(),
    {
        let id = WindowId(self.next_id);
        self.next_id = self.next_id.saturating_add(1);
        id
    }

    /// Where the next test window is placed in the cascade: 0 to 5 steps from
    /// the first position, by its id.
    pub fn cascade_step(&self) -> (step: u64)
        ensures
            step == (if self.next_window_id() == 0 { 0 } else { self.next_window_id() - 1 }) % 6,
    {
        self.next_id.saturating_sub(1) % 6
    }

    /// Opens the About window for the process, with the frame given; when an
    /// About window is open already, it is shown and focused instead.
    pub fn open_about(&mut self, process_id: ProcessId, title: String, resizable: bool, frame: F) -> (opened:
        (WindowId, RemoteWindowId))
        ensures
            focus_shown(old(self).stack(), old(self).focus_of()) ==> focus_shown(final(self).stack(), final(self).focus_of()),
            ({
                let before = old(self).stack();
                match about_index(before) {
                    Some(a) => {
                        let id = before[a].id;
                        let shown = before.update(
                            first_with_id(before, id),
                            DesktopWindow { minimized: false, ..before[first_with_id(before, id)] },
                        );
                        &&& opened.0 == id
                        &&& opened.1 == match before[a].remote_window {
                            Some(remote) => remote,
                            None => RemoteWindowId(id.0),
                        }
                        &&& final(self).stack() == raised(shown, id)
                        &&& final(self).next_window_id() == old(self).next_window_id()
                    },
                    None => {
                        let id = WindowId(old(self).next_window_id());
                        &&& opened == (id, RemoteWindowId(id.0))
                        &&& final(self).stack() == before.push(
                            DesktopWindow {
                                id,
                                title,
                                frame,
                                resizable,
                                minimized: false,
                                close_requested: false,
                                content: WindowContent::About,
                                process_id: Some(process_id),
                                remote_window: Some(RemoteWindowId(id.0)),
                                interaction: no_interaction(),
                                restore_frame: None,
                            },
                        )
                        &&& final(self).next_window_id() == if old(self).next_window_id() == u64::MAX {
                            u64::MAX
                        } else {
                            (old(self).next_window_id() + 1) as u64
                        }
                    },
                }
            }),
            about_index(old(self).stack()) is Some ==> ({
                let after = final(self).stack();
                &&& after.len() == old(self).stack().len()
                &&& after.len() > 0
                &&& after.last().id == opened.0
                &&& !after.last().minimized
            }),
            final(self).focus_of() == Some(opened.0),
            final(self).pending_closes() == old(self).pending_closes(),
            final(self).reports() == old(self).reports(),
    {
        if let Some(a) = self.find_about() {
            proof {
                lemma_about_index(self.stack(), a as int);
            }
            let id = self.windows[a].id;
            let remote_window = match self.windows[a].remote_window {
                Some(remote) => remote,
                None => RemoteWindowId(id.0),
            };
            let index = match self.find(id) {
                Some(index) => index,
                None => {
                    proof {
                        assert(self.stack()[a as int].id == id);
                    }
                    return (id, remote_window);
                },
            };
            proof {
                lemma_first_with_id(self.stack(), id, index as int);
            }
            self.windows[index].minimized = false;
            let ghost shown = old(self).stack().update(
                index as int,
                DesktopWindow { minimized: false, ..old(self).stack()[index as int] },
            );
            assert(self.stack() =~= shown);
            proof {
                assert forall|j: int| 0 <= j < index implies (#[trigger] shown[j]).id != id by {
                    assert(old(self).stack()[j].id != id);
                }
                lemma_first_with_id(shown, id, index as int);
            }
            self.focus(id);
            proof {
                let r = first_with_id(shown, id);
                assert(self.stack() == raised(shown, id));
                assert(shown[r].id == id);
                assert(self.stack().last().id == id);
            }
            return (id, remote_window);
        }
        let id = self.allocate_id();
        let remote_window = RemoteWindowId(id.0);
        self.windows.push(
            DesktopWindow {
                id,
                title,
                frame,
                resizable,
                minimized: false,
                close_requested: false,
                content: WindowContent::About,
                process_id: Some(process_id),
                remote_window: Some(remote_window),
                interaction: WindowInteraction { hovered: None, pressed: None },
                restore_frame: None,
            },
        );
        self.focused = Some(id);
        assert(self.stack()[self.stack().len() - 1].id == id);
        (id, remote_window)
    }

    /// Opens a test window for the process, with the frame given (placed by
    /// `cascade_step`), on top and focused.
    pub fn open_test(&mut self, process_id: ProcessId, title: String, resizable: bool, frame: F) -> (opened:
        (WindowId, RemoteWindowId))
        ensures
            focus_shown(old(self).stack(), old(self).focus_of()) ==> focus_shown(final(self).stack(), final(self).focus_of()),
            opened.0 == WindowId(old(self).next_window_id()),
            opened.1 == RemoteWindowId(old(self).next_window_id()),
            final(self).stack() == old(self).stack().push(
                DesktopWindow {
                    id: opened.0,
                    title,
                    frame,
                    resizable,
                    minimized: false,
                    close_requested: false,
                    content: WindowContent::Test,
                    process_id: Some(process_id),
                    remote_window: Some(opened.1),
                    interaction: no_interaction(),
                    restore_frame: None,
                },
            ),
            final(self).focus_of() == Some(opened.0),
            final(self).next_window_id() == if old(self).next_window_id() == u64::MAX {
                u64::MAX
            } else {
                (old(self).next_window_id() + 1) as u64
            },
            final(self).pending_closes() == old(self).pending_closes(),
            final(self).reports() == old(self).reports(),
    {
        let id = self.allocate_id();
        let remote_window = RemoteWindowId(id.0);
        self.windows.push(
            DesktopWindow {
                id,
                title,
                frame,
                resizable,
                minimized: false,
                close_requested: false,
                content: WindowContent::Test,
                process_id: Some(process_id),
                remote_window: Some(remote_window),
                interaction: WindowInteraction { hovered: None, pressed: None },
                restore_frame: None,
            },
        );
        self.focused = Some(id);
        assert(self.stack()[self.stack().len() - 1].id == id);
        (id, remote_window)
    }

    fn activation_target_for_process(&self, process_id: ProcessId) -> (target: Option<WindowId>)
        ensures
            target == activation_target(self.stack(), self.focus_of(), process_id),
    {
        let focused_visible = match self.focused {
            Some(focused) => match self.find(focused) {
                Some(index) => {
                    proof {
                        lemma_first_with_id(self.stack(), focused, index as int);
                    }
                    self.windows[index].process_id == Some(process_id) && !self.windows[index].minimized
                },
                None => false,
            },
            None => false,
        };
        assert(focused_visible == focused_process_visible(self.stack(), self.focus_of(), process_id));
        if focused_visible {
            let mut i: usize = 0;
            assert(self.stack().take(0) =~= Seq::<DesktopWindow<F>>::empty());
            while i < self.windows.len()
                invariant
                    i <= self.stack().len(),
                    focused_process_visible(self.stack(), self.focus_of(), process_id),
                    lowest_visible_of(self.stack().take(i as int), process_id) is None,
                decreases self.stack().len() - i,
            {
                assert(self.stack().take(i + 1).drop_last() =~= self.stack().take(i as int));
                if self.windows[i].process_id == Some(process_id) && !self.windows[i].minimized {
                    proof {
                        lemma_lowest_visible_prefix(self.stack(), process_id, i + 1);
                    }
                    return Some(self.windows[i].id);
                }
                i = i + 1;
            }
            assert(self.stack().take(self.stack().len() as int) =~= self.stack());
            return None;
        }
        let mut i = self.windows.len();
        assert(self.stack().take(i as int) =~= self.stack());
        while i > 0
            invariant
                i <= self.stack().len(),
                !focused_process_visible(self.stack(), self.focus_of(), process_id),
                topmost_visible_of(self.stack(), process_id) == topmost_visible_of(
                    self.stack().take(i as int),
                    process_id,
                ),
            decreases i,
        {
            assert(self.stack().take(i as int).drop_last() =~= self.stack().take(i - 1));
            assert(self.stack().take(i as int).last() == self.stack()[i - 1]);
            if self.windows[i - 1].process_id == Some(process_id) && !self.windows[i - 1].minimized {
                return Some(self.windows[i - 1].id);
            }
            i = i - 1;
        }
        let mut i = self.windows.len();
        assert(self.stack().take(i as int) =~= self.stack());
        while i > 0
            invariant
                i <= self.stack().len(),
                !focused_process_visible(self.stack(), self.focus_of(), process_id),
                topmost_visible_of(self.stack(), process_id) is None,
                topmost_of(self.stack(), process_id) == topmost_of(self.stack().take(i as int), process_id),
            decreases i,
        {
            assert(self.stack().take(i as int).drop_last() =~= self.stack().take(i - 1));
            assert(self.stack().take(i as int).last() == self.stack()[i - 1]);
            if self.windows[i - 1].process_id == Some(process_id) {
                return Some(self.windows[i - 1].id);
            }
            i = i - 1;
        }
        None
    }

    /// Brings the process forward: focuses the window that
    /// `activation_target` names, if the process has any.
    pub fn activate_process(&mut self, process_id: ProcessId)
        ensures
            focus_shown(old(self).stack(), old(self).focus_of()) ==> focus_shown(final(self).stack(), final(self).focus_of()),
            match activation_target(old(self).stack(), old(self).focus_of(), process_id) {
                Some(target) => has_window(old(self).stack(), target) && final(self).stack() == raised(
                    old(self).stack(),
                    target,
                ) && final(self).focus_of() == Some(target),
                None => final(self).stack() == old(self).stack() && final(self).focus_of() == old(self).focus_of(),
            },
            final(self).pending_closes() == old(self).pending_closes(),
            final(self).next_window_id() == old(self).next_window_id(),
            final(self).reports() == old(self).reports(),
    {
        let target = match self.activation_target_for_process(process_id) {
            Some(target) => target,
            None => {
                return;
            },
        };
        proof {
            lemma_activation_target_exists(self.stack(), self.focus_of(), process_id);
        }
        self.focus(target);
    }

    fn collect_snapshots(&self, sizes: &[(u32, u32)]) -> (snaps: Vec<WindowSnapshot>)
        requires
            sizes@.len() == self.stack().len(),
        ensures
            snaps@ == snapshots(self.stack(), sizes@, self.focus_of()),
    {
        let mut snaps: Vec<WindowSnapshot> = Vec::new();
        let mut i: usize = 0;
        assert(self.stack().take(0) =~= Seq::<DesktopWindow<F>>::empty());
        while i < self.windows.len()
            invariant
                i <= self.stack().len() == sizes@.len(),
                snaps@ == snapshots(self.stack().take(i as int), sizes@.take(i as int), self.focus_of()),
            decreases self.stack().len() - i,
        {
            assert(self.stack().take(i + 1).drop_last() =~= self.stack().take(i as int));
            assert(sizes@.take(i + 1).drop_last() =~= sizes@.take(i as int));
            if let (Some(process_id), Some(remote)) = (
                self.windows[i].process_id,
                self.windows[i].remote_window,
            ) {
                let focused = match self.focused {
                    Some(id) => id == self.windows[i].id,
                    None => false,
                };
                snaps.push(
                    WindowSnapshot {
                        process_id,
                        window: remote,
                        width: sizes[i].0,
                        height: sizes[i].1,
                        focused,
                    },
                );
            }
            i = i + 1;
        }
        assert(self.stack().take(self.stack().len() as int) =~= self.stack());
        assert(sizes@.take(sizes@.len() as int) =~= sizes@);
        snaps
    }

    /// Tells the processes what changed about their windows since they were
    /// last told: a resize notification for each window shown at a size
    /// other than the one reported, a focus notification for each whose
    /// focus changed; reports about windows that are gone are forgotten.
    /// `sizes` gives the size at which each window is shown, bottom to top.
    pub fn take_window_state_notifications(&mut self, sizes: &[(u32, u32)]) -> (notifications: (
        Vec<WindowResizedNotification>,
        Vec<WindowFocusChangedNotification>,
    ))
        requires
            sizes@.len() == old(self).stack().len(),
        ensures
            focus_shown(old(self).stack(), old(self).focus_of()) ==> focus_shown(final(self).stack(), final(self).focus_of()),
            ({
                let snaps = snapshots(old(self).stack(), sizes@, old(self).focus_of());
                let report = report_all(
                    snaps,
                    Reporting {
                        sizes: old(self).reports().0,
                        focus: old(self).reports().1,
                        resized: Seq::empty(),
                        focus_changed: Seq::empty(),
                    },
                );
                &&& notifications.0@ == report.resized
                &&& notifications.1@ == report.focus_changed
                &&& final(self).reports() == (
                    keep_keys(report.sizes, snapshot_keys(snaps)),
                    keep_keys(report.focus, snapshot_keys(snaps)),
                )
            }),
            final(self).stack() == old(self).stack(),
            final(self).focus_of() == old(self).focus_of(),
            final(self).pending_closes() == old(self).pending_closes(),
            final(self).next_window_id() == old(self).next_window_id(),
    {
        let snaps = self.collect_snapshots(sizes);
        let ghost start = Reporting {
            sizes: self.reported_sizes@,
            focus: self.reported_focus@,
            resized: Seq::empty(),
            focus_changed: Seq::empty(),
        };
        let mut resized: Vec<WindowResizedNotification> = Vec::new();
        let mut focus_changed: Vec<WindowFocusChangedNotification> = Vec::new();
        let mut keys: Vec<(ProcessId, RemoteWindowId)> = Vec::new();
        let mut k: usize = 0;
        assert(snaps@.take(0) =~= Seq::<WindowSnapshot>::empty());
        while k < snaps.len()
            invariant
                k <= snaps@.len(),
                snaps@ == snapshots(old(self).stack(), sizes@, old(self).focus_of()),
                self.stack() == old(self).stack(),
                self.focus_of() == old(self).focus_of(),
                self.pending_closes() == old(self).pending_closes(),
                self.next_window_id() == old(self).next_window_id(),
                report_all(snaps@.take(k as int), start) == (Reporting {
                    sizes: self.reported_sizes@,
                    focus: self.reported_focus@,
                    resized: resized@,
                    focus_changed: focus_changed@,
                }),
                keys@ == snapshot_keys(snaps@.take(k as int)),
            decreases snaps@.len() - k,
        {
            assert(snaps@.take(k + 1).drop_last() =~= snaps@.take(k as int));
            let snapshot = snaps[k];
            let key = (snapshot.process_id, snapshot.window);
            let previous_size = lookup_entry(&self.reported_sizes, key);
            store_entry(&mut self.reported_sizes, key, (snapshot.width, snapshot.height));
            let size_unchanged = match previous_size {
                Some(size) => size.0 == snapshot.width && size.1 == snapshot.height,
                None => false,
            };
            if !size_unchanged {
                resized.push(
                    WindowResizedNotification {
                        process_id: snapshot.process_id,
                        window: snapshot.window,
                        width: snapshot.width,
                        height: snapshot.height,
                    },
                );
            }
            let previous_focus = lookup_entry(&self.reported_focus, key);
            store_entry(&mut self.reported_focus, key, snapshot.focused);
            let focus_unchanged = match previous_focus {
                Some(focused) => focused == snapshot.focused,
                None => false,
            };
            if !focus_unchanged {
                focus_changed.push(
                    WindowFocusChangedNotification {
                        process_id: snapshot.process_id,
                        window: snapshot.window,
                        focused: snapshot.focused,
                    },
                );
            }
            keys.push(key);
            assert(keys@ =~= snapshot_keys(snaps@.take(k + 1)));
            k = k + 1;
        }
        assert(snaps@.take(snaps@.len() as int) =~= snaps@);
        keep_entries(&mut self.reported_sizes, &keys);
        keep_entries(&mut self.reported_focus, &keys);
        (resized, focus_changed)
    }

    /// Whether `take_window_state_notifications` or
    /// `take_pending_close_requests` has anything to hand out, for windows
    /// shown at `sizes`.
    pub fn has_pending_platform_notifications(&self, sizes: &[(u32, u32)]) -> (pending: bool)
        requires
            sizes@.len() == self.stack().len(),
        ensures
            pending == notifications_pending(
                self.pending_closes(),
                self.reports().0,
                self.reports().1,
                snapshots(self.stack(), sizes@, self.focus_of()),
            ),
    {
        if self.pending_close_requests.len() > 0 {
            assert(self.pending_closes().len() > 0);
            return true;
        }
        let snaps = self.collect_snapshots(sizes);
        let mut keys: Vec<(ProcessId, RemoteWindowId)> = Vec::new();
        let mut k: usize = 0;
        while k < snaps.len()
            invariant
                k <= snaps@.len(),
                snaps@ == snapshots(self.stack(), sizes@, self.focus_of()),
                self.pending_closes().len() == 0,
                keys@ == snapshot_keys(snaps@.take(k as int)),
                forall|i: int|
                    0 <= i < k ==> !(lookup(self.reported_sizes@, snapshot_key(#[trigger] snaps@[i])) != Some(
                        (snaps@[i].width, snaps@[i].height),
                    ) || lookup(self.reported_focus@, snapshot_key(snaps@[i])) != Some(snaps@[i].focused)),
            decreases snaps@.len() - k,
        {
            let snapshot = snaps[k];
            let key = (snapshot.process_id, snapshot.window);
            let size = lookup_entry(&self.reported_sizes, key);
            let size_matches = match size {
                Some(size) => size.0 == snapshot.width && size.1 == snapshot.height,
                None => false,
            };
            if !size_matches {
                assert(lookup(self.reported_sizes@, snapshot_key(snaps@[k as int])) != Some(
                    (snaps@[k as int].width, snaps@[k as int].height),
                ));
                return true;
            }
            let focus = lookup_entry(&self.reported_focus, key);
            let focus_matches = match focus {
                Some(focused) => focused == snapshot.focused,
                None => false,
            };
            if !focus_matches {
                assert(lookup(self.reported_focus@, snapshot_key(snaps@[k as int])) != Some(snaps@[k as int].focused));
                return true;
            }
            keys.push(key);
            assert(keys@ =~= snapshot_keys(snaps@.take(k + 1)));
            k = k + 1;
        }
        assert(snaps@.take(snaps@.len() as int) =~= snaps@);
        let mut j: usize = 0;
        while j < self.reported_sizes.len()
            invariant
                j <= self.reported_sizes@.len(),
                keys@ == snapshot_keys(snaps@),
                snaps@ == snapshots(self.stack(), sizes@, self.focus_of()),
                self.pending_closes().len() == 0,
                forall|i: int|
                    0 <= i < snaps@.len() ==> !(lookup(self.reported_sizes@, snapshot_key(#[trigger] snaps@[i])) != Some(
                        (snaps@[i].width, snaps@[i].height),
                    ) || lookup(self.reported_focus@, snapshot_key(snaps@[i])) != Some(snaps@[i].focused)),

                forall|i: int| 0 <= i < j ==> keys@.contains(#[trigger] self.reported_sizes@[i].0),
            decreases self.reported_sizes@.len() - j,
        {
            if !keys_contain(&keys, self.reported_sizes[j].0) {
                assert(!snapshot_keys(snaps@).contains(self.reported_sizes@[j as int].0));
                return true;
            }
            j = j + 1;
        }
        let mut j: usize = 0;
        while j < self.reported_focus.len()
            invariant
                j <= self.reported_focus@.len(),
                keys@ == snapshot_keys(snaps@),
                snaps@ == snapshots(self.stack(), sizes@, self.focus_of()),
                self.pending_closes().len() == 0,
                forall|i: int| 0 <= i < self.reported_sizes@.len() ==> keys@.contains(#[trigger] self.reported_sizes@[i].0),
                forall|i: int|
                    0 <= i < snaps@.len() ==> !(lookup(self.reported_sizes@, snapshot_key(#[trigger] snaps@[i])) != Some(
                        (snaps@[i].width, snaps@[i].height),
                    ) || lookup(self.reported_focus@, snapshot_key(snaps@[i])) != Some(snaps@[i].focused)),

                forall|i: int| 0 <= i < j ==> keys@.contains(#[trigger] self.reported_focus@[i].0),
            decreases self.reported_focus@.len() - j,
        {
            if !keys_contain(&keys, self.reported_focus[j].0) {
                assert(!snapshot_keys(snaps@).contains(self.reported_focus@[j as int].0));
                return true;
            }
            j = j + 1;
        }
        false
    }

    /// Whether some window covers the Dock: one on screen that is maximised
    /// (it keeps a frame to restore) or whose frame meets the Dock's, as
    /// `overlaps` says for each window, bottom to top.
    pub fn windows_cover_dock(&self, overlaps: &[bool]) -> (covered: bool)
        requires
            overlaps@.len() == self.stack().len(),
        ensures
            covered == exists|i: int| 0 <= i < self.stack().len() && covers_dock(#[trigger] self.stack()[i], overlaps@[i]),
    {
        let mut i: usize = 0;
        while i < self.windows.len()
            invariant
                i <= self.stack().len() == overlaps@.len(),
                forall|j: int| 0 <= j < i ==> !covers_dock(#[trigger] self.stack()[j], overlaps@[j]),
            decreases self.stack().len() - i,
        {
            let window = &self.windows[i];
            if !window.minimized && (window.restore_frame.is_some() || overlaps[i]) {
                assert(covers_dock(self.stack()[i as int], overlaps@[i as int]));
                return true;
            }
            i = i + 1;
        }
        false
    }

    /// The process that owns the focused window, if one does.
    pub fn focused_process_id(&self) -> (process_id: Option<ProcessId>)
        ensures
            process_id == match self.focus_of() {
                Some(id) => if has_window(self.stack(), id) {
                    self.stack()[first_with_id(self.stack(), id)].process_id
                } else {
                    None
                },
                None => None,
            },
    {
        let focused = match self.focused {
            Some(focused) => focused,
            None => {
                return None;
            },
        };
        match self.find(focused) {
            Some(index) => {
                proof {
                    lemma_first_with_id(self.stack(), focused, index as int);
                }
                self.windows[index].process_id
            },
            None => None,
        }
    }

    /// The lowest window with a title-bar control held down, and that
    /// control.
    pub fn pressed_control(&self) -> (pressed: Option<(WindowId, WindowControl)>)
        ensures
            pressed == first_pressed(self.stack()),
    {
        let mut i: usize = 0;
        assert(self.stack().skip(0) =~= self.stack());
        while i < self.windows.len()
            invariant
                i <= self.stack().len(),
                first_pressed(self.stack()) == first_pressed(self.stack().skip(i as int)),
            decreases self.stack().len() - i,
        {
            assert(self.stack().skip(i as int).drop_first() =~= self.stack().skip(i + 1));
            if let Some(control) = self.windows[i].interaction.pressed {
                return Some((self.windows[i].id, control));
            }
            i = i + 1;
        }
        assert(self.stack().skip(i as int) =~= Seq::<DesktopWindow<F>>::empty());
        None
    }

    /// What releasing the primary button does, given the control under the
    /// pointer in the window whose control is held down: that control acts
    /// when the button comes up over it.
    pub fn release_action(&self, released: Option<WindowControl>) -> (action: Option<(WindowId, WindowControl)>)
        ensures
            action == match first_pressed(self.stack()) {
                Some((id, control)) => if released == Some(control) {
                    Some((id, control))
                } else {
                    None
                },
                None => None,
            },
    {
        match self.pressed_control() {
            Some((id, control)) => if released == Some(control) {
                Some((id, control))
            } else {
                None
            },
            None => None,
        }
    }

    /// A press on the bare desktop: no window keeps the focus, and no
    /// control stays under the pointer or held down. Says whether anything
    /// changed.
    pub fn clear_focus_and_interactions(&mut self) -> (changed: bool)
        ensures
            focus_shown(old(self).stack(), old(self).focus_of()) ==> focus_shown(final(self).stack(), final(self).focus_of()),
            changed == (old(self).focus_of() is Some || exists|i: int|
                0 <= i < old(self).stack().len() && (#[trigger] old(self).stack()[i]).interaction != no_interaction()),
            changed ==> final(self).focus_of() is None && final(self).stack().len() == old(self).stack().len()
                && forall|i: int| 0 <= i < old(self).stack().len() ==> (#[trigger] final(self).stack()[i]) == at_rest(old(self).stack()[i]),
            !changed ==> final(self).focus_of() == old(self).focus_of() && final(self).stack() == old(self).stack(),
            final(self).pending_closes() == old(self).pending_closes(),
            final(self).next_window_id() == old(self).next_window_id(),
            final(self).reports() == old(self).reports(),
    {
        let mut busy = false;
        let mut i: usize = 0;
        while i < self.windows.len()
            invariant
                i <= self.stack().len(),
                busy == exists|j: int| 0 <= j < i && (#[trigger] self.stack()[j]).interaction != no_interaction(),
            decreases self.stack().len() - i,
        {
            if self.windows[i].interaction.hovered.is_some() || self.windows[i].interaction.pressed.is_some() {
                busy = true;
            }
            i = i + 1;
        }
        let changed = self.focused.is_some() || busy;
        if changed {
            self.focused = None;
            self.clear_interactions();
        }
        changed
    }

    fn focus_topmost_visible(&mut self)
        ensures
            final(self).focus_of() == topmost_visible(old(self).stack()),
            final(self).stack() == old(self).stack(),
            final(self).pending_closes() == old(self).pending_closes(),
            final(self).next_window_id() == old(self).next_window_id(),
            final(self).reports() == old(self).reports(),
    {
        let mut i = self.windows.len();
        assert(self.stack().take(i as int) =~= self.stack());
        while i > 0
            invariant
                i <= self.stack().len(),
                self.stack() == old(self).stack(),
                self.pending_closes() == old(self).pending_closes(),
                self.next_window_id() == old(self).next_window_id(),
                self.reports() == old(self).reports(),
                topmost_visible(self.stack()) == topmost_visible(self.stack().take(i as int)),
            decreases i,
        {
            assert(self.stack().take(i as int).drop_last() =~= self.stack().take(i - 1));
            if !self.windows[i - 1].minimized {
                self.focused = Some(self.windows[i - 1].id);
                return;
            }
            i = i - 1;
        }
        self.focused = None;
    }
}

} // verus!
