//! What the desktop and the platform it runs on tell each other: processes,
//! window requests and notifications, the state of the system bar, and the
//! applications installed.
use crate::manifest::{parse_string_array_field, parse_string_field, string_array_field, string_field};
use crate::text::{chars_of, string_from_chars};
use crate::window::WindowContent;
use crate::protocol::RemoteWindowId;
use vstd::prelude::*;

verus! {

#[derive(Clone, Copy, Debug, PartialEq, Eq, Hash, Structural)]
pub struct ProcessId(pub u32);

#[derive(Clone, Debug, PartialEq, Eq)]
pub struct CreateWindowRequest {
    pub process_id: ProcessId,
    pub content: WindowContent,
    pub title: String,
    pub width: u32,
    pub height: u32,
    pub resizable: bool,
}

#[derive(Clone, Copy, Debug, PartialEq, Eq, Structural)]
pub struct CloseWindowRequest {
    pub process_id: ProcessId,
    pub window: RemoteWindowId,
}

#[derive(Clone, Copy, Debug, PartialEq, Eq, Structural)]
pub struct WindowResizedNotification {
    pub process_id: ProcessId,
    pub window: RemoteWindowId,
    pub width: u32,
    pub height: u32,
}

#[derive(Clone, Copy, Debug, PartialEq, Eq, Structural)]
pub struct WindowFocusChangedNotification {
    pub process_id: ProcessId,
    pub window: RemoteWindowId,
    pub focused: bool,
}

#[derive(Clone, Debug, PartialEq, Eq)]
pub struct ClockState {
    pub date: String,
    pub time: String,
}

#[derive(Clone, Debug, PartialEq, Eq)]
pub struct NotificationState {
    pub unread_count: u32,
}

#[derive(Clone, Copy, Debug, PartialEq, Eq, Structural)]
pub enum SystemAction {
    Sleep,
    Restart,
    ShutDown,
    LockScreen,
    LogOut,
}

#[derive(Clone, Debug, PartialEq, Eq)]
pub enum NetworkState {
    Unavailable,
    Disconnected,
    Connecting,
    Connected { network_name: Option<String>, signal_strength: Option<u8> },
}

impl Default for NetworkState {
    fn default() -> (state: Self)
        ensures
            state is Unavailable,
    {
        NetworkState::Unavailable
    }
}

#[derive(Clone, Debug, PartialEq, Eq)]
pub struct VolumeState {
    pub available: bool,
    pub muted: bool,
    pub level: u8,
}

#[derive(Clone, Debug, PartialEq, Eq)]
pub struct BatteryState {
    pub available: bool,
    pub charging: bool,
    pub percentage: u8,
}

#[derive(Clone, Debug, PartialEq, Eq)]
pub struct SystemBarState {
    pub clock: ClockState,
    pub notifications: NotificationState,
    pub network: NetworkState,
    pub volume: VolumeState,
    pub battery: BatteryState,
}

impl Default for ClockState {
    fn default() -> (state: Self)
        ensures
            state.date@ == Seq::<char>::empty(),
            state.time@ == Seq::<char>::empty(),
    {
        ClockState { date: String::new(), time: String::new() }
    }
}

impl Default for NotificationState {
    fn default() -> (state: Self)
        ensures
            state.unread_count == 0,
    {
        NotificationState { unread_count: 0 }
    }
}

impl Default for VolumeState {
    fn default() -> (state: Self)
        ensures
            !state.available,
            !state.muted,
            state.level == 0,
    {
        VolumeState { available: false, muted: false, level: 0 }
    }
}

impl Default for BatteryState {
    fn default() -> (state: Self)
        ensures
            !state.available,
            !state.charging,
            state.percentage == 0,
    {
        BatteryState { available: false, charging: false, percentage: 0 }
    }
}

impl Default for SystemBarState {
    /// An empty clock, no notifications, no network, volume or battery.
    fn default() -> (state: Self)
        ensures
            state.clock.date@ == Seq::<char>::empty(),
            state.clock.time@ == Seq::<char>::empty(),
            state.notifications.unread_count == 0,
            state.network is Unavailable,
            !state.volume.available && !state.volume.muted && state.volume.level == 0,
            !state.battery.available && !state.battery.charging && state.battery.percentage == 0,
    {
        SystemBarState {
            clock: ClockState::default(),
            notifications: NotificationState::default(),
            network: NetworkState::default(),
            volume: VolumeState::default(),
            battery: BatteryState::default(),
        }
    }
}

#[derive(Clone, Debug, PartialEq, Eq)]
pub enum PlatformError {
    ServiceUnavailable,
    InvalidResponse,
    PermissionDenied,
    TransportFailure,
    UnsupportedOperation,
    ProcessLaunchFailed,
    ProcessLaunchRejected { errno: u64 },
    ProcessTerminationFailed,
}

/// An installed application, as its bundle's manifest describes it. Paths
/// are kept as text.
#[derive(Clone, Debug, PartialEq, Eq)]
pub struct AppInfo {
    pub root: String,
    pub name: String,
    pub bundle_id: String,
    pub version: String,
    pub developer: String,
    pub entry: String,
    pub description: String,
    pub icon: Option<String>,
    pub resources: Vec<String>,
}

/// A path that starts at the root of the file system.
pub open spec fn is_absolute(path: Seq<char>) -> bool {
    path.len() > 0 && path[0] == '/'
}

/// `path` taken relative to `root`: an absolute path stands for itself;
/// otherwise a separator is put between the two unless `root` is empty or
/// already ends with one.
pub open spec fn joined(root: Seq<char>, path: Seq<char>) -> Seq<char> {
    if is_absolute(path) {
        path
    } else if root.len() == 0 || root.last() == '/' {
        root + path
    } else {
        root.push('/') + path
    }
}

/// `path` taken relative to the bundle at `root`.
pub fn resolve_app_path(root: &str, path: &str) -> (resolved: String)
    ensures
        resolved@ == joined(root@, path@),
{
    let path_chars = chars_of(path);
    if path_chars.len() > 0 && path_chars[0] == '/' {
        return path.to_owned();
    }
    let mut chars = chars_of(root);
    if chars.len() > 0 && chars[chars.len() - 1] != '/' {
        chars.push('/');
    }
    let ghost prefix = chars@;
    let mut index: usize = 0;
    while index < path_chars.len()
        invariant
            index <= path_chars@.len(),
            chars@ == prefix + path_chars@.take(index as int),
        decreases path_chars@.len() - index,
    {
        chars.push(path_chars[index]);
        index = index + 1;
        assert(chars@ =~= prefix + path_chars@.take(index as int));
    }
    assert(path_chars@.take(path_chars@.len() as int) =~= path_chars@);
    string_from_chars(chars.as_slice())
}

impl AppInfo {
    /// The executable that launches the application.
    pub fn entry_path(&self) -> (path: String)
        ensures
            path@ == joined(self.root@, self.entry@),
    {
        resolve_app_path(self.root.as_str(), self.entry.as_str())
    }
}

pub open spec fn field_or_empty(field: Option<Seq<char>>) -> Seq<char> {
    match field {
        Some(value) => value,
        None => Seq::empty(),
    }
}

/// The bundle identifier that a manifest declares: `bundle_id`, or, where
/// `hyphenated` is allowed, `bundle-id` when that is missing.
pub open spec fn declared_bundle_id(content: Seq<char>, hyphenated: bool) -> Option<Seq<char>> {
    match string_field(content, "bundle_id"@) {
        Some(id) => Some(id),
        None => if hyphenated {
            string_field(content, "bundle-id"@)
        } else {
            None
        },
    }
}

/// Whether a table kept by process holds at most one entry for each process.
pub open spec fn one_entry_per_process<T>(entries: Seq<(ProcessId, T)>) -> bool {
    forall|i: int, j: int| 0 <= i < j < entries.len() ==> (#[trigger] entries[i]).0 != (#[trigger] entries[j]).0
}

pub open spec fn string_views(strings: Seq<String>) -> Seq<Seq<char>> {
    strings.map_values(|s: String| s@)
}

/// The application that the manifest `content` of the bundle at `root`
/// describes: `None` unless it names the application, its bundle identifier
/// and its entry.
pub open spec fn describes(root: Seq<char>, content: Seq<char>, hyphenated: bool, app: Option<AppInfo>) -> bool {
    match app {
        None => string_field(content, "name"@) is None || declared_bundle_id(content, hyphenated) is None
            || string_field(content, "entry"@) is None,
        Some(app) => {
            &&& app.root@ == root
            &&& string_field(content, "name"@) == Some(app.name@)
            &&& declared_bundle_id(content, hyphenated) == Some(app.bundle_id@)
            &&& string_field(content, "entry"@) == Some(app.entry@)
            &&& app.version@ == field_or_empty(string_field(content, "version"@))
            &&& app.developer@ == field_or_empty(string_field(content, "developer"@))
            &&& app.description@ == field_or_empty(string_field(content, "description"@))
            &&& match (app.icon, string_field(content, "icon"@)) {
                (Some(icon), Some(path)) => icon@ == joined(root, path),
                (None, None) => true,
                _ => false,
            }
            &&& string_views(app.resources@) == string_array_field(content, "resources"@).map_values(
                |path: Seq<char>| joined(root, path),
            )
        },
    }
}

fn field_text(content: &str, key: &str) -> (value: String)
    ensures
        value@ == field_or_empty(string_field(content@, key@)),
{
    match parse_string_field(content, key) {
        Some(value) => value,
        None => String::new(),
    }
}

fn app_info_from(root: &str, content: &str, hyphenated: bool) -> (app: Option<AppInfo>)
    ensures
        describes(root@, content@, hyphenated, app),
{
    let name = match parse_string_field(content, "name") {
        Some(name) => name,
        None => {
            return None;
        },
    };
    let bundle_id = match parse_string_field(content, "bundle_id") {
        Some(id) => id,
        None => {
            if !hyphenated {
                return None;
            }
            match parse_string_field(content, "bundle-id") {
                Some(id) => id,
                None => {
                    return None;
                },
            }
        },
    };
    let entry = match parse_string_field(content, "entry") {
        Some(entry) => entry,
        None => {
            return None;
        },
    };
    let version = field_text(content, "version");
    let developer = field_text(content, "developer");
    let description = field_text(content, "description");
    let icon = match parse_string_field(content, "icon") {
        Some(path) => Some(resolve_app_path(root, path.as_str())),
        None => None,
    };
    let paths = parse_string_array_field(content, "resources");
    let mut resources: Vec<String> = Vec::new();
    let mut index: usize = 0;
    while index < paths.len()
        invariant
            index <= paths@.len(),
            string_views(resources@) == crate::manifest::string_views(paths@).take(index as int).map_values(
                |path: Seq<char>| joined(root@, path),
            ),
        decreases paths@.len() - index,
    {
        let ghost previous = string_views(resources@);
        let resolved = resolve_app_path(root, paths[index].as_str());
        resources.push(resolved);
        assert(string_views(resources@) =~= previous.push(resolved@));
        assert(crate::manifest::string_views(paths@).take(index + 1).map_values(
            |path: Seq<char>| joined(root@, path),
        ) =~= crate::manifest::string_views(paths@).take(index as int).map_values(
            |path: Seq<char>| joined(root@, path),
        ).push(joined(root@, paths@[index as int]@)));
        index = index + 1;
    }
    assert(crate::manifest::string_views(paths@).take(paths@.len() as int) =~= crate::manifest::string_views(paths@));
    Some(
        AppInfo {
            root: root.to_owned(),
            name,
            bundle_id,
            version,
            developer,
            entry,
            description,
            icon,
            resources,
        },
    )
}

/// The application that a bundle's `about.toml` describes, on mochiOS, where
/// the bundle identifier may also be spelt `bundle-id`.
pub fn read_app_about(root: &str, content: &str) -> (app: Option<AppInfo>)
    ensures
        describes(root@, content@, true, app),
{
    app_info_from(root, content, true)
}

/// The application that a bundle's manifest describes, on Linux.
pub fn read_app_manifest(root: &str, content: &str) -> (app: Option<AppInfo>)
    ensures
        describes(root@, content@, false, app),
{
    app_info_from(root, content, false)
}

} // verus!
