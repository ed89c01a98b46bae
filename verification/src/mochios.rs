//! The mochiOS side of the platform: the requests Binder sends to the
//! capability service, the process snapshot it reads from the kernel, the
//! windows of its internal applications, and the applications it launched.
use crate::apps::{ABOUT_BUNDLE_ID, ABOUT_ENTRY, INTERNAL_BUNDLE_ID, TEST_BUNDLE_ID, TEST_ENTRY};
use crate::platform::{
    one_entry_per_process, AppInfo, ClockState, CloseWindowRequest, CreateWindowRequest, PlatformError, ProcessId,
    SystemAction, SystemBarState,
};
use crate::protocol::RemoteWindowId;
use crate::text::{chars_of, same_text, string_from_chars, text_equals};
use crate::window::WindowContent;
use vstd::bytes::{spec_u16_from_le_bytes, spec_u32_to_le_bytes, spec_u64_from_le_bytes, spec_u64_to_le_bytes, u32_to_le_bytes, u64_from_le_bytes, u64_to_le_bytes};
use vstd::prelude::*;
use vstd::slice::slice_subrange;
use vstd::utf8::encode_utf8;

verus! {

pub const SPAWN_APP_OPCODE: u32 = 0x4150_5053;

pub const SPAWN_APP_HEADER_LEN: usize = 24;

pub const PROCESS_RECORD_SIZE: usize = 88;

pub const PROCESS_STATE_TERMINATED: u64 = 4;

pub const FIRST_INTERNAL_PID: u32 = 0x4000_0000;

pub open spec fn bool_byte(value: bool) -> u8 {
    if value {
        1
    } else {
        0
    }
}

/// Each item followed by a zero byte.
pub open spec fn nul_terminated(items: Seq<Seq<u8>>) -> Seq<u8>
    decreases items.len(),
{
    if items.len() == 0 {
        Seq::empty()
    } else {
        nul_terminated(items.drop_last()) + items.last().push(0u8)
    }
}

/// The capability service's app-launch request: the opcode, four zero
/// bytes, the shell endpoint, the interactive flag and seven zero bytes, then
/// the executable's path and each environment entry, each ending in a zero.
pub open spec fn spawn_request(
    executable: Seq<u8>,
    shell_endpoint: u64,
    interactive: bool,
    environment: Seq<Seq<u8>>,
) -> Seq<u8> {
    spec_u32_to_le_bytes(SPAWN_APP_OPCODE) + seq![0u8, 0u8, 0u8, 0u8] + spec_u64_to_le_bytes(
        shell_endpoint,
    ) + seq![bool_byte(interactive), 0u8, 0u8, 0u8, 0u8, 0u8, 0u8, 0u8] + executable.push(0u8)
        + nul_terminated(environment)
}

pub open spec fn utf8_of(strings: Seq<String>) -> Seq<Seq<u8>> {
    strings.map_values(|s: String| encode_utf8(s@))
}

/// A launch request can carry an executable given by an absolute path and
/// environment entries, none of which holds a zero byte.
pub open spec fn spawn_request_allowed(executable: Seq<char>, environment: Seq<String>) -> bool {
    &&& executable.len() > 0
    &&& executable[0] == '/'
    &&& !encode_utf8(executable).contains(0u8)
    &&& forall|i: int| 0 <= i < environment.len() ==> !(#[trigger] encode_utf8(environment[i]@)).contains(0u8)
}

fn push_bytes(out: &mut Vec<u8>, bytes: &[u8])
    ensures
        final(out)@ == old(out)@ + bytes@,
{
    let mut index: usize = 0;
    while index < bytes.len()
        invariant
            index <= bytes@.len(),
            out@ == old(out)@ + bytes@.subrange(0, index as int),
        decreases bytes@.len() - index,
    {
        out.push(bytes[index]);
        index = index + 1;
        assert(out@ =~= old(out)@ + bytes@.subrange(0, index as int));
    }
    assert(bytes@.subrange(0, bytes@.len() as int) =~= bytes@);
}

fn has_zero_byte(bytes: &[u8]) -> (found: bool)
    ensures
        found == bytes@.contains(0u8),
{
    let mut index: usize = 0;
    while index < bytes.len()
        invariant
            index <= bytes@.len(),
            forall|j: int| 0 <= j < index ==> bytes@[j] != 0u8,
        decreases bytes@.len() - index,
    {
        if bytes[index] == 0 {
            assert(bytes@[index as int] == 0u8);
            return true;
        }
        index = index + 1;
    }
    false
}

/// The request that asks the capability service to launch `executable`
/// with the given session environment.
pub fn encode_spawn_app_request_with_environment(
    executable: &str,
    shell_endpoint: u64,
    interactive: bool,
    environment: &[String],
) -> (request: Result<Vec<u8>, PlatformError>)
    ensures
        spawn_request_allowed(executable@, environment@) ==> request is Ok && request->Ok_0@
            == spawn_request(encode_utf8(executable@), shell_endpoint, interactive, utf8_of(environment@)),
        !spawn_request_allowed(executable@, environment@) ==> request matches Err(
            PlatformError::ProcessLaunchFailed,
        ),
{
    let path = chars_of(executable);
    let path_bytes = executable.as_bytes();
    if path.len() == 0 || path[0] != '/' || has_zero_byte(path_bytes) {
        return Err(PlatformError::ProcessLaunchFailed);
    }
    let mut index: usize = 0;
    while index < environment.len()
        invariant
            index <= environment@.len(),
            forall|i: int| 0 <= i < index ==> !(#[trigger] encode_utf8(environment@[i]@)).contains(0u8),
        decreases environment@.len() - index,
    {
        if has_zero_byte(environment[index].as_str().as_bytes()) {
            return Err(PlatformError::ProcessLaunchFailed);
        }
        index = index + 1;
    }
    let mut request: Vec<u8> = Vec::new();
    let opcode = u32_to_le_bytes(SPAWN_APP_OPCODE);
    push_bytes(&mut request, opcode.as_slice());
    request.push(0);
    request.push(0);
    request.push(0);
    request.push(0);
    let endpoint = u64_to_le_bytes(shell_endpoint);
    push_bytes(&mut request, endpoint.as_slice());
    request.push(if interactive { 1u8 } else { 0u8 });
    request.push(0);
    request.push(0);
    request.push(0);
    request.push(0);
    request.push(0);
    request.push(0);
    request.push(0);
    push_bytes(&mut request, path_bytes);
    request.push(0);
    let ghost header_and_path = request@;
    let mut k: usize = 0;
    assert(environment@.take(0) =~= Seq::<String>::empty());
    assert(utf8_of(environment@.take(0)) =~= Seq::<Seq<u8>>::empty());
    while k < environment.len()
        invariant
            k <= environment@.len(),
            request@ == header_and_path + nul_terminated(utf8_of(environment@.take(k as int))),
        decreases environment@.len() - k,
    {
        let item = environment[k].as_str().as_bytes();
        push_bytes(&mut request, item);
        request.push(0);
        let ghost taken = utf8_of(environment@.take(k + 1));
        assert(taken.drop_last() =~= utf8_of(environment@.take(k as int)));
        assert(taken.last() == encode_utf8(environment@[k as int]@));
        k = k + 1;
        assert(request@ =~= header_and_path + nul_terminated(utf8_of(environment@.take(k as int))));
    }
    assert(environment@.take(environment@.len() as int) =~= environment@);
    assert(request@ =~= spawn_request(
        encode_utf8(executable@),
        shell_endpoint,
        interactive,
        utf8_of(environment@),
    ));
    Ok(request)
}

/// The request that asks the capability service to launch `executable`.
pub fn encode_spawn_app_request(executable: &str, shell_endpoint: u64, interactive: bool) -> (request:
    Result<Vec<u8>, PlatformError>)
    ensures
        spawn_request_allowed(executable@, Seq::empty()) ==> request is Ok && request->Ok_0@
            == spawn_request(encode_utf8(executable@), shell_endpoint, interactive, Seq::empty()),
        !spawn_request_allowed(executable@, Seq::empty()) ==> request matches Err(
            PlatformError::ProcessLaunchFailed,
        ),
{
    let environment: Vec<String> = Vec::new();
    let result = encode_spawn_app_request_with_environment(
        executable,
        shell_endpoint,
        interactive,
        environment.as_slice(),
    );
    assert(utf8_of(environment@) =~= Seq::<Seq<u8>>::empty());
    result
}

// ---------------------------------------------------------------------------
// The kernel's process snapshot.
// ---------------------------------------------------------------------------

/// The eight bytes of a field read as a number in the given byte order:
/// least significant first where `little_endian`, most significant first
/// otherwise.
pub open spec fn field_u64(bytes: Seq<u8>, little_endian: bool) -> u64 {
    if little_endian {
        spec_u64_from_le_bytes(bytes)
    } else {
        spec_u64_from_le_bytes(bytes.reverse())
    }
}

/// The process identifier field of record `i` (bytes 0..8).
pub open spec fn record_pid(buffer: Seq<u8>, i: int, little_endian: bool) -> u64 {
    field_u64(buffer.subrange(i * 88, i * 88 + 8), little_endian)
}

/// The state field of record `i` (bytes 16..24).
pub open spec fn record_state(buffer: Seq<u8>, i: int, little_endian: bool) -> u64 {
    field_u64(buffer.subrange(i * 88 + 16, i * 88 + 24), little_endian)
}

/// A record names a live process: a process identifier that is not zero and
/// fits in 32 bits, in a state other than terminated.
pub open spec fn record_is_live(buffer: Seq<u8>, i: int, little_endian: bool) -> bool {
    record_pid(buffer, i, little_endian) != 0 && record_pid(buffer, i, little_endian) <= u32::MAX
        && record_state(buffer, i, little_endian) != PROCESS_STATE_TERMINATED
}

/// The set of live processes among the first `n` records: each process
/// once, where its first live record stands.
pub open spec fn live_processes(buffer: Seq<u8>, n: int, little_endian: bool) -> Seq<ProcessId>
    decreases n,
{
    if n <= 0 {
        Seq::empty()
    } else {
        let earlier = live_processes(buffer, n - 1, little_endian);
        let process = ProcessId(record_pid(buffer, n - 1, little_endian) as u32);
        if record_is_live(buffer, n - 1, little_endian) && !earlier.contains(process) {
            earlier.push(process)
        } else {
            earlier
        }
    }
}

/// No process is named twice among the live processes.
pub proof fn lemma_live_processes_distinct(buffer: Seq<u8>, n: int, little_endian: bool)
    ensures
        live_processes(buffer, n, little_endian).no_duplicates(),
    decreases n,
{
    if n > 0 {
        lemma_live_processes_distinct(buffer, n - 1, little_endian);
    }
}

fn holds_process(processes: &Vec<ProcessId>, process: ProcessId) -> (held: bool)
    ensures
        held == processes@.contains(process),
{
    let mut i: usize = 0;
    while i < processes.len()
        invariant
            i <= processes@.len(),
            forall|j: int| 0 <= j < i ==> processes@[j] != process,
        decreases processes@.len() - i,
    {
        if processes[i].0 == process.0 {
            assert(processes@[i as int] == process);
            return true;
        }
        i = i + 1;
    }
    false
}

/// How many whole records the snapshot holds, at most `record_count`.
pub open spec fn record_limit(buffer_len: int, record_count: int) -> int {
    if record_count < buffer_len / 88 {
        record_count
    } else {
        buffer_len / 88
    }
}

/// `u16::from_ne_bytes`: the number whose memory representation on this
/// machine is `bytes`. The machine stores numbers least significant byte
/// first or most significant byte first; which, the contract leaves open.
#[verifier::external_body]
fn native_u16(bytes: [u8; 2]) -> (value: u16)
    ensures
        value == spec_u16_from_le_bytes(bytes@) || value == spec_u16_from_le_bytes(bytes@.reverse()),
{
    u16::from_ne_bytes(bytes)
}

/// The eight bytes at `start` read in the given byte order.
fn read_field_u64(buffer: &[u8], start: usize, little_endian: bool) -> (value: u64)
    requires
        start + 8 <= buffer@.len(),
    ensures
        value == field_u64(buffer@.subrange(start as int, start + 8), little_endian),
{
    let total = buffer.len();
    assert(start + 8 <= total);
    let bytes = slice_subrange(buffer, start, start + 8);
    if little_endian {
        return u64_from_le_bytes(bytes);
    }
    let mut reversed: Vec<u8> = Vec::new();
    let mut k: usize = 8;
    while k > 0
        invariant
            k <= 8,
            bytes@.len() == 8,
            reversed@ == bytes@.subrange(k as int, 8).reverse(),
        decreases k,
    {
        k = k - 1;
        reversed.push(bytes[k]);
        assert(reversed@ =~= bytes@.subrange(k as int, 8).reverse());
    }
    assert(bytes@.subrange(0, 8) =~= bytes@);
    u64_from_le_bytes(reversed.as_slice())
}

/// The live processes of a snapshot of `record_count` records of 88 bytes
/// whose numbers are stored in the given byte order; a partial record at the
/// end is not read.
pub fn decode_process_records(buffer: &[u8], record_count: usize, little_endian: bool) -> (live: Vec<ProcessId>)
    ensures
        live@ == live_processes(buffer@, record_limit(buffer@.len() as int, record_count as int), little_endian),
        live@.no_duplicates(),
{
    proof {
        lemma_live_processes_distinct(buffer@, record_limit(buffer@.len() as int, record_count as int), little_endian);
    }
    let total = buffer.len();
    let whole = total / PROCESS_RECORD_SIZE;
    let limit = if record_count < whole {
        record_count
    } else {
        whole
    };
    let mut live: Vec<ProcessId> = Vec::new();
    let mut index: usize = 0;
    while index < limit
        invariant
            index <= limit <= whole == buffer@.len() / 88,
            total == buffer@.len(),
            limit == record_limit(buffer@.len() as int, record_count as int),
            live@ == live_processes(buffer@, index as int, little_endian),
        decreases limit - index,
    {
        assert(index * 88 + 88 <= buffer@.len()) by (nonlinear_arith)
            requires
                index < buffer@.len() / 88,
        ;
        let start = index * PROCESS_RECORD_SIZE;
        let pid = read_field_u64(buffer, start, little_endian);
        let state = read_field_u64(buffer, start + 16, little_endian);
        if pid != 0 && pid <= 0xffff_ffffu64 && state != PROCESS_STATE_TERMINATED {
            let process = ProcessId(pid as u32);
            if !holds_process(&live, process) {
                live.push(process);
            }
        }
        index = index + 1;
    }
    live
}

/// The live processes of a snapshot of `record_count` records of 88 bytes,
/// its numbers in this machine's byte order: the records read least
/// significant byte first on a machine that stores numbers so, most
/// significant first on one that does not.
pub fn decode_live_process_ids(buffer: &[u8], record_count: usize) -> (live: Vec<ProcessId>)
    ensures
        ({
            let limit = record_limit(buffer@.len() as int, record_count as int);
            live@ == live_processes(buffer@, limit, true) || live@ == live_processes(buffer@, limit, false)
        }),
        live@.no_duplicates(),
{
    let little_endian = native_u16([1, 0]) == 1;
    decode_process_records(buffer, record_count, little_endian)
}

// ---------------------------------------------------------------------------
// Internal applications.
// ---------------------------------------------------------------------------

proof fn lemma_internal_entries_differ()
    ensures
        ABOUT_ENTRY@ != TEST_ENTRY@,
{
    reveal_strlit("internal:about");
    reveal_strlit("internal:test");
    assert(ABOUT_ENTRY@.len() != TEST_ENTRY@.len());
}

/// The bundle identifier under which an internal entry runs.
pub fn internal_bundle_id(entry: &str) -> (bundle_id: &'static str)
    ensures
        entry@ == ABOUT_ENTRY@ ==> bundle_id@ == ABOUT_BUNDLE_ID@,
        entry@ == TEST_ENTRY@ ==> bundle_id@ == TEST_BUNDLE_ID@,
        entry@ != ABOUT_ENTRY@ && entry@ != TEST_ENTRY@ ==> bundle_id@ == INTERNAL_BUNDLE_ID@,
{
    proof {
        lemma_internal_entries_differ();
    }
    if text_equals(entry, ABOUT_ENTRY) {
        ABOUT_BUNDLE_ID
    } else if text_equals(entry, TEST_ENTRY) {
        TEST_BUNDLE_ID
    } else {
        INTERNAL_BUNDLE_ID
    }
}

/// The windows that an internal application opens when it starts: one About
/// window, or three test windows; none for any other entry.
pub fn create_internal_window_requests(process_id: ProcessId, entry: &str) -> (requests: Vec<
    CreateWindowRequest,
>)
    ensures
        entry@ == ABOUT_ENTRY@ ==> requests@.len() == 1 && requests@[0].process_id == process_id
            && requests@[0].content == WindowContent::About && requests@[0].title@
            == "About mochiOS"@ && requests@[0].width == 420 && requests@[0].height == 300
            && requests@[0].resizable,
        entry@ == TEST_ENTRY@ ==> requests@.len() == 3 && (forall|i: int|
            0 <= i < 3 ==> (#[trigger] requests@[i]).process_id == process_id
                && requests@[i].content == WindowContent::Test && requests@[i].width == 360
                && requests@[i].height == 220 && requests@[i].resizable) && requests@[0].title@
            == "Test Window 1"@ && requests@[1].title@ == "Test Window 2"@ && requests@[2].title@
            == "Test Window 3"@,
        entry@ != ABOUT_ENTRY@ && entry@ != TEST_ENTRY@ ==> requests@.len() == 0,
{
    proof {
        lemma_internal_entries_differ();
    }
    let mut requests: Vec<CreateWindowRequest> = Vec::new();
    if text_equals(entry, ABOUT_ENTRY) {
        requests.push(
            CreateWindowRequest {
                process_id,
                content: WindowContent::About,
                title: "About mochiOS".to_owned(),
                width: 420,
                height: 300,
                resizable: true,
            },
        );
    } else if text_equals(entry, TEST_ENTRY) {
        let titles = ["Test Window 1", "Test Window 2", "Test Window 3"];
        let mut index: usize = 0;
        while index < 3
            invariant
                index <= 3,
                requests@.len() == index,
                titles@ == seq!["Test Window 1", "Test Window 2", "Test Window 3"],
                forall|i: int|
                    0 <= i < index ==> (#[trigger] requests@[i]).process_id == process_id
                        && requests@[i].content == WindowContent::Test && requests@[i].width == 360
                        && requests@[i].height == 220 && requests@[i].resizable
                        && requests@[i].title@ == titles@[i]@,
            decreases 3 - index,
        {
            requests.push(
                CreateWindowRequest {
                    process_id,
                    content: WindowContent::Test,
                    title: titles[index].to_owned(),
                    width: 360,
                    height: 220,
                    resizable: true,
                },
            );
            index = index + 1;
        }
    }
    requests
}

/// The argument that hands one variable of the session environment to a
/// launched application: `__MNU_EXEC_ENV=NAME=value`.
pub fn session_environment_argument(name: &str, value: &str) -> (argument: String)
    ensures
        argument@ == "__MNU_EXEC_ENV="@ + name@ + "="@ + value@,
{
    let mut chars = chars_of("__MNU_EXEC_ENV=");
    let name_chars = chars_of(name);
    let value_chars = chars_of(value);
    let ghost start = chars@;
    let mut i: usize = 0;
    while i < name_chars.len()
        invariant
            i <= name_chars@.len(),
            chars@ == start + name_chars@.take(i as int),
        decreases name_chars@.len() - i,
    {
        chars.push(name_chars[i]);
        i = i + 1;
        assert(chars@ =~= start + name_chars@.take(i as int));
    }
    assert(name_chars@.take(name_chars@.len() as int) =~= name_chars@);
    chars.push('=');
    proof {
        reveal_strlit("=");
    }
    let ghost middle = chars@;
    assert(middle =~= start + name@ + "="@);
    let mut j: usize = 0;
    while j < value_chars.len()
        invariant
            j <= value_chars@.len(),
            chars@ == middle + value_chars@.take(j as int),
        decreases value_chars@.len() - j,
    {
        chars.push(value_chars[j]);
        j = j + 1;
        assert(chars@ =~= middle + value_chars@.take(j as int));
    }
    assert(value_chars@.take(value_chars@.len() as int) =~= value_chars@);
    string_from_chars(chars.as_slice())
}


// ---------------------------------------------------------------------------
// The applications that Binder launched.
// ---------------------------------------------------------------------------

/// An application that Binder launched and still tracks.
#[derive(Debug)]
pub struct ManagedApp {
    pub bundle_id: String,
    /// Whether the caller holds a child-process handle for it.
    pub has_child: bool,
    /// The windows it was given, each once.
    pub windows: Vec<RemoteWindowId>,
    /// Whether its life is read from the kernel's process list.
    pub track_kernel_lifecycle: bool,
    /// The instance that the Linux service runs for it.
    pub linux_instance: Option<u64>,
}

/// A tracked application, as mathematics.
pub struct AppState {
    pub bundle_id: Seq<char>,
    pub has_child: bool,
    pub windows: Seq<RemoteWindowId>,
    pub track_kernel_lifecycle: bool,
    pub linux_instance: Option<u64>,
}

pub open spec fn app_state(app: ManagedApp) -> AppState {
    AppState {
        bundle_id: app.bundle_id@,
        has_child: app.has_child,
        windows: app.windows@,
        track_kernel_lifecycle: app.track_kernel_lifecycle,
        linux_instance: app.linux_instance,
    }
}

pub open spec fn child_states(children: Seq<(ProcessId, ManagedApp)>) -> Seq<(ProcessId, AppState)> {
    children.map_values(|child: (ProcessId, ManagedApp)| (child.0, app_state(child.1)))
}

/// An installed application, as mathematics.
pub struct AppView {
    pub root: Seq<char>,
    pub name: Seq<char>,
    pub bundle_id: Seq<char>,
    pub version: Seq<char>,
    pub developer: Seq<char>,
    pub entry: Seq<char>,
    pub description: Seq<char>,
    pub icon: Option<Seq<char>>,
    pub resources: Seq<Seq<char>>,
}

pub open spec fn app_view(app: AppInfo) -> AppView {
    AppView {
        root: app.root@,
        name: app.name@,
        bundle_id: app.bundle_id@,
        version: app.version@,
        developer: app.developer@,
        entry: app.entry@,
        description: app.description@,
        icon: match app.icon {
            Some(icon) => Some(icon@),
            None => None,
        },
        resources: app.resources@.map_values(|s: String| s@),
    }
}

pub open spec fn app_views(apps: Seq<AppInfo>) -> Seq<AppView> {
    apps.map_values(|app: AppInfo| app_view(app))
}

/// The instances that the Linux service runs for the tracked applications.
pub open spec fn linux_instances_of(children: Seq<(ProcessId, AppState)>) -> Seq<u64>
    decreases children.len(),
{
    if children.len() == 0 {
        Seq::empty()
    } else {
        match children.last().1.linux_instance {
            Some(instance) => linux_instances_of(children.drop_last()).push(instance),
            None => linux_instances_of(children.drop_last()),
        }
    }
}

/// The bundle identifiers of the tracked applications, in tracking order.
pub open spec fn bundle_ids(children: Seq<(ProcessId, AppState)>) -> Seq<Seq<char>> {
    children.map_values(|child: (ProcessId, AppState)| child.1.bundle_id)
}

/// Whether `i` is the first tracked application with this bundle identifier.
pub open spec fn is_first_bundle(children: Seq<(ProcessId, AppState)>, bundle_id: Seq<char>, i: int) -> bool {
    0 <= i < children.len() && children[i].1.bundle_id == bundle_id && forall|j: int|
        0 <= j < i ==> (#[trigger] children[j]).1.bundle_id != bundle_id
}

/// The process of the first tracked application with this bundle identifier.
pub open spec fn process_of_bundle(children: Seq<(ProcessId, AppState)>, bundle_id: Seq<char>) -> Option<ProcessId> {
    if exists|i: int| 0 <= i < children.len() && (#[trigger] children[i]).1.bundle_id == bundle_id {
        Some(children[choose|i: int| is_first_bundle(children, bundle_id, i)].0)
    } else {
        None
    }
}

/// Whether `i` is the first tracked application of this process.
pub open spec fn is_first_process(children: Seq<(ProcessId, AppState)>, process_id: ProcessId, i: int) -> bool {
    0 <= i < children.len() && children[i].0 == process_id && forall|j: int|
        0 <= j < i ==> (#[trigger] children[j]).0 != process_id
}

pub open spec fn tracks_process(children: Seq<(ProcessId, AppState)>, process_id: ProcessId) -> bool {
    exists|i: int| 0 <= i < children.len() && (#[trigger] children[i]).0 == process_id
}

pub open spec fn first_process(children: Seq<(ProcessId, AppState)>, process_id: ProcessId) -> int {
    choose|i: int| is_first_process(children, process_id, i)
}

proof fn lemma_first_process(children: Seq<(ProcessId, AppState)>, process_id: ProcessId, i: int)
    requires
        is_first_process(children, process_id, i),
    ensures
        first_process(children, process_id) == i,
        tracks_process(children, process_id),
{
    let k = first_process(children, process_id);
    assert(is_first_process(children, process_id, k));
    if k < i {
        assert(children[k].0 != process_id);
    } else if k > i {
        assert(children[i].0 != process_id);
    }
}

/// The tracked applications, split by `exited`: those that stay, and the
/// processes of those that leave, each in tracking order.
pub open spec fn split_exited(
    children: Seq<(ProcessId, AppState)>,
    exited: spec_fn((ProcessId, AppState)) -> bool,
) -> (Seq<(ProcessId, AppState)>, Seq<ProcessId>)
    decreases children.len(),
{
    if children.len() == 0 {
        (Seq::empty(), Seq::empty())
    } else {
        let (kept, gone) = split_exited(children.drop_last(), exited);
        if exited(children.last()) {
            (kept, gone.push(children.last().0))
        } else {
            (kept.push(children.last()), gone)
        }
    }
}

/// The tracked applications with `state` recorded for `process_id`: it
/// replaces the first application of that process, or comes last.
pub open spec fn store_child(
    children: Seq<(ProcessId, AppState)>,
    process_id: ProcessId,
    state: AppState,
) -> Seq<(ProcessId, AppState)> {
    if tracks_process(children, process_id) {
        children.update(first_process(children, process_id), (process_id, state))
    } else {
        children.push((process_id, state))
    }
}

/// The windows with `window` added, unless it is there already.
pub open spec fn with_window(windows: Seq<RemoteWindowId>, window: RemoteWindowId) -> Seq<RemoteWindowId> {
    if windows.contains(window) {
        windows
    } else {
        windows.push(window)
    }
}

/// The windows without `window`.
pub open spec fn without_window(windows: Seq<RemoteWindowId>, window: RemoteWindowId) -> Seq<RemoteWindowId>
    decreases windows.len(),
{
    if windows.len() == 0 {
        windows
    } else if windows.last() == window {
        without_window(windows.drop_last(), window)
    } else {
        without_window(windows.drop_last(), window).push(windows.last())
    }
}

/// The same split as `split_exited`, with the decision for each
/// application given in `marks`.
pub open spec fn split_marked(children: Seq<(ProcessId, AppState)>, marks: Seq<bool>) -> (
    Seq<(ProcessId, AppState)>,
    Seq<ProcessId>,
)
    decreases children.len(),
{
    if children.len() == 0 {
        (Seq::empty(), Seq::empty())
    } else {
        let (kept, gone) = split_marked(children.drop_last(), marks.drop_last());
        if marks.last() {
            (kept, gone.push(children.last().0))
        } else {
            (kept.push(children.last()), gone)
        }
    }
}

proof fn lemma_split_marked(
    children: Seq<(ProcessId, AppState)>,
    marks: Seq<bool>,
    exited: spec_fn((ProcessId, AppState)) -> bool,
)
    requires
        marks.len() == children.len(),
        forall|i: int| 0 <= i < children.len() ==> marks[i] == exited(#[trigger] children[i]),
    ensures
        split_marked(children, marks) == split_exited(children, exited),
    decreases children.len(),
{
    if children.len() > 0 {
        let shorter = children.drop_last();
        assert forall|i: int| 0 <= i < shorter.len() implies marks.drop_last()[i] == exited(#[trigger] shorter[i]) by {
            assert(shorter[i] == children[i]);
        }
        lemma_split_marked(shorter, marks.drop_last(), exited);
        assert(marks.last() == exited(children[children.len() - 1]));
    }
}

proof fn lemma_first_process_exists(children: Seq<(ProcessId, AppState)>, process_id: ProcessId, j: int)
    requires
        0 <= j < children.len(),
        children[j].0 == process_id,
    ensures
        is_first_process(children, process_id, first_process(children, process_id)),
    decreases j,
{
    if exists|m: int| 0 <= m < j && (#[trigger] children[m]).0 == process_id {
        let m = choose|m: int| 0 <= m < j && (#[trigger] children[m]).0 == process_id;
        lemma_first_process_exists(children, process_id, m);
    } else {
        assert(is_first_process(children, process_id, j));
    }
}

proof fn lemma_split_marked_keeps_order(children: Seq<(ProcessId, AppState)>, marks: Seq<bool>)
    requires
        marks.len() == children.len(),
        one_entry_per_process(children),
    ensures
        one_entry_per_process(split_marked(children, marks).0),
        forall|k: int| 0 <= k < split_marked(children, marks).0.len() ==> children.contains(
            #[trigger] split_marked(children, marks).0[k],
        ),
    decreases children.len(),
{
    if children.len() > 0 {
        let rest = children.drop_last();
        assert(one_entry_per_process(rest)) by {
            assert forall|i: int, j: int| 0 <= i < j < rest.len() implies (#[trigger] rest[i]).0
                != (#[trigger] rest[j]).0 by {
                assert(rest[i] == children[i] && rest[j] == children[j]);
            }
        }
        lemma_split_marked_keeps_order(rest, marks.drop_last());
        let kept = split_marked(rest, marks.drop_last()).0;
        let last = children.last();
        assert forall|k: int| 0 <= k < kept.len() implies children.contains(#[trigger] kept[k]) by {
            let m = choose|m: int| 0 <= m < rest.len() && rest[m] == kept[k];
            assert(children[m] == kept[k]);
        }
        if !marks.last() {
            let pushed = kept.push(last);
            assert forall|i: int, j: int| 0 <= i < j < pushed.len() implies (#[trigger] pushed[i]).0
                != (#[trigger] pushed[j]).0 by {
                if j == kept.len() {
                    assert(pushed[i] == kept[i]);
                    let m = choose|m: int| 0 <= m < rest.len() && rest[m] == kept[i];
                    assert(children[m] == kept[i]);
                    assert(children[m].0 != children[children.len() - 1].0);
                } else {
                    assert(pushed[i] == kept[i] && pushed[j] == kept[j]);
                }
            }
            assert forall|k: int| 0 <= k < pushed.len() implies children.contains(#[trigger] pushed[k]) by {
                if k == kept.len() {
                    assert(children[children.len() - 1] == last);
                } else {
                    assert(pushed[k] == kept[k]);
                }
            }
        }
    }
}

/// Every change Binder makes to the applications it launched on mochiOS
/// (recording one, changing the state of one, forgetting one, forgetting
/// those that exited) keeps one entry per process.
pub proof fn lemma_launched_stay_one_per_process(
    children: Seq<(ProcessId, AppState)>,
    process_id: ProcessId,
    state: AppState,
    i: int,
    marks: Seq<bool>,
)
    requires
        one_entry_per_process(children),
    ensures
        one_entry_per_process(store_child(children, process_id, state)),
        0 <= i < children.len() ==> one_entry_per_process(children.update(i, (children[i].0, state))),
        0 <= i < children.len() ==> one_entry_per_process(children.remove(i)),
        marks.len() == children.len() ==> one_entry_per_process(split_marked(children, marks).0),
{
    if 0 <= i < children.len() {
        let updated = children.update(i, (children[i].0, state));
        assert forall|a: int, b: int| 0 <= a < b < updated.len() implies (#[trigger] updated[a]).0
            != (#[trigger] updated[b]).0 by {
            assert(children[a].0 != children[b].0);
        }
        let removed = children.remove(i);
        assert forall|a: int, b: int| 0 <= a < b < removed.len() implies (#[trigger] removed[a]).0
            != (#[trigger] removed[b]).0 by {
            let x = if a < i { a } else { a + 1 };
            let y = if b < i { b } else { b + 1 };
            assert(removed[a] == children[x] && removed[b] == children[y]);
            assert(children[x].0 != children[y].0);
        }
    }
    if marks.len() == children.len() {
        lemma_split_marked_keeps_order(children, marks);
    }
    if tracks_process(children, process_id) {
        let witness = choose|j: int| 0 <= j < children.len() && (#[trigger] children[j]).0 == process_id;
        lemma_first_process_exists(children, process_id, witness);
        let k = first_process(children, process_id);
        let updated = children.update(k, (process_id, state));
        assert forall|a: int, b: int| 0 <= a < b < updated.len() implies (#[trigger] updated[a]).0
            != (#[trigger] updated[b]).0 by {
            assert(children[a].0 != children[b].0);
        }
    } else {
        let pushed = children.push((process_id, state));
        assert forall|a: int, b: int| 0 <= a < b < pushed.len() implies (#[trigger] pushed[a]).0
            != (#[trigger] pushed[b]).0 by {
            if b == children.len() {
                assert(pushed[a] == children[a]);
            } else {
                assert(children[a].0 != children[b].0);
            }
        }
    }
}

/// The process identifier after `pid` among those Binder gives its internal
/// applications: one more, never below the first such identifier, and
/// staying at the largest once it is reached.
pub open spec fn following_internal_pid(pid: u32) -> u32 {
    let next: int = if pid == u32::MAX {
        u32::MAX as int
    } else {
        pid + 1
    };
    if next < FIRST_INTERNAL_PID {
        FIRST_INTERNAL_PID
    } else {
        next as u32
    }
}

/// What launching an application takes.
#[derive(Clone, Copy, Debug, PartialEq, Eq, Structural)]
pub enum LaunchKind {
    /// A Linux bundle, run by the Linux service.
    Linux,
    /// An application built into Binder.
    Internal,
    /// An executable of its own.
    Spawn,
}

/// Whether `text` starts with `linux:`.
pub open spec fn is_linux_entry(entry: Seq<char>) -> bool {
    entry.len() >= 6 && entry.take(6) == "linux:"@
}

/// What launching the application with this entry takes: a Linux bundle,
/// one of Binder's own applications, or an executable to spawn.
pub open spec fn launch_kind_of(entry: Seq<char>) -> LaunchKind {
    if is_linux_entry(entry) {
        LaunchKind::Linux
    } else if entry == ABOUT_ENTRY@ || entry == TEST_ENTRY@ {
        LaunchKind::Internal
    } else {
        LaunchKind::Spawn
    }
}

fn starts_with_linux(entry: &[char]) -> (linux: bool)
    ensures
        linux == is_linux_entry(entry@),
{
    proof {
        reveal_strlit("linux:");
    }
    let prefix = ['l', 'i', 'n', 'u', 'x', ':'];
    assert(prefix@ =~= "linux:"@);
    if entry.len() < 6 {
        return false;
    }
    let mut i: usize = 0;
    while i < 6
        invariant
            i <= 6 <= entry@.len(),
            prefix@ == "linux:"@,
            forall|j: int| 0 <= j < i ==> entry@[j] == prefix@[j],
        decreases 6 - i,
    {
        if entry[i] != prefix[i] {
            assert(entry@.take(6)[i as int] != "linux:"@[i as int]);
            return false;
        }
        i = i + 1;
    }
    assert(entry@.take(6) =~= "linux:"@);
    true
}

/// How to launch `app`.
pub fn launch_kind(app: &AppInfo) -> (kind: LaunchKind)
    ensures
        kind == launch_kind_of(app.entry@),
{
    let entry = chars_of(app.entry.as_str());
    if starts_with_linux(entry.as_slice()) {
        LaunchKind::Linux
    } else if text_equals(app.entry.as_str(), ABOUT_ENTRY) || text_equals(app.entry.as_str(), TEST_ENTRY) {
        LaunchKind::Internal
    } else {
        LaunchKind::Spawn
    }
}

/// The bundle that a Linux entry declares, which must be the application's
/// own bundle identifier; anything else cannot be launched.
pub fn linux_declared_bundle(app: &AppInfo) -> (declared: Result<String, PlatformError>)
    ensures
        (is_linux_entry(app.entry@) && app.entry@.skip(6) == app.bundle_id@) ==> declared is Ok
            && declared->Ok_0@ == app.bundle_id@,
        !(is_linux_entry(app.entry@) && app.entry@.skip(6) == app.bundle_id@) ==> declared
            == Err::<String, PlatformError>(PlatformError::ProcessLaunchFailed),
{
    let entry = chars_of(app.entry.as_str());
    if !starts_with_linux(entry.as_slice()) {
        return Err(PlatformError::ProcessLaunchFailed);
    }
    let declared = crate::text::copy_range(entry.as_slice(), 6, entry.len());
    assert(declared@ =~= app.entry@.skip(6));
    let bundle = chars_of(app.bundle_id.as_str());
    if declared.len() != bundle.len() {
        return Err(PlatformError::ProcessLaunchFailed);
    }
    let mut i: usize = 0;
    while i < declared.len()
        invariant
            i <= declared@.len() == bundle@.len(),
            declared@ == app.entry@.skip(6),
            bundle@ == app.bundle_id@,
            forall|j: int| 0 <= j < i ==> declared@[j] == bundle@[j],
        decreases declared@.len() - i,
    {
        if declared[i] != bundle[i] {
            assert(declared@ != bundle@);
            return Err(PlatformError::ProcessLaunchFailed);
        }
        i = i + 1;
    }
    assert(declared@ =~= bundle@);
    Ok(string_from_chars(declared.as_slice()))
}

/// The bookkeeping of the mochiOS platform: the system bar, the installed
/// applications, the applications launched, and what the desktop has yet to
/// be told about them.
pub struct MochiOsPlatform {
    system_bar: SystemBarState,
    apps: Vec<AppInfo>,
    children: Vec<(ProcessId, ManagedApp)>,
    create_window_requests: Vec<CreateWindowRequest>,
    close_window_requests: Vec<CloseWindowRequest>,
    exited_processes: Vec<ProcessId>,
    next_internal_pid: u32,
    next_app_scan: Option<u64>,
}


impl MochiOsPlatform {
    pub closed spec fn launched(&self) -> Seq<(ProcessId, AppState)> {
        child_states(self.children@)
    }

    pub closed spec fn installed(&self) -> Seq<AppView> {
        app_views(self.apps@)
    }

    pub closed spec fn pending_creates(&self) -> Seq<CreateWindowRequest> {
        self.create_window_requests@
    }

    pub closed spec fn pending_closes(&self) -> Seq<CloseWindowRequest> {
        self.close_window_requests@
    }

    pub closed spec fn exited(&self) -> Seq<ProcessId> {
        self.exited_processes@
    }

    pub closed spec fn next_pid(&self) -> u32 {
        self.next_internal_pid
    }

    /// When the catalogue of installed applications is next read again, in
    /// milliseconds on the caller's monotonic clock.
    pub closed spec fn next_scan(&self) -> Option<u64> {
        self.next_app_scan
    }

    /// Whether the catalogue is due to be read again at `now`: it is read at
    /// most once a second. When it is due, the next reading is a second
    /// later.
    pub fn app_scan_due(&mut self, now: u64) -> (due: bool)
        ensures
            due == !(old(self).next_scan() matches Some(next) && now < next),
            due ==> final(self).next_scan() == (if now <= u64::MAX - 1_000 {
                Some((now + 1_000) as u64)
            } else {
                None
            }),
            !due ==> final(self).next_scan() == old(self).next_scan(),
            final(self).launched() == old(self).launched(),
            final(self).installed() == old(self).installed(),
            final(self).pending_creates() == old(self).pending_creates(),
            final(self).pending_closes() == old(self).pending_closes(),
            final(self).exited() == old(self).exited(),
            final(self).next_pid() == old(self).next_pid(),
    {
        if let Some(next) = self.next_app_scan {
            if now < next {
                return false;
            }
        }
        self.next_app_scan = now.checked_add(1_000);
        true
    }

    pub closed spec fn clock(&self) -> (Seq<char>, Seq<char>) {
        (self.system_bar.clock.date@, self.system_bar.clock.time@)
    }

    /// The platform with this catalogue of installed applications and
    /// nothing launched yet.
    pub fn new(apps: Vec<AppInfo>) -> (platform: Self)
        ensures
            platform.installed() == app_views(apps@),
            platform.launched().len() == 0,
            platform.pending_creates().len() == 0,
            platform.pending_closes().len() == 0,
            platform.exited().len() == 0,
            platform.next_pid() == FIRST_INTERNAL_PID,
            platform.next_scan() is None,
    {
        MochiOsPlatform {
            system_bar: SystemBarState::default(),
            apps,
            children: Vec::new(),
            create_window_requests: Vec::new(),
            close_window_requests: Vec::new(),
            exited_processes: Vec::new(),
            next_internal_pid: FIRST_INTERNAL_PID,
            next_app_scan: None,
        }
    }

    /// The system bar as last read.
    pub fn system_bar_state(&self) -> (state: &SystemBarState)
        ensures
            (state.clock.date@, state.clock.time@) == self.clock(),
    {
        &self.system_bar
    }

    /// The installed applications.
    pub fn get_apps(&self) -> (apps: &[AppInfo])
        ensures
            app_views(apps@) == self.installed(),
    {
        self.apps.as_slice()
    }

    /// Takes a newly read clock; says whether it differs from the one shown.
    pub fn update_clock(&mut self, clock: ClockState) -> (changed: bool)
        ensures
            changed == ((clock.date@, clock.time@) != old(self).clock()),
            final(self).clock() == (clock.date@, clock.time@),
            final(self).launched() == old(self).launched(),
            final(self).installed() == old(self).installed(),
            final(self).exited() == old(self).exited(),
    {
        let changed = !(self.system_bar.clock.date == clock.date && self.system_bar.clock.time == clock.time);
        if changed {
            self.system_bar.clock = clock;
        }
        changed
    }

    /// Replaces the catalogue of installed applications with the one just
    /// discovered, when they differ; says whether they did.
    pub fn replace_apps_if_changed(&mut self, discovered: Vec<AppInfo>) -> (changed: bool)
        ensures
            changed == (old(self).installed() != app_views(discovered@)),
            final(self).installed() == app_views(discovered@),
            final(self).launched() == old(self).launched(),
            final(self).exited() == old(self).exited(),
    {
        if same_catalog(&self.apps, &discovered) {
            return false;
        }
        self.apps = discovered;
        true
    }

    fn next_process_id(&mut self) -> (process_id: ProcessId)
        ensures
            process_id.0 == old(self).next_pid(),
            final(self).next_pid() == following_internal_pid(old(self).next_pid()),
            final(self).launched() == old(self).launched(),
            final(self).installed() == old(self).installed(),
            final(self).pending_creates() == old(self).pending_creates(),
            final(self).pending_closes() == old(self).pending_closes(),
            final(self).exited() == old(self).exited(),
    {
        let process_id = ProcessId(self.next_internal_pid);
        let next = self.next_internal_pid.saturating_add(1);
        self.next_internal_pid = if next < FIRST_INTERNAL_PID {
            FIRST_INTERNAL_PID
        } else {
            next
        };
        process_id
    }

    fn find_process(&self, process_id: ProcessId) -> (index: Option<usize>)
        ensures
            match index {
                Some(i) => is_first_process(self.launched(), process_id, i as int) && i < self.children@.len(),
                None => !tracks_process(self.launched(), process_id),
            },
    {
        let mut i: usize = 0;
        while i < self.children.len()
            invariant
                i <= self.children@.len(),
                forall|j: int| 0 <= j < i ==> (#[trigger] self.launched()[j]).0 != process_id,
            decreases self.children@.len() - i,
        {
            if self.children[i].0 == process_id {
                return Some(i);
            }
            i = i + 1;
        }
        None
    }

    fn insert_child(&mut self, process_id: ProcessId, app: ManagedApp)
        ensures
            final(self).launched() == store_child(old(self).launched(), process_id, app_state(app)),
            final(self).installed() == old(self).installed(),
            final(self).pending_creates() == old(self).pending_creates(),
            final(self).pending_closes() == old(self).pending_closes(),
            final(self).exited() == old(self).exited(),
            final(self).next_pid() == old(self).next_pid(),
    {
        match self.find_process(process_id) {
            Some(index) => {
                proof {
                    lemma_first_process(self.launched(), process_id, index as int);
                }
                self.children.set(index, (process_id, app));
                assert(self.launched() =~= old(self).launched().update(index as int, (process_id, app_state(app))));
            },
            None => {
                self.children.push((process_id, app));
                assert(self.launched() =~= old(self).launched().push((process_id, app_state(app))));
            },
        }
    }

    /// Removes the applications marked, in order, and records their
    /// processes as exited; says whether any was removed.
    fn remove_marked(&mut self, marks: &Vec<bool>) -> (changed: bool)
        requires
            marks@.len() == old(self).launched().len(),
        ensures
            ({
                let (kept, gone) = split_marked(old(self).launched(), marks@);
                &&& final(self).launched() == kept
                &&& final(self).exited() == old(self).exited() + gone
                &&& changed == (gone.len() > 0)
            }),
            final(self).installed() == old(self).installed(),
            final(self).pending_creates() == old(self).pending_creates(),
            final(self).pending_closes() == old(self).pending_closes(),
            final(self).next_pid() == old(self).next_pid(),
    {
        let mut remaining: Vec<(ProcessId, ManagedApp)> = Vec::new();
        std::mem::swap(&mut remaining, &mut self.children);
        let ghost all = child_states(remaining@);
        let n = remaining.len();
        let mut kept: Vec<(ProcessId, ManagedApp)> = Vec::new();
        let mut changed = false;
        let mut i: usize = 0;
        assert(all.take(0) =~= Seq::<(ProcessId, AppState)>::empty());
        assert(marks@.take(0) =~= Seq::<bool>::empty());
        while remaining.len() > 0
            invariant
                i + remaining@.len() == n == all.len() == marks@.len(),
                child_states(remaining@) == all.skip(i as int),
                all == old(self).launched(),
                ({
                    let (k, g) = split_marked(all.take(i as int), marks@.take(i as int));
                    &&& child_states(kept@) == k
                    &&& self.exited_processes@ == old(self).exited() + g
                    &&& changed == (g.len() > 0)
                }),
                self.apps@ == old(self).apps@,
                self.create_window_requests@ == old(self).pending_creates(),
                self.close_window_requests@ == old(self).pending_closes(),
                self.next_internal_pid == old(self).next_pid(),
            decreases remaining@.len(),
        {
            let ghost before_kept = child_states(kept@);
            let ghost before_exited = self.exited_processes@;
            let ghost rest_before = remaining@;
            assert(child_states(rest_before)[0] == all.skip(i as int)[0]);
            let child = remaining.remove(0);
            assert(child == rest_before[0]);
            assert(all[i as int] == (child.0, app_state(child.1)));
            assert(child_states(remaining@) =~= child_states(rest_before).drop_first());
            assert(all.take(i + 1).drop_last() =~= all.take(i as int));
            assert(marks@.take(i + 1).drop_last() =~= marks@.take(i as int));
            if marks[i] {
                self.exited_processes.push(child.0);
                changed = true;
            } else {
                kept.push(child);
                assert(child_states(kept@) =~= before_kept.push(all[i as int]));
            }
            i = i + 1;
            assert(child_states(remaining@) =~= all.skip(i as int));
        }
        assert(all.take(n as int) =~= all);
        assert(marks@.take(n as int) =~= marks@);
        self.children = kept;
        changed
    }

    /// Forgets the applications whose child processes exited (`exited`
    /// names them), recording their processes as exited; says whether any did.
    pub fn remove_exited_children(&mut self, exited: &[ProcessId]) -> (changed: bool)
        ensures
            ({
                let (kept, gone) = split_exited(
                    old(self).launched(),
                    |child: (ProcessId, AppState)| child.1.has_child && exited@.contains(child.0),
                );
                &&& final(self).launched() == kept
                &&& final(self).exited() == old(self).exited() + gone
                &&& changed == (gone.len() > 0)
            }),
            final(self).installed() == old(self).installed(),
            final(self).pending_creates() == old(self).pending_creates(),
            final(self).pending_closes() == old(self).pending_closes(),
    {
        let mut marks: Vec<bool> = Vec::new();
        let mut i: usize = 0;
        while i < self.children.len()
            invariant
                i <= self.children@.len(),
                marks@.len() == i,
                forall|j: int| 0 <= j < i ==> marks@[j] == ((#[trigger] self.launched()[j]).1.has_child
                    && exited@.contains(self.launched()[j].0)),
            decreases self.children@.len() - i,
        {
            let mut found = false;
            let mut k: usize = 0;
            while k < exited.len()
                invariant
                    k <= exited@.len(),
                    i < self.children@.len(),
                    found == exists|m: int| 0 <= m < k && exited@[m] == self.children@[i as int].0,
                decreases exited@.len() - k,
            {
                if exited[k] == self.children[i].0 {
                    found = true;
                }
                k = k + 1;
            }
            assert(found == exited@.contains(self.launched()[i as int].0));
            marks.push(self.children[i].1.has_child && found);
            i = i + 1;
        }
        proof {
            lemma_split_marked(
                self.launched(),
                marks@,
                |child: (ProcessId, AppState)| child.1.has_child && exited@.contains(child.0),
            );
        }
        self.remove_marked(&marks)
    }

    /// Forgets the applications whose life the kernel tracks and that are
    /// not among `live_processes`; says whether any was forgotten.
    pub fn remove_exited_kernel_processes(&mut self, live_processes: &[ProcessId]) -> (changed: bool)
        ensures
            ({
                let (kept, gone) = split_exited(
                    old(self).launched(),
                    |child: (ProcessId, AppState)| child.1.track_kernel_lifecycle && !live_processes@.contains(child.0),
                );
                &&& final(self).launched() == kept
                &&& final(self).exited() == old(self).exited() + gone
                &&& changed == (gone.len() > 0)
            }),
            final(self).installed() == old(self).installed(),
            final(self).pending_creates() == old(self).pending_creates(),
            final(self).pending_closes() == old(self).pending_closes(),
    {
        let mut marks: Vec<bool> = Vec::new();
        let mut i: usize = 0;
        while i < self.children.len()
            invariant
                i <= self.children@.len(),
                marks@.len() == i,
                forall|j: int| 0 <= j < i ==> marks@[j] == ((#[trigger] self.launched()[j]).1.track_kernel_lifecycle
                    && !live_processes@.contains(self.launched()[j].0)),
            decreases self.children@.len() - i,
        {
            let mut found = false;
            let mut k: usize = 0;
            while k < live_processes.len()
                invariant
                    k <= live_processes@.len(),
                    i < self.children@.len(),
                    found == exists|m: int| 0 <= m < k && live_processes@[m] == self.children@[i as int].0,
                decreases live_processes@.len() - k,
            {
                if live_processes[k] == self.children[i].0 {
                    found = true;
                }
                k = k + 1;
            }
            assert(found == live_processes@.contains(self.launched()[i as int].0));
            marks.push(self.children[i].1.track_kernel_lifecycle && !found);
            i = i + 1;
        }
        proof {
            lemma_split_marked(
                self.launched(),
                marks@,
                |child: (ProcessId, AppState)| child.1.track_kernel_lifecycle && !live_processes@.contains(child.0),
            );
        }
        self.remove_marked(&marks)
    }

    /// Forgets the applications run by the Linux service whose instances are
    /// not among `running_instances`; says whether any was forgotten.
    pub fn remove_exited_linux_processes(&mut self, running_instances: &[u64]) -> (changed: bool)
        ensures
            ({
                let (kept, gone) = split_exited(
                    old(self).launched(),
                    |child: (ProcessId, AppState)| child.1.linux_instance is Some
                        && !running_instances@.contains(child.1.linux_instance->Some_0),
                );
                &&& final(self).launched() == kept
                &&& final(self).exited() == old(self).exited() + gone
                &&& changed == (gone.len() > 0)
            }),
            final(self).installed() == old(self).installed(),
            final(self).pending_creates() == old(self).pending_creates(),
            final(self).pending_closes() == old(self).pending_closes(),
    {
        let mut marks: Vec<bool> = Vec::new();
        let mut i: usize = 0;
        while i < self.children.len()
            invariant
                i <= self.children@.len(),
                marks@.len() == i,
                forall|j: int| 0 <= j < i ==> marks@[j] == ((#[trigger] self.launched()[j]).1.linux_instance is Some
                    && !running_instances@.contains(self.launched()[j].1.linux_instance->Some_0)),
            decreases self.children@.len() - i,
        {
            let mark = match self.children[i].1.linux_instance {
                Some(instance) => {
                    let mut found = false;
                    let mut k: usize = 0;
                    while k < running_instances.len()
                        invariant
                            k <= running_instances@.len(),
                            found == exists|m: int| 0 <= m < k && running_instances@[m] == instance,
                        decreases running_instances@.len() - k,
                    {
                        if running_instances[k] == instance {
                            found = true;
                        }
                        k = k + 1;
                    }
                    assert(found == running_instances@.contains(instance));
                    !found
                },
                None => false,
            };
            marks.push(mark);
            i = i + 1;
        }
        proof {
            lemma_split_marked(
                self.launched(),
                marks@,
                |child: (ProcessId, AppState)| child.1.linux_instance is Some
                    && !running_instances@.contains(child.1.linux_instance->Some_0),
            );
        }
        self.remove_marked(&marks)
    }

    /// Records an application that was just spawned as `process_id`, whose
    /// life the kernel tracks; `has_child` says whether the caller holds a
    /// handle to its process.
    pub fn record_spawned(&mut self, process_id: ProcessId, bundle_id: String, has_child: bool)
        ensures
            final(self).launched() == store_child(
                old(self).launched(),
                process_id,
                AppState {
                    bundle_id: bundle_id@,
                    has_child,
                    windows: Seq::empty(),
                    track_kernel_lifecycle: true,
                    linux_instance: None,
                },
            ),
            final(self).installed() == old(self).installed(),
            final(self).pending_creates() == old(self).pending_creates(),
            final(self).pending_closes() == old(self).pending_closes(),
            final(self).exited() == old(self).exited(),
            final(self).next_pid() == old(self).next_pid(),
    {
        let app = ManagedApp {
            bundle_id,
            has_child,
            windows: Vec::new(),
            track_kernel_lifecycle: true,
            linux_instance: None,
        };
        assert(app_state(app).windows =~= Seq::<RemoteWindowId>::empty());
        self.insert_child(process_id, app);
    }

    /// Records an application that the Linux service runs as `instance`; it
    /// gets the next internal process identifier, which is returned.
    pub fn record_linux_instance(&mut self, bundle_id: String, instance: u64) -> (process_id: ProcessId)
        ensures
            process_id.0 == old(self).next_pid(),
            final(self).next_pid() == following_internal_pid(old(self).next_pid()),
            final(self).launched() == store_child(
                old(self).launched(),
                process_id,
                AppState {
                    bundle_id: bundle_id@,
                    has_child: false,
                    windows: Seq::empty(),
                    track_kernel_lifecycle: false,
                    linux_instance: Some(instance),
                },
            ),
            final(self).installed() == old(self).installed(),
            final(self).pending_creates() == old(self).pending_creates(),
            final(self).pending_closes() == old(self).pending_closes(),
            final(self).exited() == old(self).exited(),
    {
        let process_id = self.next_process_id();
        let app = ManagedApp {
            bundle_id,
            has_child: false,
            windows: Vec::new(),
            track_kernel_lifecycle: false,
            linux_instance: Some(instance),
        };
        assert(app_state(app).windows =~= Seq::<RemoteWindowId>::empty());
        self.insert_child(process_id, app);
        process_id
    }

    /// Gives `window` to the application of `process_id`; an unknown process
    /// is refused.
    pub fn register_window(&mut self, process_id: ProcessId, window: RemoteWindowId) -> (result: Result<
        (),
        PlatformError,
    >)
        ensures
            tracks_process(old(self).launched(), process_id) ==> {
                let i = first_process(old(self).launched(), process_id);
                let app = old(self).launched()[i].1;
                &&& result is Ok
                &&& final(self).launched() == old(self).launched().update(
                    i,
                    (process_id, AppState { windows: with_window(app.windows, window), ..app }),
                )
            },
            !tracks_process(old(self).launched(), process_id) ==> result == Err::<(), PlatformError>(
                PlatformError::ServiceUnavailable,
            ) && final(self).launched() == old(self).launched(),
            final(self).installed() == old(self).installed(),
            final(self).pending_creates() == old(self).pending_creates(),
            final(self).pending_closes() == old(self).pending_closes(),
            final(self).exited() == old(self).exited(),
            final(self).next_pid() == old(self).next_pid(),
    {
        let index = match self.find_process(process_id) {
            Some(index) => index,
            None => {
                return Err(PlatformError::ServiceUnavailable);
            },
        };
        proof {
            lemma_first_process(self.launched(), process_id, index as int);
        }
        let mut present = false;
        let mut k: usize = 0;
        while k < self.children[index].1.windows.len()
            invariant
                index < self.children@.len(),
                k <= self.children@[index as int].1.windows@.len(),
                present == exists|m: int| 0 <= m < k && self.children@[index as int].1.windows@[m] == window,
            decreases self.children@[index as int].1.windows@.len() - k,
        {
            if self.children[index].1.windows[k] == window {
                present = true;
            }
            k = k + 1;
        }
        assert(present == self.children@[index as int].1.windows@.contains(window));
        if !present {
            self.children[index].1.windows.push(window);
        }
        assert(self.launched() =~= old(self).launched().update(
            index as int,
            (
                process_id,
                AppState {
                    windows: with_window(old(self).launched()[index as int].1.windows, window),
                    ..old(self).launched()[index as int].1
                },
            ),
        ));
        Ok(())
    }

    /// The desktop closed `window` of the process: the process is told to
    /// close it, and an application that has no other window and no child
    /// process is forgotten and recorded as exited. Windows it was not given
    /// are ignored.
    pub fn request_window_close(&mut self, process_id: ProcessId, window: RemoteWindowId) -> (result: Result<
        (),
        PlatformError,
    >)
        ensures
            result is Ok,
            ({
                let before = old(self).launched();
                let i = first_process(before, process_id);
                if tracks_process(before, process_id) && before[i].1.windows.contains(window) {
                    let app = AppState { windows: without_window(before[i].1.windows, window), ..before[i].1 };
                    &&& final(self).pending_closes() == old(self).pending_closes().push(
                        CloseWindowRequest { process_id, window },
                    )
                    &&& if !app.has_child && app.windows.len() == 0 {
                        &&& final(self).launched() == before.remove(i)
                        &&& final(self).exited() == old(self).exited().push(process_id)
                    } else {
                        &&& final(self).launched() == before.update(i, (process_id, app))
                        &&& final(self).exited() == old(self).exited()
                    }
                } else {
                    &&& final(self).launched() == before
                    &&& final(self).pending_closes() == old(self).pending_closes()
                    &&& final(self).exited() == old(self).exited()
                }
            }),
            final(self).installed() == old(self).installed(),
            final(self).pending_creates() == old(self).pending_creates(),
            final(self).next_pid() == old(self).next_pid(),
    {
        let index = match self.find_process(process_id) {
            Some(index) => index,
            None => {
                return Ok(());
            },
        };
        proof {
            lemma_first_process(self.launched(), process_id, index as int);
        }
        let mut windows: Vec<RemoteWindowId> = Vec::new();
        std::mem::swap(&mut windows, &mut self.children[index].1.windows);
        let ghost old_windows = windows@;
        let mut kept: Vec<RemoteWindowId> = Vec::new();
        let mut found = false;
        let mut k: usize = 0;
        assert(old_windows.take(0) =~= Seq::<RemoteWindowId>::empty());
        while k < windows.len()
            invariant
                k <= windows@.len(),
                windows@ == old_windows,
                kept@ == without_window(old_windows.take(k as int), window),
                found == exists|m: int| 0 <= m < k && old_windows[m] == window,
            decreases windows@.len() - k,
        {
            assert(old_windows.take(k + 1).drop_last() =~= old_windows.take(k as int));
            if windows[k] == window {
                found = true;
            } else {
                kept.push(windows[k]);
            }
            k = k + 1;
        }
        assert(old_windows.take(old_windows.len() as int) =~= old_windows);
        assert(found == old_windows.contains(window));
        if !found {
            self.children[index].1.windows = windows;
            assert(self.launched() =~= old(self).launched());
            return Ok(());
        }
        self.children[index].1.windows = kept;
        self.close_window_requests.push(CloseWindowRequest { process_id, window });
        if !self.children[index].1.has_child && self.children[index].1.windows.len() == 0 {
            let ghost with_closed = self.launched();
            self.children.remove(index);
            assert(self.launched() =~= with_closed.remove(index as int));
            assert(with_closed.remove(index as int) =~= old(self).launched().remove(index as int));
            self.exited_processes.push(process_id);
        } else {
            assert(self.launched() =~= old(self).launched().update(
                index as int,
                (
                    process_id,
                    AppState {
                        windows: without_window(old(self).launched()[index as int].1.windows, window),
                        ..old(self).launched()[index as int].1
                    },
                ),
            ));
        }
        Ok(())
    }

    /// The windows to create, handed over once.
    pub fn take_create_window_requests(&mut self) -> (requests: Vec<CreateWindowRequest>)
        ensures
            requests@ == old(self).pending_creates(),
            final(self).pending_creates().len() == 0,
            final(self).launched() == old(self).launched(),
            final(self).pending_closes() == old(self).pending_closes(),
            final(self).exited() == old(self).exited(),
    {
        let mut requests: Vec<CreateWindowRequest> = Vec::new();
        std::mem::swap(&mut requests, &mut self.create_window_requests);
        requests
    }

    /// The windows to close, handed over once.
    pub fn take_close_window_requests(&mut self) -> (requests: Vec<CloseWindowRequest>)
        ensures
            requests@ == old(self).pending_closes(),
            final(self).pending_closes().len() == 0,
            final(self).launched() == old(self).launched(),
            final(self).pending_creates() == old(self).pending_creates(),
            final(self).exited() == old(self).exited(),
    {
        let mut requests: Vec<CloseWindowRequest> = Vec::new();
        std::mem::swap(&mut requests, &mut self.close_window_requests);
        requests
    }

    /// The processes that exited, handed over once.
    pub fn take_exited_processes(&mut self) -> (exited: Vec<ProcessId>)
        ensures
            exited@ == old(self).exited(),
            final(self).exited().len() == 0,
            final(self).launched() == old(self).launched(),
            final(self).pending_creates() == old(self).pending_creates(),
            final(self).pending_closes() == old(self).pending_closes(),
    {
        let mut exited: Vec<ProcessId> = Vec::new();
        std::mem::swap(&mut exited, &mut self.exited_processes);
        exited
    }

    /// The process of the application with this bundle identifier, if Binder
    /// launched it.
    pub fn process_for_bundle(&self, bundle_id: &str) -> (process_id: Option<ProcessId>)
        ensures
            process_id == process_of_bundle(self.launched(), bundle_id@),
    {
        let mut i: usize = 0;
        while i < self.children.len()
            invariant
                i <= self.children@.len(),
                forall|j: int| 0 <= j < i ==> (#[trigger] self.launched()[j]).1.bundle_id != bundle_id@,
            decreases self.children@.len() - i,
        {
            if same_text(&self.children[i].1.bundle_id, bundle_id) {
                proof {
                    let k = choose|k: int| is_first_bundle(self.launched(), bundle_id@, k);
                    assert(is_first_bundle(self.launched(), bundle_id@, i as int));
                    if k < i {
                        assert(self.launched()[k].1.bundle_id != bundle_id@);
                    } else if k > i {
                        assert(self.launched()[i as int].1.bundle_id != bundle_id@);
                    }
                }
                return Some(self.children[i].0);
            }
            i = i + 1;
        }
        None
    }

    /// The bundle identifiers of the applications Binder launched.
    /// The instances that the Linux service runs for the tracked
    /// applications, in tracking order.
    pub fn linux_instances(&self) -> (instances: Vec<u64>)
        ensures
            instances@ == linux_instances_of(self.launched()),
    {
        let mut instances: Vec<u64> = Vec::new();
        let mut i: usize = 0;
        while i < self.children.len()
            invariant
                i <= self.children@.len(),
                instances@ == linux_instances_of(self.launched().take(i as int)),
            decreases self.children@.len() - i,
        {
            assert(self.launched().take(i + 1).drop_last() =~= self.launched().take(i as int));
            assert(self.launched().take(i + 1).last() == self.launched()[i as int]);
            if let Some(instance) = self.children[i].1.linux_instance {
                instances.push(instance);
            }
            i = i + 1;
        }
        assert(self.launched().take(i as int) =~= self.launched());
        instances
    }

    /// Whether the life of any tracked application is read from the kernel's
    /// process list.
    pub fn tracks_kernel_processes(&self) -> (tracks: bool)
        ensures
            tracks == exists|i: int| 0 <= i < self.launched().len() && (#[trigger] self.launched()[i]).1.track_kernel_lifecycle,
    {
        let mut i: usize = 0;
        while i < self.children.len()
            invariant
                i <= self.children@.len(),
                forall|j: int| 0 <= j < i ==> !(#[trigger] self.launched()[j]).1.track_kernel_lifecycle,
            decreases self.children@.len() - i,
        {
            if self.children[i].1.track_kernel_lifecycle {
                assert(self.launched()[i as int].1.track_kernel_lifecycle);
                return true;
            }
            i = i + 1;
        }
        false
    }

    pub fn running_app_bundle_ids(&self) -> (ids: Vec<String>)
        ensures
            crate::platform::string_views(ids@) == bundle_ids(self.launched()),
    {
        let mut ids: Vec<String> = Vec::new();
        let mut i: usize = 0;
        while i < self.children.len()
            invariant
                i <= self.children@.len(),
                ids@.len() == i,
                crate::platform::string_views(ids@) == bundle_ids(self.launched().take(i as int)),
            decreases self.children@.len() - i,
        {
            let id = self.children[i].1.bundle_id.clone();
            let ghost previous = ids@;
            ids.push(id);
            assert(ids@ == previous.push(id));
            assert(self.launched()[i as int].1.bundle_id == id@);
            assert(self.launched().take(i + 1) =~= self.launched().take(i as int).push(self.launched()[i as int]));
            assert forall|j: int| 0 <= j < i + 1 implies crate::platform::string_views(ids@)[j] == bundle_ids(
                self.launched().take(i + 1),
            )[j] by {
                if j < i {
                    assert(crate::platform::string_views(previous)[j] == bundle_ids(self.launched().take(i as int))[j]);
                }
            }
            assert(crate::platform::string_views(ids@) =~= bundle_ids(self.launched().take(i + 1)));
            i = i + 1;
        }
        assert(self.launched().take(self.children@.len() as int) =~= self.launched());
        ids
    }

    /// Starts an application built into Binder: it gets the next internal
    /// process identifier and its windows are requested. An application
    /// already running keeps its process and nothing is requested.
    pub fn launch_internal_renderer(&mut self, entry: &str, bundle_id: String) -> (process_id: Result<
        ProcessId,
        PlatformError,
    >)
        ensures
            match process_of_bundle(old(self).launched(), bundle_id@) {
                Some(running) => process_id == Ok::<ProcessId, PlatformError>(running) && final(self).launched() == old(self).launched() && final(self).pending_creates() == old(self).pending_creates() && final(self).next_pid() == old(self).next_pid(),
                None => {
                    let pid = ProcessId(old(self).next_pid());
                    &&& process_id == Ok::<ProcessId, PlatformError>(pid)
                    &&& final(self).next_pid() == following_internal_pid(old(self).next_pid())
                    &&& final(self).launched() == store_child(
                        old(self).launched(),
                        pid,
                        AppState {
                            bundle_id: bundle_id@,
                            has_child: false,
                            windows: Seq::empty(),
                            track_kernel_lifecycle: false,
                            linux_instance: None,
                        },
                    )
                    &&& (entry@ == ABOUT_ENTRY@ ==> final(self).pending_creates().len() == old(self).pending_creates().len() + 1)
                    &&& (entry@ == TEST_ENTRY@ ==> final(self).pending_creates().len() == old(self).pending_creates().len() + 3)
                    &&& (entry@ != ABOUT_ENTRY@ && entry@ != TEST_ENTRY@ ==> final(self).pending_creates() == old(self).pending_creates())
                    &&& forall|i: int|
                        0 <= i < old(self).pending_creates().len() ==> final(self).pending_creates()[i]
                            == old(self).pending_creates()[i]
                    &&& forall|i: int|
                        old(self).pending_creates().len() <= i < final(self).pending_creates().len()
                            ==> (#[trigger] final(self).pending_creates()[i]).process_id == pid
                },
            },
            final(self).installed() == old(self).installed(),
            final(self).pending_closes() == old(self).pending_closes(),
            final(self).exited() == old(self).exited(),
    {
        if let Some(process_id) = self.process_for_bundle(bundle_id.as_str()) {
            return Ok(process_id);
        }
        let process_id = self.next_process_id();
        let app = ManagedApp {
            bundle_id,
            has_child: false,
            windows: Vec::new(),
            track_kernel_lifecycle: false,
            linux_instance: None,
        };
        assert(app_state(app).windows =~= Seq::<RemoteWindowId>::empty());
        self.insert_child(process_id, app);
        let mut requests = create_internal_window_requests(process_id, entry);
        self.create_window_requests.append(&mut requests);
        Ok(process_id)
    }
}

fn same_strings(a: &Vec<String>, b: &Vec<String>) -> (same: bool)
    ensures
        same == (a@.map_values(|s: String| s@) == b@.map_values(|s: String| s@)),
{
    if a.len() != b.len() {
        proof {
            assert(a@.map_values(|s: String| s@).len() != b@.map_values(|s: String| s@).len());
        }
        return false;
    }
    let mut i: usize = 0;
    while i < a.len()
        invariant
            i <= a@.len() == b@.len(),
            forall|j: int| 0 <= j < i ==> (#[trigger] a@[j])@ == b@[j]@,
        decreases a@.len() - i,
    {
        if a[i] != b[i] {
            proof {
                assert(a@.map_values(|s: String| s@)[i as int] != b@.map_values(|s: String| s@)[i as int]);
            }
            return false;
        }
        i = i + 1;
    }
    assert(a@.map_values(|s: String| s@) =~= b@.map_values(|s: String| s@));
    true
}

fn same_app(a: &AppInfo, b: &AppInfo) -> (same: bool)
    ensures
        same == (app_view(*a) == app_view(*b)),
{
    let icons_match = match (&a.icon, &b.icon) {
        (Some(x), Some(y)) => *x == *y,
        (None, None) => true,
        _ => false,
    };
    let same = a.root == b.root && a.name == b.name && a.bundle_id == b.bundle_id && a.version
        == b.version && a.developer == b.developer && a.entry == b.entry && a.description
        == b.description && icons_match && same_strings(&a.resources, &b.resources);
    proof {
        if !same {
            if app_view(*a) == app_view(*b) {
                assert(app_view(*a).icon == app_view(*b).icon);
            }
        }
    }
    same
}

fn same_catalog(a: &Vec<AppInfo>, b: &Vec<AppInfo>) -> (same: bool)
    ensures
        same == (app_views(a@) == app_views(b@)),
{
    if a.len() != b.len() {
        proof {
            assert(app_views(a@).len() != app_views(b@).len());
        }
        return false;
    }
    let mut i: usize = 0;
    while i < a.len()
        invariant
            i <= a@.len() == b@.len(),
            forall|j: int| 0 <= j < i ==> app_view(#[trigger] a@[j]) == app_view(b@[j]),
        decreases a@.len() - i,
    {
        if !same_app(&a[i], &b[i]) {
            proof {
                assert(app_views(a@)[i as int] != app_views(b@)[i as int]);
            }
            return false;
        }
        i = i + 1;
    }
    assert(app_views(a@) =~= app_views(b@));
    true
}


// ---------------------------------------------------------------------------
// Session control.
// ---------------------------------------------------------------------------

/// What the session manager can be asked to do with the session.
#[derive(Clone, Copy, Debug, PartialEq, Eq, Structural)]
pub enum SessionAction {
    Lock,
    LogOut,
}

/// The session request behind a system action; sleeping, restarting and
/// shutting down are not offered.
pub fn session_action_for(action: SystemAction) -> (session: Result<SessionAction, PlatformError>)
    ensures
        session == match action {
            SystemAction::LockScreen => Ok(SessionAction::Lock),
            SystemAction::LogOut => Ok(SessionAction::LogOut),
            _ => Err(PlatformError::UnsupportedOperation),
        },
{
    match action {
        SystemAction::LockScreen => Ok(SessionAction::Lock),
        SystemAction::LogOut => Ok(SessionAction::LogOut),
        SystemAction::Sleep | SystemAction::Restart | SystemAction::ShutDown => Err(
            PlatformError::UnsupportedOperation,
        ),
    }
}

/// The value of a decimal numeral, digits only after an optional `+`, as
/// `u64::from_str` reads it.
pub open spec fn digits_value(digits: Seq<char>) -> int
    decreases digits.len(),
{
    if digits.len() == 0 {
        0
    } else {
        digits_value(digits.drop_last()) * 10 + (digits.last() as u32 - '0' as u32)
    }
}

pub open spec fn all_digits(digits: Seq<char>) -> bool {
    forall|i: int| 0 <= i < digits.len() ==> '0' <= #[trigger] digits[i] <= '9'
}

/// The digits of a numeral, without its optional `+`.
pub open spec fn numeral_digits(text: Seq<char>) -> Seq<char> {
    if text.len() > 0 && text[0] == '+' {
        text.drop_first()
    } else {
        text
    }
}

/// The session that a session identifier names: a decimal `u64` other than
/// zero.
pub open spec fn session_id_of(text: Seq<char>) -> Option<u64> {
    let digits = numeral_digits(text);
    if digits.len() > 0 && all_digits(digits) && 0 < digits_value(digits) <= u64::MAX {
        Some(digits_value(digits) as u64)
    } else {
        None
    }
}

proof fn lemma_digits_value_grows(digits: Seq<char>, n: int)
    requires
        all_digits(digits),
        0 <= n <= digits.len(),
    ensures
        digits_value(digits.take(n)) <= digits_value(digits),
        0 <= digits_value(digits.take(n)),
    decreases digits.len() - n,
{
    if n < digits.len() {
        lemma_digits_value_grows(digits, n + 1);
        assert(digits.take(n + 1).drop_last() =~= digits.take(n));
        assert(digits.take(n + 1).last() == digits[n]);
        lemma_digits_value_nonnegative(digits.take(n));
    } else {
        assert(digits.take(n) =~= digits);
        lemma_digits_value_nonnegative(digits);
    }
}

proof fn lemma_digits_value_nonnegative(digits: Seq<char>)
    requires
        all_digits(digits),
    ensures
        0 <= digits_value(digits),
    decreases digits.len(),
{
    if digits.len() > 0 {
        assert(all_digits(digits.drop_last())) by {
            assert forall|i: int| 0 <= i < digits.drop_last().len() implies '0' <= #[trigger] digits.drop_last()[i] <= '9' by {
                assert(digits.drop_last()[i] == digits[i]);
            }
        }
        lemma_digits_value_nonnegative(digits.drop_last());
    }
}

/// Reads the session identifier that the environment passes; anything but
/// a decimal number other than zero is an invalid response.
pub fn parse_session_id(text: &str) -> (id: Result<u64, PlatformError>)
    ensures
        match session_id_of(text@) {
            Some(value) => id == Ok::<u64, PlatformError>(value),
            None => id == Err::<u64, PlatformError>(PlatformError::InvalidResponse),
        },
{
    let chars = chars_of(text);
    let start: usize = if chars.len() > 0 && chars[0] == '+' {
        1
    } else {
        0
    };
    let ghost digits = numeral_digits(text@);
    assert(digits =~= chars@.skip(start as int));
    if start >= chars.len() {
        return Err(PlatformError::InvalidResponse);
    }
    let mut value: u64 = 0;
    let mut i = start;
    while i < chars.len()
        invariant
            start <= i <= chars@.len(),
            chars@ == text@,
            digits == chars@.skip(start as int),
            digits == numeral_digits(text@),
            all_digits(digits.take(i - start)),
            value == digits_value(digits.take(i - start)),
        decreases chars@.len() - i,
    {
        let c = chars[i];
        let ghost before = digits.take(i - start);
        assert(digits.take(i - start + 1).drop_last() =~= before);
        assert(digits.take(i - start + 1).last() == c);
        if c < '0' || c > '9' {
            proof {
                assert(!all_digits(digits)) by {
                    assert(digits[i - start] == c);
                }
            }
            return Err(PlatformError::InvalidResponse);
        }
        let digit = (c as u32 - '0' as u32) as u64;
        assert(all_digits(digits.take(i - start + 1))) by {
            assert forall|m: int| 0 <= m < digits.take(i - start + 1).len() implies '0' <= #[trigger] digits.take(i - start + 1)[m] <= '9' by {
                if m < i - start {
                    assert(digits.take(i - start + 1)[m] == before[m]);
                }
            }
        }
        if value > (u64::MAX - digit) / 10 {
            proof {
                assert(digits_value(digits.take(i - start + 1)) > u64::MAX) by (nonlinear_arith)
                    requires
                        digits_value(digits.take(i - start + 1)) == value * 10 + digit,
                        value > (u64::MAX - digit) / 10,
                        digit <= 9,
                ;
                let full_digits = all_digits(digits);
                if full_digits {
                    lemma_digits_value_grows(digits, i - start + 1);
                }
            }
            return Err(PlatformError::InvalidResponse);
        }
        value = value * 10 + digit;
        i = i + 1;
    }
    assert(digits.take(i - start) =~= digits);
    if value == 0 {
        return Err(PlatformError::InvalidResponse);
    }
    Ok(value)
}

/// What the session manager's reply means: the reply must have the expected
/// length and speak of the action and session asked about; a status other
/// than zero means that the request was refused.
pub fn session_reply_outcome(
    received: u64,
    expected_length: usize,
    asked: (SessionAction, u64),
    replied: Option<(SessionAction, u64, u32)>,
) -> (outcome: Result<(), PlatformError>)
    ensures
        outcome == if (received & 0xffff_ffff) != expected_length {
            Err(PlatformError::InvalidResponse)
        } else {
            match replied {
                None => Err(PlatformError::InvalidResponse),
                Some((action, session, status)) => if action != asked.0 || session != asked.1 {
                    Err(PlatformError::InvalidResponse)
                } else if status != 0 {
                    Err(PlatformError::PermissionDenied)
                } else {
                    Ok(())
                },
            }
        },
{
    if (received & 0xffff_ffff) != expected_length as u64 {
        return Err(PlatformError::InvalidResponse);
    }
    match replied {
        None => Err(PlatformError::InvalidResponse),
        Some((action, session, status)) => if action != asked.0 || session != asked.1 {
            Err(PlatformError::InvalidResponse)
        } else if status != 0 {
            Err(PlatformError::PermissionDenied)
        } else {
            Ok(())
        },
    }
}


// ---------------------------------------------------------------------------
// Replies of the system services.
// ---------------------------------------------------------------------------

/// What the capability service's reply to a launch request means: a reply
/// shorter than its sixteen bytes is a failed launch; a status other than
/// zero is a refusal with that error number; otherwise the reply names the
/// launched process, which must be a valid process identifier.
pub fn spawn_reply_outcome(message: u64, reply: &[u8]) -> (outcome: Result<ProcessId, PlatformError>)
    requires
        reply@.len() == 16,
    ensures
        outcome == if (message & 0xffff_ffff) < 16 {
            Err(PlatformError::ProcessLaunchFailed)
        } else {
            let status = spec_u64_from_le_bytes(reply@.subrange(0, 8));
            let pid = spec_u64_from_le_bytes(reply@.subrange(8, 16));
            if status != 0 {
                Err(PlatformError::ProcessLaunchRejected { errno: status })
            } else if pid == 0 || pid > u32::MAX {
                Err(PlatformError::InvalidResponse)
            } else {
                Ok(ProcessId(pid as u32))
            }
        },
{
    if (message & 0xffff_ffff) < 16 {
        return Err(PlatformError::ProcessLaunchFailed);
    }
    let status = u64_from_le_bytes(slice_subrange(reply, 0, 8));
    if status != 0 {
        return Err(PlatformError::ProcessLaunchRejected { errno: status });
    }
    let pid = u64_from_le_bytes(slice_subrange(reply, 8, 16));
    if pid == 0 || pid > u32::MAX as u64 {
        return Err(PlatformError::InvalidResponse);
    }
    Ok(ProcessId(pid as u32))
}

/// What the Linux service's answer to a launch request means: the launched
/// instance, when the answer is to this request, succeeded and names one.
pub fn linux_launch_outcome(request_id: u64, answered_request: u64, status: i32, instance: u64) -> (outcome: Result<
    u64,
    PlatformError,
>)
    ensures
        outcome == if answered_request != request_id || status != 0 || instance == 0 {
            Err(PlatformError::ProcessLaunchFailed)
        } else {
            Ok(instance)
        },
{
    if answered_request != request_id || status != 0 || instance == 0 {
        return Err(PlatformError::ProcessLaunchFailed);
    }
    Ok(instance)
}

/// The magnitude of an error status, as an error number.
pub open spec fn status_errno(status: i32) -> u64 {
    if status < 0 {
        (-(status as int)) as u64
    } else {
        status as u64
    }
}

/// What the Linux service's answer to a status request means: whether the
/// instance still runs, when the answer is about this request and instance
/// and succeeded; a failed status is a refusal with its error number.
pub fn linux_status_outcome(
    request_id: u64,
    instance: u64,
    answered_request: u64,
    answered_instance: u64,
    status: i32,
    running: bool,
) -> (outcome: Result<bool, PlatformError>)
    ensures
        outcome == if answered_request != request_id || answered_instance != instance {
            Err(PlatformError::InvalidResponse)
        } else if status != 0 {
            Err(PlatformError::ProcessLaunchRejected { errno: status_errno(status) })
        } else {
            Ok(running)
        },
{
    if answered_request != request_id || answered_instance != instance {
        return Err(PlatformError::InvalidResponse);
    }
    if status != 0 {
        let errno: u64 = if status < 0 {
            let magnitude: i64 = -(status as i64);
            magnitude as u64
        } else {
            status as u64
        };
        return Err(PlatformError::ProcessLaunchRejected { errno });
    }
    Ok(running)
}

} // verus!
