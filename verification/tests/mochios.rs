use binder::clock::{clock_from_unix_seconds, clock_state};
use binder::mochios::{
    create_internal_window_requests, decode_live_process_ids, decode_process_records, encode_spawn_app_request,
    encode_spawn_app_request_with_environment, internal_bundle_id, launch_kind,
    linux_declared_bundle, session_environment_argument, LaunchKind, MochiOsPlatform,
    FIRST_INTERNAL_PID, PROCESS_RECORD_SIZE, PROCESS_STATE_TERMINATED, SPAWN_APP_HEADER_LEN,
    SPAWN_APP_OPCODE,
};
use binder::platform::{AppInfo, ClockState, PlatformError, ProcessId};
use binder::protocol::RemoteWindowId;

#[test]
fn formats_system_bar_clock_like_linux_backend() {
    let clock = clock_from_unix_seconds(1_704_067_140).unwrap_or_default();
    assert_eq!(clock.date, "12/31 Sun");
    assert_eq!(clock.time, "23:59");
}

#[test]
fn encodes_capability_service_app_launch_request() {
    let executable = "/applications/test.app/entry.elf";
    let request = encode_spawn_app_request(executable, u64::MAX, true);
    assert!(request.is_ok());
    let request = request.unwrap_or_default();
    assert_eq!(request.len(), SPAWN_APP_HEADER_LEN + executable.len() + 1);
    assert_eq!(&request[0..4], &SPAWN_APP_OPCODE.to_le_bytes());
    assert_eq!(&request[4..8], &[0; 4]);
    assert_eq!(&request[8..16], &u64::MAX.to_le_bytes());
    assert_eq!(request[16], 1);
    assert_eq!(&request[17..24], &[0; 7]);
    assert_eq!(&request[24..], b"/applications/test.app/entry.elf\0");
}

#[test]
fn app_launch_request_carries_session_environment() {
    let environment = vec![
        String::from("__MNU_EXEC_ENV=HOME=/home/alice"),
        String::from("__MNU_EXEC_ENV=USER=alice"),
    ];
    let request = encode_spawn_app_request_with_environment(
        "/applications/test.app/entry.elf",
        7,
        true,
        &environment,
    )
    .unwrap_or_default();
    assert_eq!(
        &request[SPAWN_APP_HEADER_LEN..],
        b"/applications/test.app/entry.elf\0__MNU_EXEC_ENV=HOME=/home/alice\0__MNU_EXEC_ENV=USER=alice\0"
    );
}

#[test]
fn process_snapshot_excludes_terminated_processes() {
    let mut records = vec![0u8; PROCESS_RECORD_SIZE * 3];
    records[0..8].copy_from_slice(&7u64.to_ne_bytes());
    records[16..24].copy_from_slice(&1u64.to_ne_bytes());
    records[PROCESS_RECORD_SIZE..PROCESS_RECORD_SIZE + 8].copy_from_slice(&8u64.to_ne_bytes());
    records[PROCESS_RECORD_SIZE + 16..PROCESS_RECORD_SIZE + 24]
        .copy_from_slice(&PROCESS_STATE_TERMINATED.to_ne_bytes());
    records[PROCESS_RECORD_SIZE * 2..PROCESS_RECORD_SIZE * 2 + 8]
        .copy_from_slice(&9u64.to_ne_bytes());
    records[PROCESS_RECORD_SIZE * 2 + 16..PROCESS_RECORD_SIZE * 2 + 24]
        .copy_from_slice(&3u64.to_ne_bytes());

    let live = decode_live_process_ids(&records, 3);

    assert_eq!(live, vec![ProcessId(7), ProcessId(9)]);
}

#[test]
fn exited_kernel_process_is_removed_from_running_apps() {
    let mut platform = MochiOsPlatform::new(Vec::new());
    platform.record_spawned(ProcessId(7), String::from("org.test.terminal"), false);
    let internal = platform.launch_internal_renderer("internal:none", String::from("org.test.internal"));
    assert_eq!(internal, Ok(ProcessId(0x4000_0000)));

    assert!(platform.remove_exited_kernel_processes(&[]));
    assert!(platform.process_for_bundle("org.test.terminal").is_none());
    assert!(platform.process_for_bundle("org.test.internal").is_some());
    assert_eq!(platform.take_exited_processes(), vec![ProcessId(7)]);
}

#[test]
fn exited_linux_instance_is_removed_without_affecting_native_apps() {
    let mut platform = MochiOsPlatform::new(Vec::new());
    assert_eq!(
        platform.record_linux_instance(String::from("org.mochios.linux.xterm"), 11),
        ProcessId(0x4000_0000)
    );
    assert_eq!(
        platform.record_linux_instance(String::from("org.mochios.linux.xclock"), 12),
        ProcessId(0x4000_0001)
    );
    platform.record_spawned(ProcessId(7), String::from("org.mochios.files"), false);

    assert!(platform.remove_exited_linux_processes(&[12]));
    assert!(platform.process_for_bundle("org.mochios.linux.xterm").is_none());
    assert!(platform.process_for_bundle("org.mochios.linux.xclock").is_some());
    assert!(platform.process_for_bundle("org.mochios.files").is_some());
    assert_eq!(platform.take_exited_processes(), vec![ProcessId(0x4000_0000)]);
}

fn app(bundle_id: &str, entry: &str) -> AppInfo {
    AppInfo {
        root: String::from("/applications/Test.app"),
        name: String::from("Test"),
        bundle_id: bundle_id.to_owned(),
        version: String::from("1.0.0"),
        developer: String::from("mochiOS"),
        entry: entry.to_owned(),
        description: String::new(),
        icon: None,
        resources: Vec::new(),
    }
}

#[test]
fn clock_at_the_epoch_is_a_thursday_in_january() {
    let clock = clock_from_unix_seconds(0).unwrap_or_default();
    assert_eq!(clock.date, "01/01 Thu");
    assert_eq!(clock.time, "00:00");
}

#[test]
fn clock_before_the_epoch_and_across_a_leap_day() {
    let clock = clock_from_unix_seconds(-1).unwrap_or_default();
    assert_eq!(clock.date, "12/31 Wed");
    assert_eq!(clock.time, "23:59");
    let leap = clock_from_unix_seconds(951_782_400).unwrap_or_default();
    assert_eq!(leap.date, "02/29 Tue");
    assert_eq!(leap.time, "00:00");
    let far = clock_from_unix_seconds(i64::MIN).unwrap_or_default();
    assert_eq!(far.time.len(), 5);
}

#[test]
fn clock_state_pads_and_names_days() {
    let clock: ClockState = clock_state(3, 7, 1, 9, 5);
    assert_eq!(clock.date, "03/07 Mon");
    assert_eq!(clock.time, "09:05");
    let odd = clock_state(-5, 123, 9, 24, 60);
    assert_eq!(odd.date, "-5/123 ");
    assert_eq!(odd.time, "24:60");
}

#[test]
fn kernel_lifecycle_keeps_live_processes() {
    let mut platform = MochiOsPlatform::new(Vec::new());
    platform.record_spawned(ProcessId(7), String::from("org.test.terminal"), false);
    assert!(!platform.remove_exited_kernel_processes(&[ProcessId(7)]));
    assert_eq!(platform.running_app_bundle_ids(), vec![String::from("org.test.terminal")]);
    assert!(platform.take_exited_processes().is_empty());
}

#[test]
fn exited_children_are_forgotten() {
    let mut platform = MochiOsPlatform::new(Vec::new());
    platform.record_spawned(ProcessId(21), String::from("org.test.one"), true);
    platform.record_spawned(ProcessId(22), String::from("org.test.two"), false);
    assert!(platform.remove_exited_children(&[ProcessId(21), ProcessId(22)]));
    assert_eq!(platform.running_app_bundle_ids(), vec![String::from("org.test.two")]);
    assert_eq!(platform.take_exited_processes(), vec![ProcessId(21)]);
}

#[test]
fn internal_renderer_is_launched_once_and_asks_for_windows() {
    let mut platform = MochiOsPlatform::new(Vec::new());
    let first = platform.launch_internal_renderer("internal:test", String::from("com.mochi.binder.test"));
    let second = platform.launch_internal_renderer("internal:test", String::from("com.mochi.binder.test"));
    assert_eq!(first, Ok(ProcessId(FIRST_INTERNAL_PID)));
    assert_eq!(second, first);
    let requests = platform.take_create_window_requests();
    assert_eq!(requests.len(), 3);
    assert_eq!(requests[0].title, "Test Window 1");
    assert_eq!(requests[2].title, "Test Window 3");
    assert_eq!(requests[1].width, 360);
    assert_eq!(requests[1].height, 220);
}

#[test]
fn closing_the_last_window_of_a_renderer_ends_it() {
    let mut platform = MochiOsPlatform::new(Vec::new());
    assert_eq!(
        platform.register_window(ProcessId(5), RemoteWindowId(1)),
        Err(PlatformError::ServiceUnavailable)
    );
    platform.record_spawned(ProcessId(5), String::from("org.test.app"), false);
    assert_eq!(platform.register_window(ProcessId(5), RemoteWindowId(1)), Ok(()));
    assert_eq!(platform.request_window_close(ProcessId(5), RemoteWindowId(2)), Ok(()));
    assert!(platform.take_close_window_requests().is_empty());
    assert_eq!(platform.request_window_close(ProcessId(5), RemoteWindowId(1)), Ok(()));
    let closes = platform.take_close_window_requests();
    assert_eq!(closes.len(), 1);
    assert_eq!(closes[0].window, RemoteWindowId(1));
    assert_eq!(platform.take_exited_processes(), vec![ProcessId(5)]);
    assert!(platform.process_for_bundle("org.test.app").is_none());
}

#[test]
fn internal_entries_have_their_bundles_and_windows() {
    assert_eq!(internal_bundle_id("internal:about"), "com.mochi.binder.about");
    assert_eq!(internal_bundle_id("internal:test"), "com.mochi.binder.test");
    assert_eq!(internal_bundle_id("other"), "org.mochios.binder.internal");
    let about = create_internal_window_requests(ProcessId(3), "internal:about");
    assert_eq!(about.len(), 1);
    assert_eq!(about[0].title, "About mochiOS");
    assert_eq!(about[0].width, 420);
    assert!(create_internal_window_requests(ProcessId(3), "elsewhere").is_empty());
}

#[test]
fn launch_kinds_follow_the_entry() {
    assert_eq!(launch_kind(&app("org.x.y", "linux:org.x.y")), LaunchKind::Linux);
    assert_eq!(launch_kind(&app("org.x.y", "internal:about")), LaunchKind::Internal);
    assert_eq!(launch_kind(&app("org.x.y", "entry.elf")), LaunchKind::Spawn);
    assert_eq!(linux_declared_bundle(&app("org.x.y", "linux:org.x.y")), Ok(String::from("org.x.y")));
    assert_eq!(
        linux_declared_bundle(&app("org.x.y", "linux:org.x.z")),
        Err(PlatformError::ProcessLaunchFailed)
    );
}

#[test]
fn session_environment_is_passed_by_name() {
    assert_eq!(session_environment_argument("HOME", "/home/alice"), "__MNU_EXEC_ENV=HOME=/home/alice");
}

#[test]
fn spawn_request_refuses_a_nul_in_the_path() {
    assert!(encode_spawn_app_request("/bad\0path", 1, false).is_err());
}

#[test]
fn clock_updates_report_changes() {
    let mut platform = MochiOsPlatform::new(Vec::new());
    let clock = clock_from_unix_seconds(60).unwrap_or_default();
    assert!(platform.update_clock(clock.clone()));
    assert!(!platform.update_clock(clock));
    assert_eq!(platform.system_bar_state().clock.time, "00:01");
}

#[test]
fn process_records_are_read_in_the_byte_order_given() {
    let mut little = vec![0u8; PROCESS_RECORD_SIZE * 2];
    little[0..8].copy_from_slice(&0x0102u64.to_le_bytes());
    little[16..24].copy_from_slice(&1u64.to_le_bytes());
    little[PROCESS_RECORD_SIZE..PROCESS_RECORD_SIZE + 8].copy_from_slice(&5u64.to_le_bytes());
    little[PROCESS_RECORD_SIZE + 16..PROCESS_RECORD_SIZE + 24]
        .copy_from_slice(&PROCESS_STATE_TERMINATED.to_le_bytes());
    assert_eq!(decode_process_records(&little, 2, true), vec![ProcessId(0x0102)]);
    let mut big = vec![0u8; PROCESS_RECORD_SIZE * 2];
    big[0..8].copy_from_slice(&0x0102u64.to_be_bytes());
    big[16..24].copy_from_slice(&1u64.to_be_bytes());
    big[PROCESS_RECORD_SIZE..PROCESS_RECORD_SIZE + 8].copy_from_slice(&5u64.to_be_bytes());
    big[PROCESS_RECORD_SIZE + 16..PROCESS_RECORD_SIZE + 24]
        .copy_from_slice(&PROCESS_STATE_TERMINATED.to_be_bytes());
    assert_eq!(decode_process_records(&big, 2, false), vec![ProcessId(0x0102)]);
    assert_eq!(decode_process_records(&big, 2, true), Vec::<ProcessId>::new());
    assert_eq!(decode_process_records(&big, 1, false), vec![ProcessId(0x0102)]);
}

#[test]
fn a_process_named_twice_in_the_snapshot_is_live_once() {
    let mut records = vec![0u8; PROCESS_RECORD_SIZE * 3];
    for (slot, pid) in [(0usize, 7u64), (1, 9), (2, 7)] {
        let start = slot * PROCESS_RECORD_SIZE;
        records[start..start + 8].copy_from_slice(&pid.to_le_bytes());
        records[start + 16..start + 24].copy_from_slice(&1u64.to_le_bytes());
    }
    assert_eq!(decode_process_records(&records, 3, true), vec![ProcessId(7), ProcessId(9)]);
}
