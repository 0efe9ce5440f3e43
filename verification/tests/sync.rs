use adb_sync_tool::cli::args::{Cli, Command};
use adb_sync_tool::cli::devices::{get_devices, get_storage_info, Device};
use adb_sync_tool::cli::queue::Queue;
use adb_sync_tool::cli::shell::{
    find_command, local_space_command, make_dir_command, remote_space_command, remove_command,
    storage_command,
};
use adb_sync_tool::cli::size::{check_enough_space, filesize_type, FilesizeType, FILE_SPACE_BUFFER};
use adb_sync_tool::cli::sync::{pull, push, Reply, Report, Request, SyncEvent, SyncState};
use adb_sync_tool::config::ConfigFile;
use adb_sync_tool::number::NumberError;

fn config() -> ConfigFile {
    ConfigFile {
        device_name: None,
        local_dir: String::from("Music"),
        remote_dir: String::from("/sdcard/My Music"),
        allow_hidden: false,
    }
}

fn found(add: u64, change: u64, del: u64, total_size: i64) -> Queue {
    let mut queue = Queue::new();
    queue.add = add;
    queue.change = change;
    queue.del = del;
    queue.total_size = total_size;
    queue
}

fn texts(reply: &Reply) -> Vec<String> {
    reply
        .reports
        .iter()
        .map(|report| match report {
            Report::Text(line) => line.clone(),
            Report::UpdateSize(n) => format!("update {}", n),
            Report::FreeSpace(n) => format!("free {}", n),
        })
        .collect()
}

fn usage(free: &str) -> SyncEvent {
    SyncEvent::DiskUsage(vec![
        String::from("/dev/fuse"),
        String::from("100"),
        String::from("50"),
        String::from(free),
        String::from("50%"),
    ])
}

#[test]
fn a_new_queue_is_empty() {
    let queue = Queue::new();
    assert!(queue.dir_queue.is_empty());
    assert!(queue.file_queue.is_empty());
    assert!(queue.del_queue.is_empty());
    assert_eq!((queue.add, queue.change, queue.del, queue.total_size), (0, 0, 0, 0));
}

#[test]
fn a_failed_fetch_is_reported() {
    let reply = push(SyncState::Fetching, SyncEvent::FetchFailed, &config(), true);
    assert_eq!(
        texts(&reply),
        vec!["Can't grab files. Do both the local and remote directories exist?"]
    );
    assert!(matches!(reply.request, Request::Stop));
    assert!(matches!(reply.state, SyncState::Finished));
}

#[test]
fn nothing_to_do_ends_the_transfer() {
    let reply = pull(
        SyncState::Fetching,
        SyncEvent::Fetched(found(0, 0, 4, 0)),
        "/home/user/Music",
        false,
    );
    assert_eq!(
        texts(&reply),
        vec![
            "Files to add: 0",
            "Files to change: 0",
            "Files to delete 4",
            "No changes available. Exiting...",
        ]
    );
    assert!(matches!(reply.request, Request::Stop));
}

#[test]
fn what_was_found_is_shown_and_the_space_measured() {
    let reply = push(
        SyncState::Fetching,
        SyncEvent::Fetched(found(12, 3, 1, 2048)),
        &config(),
        true,
    );
    assert_eq!(
        texts(&reply),
        vec!["Files to add: 12", "Files to change: 3", "Files to delete 1", "update 2048"]
    );
    assert!(
        matches!(&reply.request, Request::Measure(c) if c == "df \"/sdcard/My Music\" | tail -n 1")
    );
    assert!(matches!(&reply.state, SyncState::Measuring(q) if q.add == 12));
    let reply = pull(
        SyncState::Fetching,
        SyncEvent::Fetched(found(0, 0, 1, -5)),
        "/home/user/Music",
        true,
    );
    assert!(
        matches!(&reply.request, Request::Measure(c) if c == "df -k \"/home/user/Music\" | tail -n 1")
    );
}

#[test]
fn the_user_is_asked_where_the_space_is_enough() {
    let state = SyncState::Measuring(found(1, 0, 0, 100));
    let reply = push(state, usage("10340"), &config(), false);
    assert_eq!(texts(&reply), vec!["free 10340"]);
    assert!(matches!(reply.request, Request::Confirm));
    assert!(matches!(reply.state, SyncState::Confirming(q) if q.total_size == 100));
}

#[test]
fn too_little_space_ends_the_transfer() {
    let state = SyncState::Measuring(found(1, 0, 0, 100));
    let reply = pull(state, usage("10339"), "/home/user/Music", false);
    assert_eq!(
        texts(&reply),
        vec!["free 10339", "Not enough space on disk", "Exiting..."]
    );
    assert!(matches!(reply.request, Request::Stop));
}

#[test]
fn free_space_that_is_no_number_fails() {
    for (free, error) in [
        ("50%", NumberError::InvalidDigit),
        ("", NumberError::Empty),
        ("9223372036854775808", NumberError::PosOverflow),
        ("-9223372036854775809", NumberError::NegOverflow),
    ] {
        let reply = push(SyncState::Measuring(found(1, 0, 0, 1)), usage(free), &config(), false);
        assert!(texts(&reply).is_empty());
        assert!(matches!(reply.request, Request::Fail(e) if e == error));
    }
}

#[test]
fn only_a_yes_lets_the_queue_be_written() {
    let state = SyncState::Confirming(found(7, 0, 0, 1));
    let reply = push(state, SyncEvent::Confirmed(true), &config(), false);
    assert!(matches!(reply.request, Request::Write(q) if q.add == 7));
    assert!(reply.reports.is_empty());
    let state = SyncState::Confirming(found(7, 0, 0, 1));
    let reply = push(state, SyncEvent::Confirmed(false), &config(), false);
    assert_eq!(texts(&reply), vec!["Exiting..."]);
    assert!(matches!(reply.request, Request::Stop));
}

#[test]
fn a_transfer_goes_from_start_to_write() {
    let event = SyncEvent::Fetched(found(1, 1, 0, 10));
    let first = pull(SyncState::Fetching, event, "/m", false);
    let second = pull(first.state, usage("999999"), "/m", false);
    let third = pull(second.state, SyncEvent::Confirmed(true), "/m", false);
    assert!(matches!(third.request, Request::Write(q) if q.change == 1 && q.total_size == 10));
    assert!(matches!(third.state, SyncState::Finished));
}

#[test]
fn sizes_have_the_largest_unit_that_fits() {
    let cases = [
        (0, FilesizeType::Kibibyte),
        (1_023, FilesizeType::Kibibyte),
        (1_024, FilesizeType::Mebibyte),
        (1_048_575, FilesizeType::Mebibyte),
        (1_048_576, FilesizeType::Gibibyte),
        (1_073_741_823, FilesizeType::Gibibyte),
        (1_073_741_824, FilesizeType::Tebibyte),
        (i64::MAX, FilesizeType::Tebibyte),
    ];
    for (size, unit) in cases {
        assert_eq!(filesize_type(size), unit);
        assert_eq!(filesize_type(-size), unit);
    }
    assert_eq!(filesize_type(i64::MIN), FilesizeType::Tebibyte);
}

#[test]
fn units_have_signs_and_divisors() {
    let units = [
        (FilesizeType::Kibibyte, "KiB", 1),
        (FilesizeType::Mebibyte, "MiB", 1_024),
        (FilesizeType::Gibibyte, "GiB", 1_048_576),
        (FilesizeType::Tebibyte, "TiB", 1_073_741_824),
    ];
    for (unit, sign, divisor) in units {
        assert_eq!(unit.display(), sign);
        assert_eq!(unit.divisor(), divisor);
    }
}

#[test]
fn the_buffer_has_to_be_left() {
    assert_eq!(FILE_SPACE_BUFFER, 10 * 1_024);
    assert!(check_enough_space(0, FILE_SPACE_BUFFER));
    assert!(!check_enough_space(0, 10_100));
    assert!(!check_enough_space(0, FILE_SPACE_BUFFER - 1));
    assert!(check_enough_space(-FILE_SPACE_BUFFER, 0));
    assert!(!check_enough_space(1, 10_240));
    assert!(check_enough_space(i64::MIN, i64::MIN + 10_240));
}

#[test]
fn commands_are_known_by_their_names() {
    let cli = |command: &str| Cli {
        command: String::from(command),
        alias: None,
        ignore_changes: false,
        delete: false,
    };
    assert_eq!(cli("devices").chosen_command(), Some(Command::Devices));
    assert_eq!(cli("storage").chosen_command(), Some(Command::Storage));
    assert_eq!(cli("push").chosen_command(), Some(Command::Push));
    assert_eq!(cli("pull").chosen_command(), Some(Command::Pull));
    for other in ["", "Push", "pull ", "sync"] {
        assert_eq!(cli(other).chosen_command(), None);
    }
}

#[test]
fn shell_commands_are_written_out() {
    assert_eq!(find_command("/sdcard/a"), "find /sdcard/a -type f");
    assert_eq!(remove_command("/sdcard/a"), "rm -r /sdcard/a");
    assert_eq!(remove_command("/l/a b"), "rm -r '/l/a b'");
    assert_eq!(storage_command(), "df -h");
    assert_eq!(make_dir_command("/sdcard/a b"), "mkdir -p \"/sdcard/a b\"");
    assert_eq!(remote_space_command("/sdcard"), "df \"/sdcard\" | tail -n 1");
    assert_eq!(local_space_command("/home"), "df -k \"/home\" | tail -n 1");
}

#[test]
fn devices_are_listed_and_selected() {
    let connected = vec![
        Device { identifier: String::from("emulator-5554") },
        Device { identifier: String::from("R58M") },
        Device { identifier: String::from("HT7") },
    ];
    let names = get_devices(&connected);
    assert_eq!(names, vec!["emulator-5554", "R58M", "HT7"]);
    assert_eq!(get_storage_info(&names, &vec![2, 0]), vec!["HT7", "emulator-5554"]);
    assert!(get_storage_info(&names, &vec![]).is_empty());
}
