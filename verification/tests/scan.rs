use adb_sync_tool::cli::scan::{
    fetch_fits, is_hidden, is_wanted, surplus_files, target_path, Entry, FileStat, Rules,
};
use adb_sync_tool::cli::{pull, push};
use adb_sync_tool::config::ConfigFile;
use adb_sync_tool::path::StripPrefixError;

fn config(allow_hidden: bool) -> ConfigFile {
    ConfigFile {
        device_name: None,
        local_dir: String::from("Music"),
        remote_dir: String::from("/sdcard/Music"),
        allow_hidden,
    }
}

const LOCAL: &str = "/home/user/Music";

fn stat(mod_time: u64, size: i64) -> FileStat {
    FileStat { mod_time, size }
}

fn entry(path: &str, source: FileStat, target: FileStat) -> Entry {
    Entry { path: String::from(path), source, target }
}

fn pull_rules(allow_hidden: bool, ignore_changes: bool) -> Rules {
    pull::rules(&config(allow_hidden), LOCAL, ignore_changes)
}

#[test]
fn a_missing_file_has_time_and_size_zero() {
    assert_eq!(FileStat::missing(), stat(0, 0));
    assert_eq!(pull::modified_time(None), 0);
    assert_eq!(pull::modified_time(Some(1_700_000_000)), 1_700_000_000);
}

#[test]
fn hidden_paths_name_something_that_starts_with_a_dot() {
    assert!(is_hidden("/sdcard/.thumbs/a"));
    assert!(is_hidden("/sdcard/a/.b"));
    assert!(is_hidden(".a/b"));
    assert!(is_hidden(".a"));
    assert!(is_hidden("/a/..b/c"));
    assert!(is_hidden("/a/.../c"));
    assert!(!is_hidden("a/../b"));
    assert!(!is_hidden("../x/a"));
    assert!(!is_hidden("./a/./b"));
    assert!(!is_hidden("/sdcard/a.b/c.d"));
    assert!(!is_hidden("/"));
    assert!(!is_hidden(""));
    for path in ["/.", "./", "a/.", "//..", "x/a./y", "..//.."] {
        assert!(!is_hidden(path), "{:?}", path);
    }
}

#[test]
fn a_file_is_wanted_where_it_is_new_or_newer() {
    let rules = pull_rules(false, false);
    let new = entry("/sdcard/Music/a", stat(5, 1), FileStat::missing());
    let newer = entry("/sdcard/Music/a", stat(5, 1), stat(4, 1));
    let same = entry("/sdcard/Music/a", stat(5, 1), stat(5, 1));
    let older = entry("/sdcard/Music/a", stat(5, 1), stat(6, 1));
    let hidden = entry("/sdcard/Music/.a", stat(5, 1), FileStat::missing());
    assert!(is_wanted(&rules, &new));
    assert!(is_wanted(&rules, &newer));
    assert!(!is_wanted(&rules, &same));
    assert!(!is_wanted(&rules, &older));
    assert!(!is_wanted(&rules, &hidden));
    let new_only = pull_rules(true, true);
    assert!(is_wanted(&new_only, &new));
    assert!(!is_wanted(&new_only, &newer));
    assert!(is_wanted(&new_only, &hidden));
}

#[test]
fn a_file_keeps_its_place() {
    let to_local = pull_rules(false, false);
    assert_eq!(
        target_path(&to_local, "/sdcard/Music/x/a.mp3"),
        Ok(String::from("/home/user/Music/x/a.mp3"))
    );
    assert_eq!(target_path(&to_local, "/sdcard/Other/a.mp3"), Err(StripPrefixError));
    let to_device = push::rules(&config(false), LOCAL, false);
    assert_eq!(
        target_path(&to_device, "/home/user/Music/x/a.mp3"),
        Ok(String::from("/sdcard/Music/x/a.mp3"))
    );
}

#[test]
fn the_bar_has_the_length_of_the_listing() {
    assert_eq!(pull::scan_length(""), 0);
    assert_eq!(pull::scan_length("a\nb\nc\n"), 3);
    assert_eq!(push::scan_length(""), 0);
    assert_eq!(push::scan_length("a\n"), 0);
    assert_eq!(push::scan_length("a\nb\nc\n"), 2);
}

fn music() -> Vec<Entry> {
    vec![
        entry("/sdcard/Music/a/one.mp3", stat(50, 4096), FileStat::missing()),
        entry("/sdcard/Music/a/two.mp3", stat(50, 5000), stat(40, 1000)),
        entry("/sdcard/Music/b/three.mp3", stat(50, 700), stat(50, 700)),
        entry("/sdcard/Music/b/four.mp3", stat(50, 1024), FileStat::missing()),
        entry("/sdcard/Music/.nomedia", stat(50, 1), FileStat::missing()),
    ]
}

#[test]
fn a_pull_finds_what_is_new_and_what_changed() {
    let queue = pull::fetch_changes(&config(false), LOCAL, false, false, &music(), "", &vec![])
        .unwrap();
    assert_eq!(
        queue.file_queue,
        vec![
            "/sdcard/Music/a/one.mp3",
            "/sdcard/Music/a/two.mp3",
            "/sdcard/Music/b/four.mp3"
        ]
    );
    assert_eq!(queue.dir_queue, vec!["/home/user/Music/a", "/home/user/Music/b"]);
    assert!(queue.del_queue.is_empty());
    assert_eq!((queue.add, queue.change, queue.del), (2, 1, 0));
    assert_eq!(queue.total_size, (4096 + 4000 + 1024) / 1024);
}

#[test]
fn ignoring_changes_leaves_only_what_is_new() {
    let queue =
        pull::fetch_changes(&config(false), LOCAL, true, false, &music(), "", &vec![]).unwrap();
    assert_eq!(
        queue.file_queue,
        vec!["/sdcard/Music/a/one.mp3", "/sdcard/Music/b/four.mp3"]
    );
    assert_eq!((queue.add, queue.change, queue.del), (2, 0, 0));
    assert_eq!(queue.total_size, 5);
}

#[test]
fn hidden_files_are_copied_where_they_are_allowed() {
    let queue =
        pull::fetch_changes(&config(true), LOCAL, false, false, &music(), "", &vec![]).unwrap();
    assert_eq!(queue.file_queue.len(), 4);
    assert_eq!(queue.file_queue[3], "/sdcard/Music/.nomedia");
    assert_eq!(
        queue.dir_queue,
        vec!["/home/user/Music/a", "/home/user/Music/b", "/home/user/Music"]
    );
    assert_eq!((queue.add, queue.change), (3, 1));
}

#[test]
fn surplus_files_are_deleted_from_a_pull_target() {
    let listing = "/home/user/Music/a/two.mp3\n/home/user/Music/old.mp3\n/home/user/Music/b/three.mp3\n/home/user/Music/z/older.mp3\n/home/user/Music/old.mp3\n";
    let rules = pull_rules(false, false);
    let files = surplus_files(&rules, &music(), listing).unwrap();
    assert_eq!(files, vec!["/home/user/Music/old.mp3", "/home/user/Music/z/older.mp3"]);
    let sizes: Vec<i64> = vec![20_000, 2048];
    assert!(fetch_fits(&rules, true, &music(), listing, &sizes));
    let queue =
        pull::fetch_changes(&config(false), LOCAL, false, true, &music(), listing, &sizes).unwrap();
    assert_eq!(queue.del_queue, files);
    assert_eq!(queue.del, 2);
    // 9120 - 22048 bytes, rounded toward zero.
    assert_eq!(queue.total_size, -12);
}

#[test]
fn a_hidden_counterpart_is_not_surplus() {
    let rules = pull_rules(false, false);
    let files = surplus_files(&rules, &music(), "/home/user/Music/.nomedia\n").unwrap();
    assert!(files.is_empty());
}

#[test]
fn nothing_is_deleted_unless_asked_for() {
    let listing = "/home/user/Music/old.mp3\n";
    let queue =
        pull::fetch_changes(&config(false), LOCAL, false, false, &music(), listing, &vec![])
            .unwrap();
    assert!(queue.del_queue.is_empty());
    assert_eq!(queue.del, 0);
}

#[test]
fn a_file_elsewhere_fails_the_fetch() {
    let mut entries = music();
    entries.push(entry("/sdcard/Other/x", stat(1, 1), FileStat::missing()));
    let res = pull::fetch_changes(&config(false), LOCAL, false, false, &entries, "", &vec![]);
    assert!(matches!(res, Err(StripPrefixError)));
    let res = push::fetch_changes(&config(false), LOCAL, false, false, &music(), "", &vec![]);
    assert!(matches!(res, Err(StripPrefixError)));
    assert_eq!(
        surplus_files(&pull_rules(false, false), &entries, "x\n"),
        Err(StripPrefixError)
    );
}

fn local_music() -> Vec<Entry> {
    vec![
        entry("/home/user/Music/a/one.mp3", stat(50, 4096), FileStat::missing()),
        entry("/home/user/Music/a/two.mp3", stat(50, 5000), stat(40, 1000)),
        entry("/home/user/Music/b/three.mp3", stat(50, 700), stat(60, 700)),
    ]
}

#[test]
fn a_push_finds_what_is_new_and_what_changed() {
    let listing = "/sdcard/Music/a/two.mp3\n/sdcard/Music/gone.mp3\n/sdcard/Music/b/three.mp3\n";
    let rules = push::rules(&config(false), LOCAL, false);
    assert_eq!(
        surplus_files(&rules, &local_music(), listing).unwrap(),
        vec!["/sdcard/Music/gone.mp3"]
    );
    let queue = push::fetch_changes(
        &config(false),
        LOCAL,
        false,
        true,
        &local_music(),
        listing,
        &vec![1024],
    )
    .unwrap();
    assert_eq!(
        queue.file_queue,
        vec!["/home/user/Music/a/one.mp3", "/home/user/Music/a/two.mp3"]
    );
    assert_eq!(queue.dir_queue, vec!["/sdcard/Music/a"]);
    assert_eq!(queue.del_queue, vec!["/sdcard/Music/gone.mp3"]);
    assert_eq!((queue.add, queue.change, queue.del), (1, 1, 1));
    assert_eq!(queue.total_size, (4096 + 4000 - 1024) / 1024);
}

#[test]
fn only_a_push_spares_directories_with_hidden_names() {
    let mut hidden_target = config(false);
    hidden_target.remote_dir = String::from("/sdcard/.music");
    let entries = vec![entry("/home/user/Music/one.mp3", stat(50, 1), FileStat::missing())];
    let queue =
        push::fetch_changes(&hidden_target, LOCAL, false, false, &entries, "", &vec![]).unwrap();
    assert!(queue.dir_queue.is_empty());
    assert_eq!(queue.file_queue, vec!["/home/user/Music/one.mp3"]);
    hidden_target.allow_hidden = true;
    let queue =
        push::fetch_changes(&hidden_target, LOCAL, false, false, &entries, "", &vec![]).unwrap();
    assert_eq!(queue.dir_queue, vec!["/sdcard/.music"]);
    let entries = vec![entry("/sdcard/Music/one.mp3", stat(50, 1), FileStat::missing())];
    let queue =
        pull::fetch_changes(&config(false), "/home/.music", false, false, &entries, "", &vec![])
            .unwrap();
    assert_eq!(queue.dir_queue, vec!["/home/.music"]);
}

#[test]
fn a_directory_comes_again_after_another() {
    let entries = vec![
        entry("/sdcard/Music/a/1", stat(5, 0), FileStat::missing()),
        entry("/sdcard/Music/b/2", stat(5, 0), FileStat::missing()),
        entry("/sdcard/Music/a/3", stat(5, 0), FileStat::missing()),
        entry("/sdcard/Music/a//4", stat(5, 0), FileStat::missing()),
    ];
    let queue =
        pull::fetch_changes(&config(false), LOCAL, false, false, &entries, "", &vec![]).unwrap();
    assert_eq!(
        queue.dir_queue,
        vec!["/home/user/Music/a", "/home/user/Music/b", "/home/user/Music/a"]
    );
}

#[test]
fn sizes_that_cannot_be_added_do_not_fit() {
    let rules = pull_rules(false, false);
    let entries = vec![
        entry("/sdcard/Music/1", stat(5, i64::MAX), FileStat::missing()),
        entry("/sdcard/Music/2", stat(5, 1), FileStat::missing()),
    ];
    assert!(!fetch_fits(&rules, false, &entries, "", &vec![]));
    let entries = vec![entry("/sdcard/Music/1", stat(5, i64::MAX), stat(4, -1))];
    assert!(!fetch_fits(&rules, false, &entries, "", &vec![]));
    let entries = vec![entry("/sdcard/Music/1", stat(5, i64::MAX), FileStat::missing())];
    assert!(fetch_fits(&rules, false, &entries, "", &vec![]));
    assert!(!fetch_fits(&rules, true, &entries, "x\n", &vec![-1]));
    assert!(fetch_fits(&rules, true, &entries, "x\n", &vec![1]));
}

#[test]
fn a_file_without_a_directory_does_not_fit() {
    let mut rules = pull_rules(false, false);
    rules.to_root = String::new();
    rules.from_root = String::from("/sdcard/x");
    let entries = vec![entry("/sdcard/x", stat(5, 1), FileStat::missing())];
    assert!(!fetch_fits(&rules, false, &entries, "", &vec![]));
    // "x" lies in the directory "", which has no name.
    rules.from_root = String::from("/sdcard");
    assert!(fetch_fits(&rules, false, &entries, "", &vec![]));
    rules.spare_hidden_dirs = true;
    assert!(!fetch_fits(&rules, false, &entries, "", &vec![]));
}

#[test]
fn a_target_up_to_date_leaves_nothing_to_do() {
    let entries = vec![
        entry("/sdcard/Music/1", stat(5, 9), stat(5, 9)),
        entry("/sdcard/Music/2", stat(5, 9), stat(8, 7)),
    ];
    let listing = "/home/user/Music/1\n/home/user/Music/2\n";
    let queue =
        pull::fetch_changes(&config(true), LOCAL, false, true, &entries, listing, &vec![]).unwrap();
    assert!(queue.file_queue.is_empty() && queue.dir_queue.is_empty() && queue.del_queue.is_empty());
    assert_eq!((queue.add, queue.change, queue.del, queue.total_size), (0, 0, 0, 0));
}

#[test]
fn a_directory_above_hides_nothing() {
    let entries = vec![entry("/home/user/../x/one.mp3", stat(50, 1), FileStat::missing())];
    let queue = push::fetch_changes(
        &config(false),
        "/home/user/../x",
        false,
        false,
        &entries,
        "",
        &vec![],
    )
    .unwrap();
    assert_eq!(queue.file_queue, vec!["/home/user/../x/one.mp3"]);
    assert_eq!(queue.dir_queue, vec!["/sdcard/Music"]);
}
