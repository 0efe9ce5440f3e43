use adb_sync_tool::cli::queue::Queue;
use adb_sync_tool::cli::scan::{Entry, FileStat};
use adb_sync_tool::cli::shell::quote;
use adb_sync_tool::cli::writer::{progress_label, Plan, WriteAction, WriteEvent, WriteState};
use adb_sync_tool::cli::{pull, push};
use adb_sync_tool::config::ConfigFile;
use std::collections::BTreeMap;
use std::collections::BTreeSet;

const LOCAL: &str = "/home/user/Music";

fn config() -> ConfigFile {
    ConfigFile {
        device_name: None,
        local_dir: String::from("Music"),
        remote_dir: String::from("/sdcard/Music"),
        allow_hidden: false,
    }
}

fn strings(list: &[&str]) -> Vec<String> {
    list.iter().map(|s| String::from(*s)).collect()
}

fn queue(dirs: &[&str], files: &[&str], dels: &[&str], add: u64) -> Queue {
    Queue {
        dir_queue: strings(dirs),
        file_queue: strings(files),
        del_queue: strings(dels),
        add,
        change: files.len() as u64 - add,
        del: dels.len() as u64,
        total_size: 0,
    }
}

/// What the two sides hold: the times of the files, and the directories with
/// nothing in them.
struct Sides {
    source: BTreeMap<String, u64>,
    target: BTreeMap<String, u64>,
    vacant: BTreeSet<String>,
}

fn times(list: &[(&str, u64)]) -> BTreeMap<String, u64> {
    list.iter().map(|(path, time)| (String::from(*path), *time)).collect()
}

fn run(plan: &Plan, queue: Queue, sides: &mut Sides) -> Vec<String> {
    let mut log: Vec<String> = Vec::new();
    let mut state = WriteState::new(queue);
    let mut event = WriteEvent::Ready;
    loop {
        assert!(!state.is_orphan(plan));
        let (next, action) = state.step(plan, event);
        state = next;
        event = WriteEvent::Ready;
        match action {
            WriteAction::StartDeletions(n) => log.push(format!("delete {}", n)),
            WriteAction::Probe(path) => {
                log.push(format!("look {}", path));
                event = WriteEvent::Vacant(sides.vacant.contains(&path));
            }
            WriteAction::Remove { path, command } => {
                assert_eq!(command, format!("rm -r {}", quote(&path)));
                log.push(command);
            }
            WriteAction::StartDirectories(n) => log.push(format!("directories {}", n)),
            WriteAction::MakeDir { path, command } => {
                assert_eq!(command, format!("mkdir -p \"{}\"", path));
                log.push(command);
            }
            WriteAction::AskTimes { source, target } => {
                event = WriteEvent::Times {
                    source: *sides.source.get(&source).unwrap_or(&0),
                    target: *sides.target.get(&target).unwrap_or(&0),
                };
            }
            WriteAction::Copy { source, target, label, message } => {
                log.push(format!("{} {}: {} -> {}", label, message, source, target));
                let time = sides.source[&source];
                sides.target.insert(target, time);
            }
            WriteAction::Finish => {
                log.push(String::from("done"));
                return log;
            }
            WriteAction::Fail(_) => {
                log.push(String::from("failed"));
                return log;
            }
        }
    }
}

#[test]
fn a_pull_is_carried_out_in_order() {
    let plan = pull::plan(&config(), LOCAL, true);
    let work = queue(
        &["/home/user/Music/a", "/home/user/Music/b"],
        &["/sdcard/Music/a/1", "/sdcard/Music/a/2", "/sdcard/Music/b/3"],
        &["/home/user/Music/x/y/old", "/home/user/Music/z"],
        2,
    );
    let mut sides = Sides {
        source: times(&[
            ("/sdcard/Music/a/1", 50),
            ("/sdcard/Music/a/2", 50),
            ("/sdcard/Music/b/3", 50),
        ]),
        target: times(&[("/home/user/Music/a/2", 40)]),
        vacant: strings(&["/home/user/Music/x/y", "/home/user/Music/x"]).into_iter().collect(),
    };
    let log = run(&plan, work, &mut sides);
    assert_eq!(
        log,
        vec![
            "delete 2",
            "rm -r /home/user/Music/x/y/old",
            "look /home/user/Music/x/y",
            "rm -r /home/user/Music/x/y",
            "look /home/user/Music/x",
            "rm -r /home/user/Music/x",
            "look /home/user/Music",
            "rm -r /home/user/Music/z",
            "look /home/user/Music",
            "directories 2",
            "mkdir -p \"/home/user/Music/a\"",
            "mkdir -p \"/home/user/Music/b\"",
            "[1/3] Adding a/1: /sdcard/Music/a/1 -> /home/user/Music/a/1",
            "[2/3] Updating a/2: /sdcard/Music/a/2 -> /home/user/Music/a/2",
            "[3/3] Adding b/3: /sdcard/Music/b/3 -> /home/user/Music/b/3",
            "done",
        ]
    );
    assert_eq!(sides.target["/home/user/Music/a/2"], 50);
}

#[test]
fn a_push_looks_before_it_removes() {
    let plan = push::plan(&config(), LOCAL, true);
    let work = queue(
        &["/sdcard/Music/a"],
        &["/home/user/Music/a/1"],
        &["/sdcard/Music/x/old", "/sdcard/Music/full"],
        1,
    );
    let mut sides = Sides {
        source: times(&[("/home/user/Music/a/1", 50)]),
        target: times(&[]),
        vacant: strings(&["/sdcard/Music/x/old", "/sdcard/Music/x"]).into_iter().collect(),
    };
    let log = run(&plan, work, &mut sides);
    assert_eq!(
        log,
        vec![
            "delete 2",
            "look /sdcard/Music/x/old",
            "rm -r /sdcard/Music/x/old",
            "look /sdcard/Music/x",
            "rm -r /sdcard/Music/x",
            "look /sdcard/Music",
            "look /sdcard/Music/full",
            "directories 1",
            "mkdir -p \"/sdcard/Music/a\"",
            "[1/1] Adding a/1: /home/user/Music/a/1 -> /sdcard/Music/a/1",
            "done",
        ]
    );
}

#[test]
fn nothing_is_removed_without_leave() {
    let plan = push::plan(&config(), LOCAL, false);
    let work = queue(&[], &[], &["/sdcard/Music/old"], 0);
    let mut sides = Sides { source: times(&[]), target: times(&[]), vacant: BTreeSet::new() };
    assert_eq!(run(&plan, work, &mut sides), vec!["directories 0", "done"]);
}

#[test]
fn a_climb_ends_at_the_root() {
    let plan = push::plan(&config(), LOCAL, true);
    let work = queue(&[], &[], &["/old"], 0);
    let mut sides = Sides {
        source: times(&[]),
        target: times(&[]),
        vacant: strings(&["/old", "/"]).into_iter().collect(),
    };
    assert_eq!(
        run(&plan, work, &mut sides),
        vec!["delete 1", "look /old", "rm -r /old", "look /", "rm -r /", "directories 0", "done"]
    );
}

#[test]
fn a_file_that_is_no_longer_newer_is_passed_over() {
    let plan = push::plan(&config(), LOCAL, false);
    let work = queue(&[], &["/home/user/Music/1", "/home/user/Music/2"], &[], 1);
    let mut sides = Sides {
        source: times(&[("/home/user/Music/1", 50), ("/home/user/Music/2", 50)]),
        target: times(&[("/sdcard/Music/1", 50), ("/sdcard/Music/2", 49)]),
        vacant: BTreeSet::new(),
    };
    assert_eq!(
        run(&plan, work, &mut sides),
        vec![
            "directories 0",
            "[1/2] Updating 2: /home/user/Music/2 -> /sdcard/Music/2",
            "done"
        ]
    );
}

#[test]
fn late_times_are_compared_as_they_are() {
    let work = queue(&[], &["/sdcard/Music/1"], &[], 0);
    let mut sides = Sides {
        source: times(&[("/sdcard/Music/1", 50)]),
        target: times(&[("/home/user/Music/1", 0x1_0000_0000)]),
        vacant: BTreeSet::new(),
    };
    let log = run(&pull::plan(&config(), LOCAL, false), work, &mut sides);
    assert_eq!(log, vec!["directories 0", "done"]);
    let mut sides = Sides {
        source: times(&[("/home/user/Music/1", 50)]),
        target: times(&[("/sdcard/Music/1", 0x1_0000_0000)]),
        vacant: BTreeSet::new(),
    };
    let work = queue(&[], &["/home/user/Music/1"], &[], 0);
    let log = run(&push::plan(&config(), LOCAL, false), work, &mut sides);
    assert_eq!(log, vec!["directories 0", "done"]);
}

#[test]
fn a_file_with_a_space_in_its_name_is_removed_as_one() {
    let work = queue(&[], &[], &["/l/a b"], 0);
    let mut sides = Sides { source: times(&[]), target: times(&[]), vacant: BTreeSet::new() };
    assert_eq!(
        run(&pull::plan(&config(), "/l", true), work, &mut sides),
        vec!["delete 1", "rm -r '/l/a b'", "look /l", "directories 0", "done"]
    );
}

#[test]
fn a_finished_run_announces_what_the_queue_counts() {
    let stat = |mod_time: u64| FileStat { mod_time, size: 1 };
    let entries = vec![
        Entry { path: String::from("/sdcard/Music/1"), source: stat(5), target: stat(0) },
        Entry { path: String::from("/sdcard/Music/2"), source: stat(5), target: stat(4) },
        Entry { path: String::from("/sdcard/Music/3"), source: stat(5), target: stat(5) },
        Entry { path: String::from("/sdcard/Music/4"), source: stat(1), target: stat(0) },
    ];
    let work =
        pull::fetch_changes(&config(), LOCAL, false, false, &entries, "", &vec![]).unwrap();
    let (add, change) = (work.add, work.change);
    let mut sides = Sides {
        source: times(&[
            ("/sdcard/Music/1", 5),
            ("/sdcard/Music/2", 5),
            ("/sdcard/Music/3", 5),
            ("/sdcard/Music/4", 1),
        ]),
        target: times(&[("/home/user/Music/2", 4), ("/home/user/Music/3", 5)]),
        vacant: BTreeSet::new(),
    };
    let log = run(&pull::plan(&config(), LOCAL, false), work, &mut sides);
    let said = |word: &str| log.iter().filter(|line| line.contains(word)).count() as u64;
    assert_eq!((said("Adding "), said("Updating ")), (add, change));
    assert_eq!((add, change), (2, 1));
    assert!(log.contains(&String::from(
        "[3/3] Adding 4: /sdcard/Music/4 -> /home/user/Music/4"
    )));
}

#[test]
fn a_file_from_elsewhere_ends_the_run() {
    let plan = push::plan(&config(), LOCAL, false);
    let work = queue(&[], &["/home/user/Music/1", "/home/other/2"], &[], 2);
    let mut sides = Sides {
        source: times(&[("/home/user/Music/1", 50)]),
        target: times(&[]),
        vacant: BTreeSet::new(),
    };
    assert_eq!(
        run(&plan, work, &mut sides),
        vec![
            "directories 0",
            "[1/2] Adding 1: /home/user/Music/1 -> /sdcard/Music/1",
            "failed"
        ]
    );
}

#[test]
fn a_removed_path_without_a_parent_is_an_orphan() {
    let plan = pull::plan(&config(), LOCAL, true);
    let state = WriteState::new(queue(&[], &[], &["/"], 0));
    assert!(!state.is_orphan(&plan));
    let (state, _) = state.step(&plan, WriteEvent::Ready);
    let (state, action) = state.step(&plan, WriteEvent::Ready);
    assert!(matches!(action, WriteAction::Remove { .. }));
    assert!(state.is_orphan(&plan));
    assert!(!state.is_orphan(&push::plan(&config(), LOCAL, true)));
}

#[test]
fn the_two_directions_step_by_their_own_plans() {
    let work = || queue(&["/d"], &[], &["/t/old"], 0);
    let (state, action) =
        pull::write_changes(WriteState::new(work()), WriteEvent::Ready, &config(), LOCAL, true);
    assert!(matches!(action, WriteAction::StartDeletions(1)));
    let (_, action) = pull::write_changes(state, WriteEvent::Ready, &config(), LOCAL, true);
    assert!(matches!(action, WriteAction::Remove { path, .. } if path == "/t/old"));
    let (state, _) =
        push::write_changes(WriteState::new(work()), WriteEvent::Ready, &config(), LOCAL, true);
    let (_, action) = push::write_changes(state, WriteEvent::Ready, &config(), LOCAL, true);
    assert!(matches!(action, WriteAction::Probe(path) if path == "/t/old"));
    let (_, action) =
        push::write_changes(WriteState::new(work()), WriteEvent::Ready, &config(), LOCAL, false);
    assert!(matches!(action, WriteAction::StartDirectories(1)));
}

#[test]
fn the_label_shows_the_place_and_the_total() {
    assert_eq!(progress_label(1, 12), "[1/12]");
    assert_eq!(progress_label(0, 0), "[0/0]");
}
