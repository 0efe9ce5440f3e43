use adb_sync_tool::path::{file_name, join, parent, same_path, strip_prefix, StripPrefixError};
use std::path::{Path, PathBuf};

fn sample_paths() -> Vec<String> {
    let mut paths: Vec<String> = vec![String::new()];
    let mut last: Vec<String> = vec![String::new()];
    for _ in 0..5 {
        let mut next: Vec<String> = Vec::new();
        for path in &last {
            for c in ['/', '.', 'a'] {
                let mut longer = path.clone();
                longer.push(c);
                next.push(longer);
            }
        }
        paths.extend(next.iter().cloned());
        last = next;
    }
    for path in [
        "/sdcard/Music/a.mp3",
        "/sdcard//Music/./a.mp3",
        "/sdcard/Music/",
        "sdcard/Müsik/a b.mp3",
        "/home/user/Music/.thumbs/x",
        "/home/user/../x",
        "./a/b/",
        "././a",
        "../a",
        "/../a/..",
    ] {
        paths.push(String::from(path));
    }
    paths
}

fn text(path: &Path) -> String {
    String::from(path.to_str().unwrap())
}

#[test]
fn parents_are_those_of_std() {
    for path in sample_paths() {
        assert_eq!(parent(&path), Path::new(&path).parent().map(text), "{:?}", path);
    }
}

#[test]
fn file_names_are_those_of_std() {
    for path in sample_paths() {
        let expected = Path::new(&path)
            .file_name()
            .map(|name| String::from(name.to_str().unwrap()));
        assert_eq!(file_name(&path), expected, "{:?}", path);
    }
}

#[test]
fn comparison_is_that_of_std() {
    let paths = sample_paths();
    for a in &paths {
        for b in &paths {
            assert_eq!(same_path(a, b), Path::new(a) == Path::new(b), "{:?} {:?}", a, b);
        }
    }
}

#[test]
fn joins_are_those_of_std() {
    let paths = sample_paths();
    for a in &paths {
        for b in &paths {
            let mut expected = PathBuf::from(a);
            expected.push(b);
            assert_eq!(join(a, b), text(&expected), "{:?} {:?}", a, b);
        }
    }
}

#[test]
fn prefixes_are_stripped_as_by_std() {
    let paths = sample_paths();
    for a in &paths {
        for b in &paths {
            let expected = match Path::new(a).strip_prefix(b) {
                Ok(rel) => Ok(text(rel)),
                Err(_) => Err(StripPrefixError),
            };
            assert_eq!(strip_prefix(a, b), expected, "{:?} {:?}", a, b);
        }
    }
}

#[test]
fn a_file_is_found_below_its_directory() {
    assert_eq!(
        strip_prefix("/sdcard/Music/a/b.mp3", "/sdcard/Music"),
        Ok(String::from("a/b.mp3"))
    );
    assert_eq!(
        strip_prefix("/sdcard/Music2/b.mp3", "/sdcard/Music"),
        Err(StripPrefixError)
    );
}

#[test]
fn a_file_moves_there_and_back() {
    let rel = strip_prefix("/sdcard/Music/a/b.mp3", "/sdcard/Music/").unwrap();
    let here = join("/home/user/Music", &rel);
    assert_eq!(here, "/home/user/Music/a/b.mp3");
    let back = strip_prefix(&here, "/home/user/Music").unwrap();
    assert_eq!(join("/sdcard/Music", &back), "/sdcard/Music/a/b.mp3");
}

#[test]
fn the_parent_of_a_joined_file_is_its_directory() {
    assert_eq!(
        parent(&join("/home/user", "Music/a.mp3")),
        Some(String::from("/home/user/Music"))
    );
    assert_eq!(parent("/"), None);
    assert_eq!(parent(""), None);
}
