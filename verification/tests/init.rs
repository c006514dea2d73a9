use just::search::{default_justfile, init_path, search_justfile, Directory};

const EXPECTED: &str = "default:\n\techo 'Hello, world!'\n";

fn dir(path: &str, entries: &[&str]) -> Directory {
    Directory {
        path: path.to_owned(),
        entries: entries.iter().map(|e| (*e).to_owned()).collect(),
    }
}

#[test]
fn current_dir() {
    // an empty directory with no marker anywhere: init writes right there
    let dirs = vec![dir("/tmp/t", &[])];
    assert_eq!(init_path(&dirs).unwrap(), "/tmp/t/justfile");
    assert_eq!(default_justfile(), EXPECTED);
}

#[test]
fn justfile_already_exists() {
    // a second init in the same place fails
    let fresh = vec![dir("/tmp/t", &[])];
    assert_eq!(init_path(&fresh).unwrap(), "/tmp/t/justfile");
    let taken = vec![dir("/tmp/t", &["justfile"])];
    assert_eq!(
        init_path(&taken).unwrap_err(),
        "Justfile `/tmp/t/justfile` already exists"
    );
}

#[test]
fn invocation_directory() {
    // the invocation directory itself carries the marker
    let dirs = vec![dir("/tmp/t", &[".git"])];
    assert_eq!(init_path(&dirs).unwrap(), "/tmp/t/justfile");
    assert_eq!(default_justfile(), EXPECTED);
}

#[test]
fn parent_dir() {
    // invoked from `sub`: the marker above pulls init up to the parent
    let dirs = vec![dir("/tmp/t/sub", &[]), dir("/tmp/t", &[".git", "sub"])];
    assert_eq!(init_path(&dirs).unwrap(), "/tmp/t/justfile");
    assert_eq!(default_justfile(), EXPECTED);
}

#[test]
fn alternate_marker() {
    let dirs = vec![dir("/tmp/t", &["_darcs"])];
    assert_eq!(init_path(&dirs).unwrap(), "/tmp/t/justfile");
    assert_eq!(default_justfile(), EXPECTED);
}

#[test]
fn search_directory() {
    // `sub/` named on the command line: the search starts inside it
    let dirs = vec![dir("/tmp/t/sub", &[".git"])];
    assert_eq!(init_path(&dirs).unwrap(), "/tmp/t/sub/justfile");
    assert_eq!(default_justfile(), EXPECTED);
}

#[test]
fn justfile() {
    // a buildfile in the parent is found from `sub`, across the marker-free
    // directories below it
    let dirs = vec![
        dir("/tmp/t/sub", &[]),
        dir("/tmp/t", &["justfile", "sub"]),
    ];
    assert_eq!(search_justfile(&dirs).unwrap(), "/tmp/t/justfile");
}

#[test]
fn justfile_and_working_directory() {
    // the search stops at a marker and at the root
    let marker_first = vec![
        dir("/tmp/t/sub", &[".git"]),
        dir("/tmp/t", &["justfile", "sub"]),
    ];
    assert_eq!(search_justfile(&marker_first).unwrap_err(), "No justfile found");
    let none: Vec<Directory> = vec![dir("/tmp/t", &[])];
    assert_eq!(search_justfile(&none).unwrap_err(), "No justfile found");
    // a buildfile beside the marker still wins, whatever the case of its name
    let beside = vec![dir("/tmp/t/sub", &[".git", "Justfile"])];
    assert_eq!(search_justfile(&beside).unwrap(), "/tmp/t/sub/Justfile");
}
