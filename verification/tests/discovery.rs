use loglens::discover::{
    collect_files_recursive, discover_files, is_gzip_file, is_log_file, survey, Found, Node, Probe,
    Survey,
};
use loglens::paths::{path_positions, same_path, LogPath, PathPart};

fn path(name: &str) -> LogPath {
    let mut parts = Vec::new();
    if name.starts_with('/') {
        parts.push(PathPart { rank: 1, text: Vec::new() });
    }
    for piece in name.split('/') {
        if piece.is_empty() || piece == "." {
            continue;
        }
        parts.push(PathPart { rank: 4, text: piece.as_bytes().to_vec() });
    }
    LogPath {
        name: name.to_string(),
        file_name: name.rsplit('/').next().unwrap_or("").to_string(),
        parts,
        handle: 0,
    }
}

fn file(name: &str) -> Node {
    Node::File { path: path(name) }
}

fn found(name: &str, is_file: bool) -> Found {
    Found { path: path(name), is_file }
}

fn names(files: &Vec<LogPath>) -> Vec<String> {
    files.iter().map(|f| f.name.clone()).collect()
}

#[test]
fn log_names() {
    for name in [
        "a.log", "a.json", "a.ndjson", "a.jsonl", "a.log.gz", "a.gz", "a.txt", "a.out", "a.err",
        "/var/log/A.LOG", "B.Txt",
    ] {
        assert!(is_log_file(name), "{}", name);
    }
    for name in ["a.rs", "log", "a.log.1", "", "a.logs", "gz"] {
        assert!(!is_log_file(name), "{}", name);
    }
}

#[test]
fn gzip_names_are_taken_as_written() {
    assert!(is_gzip_file("a.log.gz"));
    assert!(is_gzip_file(".gz"));
    assert!(!is_gzip_file("a.log.GZ"));
    assert!(!is_gzip_file("a.gz.log"));
}

#[test]
fn what_is_done_with_a_path() {
    assert_eq!(survey(true, false, true), Survey::TakeFile);
    assert_eq!(survey(true, true, false), Survey::TakeFile);
    assert_eq!(survey(false, true, true), Survey::ReadTree);
    assert_eq!(survey(false, true, false), Survey::ReadListing);
    assert_eq!(survey(false, false, true), Survey::TryPattern);
    assert_eq!(survey(false, false, false), Survey::TryPattern);
}

#[test]
fn trees_are_collected_in_order() {
    let nodes = vec![
        file("logs/b.log"),
        Node::Directory {
            path: path("logs/a"),
            entries: vec![file("logs/a/z.bin"), file("logs/a/c.log")],
        },
        Node::Other { path: path("logs/socket") },
        Node::Directory { path: path("logs/empty"), entries: Vec::new() },
    ];
    let mut files = vec![path("first")];
    collect_files_recursive(&nodes, &mut files);
    assert_eq!(names(&files), ["first", "logs/a/c.log", "logs/a/z.bin", "logs/b.log"]);
}

#[test]
fn listings_hold_log_files_only() {
    let probes = vec![Probe::Listing {
        entries: vec![
            found("d/b.log", true),
            found("d/a.txt", true),
            found("d/c.rs", true),
            found("d/sub.log", false),
        ],
    }];
    assert_eq!(names(&discover_files(&probes, &Vec::new())), ["d/a.txt", "d/b.log"]);
}

#[test]
fn patterns_hold_files_of_any_name() {
    let probes = vec![Probe::Matches {
        entries: vec![found("x.rs", true), found("dir", false), found("a.log", true)],
    }];
    assert_eq!(names(&discover_files(&probes, &Vec::new())), ["a.log", "x.rs"]);
}

#[test]
fn files_are_taken_whatever_their_name() {
    let probes = vec![Probe::File { path: path("README") }, Probe::Nothing];
    assert_eq!(names(&discover_files(&probes, &Vec::new())), ["README"]);
}

#[test]
fn files_are_sorted_by_component() {
    let probes = vec![
        Probe::File { path: path("a-b/x.log") },
        Probe::File { path: path("a/b.log") },
        Probe::File { path: path("b.log") },
        Probe::File { path: path("a.log") },
        Probe::File { path: path("/z.log") },
    ];
    assert_eq!(
        names(&discover_files(&probes, &Vec::new())),
        ["/z.log", "a/b.log", "a-b/x.log", "a.log", "b.log"]
    );
}

#[test]
fn a_file_named_twice_is_found_twice() {
    let probes = vec![
        Probe::File { path: path("a.log") },
        Probe::Tree { nodes: vec![file("a.log"), file("A.log")] },
    ];
    assert_eq!(names(&discover_files(&probes, &Vec::new())), ["A.log", "a.log", "a.log"]);
}

#[test]
fn exclusion_ignores_case_and_only_removes() {
    let probes = vec![
        Probe::File { path: path("logs/Access.log") },
        Probe::File { path: path("logs/error.log") },
        Probe::File { path: path("old/debug.log") },
    ];
    let all = discover_files(&probes, &Vec::new());
    let kept = discover_files(&probes, &vec!["ACCESS".to_string(), "Old/".to_string()]);
    assert_eq!(names(&all), ["logs/Access.log", "logs/error.log", "old/debug.log"]);
    assert_eq!(names(&kept), ["logs/error.log"]);
    let none = discover_files(&probes, &vec!["".to_string()]);
    assert!(none.is_empty());
}

#[test]
fn paths_are_compared_by_component() {
    assert!(same_path(&path("a/b"), &path("a/./b")));
    assert!(!same_path(&path("/a/b"), &path("a/b")));
    assert!(!same_path(&path("a/b"), &path("a/c")));
    let order = path_positions(&vec![path("b"), path("a/z"), path("a"), path("B")]);
    assert_eq!(order, [3, 2, 1, 0]);
}

#[test]
fn equal_paths_keep_their_order() {
    let order = path_positions(&vec![path("b"), path("a"), path("./b"), path("a/")]);
    assert_eq!(order, [1, 3, 0, 2]);
}

#[test]
fn the_order_of_the_paths_does_not_matter() {
    let probe = |name: &str| Probe::File { path: path(name) };
    let one = vec![probe("b"), probe("a"), probe("c/d")];
    let other = vec![probe("c/d"), probe("b"), probe("a")];
    let none = Vec::new();
    assert_eq!(names(&discover_files(&one, &none)), names(&discover_files(&other, &none)));
}
