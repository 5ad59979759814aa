use confinuum::config::{ConfigEntry, ConfinuumConfig, GitProtocol, PathKind, SignatureSource};
use confinuum::error::ErrorKind;
use confinuum::ingest::{Candidate, Found, Ingestion};
use confinuum::path::FilePath;

fn path(p: &str) -> FilePath {
    FilePath::parse(p)
}

fn file(p: &str) -> Candidate {
    Candidate { path: path(p), found: Found::File }
}

fn dir(p: &str, entries: Vec<Candidate>) -> Candidate {
    Candidate { path: path(p), found: Found::Directory(entries) }
}

fn entry(name: &str) -> ConfigEntry {
    ConfigEntry::new(name.to_string())
}

fn files_of(e: &ConfigEntry) -> Vec<String> {
    let mut out: Vec<String> = (0..e.file_count()).map(|i| e.file(i).to_string()).collect();
    out.sort();
    out
}

fn copies(r: &Ingestion) -> Vec<(String, String)> {
    r.copies.iter().map(|c| (c.from.to_string(), c.to.to_string())).collect()
}

fn ingest(e: &mut ConfigEntry, files: Vec<Candidate>) -> Ingestion {
    ConfinuumConfig::add_files_recursive(e, &files, &path("/cfg"))
}

#[test]
fn base_is_the_common_ancestor_of_the_files() {
    let mut e = entry("nvim");
    let r = ingest(&mut e, vec![file("/home/u/A/x"), file("/home/u/A/y/z")]);
    assert!(r.failure.is_none());
    assert_eq!(e.target_dir().unwrap().to_string(), "/home/u/A");
    assert_eq!(files_of(&e), vec!["x", "y/z"]);
    assert_eq!(
        copies(&r),
        vec![
            ("/home/u/A/x".to_string(), "/cfg/nvim/x".to_string()),
            ("/home/u/A/y/z".to_string(), "/cfg/nvim/y/z".to_string()),
        ]
    );
    let added: Vec<String> = r.added.iter().map(|p| p.to_string()).collect();
    assert_eq!(added, vec!["x", "y/z"]);
}

#[test]
fn base_of_a_single_file_is_its_directory() {
    let mut e = entry("proj");
    let r = ingest(&mut e, vec![file("/home/u/proj/a")]);
    assert!(r.failure.is_none());
    assert_eq!(e.target_dir().unwrap().to_string(), "/home/u/proj");
    assert_eq!(files_of(&e), vec!["a"]);
}

#[test]
fn base_is_stable_under_growth() {
    let mut e = entry("proj");
    let first = ingest(&mut e, vec![file("/home/u/proj/a")]);
    assert!(first.failure.is_none());
    let second = ingest(&mut e, vec![file("/home/u/proj/sub/b")]);
    assert!(second.failure.is_none());
    assert_eq!(e.target_dir().unwrap().to_string(), "/home/u/proj");
    assert_eq!(files_of(&e), vec!["a", "sub/b"]);
    assert_eq!(copies(&second), vec![("/home/u/proj/sub/b".to_string(), "/cfg/proj/sub/b".to_string())]);
}

#[test]
fn base_moves_up_and_old_paths_are_rewritten() {
    let mut e = entry("proj");
    assert!(ingest(&mut e, vec![file("/home/u/proj/sub/b")]).failure.is_none());
    assert_eq!(e.target_dir().unwrap().to_string(), "/home/u/proj/sub");
    assert_eq!(files_of(&e), vec!["b"]);
    assert!(ingest(&mut e, vec![file("/home/u/proj/a")]).failure.is_none());
    assert_eq!(e.target_dir().unwrap().to_string(), "/home/u/proj");
    assert_eq!(files_of(&e), vec!["a", "sub/b"]);
}

#[test]
fn base_moves_down_and_old_paths_are_rewritten() {
    let mut e = entry("proj");
    e.set_target_dir(path("/home/u"));
    assert!(e.add_file(path("proj/a")));
    assert!(ingest(&mut e, vec![file("/home/u/proj/c")]).failure.is_none());
    assert_eq!(e.target_dir().unwrap().to_string(), "/home/u/proj");
    assert_eq!(files_of(&e), vec!["a", "c"]);
}

#[test]
fn directories_give_their_files_and_git_directories_are_skipped() {
    let mut e = entry("A");
    let tree = dir(
        "/home/u/A",
        vec![
            file("/home/u/A/x"),
            dir("/home/u/A/.git", vec![file("/home/u/A/.git/config")]),
            dir("/home/u/A/y", vec![file("/home/u/A/y/z")]),
        ],
    );
    let r = ingest(&mut e, vec![tree]);
    assert!(r.failure.is_none());
    assert_eq!(e.target_dir().unwrap().to_string(), "/home/u/A");
    assert_eq!(files_of(&e), vec!["x", "y/z"]);
    assert_eq!(r.copies.len(), 2);
}

#[test]
fn entries_called_git_are_passed_over_whatever_they_are() {
    let mut e = entry("A");
    let tree = dir(
        "/home/u/A",
        vec![
            file("/home/u/A/.git"),
            dir(
                "/home/u/A/sub",
                vec![
                    Candidate { path: path("/home/u/A/sub/.git"), found: Found::Unresolved },
                    file("/home/u/A/sub/y"),
                ],
            ),
        ],
    );
    let r = ingest(&mut e, vec![tree]);
    assert!(r.failure.is_none());
    assert_eq!(files_of(&e), vec!["sub/y"]);
    let mut e = entry("A");
    let r = ingest(&mut e, vec![dir("/home/u/.git", vec![file("/home/u/.git/config")])]);
    assert!(r.failure.is_none());
    assert!(r.copies.is_empty());
    assert_eq!(e.file_count(), 0);
}

#[test]
fn a_file_called_git_that_is_given_is_taken() {
    let mut e = entry("A");
    let r = ingest(&mut e, vec![file("/home/u/A/.git"), file("/home/u/A/x")]);
    assert!(r.failure.is_none());
    assert_eq!(files_of(&e), vec![".git", "x"]);
}

#[test]
fn unresolved_candidate_is_an_invalid_path_before_anything_is_copied() {
    let mut e = entry("A");
    let broken = Candidate { path: path("/home/u/A/broken"), found: Found::Unresolved };
    let r = ingest(&mut e, vec![file("/home/u/A/x"), broken]);
    let f = r.failure.as_ref().unwrap();
    assert_eq!(f.kind(), ErrorKind::InvalidPath);
    assert_eq!(f.subject, "/home/u/A/broken");
    assert_eq!(f.message(), "Failed to canonicalize: /home/u/A/broken");
    assert!(r.copies.is_empty());
    assert!(e.target_dir().is_none());
    assert_eq!(e.file_count(), 0);
}

#[test]
fn missing_candidate_is_file_not_found_and_keeps_earlier_copies() {
    let mut e = entry("A");
    let gone = Candidate { path: path("/home/u/A/gone"), found: Found::Missing };
    let r = ingest(&mut e, vec![file("/home/u/A/x"), gone, file("/home/u/A/y")]);
    let f = r.failure.as_ref().unwrap();
    assert_eq!(f.kind(), ErrorKind::FileNotFound);
    assert_eq!(f.subject, "/home/u/A/gone");
    assert_eq!(f.message(), "File does not exist: \"/home/u/A/gone\"");
    assert_eq!(copies(&r), vec![("/home/u/A/x".to_string(), "/cfg/A/x".to_string())]);
    assert!(r.added.is_empty());
    assert!(e.target_dir().is_none());
    assert_eq!(e.file_count(), 0);
}

#[test]
fn a_file_that_resolves_outside_the_base_is_an_invalid_path() {
    let mut e = entry("A");
    let tree = dir("/home/u/A", vec![file("/home/u/A/x"), file("/etc/passwd")]);
    let r = ingest(&mut e, vec![tree]);
    let f = r.failure.as_ref().unwrap();
    assert_eq!(f.kind(), ErrorKind::InvalidPath);
    assert_eq!(f.subject, "/etc/passwd");
    assert_eq!(f.message(), "Could not strip prefix /home/u/A from /etc/passwd");
    assert_eq!(r.copies.len(), 1);
    assert_eq!(e.file_count(), 0);
}

#[test]
fn candidates_without_an_absolute_base_are_invalid() {
    let mut e = entry("A");
    let r = ingest(&mut e, vec![file("a/x"), file("b/y")]);
    assert_eq!(r.failure.unwrap().kind(), ErrorKind::InvalidPath);
    let mut e = entry("A");
    let r = ingest(&mut e, vec![file("a/x"), file("a/y")]);
    assert_eq!(r.failure.unwrap().kind(), ErrorKind::InvalidPath);
    assert!(e.target_dir().is_none());
}

#[test]
fn no_candidates_and_no_files_have_no_base() {
    let mut e = entry("A");
    let r = ingest(&mut e, vec![]);
    let f = r.failure.unwrap();
    assert_eq!(f.kind(), ErrorKind::InvalidPath);
    assert_eq!(f.message(), "Could not find common base path");
}

#[test]
fn the_same_file_twice_is_added_once() {
    let mut e = entry("A");
    let r = ingest(&mut e, vec![file("/home/u/A/x"), file("/home/u/A/x")]);
    assert!(r.failure.is_none());
    assert_eq!(r.copies.len(), 2);
    assert_eq!(r.added.len(), 1);
    assert_eq!(files_of(&e), vec!["x"]);
}

#[test]
fn entries_track_no_file_twice() {
    let mut e = entry("A");
    assert!(e.add_file(path("x")));
    assert!(!e.add_file(path("x")));
    assert!(e.has_file(&path("x")));
    assert!(e.remove_file(&path("x")));
    assert!(!e.remove_file(&path("x")));
    assert_eq!(e.file_count(), 0);
    let d = e.duplicate();
    assert_eq!(d.name(), "A");
}

#[test]
fn configuration_holds_no_name_twice() {
    let mut c = ConfinuumConfig::init(GitProtocol::Ssh, SignatureSource::GitConfig);
    assert_eq!(c.settings().git_protocol, GitProtocol::Ssh);
    assert!(c.insert(entry("a")));
    assert!(!c.insert(entry("a")));
    assert!(c.insert(entry("b")));
    assert_eq!(c.len(), 2);
    assert_eq!(c.position("b"), Some(1));
    assert!(c.get("c").is_none());
    assert_eq!(c.remove("a").unwrap().name(), "a");
    assert!(c.remove("a").is_none());
    assert!(!c.contains_key("a"));
    c.replace(0, entry("b"));
    assert_eq!(c.entry(0).name(), "b");
}

#[test]
fn configuration_paths_lie_below_home() {
    let home = path("/home/u");
    assert_eq!(ConfinuumConfig::get_dir(&home).to_string(), "/home/u/.config/confinuum");
    assert_eq!(ConfinuumConfig::get_path(&home).to_string(), "/home/u/.config/confinuum/config.toml");
}

#[test]
fn configuration_file_must_be_a_readable_file() {
    assert_eq!(ConfinuumConfig::file_exists(PathKind::File).unwrap(), true);
    assert_eq!(ConfinuumConfig::file_exists(PathKind::Missing).unwrap(), false);
    assert_eq!(ConfinuumConfig::file_exists(PathKind::Other).unwrap(), false);
    let err = ConfinuumConfig::file_exists(PathKind::Directory).unwrap_err();
    assert_eq!(err.kind(), ErrorKind::ConfigCorrupt);
    assert_eq!(err.message(), "Config file is a directory. Please remove it and try again.");
    assert!(ConfinuumConfig::load(PathKind::File, true).is_ok());
    let err = ConfinuumConfig::load(PathKind::File, false).unwrap_err();
    assert_eq!(err.kind(), ErrorKind::ConfigCorrupt);
    assert_eq!(err.message(), "Could not parse confinuum config");
    let err = ConfinuumConfig::load(PathKind::Missing, true).unwrap_err();
    assert_eq!(err.kind(), ErrorKind::ConfigMissing);
    assert_eq!(err.message(), "Config file does not exist. Run `confinuum init` to create one.");
    assert_eq!(ConfinuumConfig::load(PathKind::Other, false).unwrap_err().kind(), ErrorKind::ConfigMissing);
    assert_eq!(ConfinuumConfig::load(PathKind::Directory, true).unwrap_err().kind(), ErrorKind::ConfigCorrupt);
}

#[test]
fn the_order_of_the_candidates_does_not_matter() {
    let one = || dir("/home/u/A/y", vec![file("/home/u/A/y/z"), file("/home/u/A/y/w")]);
    let mut forth = entry("A");
    let r1 = ingest(&mut forth, vec![file("/home/u/A/x"), one(), file("/home/u/A/v")]);
    let mut back = entry("A");
    let r2 = ingest(&mut back, vec![file("/home/u/A/v"), one(), file("/home/u/A/x"), one()]);
    assert!(r1.failure.is_none() && r2.failure.is_none());
    assert_eq!(forth.target_dir().unwrap().to_string(), back.target_dir().unwrap().to_string());
    assert_eq!(files_of(&forth), files_of(&back));
    let mut a1: Vec<String> = r1.added.iter().map(|p| p.to_string()).collect();
    let mut a2: Vec<String> = r2.added.iter().map(|p| p.to_string()).collect();
    a1.sort();
    a2.sort();
    assert_eq!(a1, a2);
    assert_eq!(a1, vec!["v", "x", "y/w", "y/z"]);
}
