use confinuum::commands::{
    add, check, check_delete, check_remove, delete, init, list, new, protocol_of, push, redeploy,
    remove, repo_relative, update, update_runs, EntryCommand, InitPlan, Outcome, Step, UrlScheme,
};
use confinuum::config::{ConfigEntry, ConfinuumConfig, GitProtocol, PathKind, SignatureSource};
use confinuum::error::ErrorKind;
use confinuum::git::MergeAnalysis;
use confinuum::ingest::{Candidate, Found};
use confinuum::path::FilePath;
use confinuum::show::{show, MockDirEntry, TreeRow};

fn path(p: &str) -> FilePath {
    FilePath::parse(p)
}

fn file(p: &str) -> Candidate {
    Candidate { path: path(p), found: Found::File }
}

fn up_to_date() -> MergeAnalysis {
    MergeAnalysis { normal: false, up_to_date: true, fast_forward: false, unborn: false }
}

fn behind() -> MergeAnalysis {
    MergeAnalysis { normal: false, up_to_date: false, fast_forward: true, unborn: false }
}

fn config() -> ConfinuumConfig {
    let mut c = ConfinuumConfig::init(GitProtocol::Ssh, SignatureSource::Github);
    let mut nvim = ConfigEntry::new("nvim".to_string());
    nvim.set_target_dir(path("/home/u/.config/nvim"));
    nvim.add_file(path("init.lua"));
    nvim.add_file(path("lua/a.lua"));
    c.insert(nvim);
    c.insert(ConfigEntry::new("zsh".to_string()));
    c
}

fn describe(step: &Step) -> String {
    match step {
        Step::Copy { from, to } => format!("copy {} {}", from.to_string(), to.to_string()),
        Step::Restore { from, to } => format!("restore {} {}", from.to_string(), to.to_string()),
        Step::Remove(p) => format!("remove {}", p.to_string()),
        Step::RemoveTree(p) => format!("remove-tree {}", p.to_string()),
        Step::SaveConfig => "save".to_string(),
        Step::Commit(m) => format!("commit {}", m),
        Step::Undeploy(n) => format!("undeploy {:?}", n),
        Step::Deploy(n) => format!("deploy {:?}", n),
        Step::Sync => "sync".to_string(),
        Step::Push => "push".to_string(),
    }
}

fn steps(o: &Outcome) -> Vec<String> {
    o.steps.iter().map(describe).collect()
}

fn files_of(c: &ConfinuumConfig, name: &str) -> Vec<String> {
    let e = c.get(name).unwrap();
    let mut out: Vec<String> = (0..e.file_count()).map(|i| e.file(i).to_string()).collect();
    out.sort();
    out
}

fn snapshot(c: &ConfinuumConfig) -> Vec<(String, Option<String>, Vec<String>)> {
    (0..c.len())
        .map(|i| {
            let e = c.entry(i);
            (
                e.name().clone(),
                e.target_dir().map(|d| d.to_string()),
                (0..e.file_count()).map(|j| e.file(j).to_string()).collect(),
            )
        })
        .collect()
}

#[test]
fn add_takes_files_in_and_plans_the_commit() {
    let mut c = config();
    let o = add(&mut c, "nvim", &vec![file("/home/u/.config/nvim/lua/b.lua")], &path("/cfg"), up_to_date(), true);
    assert!(o.failure.is_none());
    assert_eq!(
        steps(&o),
        vec![
            "copy /home/u/.config/nvim/lua/b.lua /cfg/nvim/lua/b.lua",
            "save",
            "commit Added 1 files to `nvim`\n\nNew files:\nlua/b.lua",
            "deploy Some(\"nvim\")",
            "push",
        ]
    );
    assert_eq!(files_of(&c, "nvim"), vec!["init.lua", "lua/a.lua", "lua/b.lua"]);
    assert_eq!(c.get("nvim").unwrap().target_dir().unwrap().to_string(), "/home/u/.config/nvim");
}

#[test]
fn add_counts_in_decimal() {
    let mut c = config();
    let files: Vec<Candidate> = (0..12).map(|i| file(&format!("/home/u/.config/nvim/f{}", i))).collect();
    let o = add(&mut c, "nvim", &files, &path("/cfg"), up_to_date(), false);
    assert!(o.failure.is_none());
    assert_eq!(o.steps.len(), 15);
    match &o.steps[13] {
        Step::Commit(m) => assert!(m.starts_with("Added 12 files to `nvim`\n\nNew files:\nf0\nf1\n")),
        other => panic!("not a commit: {:?}", other),
    }
    assert_eq!(describe(&o.steps[14]), "deploy Some(\"nvim\")");
}

#[test]
fn add_is_refused_when_the_remote_has_changes() {
    let mut c = config();
    let before = snapshot(&c);
    let o = add(&mut c, "nvim", &vec![file("/home/u/.config/nvim/lua/b.lua")], &path("/cfg"), behind(), false);
    let f = o.failure.unwrap();
    assert_eq!(f.kind(), ErrorKind::RemoteDivergence);
    assert_eq!(f.message(), "Changes found on remote. Please pull them before adding files.");
    assert!(o.steps.is_empty());
    assert_eq!(snapshot(&c), before);
}

#[test]
fn add_needs_the_entry() {
    let mut c = config();
    let o = add(&mut c, "tmux", &vec![file("/home/u/.tmux.conf")], &path("/cfg"), up_to_date(), false);
    let f = o.failure.unwrap();
    assert_eq!(f.kind(), ErrorKind::EntryNotFound);
    assert_eq!(f.subject, "tmux");
    assert_eq!(f.message(), "Entry named tmux does not exist! Use the `new` subcommand to create it.");
    assert!(o.steps.is_empty());
}

#[test]
fn add_that_fails_keeps_the_configuration() {
    let mut c = config();
    let before = snapshot(&c);
    let gone = Candidate { path: path("/home/u/.config/nvim/gone"), found: Found::Missing };
    let o = add(&mut c, "nvim", &vec![file("/home/u/.config/nvim/x"), gone], &path("/cfg"), up_to_date(), true);
    assert_eq!(o.failure.as_ref().unwrap().kind(), ErrorKind::FileNotFound);
    assert_eq!(steps(&o), vec!["copy /home/u/.config/nvim/x /cfg/nvim/x"]);
    assert_eq!(snapshot(&c), before);
}

#[test]
fn new_creates_the_entry_with_files() {
    let mut c = config();
    let files = vec![file("/home/u/.tmux.conf")];
    let o = new(&mut c, "tmux", Some(&files), &path("/cfg"), up_to_date(), false);
    assert!(o.failure.is_none());
    assert_eq!(
        steps(&o),
        vec![
            "copy /home/u/.tmux.conf /cfg/tmux/.tmux.conf",
            "save",
            "commit Added configs for `tmux` with 1 files\n\nNew files:\n.tmux.conf",
            "deploy Some(\"tmux\")",
        ]
    );
    assert_eq!(c.len(), 3);
    assert_eq!(c.get("tmux").unwrap().target_dir().unwrap().to_string(), "/home/u");
    assert_eq!(files_of(&c, "tmux"), vec![".tmux.conf"]);
}

#[test]
fn new_without_files_creates_the_empty_entry() {
    let mut c = config();
    let o = new(&mut c, "tmux", None, &path("/cfg"), up_to_date(), true);
    assert!(o.failure.is_none());
    assert!(o.files.is_empty());
    assert_eq!(steps(&o), vec!["save", "commit Added configs for `tmux`\n\nNew files:\n", "push"]);
    assert_eq!(c.len(), 3);
    assert_eq!(c.position("tmux"), Some(2));
    assert!(c.get("tmux").unwrap().target_dir().is_none());
    assert_eq!(c.get("tmux").unwrap().file_count(), 0);
    let o = new(&mut c, "fish", None, &path("/cfg"), up_to_date(), false);
    assert_eq!(steps(&o), vec!["save", "commit Added configs for `fish`\n\nNew files:\n"]);
    let o = new(&mut c, "fish", None, &path("/cfg"), up_to_date(), false);
    assert_eq!(o.failure.unwrap().kind(), ErrorKind::EntryAlreadyExists);
    let o = new(&mut c, "bash", None, &path("/cfg"), behind(), false);
    assert_eq!(o.failure.unwrap().kind(), ErrorKind::RemoteDivergence);
    assert_eq!(c.len(), 4);
}

#[test]
fn new_with_an_empty_list_of_files_finds_no_base() {
    let mut c = config();
    let before = snapshot(&c);
    let o = new(&mut c, "tmux", Some(&Vec::new()), &path("/cfg"), up_to_date(), false);
    let f = o.failure.unwrap();
    assert_eq!(f.kind(), ErrorKind::InvalidPath);
    assert_eq!(f.message(), "Could not find common base path");
    assert!(o.steps.is_empty());
    assert_eq!(snapshot(&c), before);
}

#[test]
fn new_is_refused_for_a_taken_name_or_a_changed_remote() {
    let mut c = config();
    let before = snapshot(&c);
    let files = vec![file("/home/u/.zshrc")];
    let o = new(&mut c, "zsh", Some(&files), &path("/cfg"), up_to_date(), false);
    let f = o.failure.unwrap();
    assert_eq!(f.kind(), ErrorKind::EntryAlreadyExists);
    assert_eq!(f.subject, "zsh");
    assert_eq!(
        f.message(),
        "Entry named zsh already exists! Use the `add` and `remove` subcommands to add or remove files from it."
    );
    assert!(o.steps.is_empty());
    let o = new(&mut c, "tmux", Some(&files), &path("/cfg"), behind(), false);
    assert_eq!(o.failure.unwrap().kind(), ErrorKind::RemoteDivergence);
    assert!(o.steps.is_empty());
    assert_eq!(snapshot(&c), before);
}

#[test]
fn delete_gives_files_back_and_drops_the_entry() {
    let mut c = config();
    let o = delete(&mut c, "nvim", &path("/cfg"), up_to_date(), true, false, true);
    assert!(o.failure.is_none());
    assert_eq!(
        steps(&o),
        vec![
            "restore /cfg/nvim/init.lua /home/u/.config/nvim/init.lua",
            "restore /cfg/nvim/lua/a.lua /home/u/.config/nvim/lua/a.lua",
            "remove-tree /cfg/nvim",
            "save",
            "commit Deleted entry `nvim`\n\nDeleted files:\ninit.lua\nlua/a.lua",
            "push",
        ]
    );
    assert!(!c.contains_key("nvim"));
    assert_eq!(c.len(), 1);
}

#[test]
fn delete_without_replacing_removes_the_links() {
    let mut c = config();
    let o = delete(&mut c, "nvim", &path("/cfg"), up_to_date(), true, true, false);
    assert_eq!(
        steps(&o)[..3],
        [
            "remove /home/u/.config/nvim/init.lua".to_string(),
            "remove /home/u/.config/nvim/lua/a.lua".to_string(),
            "remove-tree /cfg/nvim".to_string(),
        ]
    );
    assert_eq!(o.steps.len(), 5);
}

#[test]
fn delete_does_nothing_unless_allowed() {
    let mut c = config();
    let before = snapshot(&c);
    let o = delete(&mut c, "tmux", &path("/cfg"), up_to_date(), true, false, false);
    let f = o.failure.unwrap();
    assert_eq!(f.kind(), ErrorKind::EntryNotFound);
    assert_eq!(f.message(), "No entry named tmux");
    assert_eq!(check_delete(&c, "tmux").unwrap().message(), "No entry named tmux");
    assert!(check_delete(&c, "nvim").is_none());
    let o = delete(&mut c, "nvim", &path("/cfg"), behind(), true, false, false);
    let f = o.failure.unwrap();
    assert_eq!(f.kind(), ErrorKind::RemoteDivergence);
    assert_eq!(f.message(), "Changes found on remote. Please pull them before deleting files.");
    assert!(o.steps.is_empty());
    let o = delete(&mut c, "nvim", &path("/cfg"), up_to_date(), false, false, false);
    assert!(o.failure.is_none());
    assert!(o.steps.is_empty());
    assert_eq!(snapshot(&c), before);
}

#[test]
fn delete_of_files_without_a_base_fails() {
    let mut c = ConfinuumConfig::init(GitProtocol::Ssh, SignatureSource::Github);
    let mut odd = ConfigEntry::new("odd".to_string());
    odd.add_file(path("x"));
    c.insert(odd);
    let o = delete(&mut c, "odd", &path("/cfg"), up_to_date(), true, false, false);
    let f = o.failure.unwrap();
    assert_eq!(f.kind(), ErrorKind::InvalidPath);
    assert_eq!(f.subject, "odd");
    assert_eq!(
        f.message(),
        "Entry odd does not have a target directory, cannot restore files. Cancelling deletion."
    );
    assert!(c.contains_key("odd"));
    let mut c = config();
    let o = delete(&mut c, "zsh", &path("/cfg"), up_to_date(), true, false, false);
    assert!(o.failure.is_none());
    assert_eq!(steps(&o), vec!["remove-tree /cfg/zsh", "save", "commit Deleted entry `zsh`\n\nDeleted files:\n"]);
}

#[test]
fn remove_takes_files_out_between_undeploy_and_deploy() {
    let mut c = config();
    let o = remove(&mut c, "nvim", &vec![file("/cfg/nvim/lua/a.lua")], &path("/cfg"), up_to_date(), true, false, true);
    assert!(o.failure.is_none());
    assert_eq!(
        steps(&o),
        vec![
            "undeploy Some(\"nvim\")",
            "restore /cfg/nvim/lua/a.lua /home/u/.config/nvim/lua/a.lua",
            "remove /cfg/nvim/lua/a.lua",
            "save",
            "commit Deleted 1 files from `nvim`\n\nDeleted files:\nlua/a.lua",
            "push",
            "deploy Some(\"nvim\")",
        ]
    );
    assert_eq!(files_of(&c, "nvim"), vec!["init.lua"]);
    let mut c = config();
    let o = remove(&mut c, "nvim", &vec![file("/cfg/nvim/lua/a.lua")], &path("/cfg"), up_to_date(), true, true, false);
    assert_eq!(
        steps(&o),
        vec![
            "undeploy Some(\"nvim\")",
            "remove /cfg/nvim/lua/a.lua",
            "save",
            "commit Deleted 1 files from `nvim`\n\nDeleted files:\nlua/a.lua",
            "deploy Some(\"nvim\")",
        ]
    );
}

#[test]
fn remove_is_refused_in_order() {
    let mut c = config();
    let before = snapshot(&c);
    let good = || file("/cfg/nvim/init.lua");
    let refusal = |c: &mut ConfinuumConfig, name: &str, files: Vec<Candidate>, a: MergeAnalysis| {
        let o = remove(c, name, &files, &path("/cfg"), a, true, false, false);
        assert!(o.steps.is_empty());
        let f = o.failure.unwrap();
        (f.kind(), f.message())
    };
    let unresolved = || Candidate { path: path("nowhere"), found: Found::Unresolved };
    let missing = || Candidate { path: path("/cfg/nvim/gone"), found: Found::Missing };
    assert_eq!(
        refusal(&mut c, "tmux", vec![unresolved()], behind()),
        (ErrorKind::EntryNotFound, "No entry named tmux found".to_string())
    );
    assert_eq!(
        refusal(&mut c, "nvim", vec![missing(), unresolved()], behind()),
        (ErrorKind::InvalidPath, "Could not canonicalize nowhere".to_string())
    );
    assert_eq!(
        refusal(&mut c, "nvim", vec![file("/elsewhere/x"), missing()], behind()),
        (ErrorKind::FileNotFound, "File /cfg/nvim/gone does not exist".to_string())
    );
    assert_eq!(
        refusal(&mut c, "nvim", vec![good(), file("/elsewhere/x")], behind()),
        (ErrorKind::InvalidPath, "cannot strip prefix /cfg/nvim from /elsewhere/x".to_string())
    );
    assert_eq!(
        refusal(&mut c, "nvim", vec![good(), file("/cfg/nvim/other.lua")], behind()),
        (ErrorKind::FileNotFound, "File other.lua does not exist in entry nvim".to_string())
    );
    assert_eq!(
        refusal(&mut c, "nvim", vec![good()], behind()),
        (
            ErrorKind::RemoteDivergence,
            "Changes found on remote. Please pull them before deleting files.".to_string()
        )
    );
    let o = remove(&mut c, "nvim", &vec![good()], &path("/cfg"), up_to_date(), false, false, false);
    assert!(o.failure.is_none());
    assert!(o.steps.is_empty());
    assert_eq!(snapshot(&c), before);
}

#[test]
fn removal_is_checked_before_the_remote_is_looked_at() {
    let c = config();
    assert!(check_remove(&c, "nvim", &vec![file("/cfg/nvim/init.lua")], &path("/cfg")).is_none());
    assert!(check_remove(&c, "nvim", &Vec::new(), &path("/cfg")).is_none());
    let f = check_remove(&c, "tmux", &Vec::new(), &path("/cfg")).unwrap();
    assert_eq!(f.kind(), ErrorKind::EntryNotFound);
    let f = check_remove(&c, "nvim", &vec![file("/cfg/nvim/other.lua")], &path("/cfg")).unwrap();
    assert_eq!(f.kind(), ErrorKind::FileNotFound);
    assert_eq!(f.subject, "other.lua");
    assert_eq!(f.other, "nvim");
}

#[test]
fn after_a_failure_an_update_only_deploys() {
    for step in update() {
        assert!(update_runs(&step, false));
        assert_eq!(update_runs(&step, true), matches!(step, Step::Deploy(_)));
    }
    assert!(!update_runs(&Step::Push, true));
    assert!(!update_runs(&Step::SaveConfig, true));
}

#[test]
fn fixed_plans() {
    assert_eq!(redeploy().iter().map(describe).collect::<Vec<_>>(), vec!["undeploy None", "deploy None"]);
    assert_eq!(push().iter().map(describe).collect::<Vec<_>>(), vec!["push"]);
    assert_eq!(update().iter().map(describe).collect::<Vec<_>>(), vec!["undeploy None", "sync", "deploy None"]);
}

#[test]
fn list_tells_of_each_entry() {
    let rows = list(&config());
    assert_eq!(rows.len(), 2);
    assert_eq!(rows[0].name, "nvim");
    assert_eq!(rows[0].files, 2);
    assert_eq!(rows[0].text(), "nvim: 2 files\n\u{21B3} /home/u/.config/nvim");
    assert_eq!(rows[1].text(), "zsh: uninitialized");
}

#[test]
fn show_builds_the_tree_of_an_entry() {
    let mut c = config();
    add(&mut c, "nvim", &vec![file("/home/u/.config/nvim/lua/b.lua")], &path("/cfg"), up_to_date(), false);
    let tree = show(&c, "nvim").unwrap();
    assert_eq!(tree.name, "nvim in /home/u/.config/nvim");
    let mut rows: Vec<TreeRow> = Vec::new();
    tree.print_tree(0, false, &mut rows);
    let got: Vec<(usize, bool, bool, String)> =
        rows.iter().map(|r| (r.depth, r.last, r.leaf, r.name.clone())).collect();
    assert_eq!(
        got,
        vec![
            (0, false, false, "nvim in /home/u/.config/nvim".to_string()),
            (1, false, true, "init.lua".to_string()),
            (1, true, false, "lua".to_string()),
            (2, false, true, "a.lua".to_string()),
            (2, true, true, "b.lua".to_string()),
        ]
    );
    let text: Vec<String> = rows.iter().map(|r| r.text()).collect();
    assert_eq!(text[0], "nvim in /home/u/.config/nvim");
    assert_eq!(text[1], "\u{251C}\u{2500}\u{2500} \u{1F5CB} init.lua");
    assert_eq!(text[2], "\u{2514}\u{2500}\u{2500} \u{1F5C1}  lua");
    assert_eq!(text[3], "\u{2502}   \u{251C}\u{2500}\u{2500} \u{1F5CB} a.lua");
    assert_eq!(text[4], "\u{2502}   \u{2514}\u{2500}\u{2500} \u{1F5CB} b.lua");
    let deep = TreeRow { depth: 3, last: true, leaf: true, name: "x".to_string() };
    assert_eq!(deep.text(), "\u{2502}       \u{2514}\u{2500}\u{2500} \u{1F5CB} x");
    assert_eq!(show(&c, "zsh").unwrap().name, "zsh: uninitialized");
    let err = show(&c, "tmux").unwrap_err();
    assert_eq!(err.kind(), ErrorKind::EntryNotFound);
    assert_eq!(err.subject, "tmux");
    assert_eq!(err.message(), "No entry named tmux found");
}

#[test]
fn tree_entries_are_found_by_name() {
    let mut root = MockDirEntry::new_dir("root".to_string(), Vec::new());
    root.dir_add_entry(MockDirEntry::new_dir("a".to_string(), Vec::new()));
    root.dir_add_entry(MockDirEntry::new_dir("b".to_string(), Vec::new()));
    assert_eq!(root.dir_find_entry("b"), Some(1));
    assert_eq!(root.dir_find_entry("c"), None);
    root.build_tree(&path("a/x/y"), 1);
    assert_eq!(root.entries.len(), 3);
    assert_eq!(root.entries[2].name, "x");
    assert_eq!(root.entries[2].entries[0].name, "y");
    root.build_tree(&path("a/x/y"), 3);
    assert_eq!(root.entries.len(), 3);
}

#[test]
fn check_reports_what_changed() {
    let changed = vec![path("nvim/init.lua"), path("config.toml")];
    let r = check(&config(), behind(), &changed, Some("nvim")).unwrap();
    assert!(!r.up_to_date);
    assert!(r.changes.config_updated);
    assert_eq!(r.named, Some(true));
    assert_eq!(r.changes.entries.len(), 1);
    let r = check(&config(), up_to_date(), &changed, Some("zsh")).unwrap();
    assert!(r.up_to_date);
    assert_eq!(r.named, Some(false));
    let r = check(&config(), up_to_date(), &Vec::new(), None).unwrap();
    assert_eq!(r.named, None);
    assert!(!r.changes.config_updated);
    let err = check(&config(), behind(), &vec![path("tmux/tmux.conf")], None).unwrap_err();
    assert_eq!(err.kind(), ErrorKind::OrphanedFile);
    assert_eq!(err.subject, "tmux/tmux.conf");
}

#[test]
fn init_refuses_to_overwrite() {
    let err = init(PathKind::File, false, None).unwrap_err();
    assert_eq!(err.kind(), ErrorKind::ConfigExists);
    assert_eq!(err.message(), "Config file already exists. Use --force to overwrite.");
    assert_eq!(init(PathKind::Directory, true, None).unwrap_err().kind(), ErrorKind::ConfigCorrupt);
    assert!(matches!(init(PathKind::File, true, None), Ok(InitPlan::Create)));
    assert!(matches!(init(PathKind::Missing, false, None), Ok(InitPlan::Create)));
    match init(PathKind::Missing, false, Some("git@github.com:u/cfg.git".to_string())) {
        Ok(InitPlan::Clone(url)) => assert_eq!(url, "git@github.com:u/cfg.git"),
        other => panic!("not a clone: {:?}", other),
    }
}

#[test]
fn only_two_protocols_are_supported() {
    assert_eq!(protocol_of(UrlScheme::Https).unwrap(), GitProtocol::Https);
    assert_eq!(protocol_of(UrlScheme::Ssh).unwrap(), GitProtocol::Ssh);
    for scheme in [
        UrlScheme::File,
        UrlScheme::Ftp,
        UrlScheme::Ftps,
        UrlScheme::Git,
        UrlScheme::GitSsh,
        UrlScheme::Http,
        UrlScheme::Unspecified,
    ] {
        assert_eq!(protocol_of(scheme).unwrap_err().kind(), ErrorKind::UnsupportedProtocol);
    }
    assert_eq!(
        protocol_of(UrlScheme::GitSsh).unwrap_err().message(),
        "Git protocol git+ssh is not yet supported by Confinuum :/"
    );
    assert_eq!(
        protocol_of(UrlScheme::Http).unwrap_err().message(),
        "Git protocol http is not yet supported by Confinuum :/"
    );
}

#[test]
fn repository_paths_are_relative_to_the_configuration_directory() {
    let dir = path("/home/u/.config/confinuum");
    assert_eq!(repo_relative(&path("/home/u/.config/confinuum/config.toml"), &dir).unwrap().to_string(), "config.toml");
    assert_eq!(repo_relative(&path("/home/u/.config/confinuum/.gitignore"), &dir).unwrap().to_string(), ".gitignore");
    assert_eq!(repo_relative(&path("/home/u/.zshrc"), &dir).unwrap().to_string(), "../../.zshrc");
    assert_eq!(repo_relative(&dir, &dir).unwrap().len(), 0);
    assert_eq!(repo_relative(&path("/abs/x"), &path("rel")).unwrap().to_string(), "/abs/x");
    let err = repo_relative(&path("rel/x"), &path("/abs")).unwrap_err();
    assert_eq!(err.kind(), ErrorKind::InvalidPath);
    assert_eq!(err.message(), "Could not get relative path");
}

#[test]
fn commands_that_change_the_configuration() {
    let create = EntryCommand::Create { files: None, push: false };
    let delete = EntryCommand::Delete { no_confirm: false, no_replace_files: false, push: false };
    let quiet = EntryCommand::Delete { no_confirm: true, no_replace_files: false, push: false };
    let add = EntryCommand::AddFiles { files: vec![path("a")], push: true };
    let remove = EntryCommand::RemoveFiles { files: vec![], no_confirm: false, no_replace_files: true, push: false };
    assert!(create.mutates() && delete.mutates() && add.mutates() && remove.mutates());
    assert!(!EntryCommand::Show.mutates());
    assert!(!EntryCommand::Check { print_diff: true }.mutates());
    assert!(delete.needs_confirmation());
    assert!(remove.needs_confirmation());
    assert!(!quiet.needs_confirmation());
    assert!(!create.needs_confirmation());
    assert!(!add.needs_confirmation());
}
