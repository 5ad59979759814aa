use std::collections::HashMap;

use confinuum::config::{ConfigEntry, ConfinuumConfig, GitProtocol, SignatureSource};
use confinuum::deployment::{
    decide_link, decide_restore, decide_unlink, deploy, reconciliation, undeploy, Deployed, Event,
    FsAction, LinkDecision, LinkPair, Mode, Probe, Reconciler, Request, RestoreDecision,
};
use confinuum::commands::{update, Step};
use confinuum::error::ErrorKind;
use confinuum::git::{MergeAnalysis, SyncAction, SyncEvent, SyncState};
use confinuum::path::FilePath;

#[derive(Clone, Debug, PartialEq)]
enum Node {
    File(String),
    Link(String),
}

fn path(p: &str) -> FilePath {
    FilePath::parse(p)
}

fn config() -> ConfinuumConfig {
    let mut c = ConfinuumConfig::init(GitProtocol::Ssh, SignatureSource::Github);
    let mut nvim = ConfigEntry::new("nvim".to_string());
    nvim.set_target_dir(path("/home/u/.config/nvim"));
    nvim.add_file(path("init.lua"));
    nvim.add_file(path("lua/a.lua"));
    c.insert(nvim);
    let mut git = ConfigEntry::new("git".to_string());
    git.set_target_dir(path("/home/u"));
    git.add_file(path(".gitconfig"));
    c.insert(git);
    c.insert(ConfigEntry::new("empty".to_string()));
    c
}

fn storage() -> HashMap<String, Node> {
    let mut fs = HashMap::new();
    fs.insert("/cfg/nvim/init.lua".to_string(), Node::File("init".to_string()));
    fs.insert("/cfg/nvim/lua/a.lua".to_string(), Node::File("a".to_string()));
    fs.insert("/cfg/git/.gitconfig".to_string(), Node::File("gitconfig".to_string()));
    fs
}

fn probe(fs: &HashMap<String, Node>, pair: &LinkPair) -> Probe {
    let deployed = match fs.get(&pair.deployed.to_string()) {
        None => Deployed::Missing,
        Some(Node::Link(t)) => Deployed::Link(path(t)),
        Some(Node::File(_)) => Deployed::Other,
    };
    Probe { stored_exists: fs.contains_key(&pair.stored.to_string()), deployed }
}

fn perform(fs: &mut HashMap<String, Node>, pair: &LinkPair, action: FsAction) -> bool {
    let deployed = pair.deployed.to_string();
    let stored = pair.stored.to_string();
    match action {
        FsAction::Link => {
            if fs.contains_key(&deployed) {
                return false;
            }
            fs.insert(deployed, Node::Link(stored));
            true
        }
        FsAction::Relink => {
            fs.remove(&deployed);
            fs.insert(deployed, Node::Link(stored));
            true
        }
        FsAction::Unlink => fs.remove(&deployed).is_some(),
        FsAction::Restore | FsAction::Replace => {
            if action == FsAction::Replace {
                fs.remove(&deployed);
            }
            match fs.get(&stored).cloned() {
                Some(node) => {
                    fs.insert(deployed, node);
                    true
                }
                None => false,
            }
        }
    }
}

fn run(mut rec: Reconciler, fs: &mut HashMap<String, Node>, failing: Option<&str>) -> (Reconciler, usize) {
    let mut actions = 0;
    loop {
        match rec.request() {
            Request::Finished => return (rec, actions),
            Request::Probe(i) => {
                let found = probe(fs, rec.pair(i));
                rec.step(&Event::Found(found));
            }
            Request::Act(i, action) => {
                actions += 1;
                let pair = rec.pair(i);
                let linking = action == FsAction::Link || action == FsAction::Relink || action == FsAction::Unlink;
                let ok = if linking && failing == Some(pair.deployed.to_string().as_str()) {
                    false
                } else {
                    perform(fs, pair, action)
                };
                rec.step(&Event::Carried(ok));
            }
        }
    }
}

#[test]
fn reconciliation_lists_each_tracked_file_with_its_copy() {
    let pairs = reconciliation(&config(), &path("/cfg"), None).unwrap();
    let got: Vec<(String, String)> =
        pairs.iter().map(|p| (p.deployed.to_string(), p.stored.to_string())).collect();
    assert_eq!(
        got,
        vec![
            ("/home/u/.config/nvim/init.lua".to_string(), "/cfg/nvim/init.lua".to_string()),
            ("/home/u/.config/nvim/lua/a.lua".to_string(), "/cfg/nvim/lua/a.lua".to_string()),
            ("/home/u/.gitconfig".to_string(), "/cfg/git/.gitconfig".to_string()),
        ]
    );
    let only = reconciliation(&config(), &path("/cfg"), Some("git")).unwrap();
    assert_eq!(only.len(), 1);
    assert_eq!(only[0].deployed.to_string(), "/home/u/.gitconfig");
    assert!(reconciliation(&config(), &path("/cfg"), Some("empty")).unwrap().is_empty());
}

#[test]
fn a_filter_that_names_no_entry_is_an_error() {
    let err = reconciliation(&config(), &path("/cfg"), Some("zsh")).unwrap_err();
    assert_eq!(err.kind(), ErrorKind::EntryNotFound);
    assert_eq!(err.subject, "zsh");
    assert_eq!(err.message(), "No entry named zsh found");
    assert_eq!(deploy(&config(), &path("/cfg"), Some("zsh")).unwrap_err().kind(), ErrorKind::EntryNotFound);
    assert_eq!(undeploy(&config(), &path("/cfg"), Some("zsh")).unwrap_err().kind(), ErrorKind::EntryNotFound);
}

#[test]
fn deploy_twice_changes_nothing_the_second_time() {
    let mut fs = storage();
    let (first, actions) = run(deploy(&config(), &path("/cfg"), None).unwrap(), &mut fs, None);
    assert!(first.failure().is_none());
    assert_eq!(actions, 3);
    let after_first = fs.clone();
    let (second, actions) = run(deploy(&config(), &path("/cfg"), None).unwrap(), &mut fs, None);
    assert!(second.failure().is_none());
    assert_eq!(actions, 0);
    assert_eq!(fs, after_first);
}

#[test]
fn deploy_links_and_undeploy_removes_the_links() {
    let mut fs = storage();
    run(deploy(&config(), &path("/cfg"), Some("nvim")).unwrap(), &mut fs, None);
    assert_eq!(fs.get("/home/u/.config/nvim/init.lua"), Some(&Node::Link("/cfg/nvim/init.lua".to_string())));
    assert_eq!(fs.get("/home/u/.config/nvim/lua/a.lua"), Some(&Node::Link("/cfg/nvim/lua/a.lua".to_string())));
    assert!(!fs.contains_key("/home/u/.gitconfig"));
    let (rec, _) = run(undeploy(&config(), &path("/cfg"), None).unwrap(), &mut fs, None);
    assert!(rec.failure().is_none());
    assert!(!fs.contains_key("/home/u/.config/nvim/init.lua"));
    assert!(!fs.contains_key("/home/u/.config/nvim/lua/a.lua"));
    assert_eq!(fs, storage());
    let (_, actions) = run(undeploy(&config(), &path("/cfg"), None).unwrap(), &mut fs, None);
    assert_eq!(actions, 0);
}

#[test]
fn undeploy_leaves_what_is_not_its_own_link() {
    let mut fs = storage();
    fs.insert("/home/u/.gitconfig".to_string(), Node::File("mine".to_string()));
    fs.insert("/home/u/.config/nvim/init.lua".to_string(), Node::Link("/elsewhere".to_string()));
    let before = fs.clone();
    let (rec, actions) = run(undeploy(&config(), &path("/cfg"), None).unwrap(), &mut fs, None);
    assert!(rec.failure().is_none());
    assert_eq!(actions, 0);
    assert_eq!(fs, before);
}

#[test]
fn deploy_replaces_what_stands_in_the_way() {
    let mut fs = storage();
    fs.insert("/home/u/.gitconfig".to_string(), Node::File("old".to_string()));
    fs.insert("/home/u/.config/nvim/init.lua".to_string(), Node::Link("/elsewhere".to_string()));
    let (rec, _) = run(deploy(&config(), &path("/cfg"), None).unwrap(), &mut fs, None);
    assert!(rec.failure().is_none());
    assert_eq!(fs.get("/home/u/.gitconfig"), Some(&Node::Link("/cfg/git/.gitconfig".to_string())));
    assert_eq!(fs.get("/home/u/.config/nvim/init.lua"), Some(&Node::Link("/cfg/nvim/init.lua".to_string())));
}

#[test]
fn a_missing_copy_is_a_corrupt_state_and_earlier_files_are_restored() {
    let mut fs = storage();
    fs.remove("/cfg/git/.gitconfig");
    let (rec, _) = run(deploy(&config(), &path("/cfg"), None).unwrap(), &mut fs, None);
    let f = rec.failure().unwrap();
    assert_eq!(f.kind(), ErrorKind::CorruptState);
    assert_eq!(f.subject, "/cfg/git/.gitconfig");
    assert_eq!(f.message(), "File /cfg/git/.gitconfig does not exist in configs");
    assert_eq!(rec.unrestored(), 1);
    assert!(rec.is_finished());
    assert_eq!(fs.get("/home/u/.config/nvim/init.lua"), Some(&Node::File("init".to_string())));
    assert_eq!(fs.get("/home/u/.config/nvim/lua/a.lua"), Some(&Node::File("a".to_string())));
    assert!(!fs.contains_key("/home/u/.gitconfig"));
}

#[test]
fn a_failing_link_ends_the_deployment_and_restores_what_was_touched() {
    let mut fs = storage();
    let (rec, _) = run(
        deploy(&config(), &path("/cfg"), None).unwrap(),
        &mut fs,
        Some("/home/u/.config/nvim/lua/a.lua"),
    );
    let f = rec.failure().unwrap();
    assert_eq!(f.kind(), ErrorKind::Io);
    assert_eq!(f.subject, "/home/u/.config/nvim/lua/a.lua");
    assert_eq!(f.message(), "Operation failed on /home/u/.config/nvim/lua/a.lua");
    assert_eq!(rec.unrestored(), 0);
    assert_eq!(fs.get("/home/u/.config/nvim/init.lua"), Some(&Node::File("init".to_string())));
    assert_eq!(fs.get("/home/u/.config/nvim/lua/a.lua"), Some(&Node::File("a".to_string())));
    assert_eq!(fs.get("/home/u/.gitconfig"), Some(&Node::File("gitconfig".to_string())));
}

#[test]
fn undeploy_goes_on_after_a_failure() {
    let mut fs = storage();
    run(deploy(&config(), &path("/cfg"), None).unwrap(), &mut fs, None);
    let (rec, actions) = run(
        undeploy(&config(), &path("/cfg"), None).unwrap(),
        &mut fs,
        Some("/home/u/.config/nvim/init.lua"),
    );
    assert_eq!(actions, 3);
    assert_eq!(rec.unrestored(), 1);
    let f = rec.failure().unwrap();
    assert_eq!(f.kind(), ErrorKind::Io);
    assert_eq!(f.subject, "/home/u/.config/nvim/init.lua");
    assert!(fs.contains_key("/home/u/.config/nvim/init.lua"));
    assert!(!fs.contains_key("/home/u/.config/nvim/lua/a.lua"));
    assert!(!fs.contains_key("/home/u/.gitconfig"));
}

#[test]
fn an_event_that_was_not_asked_for_changes_nothing() {
    let pairs = reconciliation(&config(), &path("/cfg"), Some("git")).unwrap();
    let mut rec = Reconciler::new(Mode::Deploy, pairs);
    assert_eq!(rec.len(), 1);
    assert_eq!(rec.request(), Request::Probe(0));
    rec.step(&Event::Carried(true));
    assert_eq!(rec.request(), Request::Probe(0));
    rec.step(&Event::Found(Probe { stored_exists: true, deployed: Deployed::Missing }));
    assert_eq!(rec.request(), Request::Act(0, FsAction::Link));
    rec.step(&Event::Found(Probe { stored_exists: true, deployed: Deployed::Missing }));
    assert_eq!(rec.request(), Request::Act(0, FsAction::Link));
    rec.step(&Event::Carried(true));
    assert_eq!(rec.request(), Request::Finished);
    rec.step(&Event::Carried(false));
    assert!(rec.is_finished());
    assert!(rec.failure().is_none());
}

#[test]
fn nothing_to_reconcile_is_finished_at_once() {
    let rec = Reconciler::new(Mode::Undeploy, Vec::new());
    assert_eq!(rec.request(), Request::Finished);
}

#[test]
fn decisions_for_one_file() {
    let pair = LinkPair { deployed: path("/home/u/x"), stored: path("/cfg/e/x") };
    let at = |stored_exists: bool, deployed: Deployed| Probe { stored_exists, deployed };
    assert_eq!(decide_link(&pair, &at(false, Deployed::Link(path("/cfg/e/x")))), LinkDecision::Corrupt);
    assert_eq!(decide_link(&pair, &at(true, Deployed::Link(path("/cfg/e/x")))), LinkDecision::Keep);
    assert_eq!(decide_link(&pair, &at(true, Deployed::Missing)), LinkDecision::Create);
    assert_eq!(decide_link(&pair, &at(true, Deployed::Other)), LinkDecision::Replace);
    assert_eq!(decide_link(&pair, &at(true, Deployed::Link(path("/cfg/e/y")))), LinkDecision::Replace);
    assert!(decide_unlink(&pair, &at(true, Deployed::Link(path("/cfg/e/x")))));
    assert!(decide_unlink(&pair, &at(false, Deployed::Link(path("/cfg/e/x")))));
    assert!(!decide_unlink(&pair, &at(true, Deployed::Link(path("/cfg/e/y")))));
    assert!(!decide_unlink(&pair, &at(true, Deployed::Other)));
    assert!(!decide_unlink(&pair, &at(true, Deployed::Missing)));
    assert_eq!(decide_restore(&pair, &at(true, Deployed::Missing)), RestoreDecision::Copy);
    assert_eq!(decide_restore(&pair, &at(true, Deployed::Link(path("/cfg/e/x")))), RestoreDecision::Replace);
    assert_eq!(decide_restore(&pair, &at(true, Deployed::Other)), RestoreDecision::Leave);
    assert_eq!(decide_restore(&pair, &at(true, Deployed::Link(path("/other")))), RestoreDecision::Leave);
}

#[test]
fn update_by_fast_forward_keeps_the_link_and_makes_no_merge_commit() {
    let mut c = ConfinuumConfig::init(GitProtocol::Ssh, SignatureSource::Github);
    let mut nvim = ConfigEntry::new("nvim".to_string());
    nvim.set_target_dir(path("/home/u/.config/nvim"));
    nvim.add_file(path("init.lua"));
    c.insert(nvim);
    let mut fs: HashMap<String, Node> = HashMap::new();
    fs.insert("/cfg/nvim/init.lua".to_string(), Node::File("old".to_string()));
    run(deploy(&c, &path("/cfg"), None).unwrap(), &mut fs, None);
    let mut asked: Vec<SyncAction> = Vec::new();
    for step in update() {
        match step {
            Step::Undeploy(name) => {
                run(undeploy(&c, &path("/cfg"), name.as_deref()).unwrap(), &mut fs, None);
                assert!(!fs.contains_key("/home/u/.config/nvim/init.lua"));
            }
            Step::Sync => {
                let mut state = SyncState::start();
                while !state.is_terminal() {
                    asked.push(state.action());
                    let event = match state.action() {
                        SyncAction::Fetch => SyncEvent::Fetched {
                            analysis: MergeAnalysis {
                                normal: false,
                                up_to_date: false,
                                fast_forward: true,
                                unborn: false,
                            },
                            orphaned: false,
                        },
                        SyncAction::FastForward => {
                            fs.insert("/cfg/nvim/init.lua".to_string(), Node::File("new".to_string()));
                            SyncEvent::Succeeded
                        }
                        _ => SyncEvent::Broke,
                    };
                    state = state.step(event);
                }
                assert_eq!(state, SyncState::Done);
            }
            Step::Deploy(name) => {
                let (rec, _) = run(deploy(&c, &path("/cfg"), name.as_deref()).unwrap(), &mut fs, None);
                assert!(rec.failure().is_none());
            }
            other => panic!("unexpected step {:?}", other),
        }
    }
    assert_eq!(asked, vec![SyncAction::Fetch, SyncAction::FastForward]);
    let link = fs.get("/home/u/.config/nvim/init.lua").unwrap();
    assert_eq!(link, &Node::Link("/cfg/nvim/init.lua".to_string()));
    assert_eq!(fs.get("/cfg/nvim/init.lua"), Some(&Node::File("new".to_string())));
}

#[test]
fn two_entries_at_one_place_are_linked_again_each_time() {
    let mut c = ConfinuumConfig::init(GitProtocol::Ssh, SignatureSource::Github);
    for name in ["a", "b"] {
        let mut e = ConfigEntry::new(name.to_string());
        e.set_target_dir(path("/home/u"));
        e.add_file(path("x"));
        c.insert(e);
    }
    let mut fs: HashMap<String, Node> = HashMap::new();
    fs.insert("/cfg/a/x".to_string(), Node::File("a".to_string()));
    fs.insert("/cfg/b/x".to_string(), Node::File("b".to_string()));
    let (_, first) = run(deploy(&c, &path("/cfg"), None).unwrap(), &mut fs, None);
    assert_eq!(first, 2);
    let after_first = fs.clone();
    let (_, second) = run(deploy(&c, &path("/cfg"), None).unwrap(), &mut fs, None);
    assert_eq!(second, 2);
    assert_eq!(fs, after_first);
    assert_eq!(fs.get("/home/u/x"), Some(&Node::Link("/cfg/b/x".to_string())));
}

#[test]
fn a_failed_deployment_puts_back_every_missing_file() {
    let mut fs = storage();
    fs.insert("/home/u/.gitconfig".to_string(), Node::File("mine".to_string()));
    fs.remove("/cfg/nvim/init.lua");
    let (rec, _) = run(deploy(&config(), &path("/cfg"), None).unwrap(), &mut fs, None);
    assert_eq!(rec.failure().unwrap().kind(), ErrorKind::CorruptState);
    assert_eq!(rec.failure().unwrap().subject, "/cfg/nvim/init.lua");
    assert_eq!(rec.unrestored(), 1);
    assert!(!fs.contains_key("/home/u/.config/nvim/init.lua"));
    assert_eq!(fs.get("/home/u/.config/nvim/lua/a.lua"), Some(&Node::File("a".to_string())));
    assert_eq!(fs.get("/home/u/.gitconfig"), Some(&Node::File("mine".to_string())));
}
