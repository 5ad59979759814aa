use confinuum::config::PathKind;
use confinuum::error::ErrorKind;
use confinuum::git::{
    choose_credential, find_ssh_key, get_user_sig, print_diff, signature_from, CredentialChoice,
    CredentialTypes, DiffLineKind, LineStyle, SignatureError,
};
use confinuum::github::{
    get_auth_user, is_authenticated, poll_interval, record_is_public, AuthFile, AuthHost,
    AuthUser, EmailRecord, PollReply, RepoCreateInfo, RepoCreateInfoOpt,
};
use confinuum::path::FilePath;
use confinuum::text::decimal_text;

fn record(email: &str, verified: bool, visibility: Option<&str>) -> EmailRecord {
    EmailRecord {
        email: email.to_string(),
        primary: false,
        verified,
        visibility: visibility.map(|v| v.to_string()),
    }
}

fn allowed(username: bool, ssh_key: bool, default: bool, ssh_memory: bool, user_pass_plaintext: bool) -> CredentialTypes {
    CredentialTypes { username, ssh_key, default, ssh_memory, user_pass_plaintext }
}

#[test]
fn the_first_verified_public_address_signs() {
    let records = vec![
        record("a@example.org", true, None),
        record("b@example.org", false, Some("public")),
        record("c@example.org", true, Some("private")),
        record("d@example.org", true, Some("public")),
        record("e@example.org", true, Some("public")),
    ];
    assert!(!record_is_public(&records[0]));
    assert!(record_is_public(&records[3]));
    let user = get_auth_user("octo".to_string(), &records).unwrap();
    assert_eq!(user.name, "octo");
    assert_eq!(user.email, "d@example.org");
    assert!(get_auth_user("octo".to_string(), &records[..3].to_vec()).is_none());
    assert!(get_auth_user("octo".to_string(), &Vec::new()).is_none());
}

#[test]
fn sign_in_is_kept_in_a_readable_file() {
    assert!(is_authenticated(PathKind::File, true));
    assert!(!is_authenticated(PathKind::File, false));
    assert!(!is_authenticated(PathKind::Missing, true));
    assert!(!is_authenticated(PathKind::Directory, true));
    assert!(AuthFile::file_exists(PathKind::File).unwrap());
    assert!(!AuthFile::file_exists(PathKind::Missing).unwrap());
    assert_eq!(AuthFile::file_exists(PathKind::Directory).unwrap_err().kind(), ErrorKind::ConfigCorrupt);
    assert_eq!(AuthFile::load(PathKind::Missing, true).unwrap_err().kind(), ErrorKind::ConfigMissing);
    assert_eq!(AuthFile::load(PathKind::File, false).unwrap_err().kind(), ErrorKind::ConfigCorrupt);
    assert!(AuthFile::load(PathKind::File, true).is_ok());
    assert_eq!(
        AuthFile::load(PathKind::Missing, true).unwrap_err().message(),
        "Auth file does not exist. Run `confinuum init` to create one."
    );
    assert_eq!(
        AuthFile::load(PathKind::Directory, true).unwrap_err().message(),
        "Auth file is a directory. Please remove it and try again."
    );
    assert_eq!(AuthFile::load(PathKind::File, false).unwrap_err().message(), "Could not parse the auth file");
    assert_eq!(
        AuthFile::get_path(&FilePath::parse("/home/u/.config/confinuum")).to_string(),
        "/home/u/.config/confinuum/hosts.toml"
    );
}

#[test]
fn account_values_hold_what_they_are_given() {
    let file = AuthFile {
        user: AuthUser { name: "octo".to_string(), email: "o@example.org".to_string() },
        auth: AuthHost { token: "t".to_string(), token_type: "bearer".to_string(), scopes: vec!["repo".to_string()] },
    };
    assert_eq!(file.clone().auth.scopes, vec!["repo"]);
    let info = RepoCreateInfo::config_repo();
    assert_eq!(info.name, "confinuum-config");
    assert_eq!(info.description, "My confinuum config");
    assert!(info.private);
    assert!(!info.is_template);
    assert!(info.opt.is_none());
    let opt = RepoCreateInfoOpt { has_downloads: Some(true), homepage: None };
    assert_eq!(opt.has_downloads, Some(true));
}

#[test]
fn slow_down_adds_five_seconds() {
    assert_eq!(poll_interval(5, PollReply::Granted), None);
    assert_eq!(poll_interval(5, PollReply::Pending), Some(5));
    assert_eq!(poll_interval(5, PollReply::SlowDown), Some(10));
    assert_eq!(poll_interval(u64::MAX - 5, PollReply::SlowDown), Some(u64::MAX));
    assert_eq!(poll_interval(u64::MAX - 4, PollReply::SlowDown), Some(u64::MAX));
}

#[test]
fn signature_needs_a_name_and_a_valid_address() {
    let sig = get_user_sig(Some("Ada".to_string()), Some("ada@example.org".to_string())).unwrap();
    assert_eq!(sig.name, "Ada");
    assert_eq!(sig.email, "ada@example.org");
    assert_eq!(
        get_user_sig(Some("Ada".to_string()), Some("not an address".to_string())).unwrap_err(),
        SignatureError::InvalidEmail
    );
    assert_eq!(get_user_sig(Some("Ada".to_string()), Some("".to_string())).unwrap_err(), SignatureError::InvalidEmail);
    assert_eq!(get_user_sig(Some("Ada".to_string()), None).unwrap_err(), SignatureError::NoEmail);
    assert_eq!(get_user_sig(None, Some("ada@example.org".to_string())).unwrap_err(), SignatureError::NoName);
    assert_eq!(get_user_sig(None, None).unwrap_err(), SignatureError::NoName);
    assert!(signature_from(Some("a".to_string()), Some("b".to_string()), true).is_ok());
    assert_eq!(
        signature_from(Some("a".to_string()), Some("b".to_string()), false).unwrap_err(),
        SignatureError::InvalidEmail
    );
}

#[test]
fn credentials_are_offered_in_order() {
    assert_eq!(choose_credential(allowed(true, true, true, true, true)), CredentialChoice::Username);
    assert_eq!(choose_credential(allowed(false, true, false, true, true)), CredentialChoice::SshKeyFile);
    assert_eq!(choose_credential(allowed(false, false, true, true, true)), CredentialChoice::SshKeyFile);
    assert_eq!(choose_credential(allowed(false, false, false, true, true)), CredentialChoice::SshKeyMemory);
    assert_eq!(choose_credential(allowed(false, false, false, false, true)), CredentialChoice::UserPass);
    assert_eq!(choose_credential(allowed(false, false, false, false, false)), CredentialChoice::Unsupported);
}

#[test]
fn the_first_key_that_is_present_is_used() {
    let dir = FilePath::parse("/home/u/.ssh");
    assert_eq!(find_ssh_key(&dir, &vec![true, true, false, false]).unwrap().to_string(), "/home/u/.ssh/id_ed25519");
    assert_eq!(find_ssh_key(&dir, &vec![false, true, false, true]).unwrap().to_string(), "/home/u/.ssh/id_rsa");
    assert_eq!(find_ssh_key(&dir, &vec![false, false, true, true]).unwrap().to_string(), "/home/u/.ssh/id_ecdsa");
    assert_eq!(find_ssh_key(&dir, &vec![false, false, false, true]).unwrap().to_string(), "/home/u/.ssh/id_dsa");
    assert!(find_ssh_key(&dir, &vec![false, false, false, false, true]).is_none());
    assert!(find_ssh_key(&dir, &vec![false]).is_none());
    assert!(find_ssh_key(&dir, &Vec::new()).is_none());
}

#[test]
fn diff_lines_are_set_by_kind() {
    assert_eq!(print_diff(DiffLineKind::Addition), (LineStyle::Green, "+", false));
    assert_eq!(print_diff(DiffLineKind::Deletion), (LineStyle::Red, "-", false));
    assert_eq!(print_diff(DiffLineKind::FileHeader), (LineStyle::Bold, "", false));
    assert_eq!(print_diff(DiffLineKind::HunkHeader), (LineStyle::Blue, "", true));
    assert_eq!(print_diff(DiffLineKind::Binary), (LineStyle::Bold, "", false));
    assert_eq!(print_diff(DiffLineKind::Other), (LineStyle::Plain, "", false));
}

#[test]
fn numbers_are_written_in_decimal() {
    assert_eq!(decimal_text(0), "0");
    assert_eq!(decimal_text(7), "7");
    assert_eq!(decimal_text(10), "10");
    assert_eq!(decimal_text(1234567890), "1234567890");
    assert_eq!(decimal_text(usize::MAX), usize::MAX.to_string());
}
