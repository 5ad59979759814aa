//! What is kept of the account at the hosting service, and the decisions
//! around signing in.

use vstd::prelude::*;
use vstd::string::*;
use crate::config::PathKind;
use crate::error::{Failure, Wording, bare_failure};
use crate::path::{FilePath, join_paths, parse_path, str_equal};

verus! {

/// What is asked of the hosting service when a repository is created.
#[derive(Debug, Clone)]
pub struct RepoCreateInfo {
    pub name: String,
    pub description: String,
    pub private: bool,
    pub is_template: bool,
    pub opt: Option<RepoCreateInfoOpt>,
}

/// The optional part of it.
#[derive(Debug, Clone)]
pub struct RepoCreateInfoOpt {
    pub has_downloads: Option<bool>,
    pub homepage: Option<String>,
}

/// The file that keeps the sign-in between runs.
#[derive(Debug, Clone)]
pub struct AuthFile {
    pub user: AuthUser,
    pub auth: AuthHost,
}

/// The token that the hosting service granted.
#[derive(Debug, Clone)]
pub struct AuthHost {
    pub token: String,
    pub token_type: String,
    pub scopes: Vec<String>,
}

/// The user that signed in.
#[derive(Debug, Clone)]
pub struct AuthUser {
    pub name: String,
    pub email: String,
}

/// An address of the account, as the hosting service lists it.
#[derive(Debug, Clone)]
pub struct EmailRecord {
    pub email: String,
    pub primary: bool,
    pub verified: bool,
    pub visibility: Option<String>,
}

/// An address that can sign commits: verified and public.
pub open spec fn is_public(r: EmailRecord) -> bool {
    r.verified && r.visibility is Some && r.visibility->0@ == "public"@
}

/// The first record from `from` on that can sign commits, or the number of
/// records if none can.
pub open spec fn first_public(records: Seq<EmailRecord>, from: int) -> int
    decreases records.len() - from,
{
    if from < 0 || from >= records.len() {
        records.len() as int
    } else if is_public(records[from]) {
        from
    } else {
        first_public(records, from + 1)
    }
}

/// What the hosting service answers while the user grants access.
#[derive(Clone, Copy, Debug, PartialEq, Eq, Structural)]
pub enum PollReply {
    /// Access was granted.
    Granted,
    /// The service asks for slower polling.
    SlowDown,
    /// The user has not decided yet.
    Pending,
}

/// The seconds to wait before the next poll, or nothing once access was
/// granted.  A request to slow down adds five seconds.
pub open spec fn next_interval(interval: u64, reply: PollReply) -> Option<u64> {
    match reply {
        PollReply::Granted => None,
        PollReply::Pending => Some(interval),
        PollReply::SlowDown => if interval <= u64::MAX - 5 {
            Some((interval + 5) as u64)
        } else {
            Some(u64::MAX)
        },
    }
}

impl RepoCreateInfo {
    /// The private repository that holds the configuration.
    pub fn config_repo() -> (r: RepoCreateInfo)
        ensures
            r.name@ == "confinuum-config"@,
            r.description@ == "My confinuum config"@,
            r.private,
            !r.is_template,
            r.opt is None,
    {
        RepoCreateInfo {
            name: String::from_str("confinuum-config"),
            description: String::from_str("My confinuum config"),
            private: true,
            is_template: false,
            opt: None,
        }
    }
}

impl AuthFile {
    /// The file that keeps the sign-in, in the configuration directory.
    pub fn get_path(config_dir: &FilePath) -> (r: FilePath)
        ensures
            r@ == join_paths(config_dir@, parse_path("hosts.toml"@)),
    {
        config_dir.join(&FilePath::parse("hosts.toml"))
    }

    /// Whether the file is there, from what was found at its place.  A
    /// directory there is an error.
    pub fn file_exists(found: PathKind) -> (r: Result<bool, Failure>)
        ensures
            r is Err <==> found == PathKind::Directory,
            r is Err ==> r->Err_0@ == bare_failure(Wording::AuthIsDirectory),
            r is Ok ==> r->Ok_0 == (found == PathKind::File),
    {
        match found {
            PathKind::Directory => Err(Failure::bare(Wording::AuthIsDirectory)),
            PathKind::File => Ok(true),
            _ => Ok(false),
        }
    }

    /// Whether the sign-in can be used, from what was found at the place of
    /// the file and whether what it holds could be read.
    pub fn load(found: PathKind, readable: bool) -> (r: Result<(), Failure>)
        ensures
            r is Ok <==> found == PathKind::File && readable,
            found == PathKind::Directory ==> r is Err && r->Err_0@ == bare_failure(
                Wording::AuthIsDirectory,
            ),
            found == PathKind::File && !readable ==> r is Err && r->Err_0@ == bare_failure(
                Wording::AuthUnreadable,
            ),
            found != PathKind::Directory && found != PathKind::File ==> r is Err && r->Err_0@
                == bare_failure(Wording::AuthMissing),
    {
        match Self::file_exists(found) {
            Err(e) => Err(e),
            Ok(false) => Err(Failure::bare(Wording::AuthMissing)),
            Ok(true) => if readable {
                Ok(())
            } else {
                Err(Failure::bare(Wording::AuthUnreadable))
            },
        }
    }
}

/// Whether a sign-in is kept: the file is there and could be read.
pub fn is_authenticated(found: PathKind, readable: bool) -> (b: bool)
    ensures
        b == (found == PathKind::File && readable),
{
    AuthFile::load(found, readable).is_ok()
}

/// Whether the record can sign commits.
pub fn record_is_public(r: &EmailRecord) -> (b: bool)
    ensures
        b == is_public(*r),
{
    match &r.visibility {
        Some(v) => r.verified && str_equal(v.as_str(), "public"),
        None => false,
    }
}

/// The user that signs commits: the account's login with the first address
/// that is verified and public, if there is one.
pub fn get_auth_user(login: String, records: &Vec<EmailRecord>) -> (r: Option<AuthUser>)
    ensures
        r is Some <==> 0 <= first_public(records@, 0) < records@.len(),
        r is Some ==> r->0.name@ == login@ && r->0.email@ == records@[first_public(
            records@,
            0,
        )].email@,
{
    let mut i: usize = 0;
    while i < records.len()
        invariant
            i <= records@.len(),
            first_public(records@, 0) == first_public(records@, i as int),
        decreases records@.len() - i,
    {
        if record_is_public(&records[i]) {
            return Some(AuthUser { name: login, email: records[i].email.clone() });
        }
        i += 1;
    }
    None
}

/// Decides how long to wait before the next poll.
pub fn poll_interval(interval: u64, reply: PollReply) -> (r: Option<u64>)
    ensures
        r == next_interval(interval, reply),
{
    match reply {
        PollReply::Granted => None,
        PollReply::Pending => Some(interval),
        PollReply::SlowDown => if interval <= u64::MAX - 5 {
            Some(interval + 5)
        } else {
            Some(u64::MAX)
        },
    }
}

} // verus!
