//! What can go wrong, and how it is told.

use vstd::prelude::*;
use vstd::string::*;

verus! {

/// The kinds of failure.
#[derive(Clone, Copy, Debug, PartialEq, Eq, Structural)]
pub enum ErrorKind {
    /// There is no configuration file.
    ConfigMissing,
    /// The configuration file cannot be read as a configuration.
    ConfigCorrupt,
    /// No entry has the given name.
    EntryNotFound,
    /// An entry has the given name already.
    EntryAlreadyExists,
    /// A file that should be taken in is not there.
    FileNotFound,
    /// A path cannot be resolved, or lies under no common base.
    InvalidPath,
    /// The local branch is not up to date with the remote.
    RemoteDivergence,
    /// Merging local and remote history gave conflicts.
    MergeConflict,
    /// The remote refused what was committed locally.
    PushRejected,
    /// A tracked file is missing from storage.
    CorruptState,
    /// A changed file belongs to no entry.
    OrphanedFile,
    /// An operation on a file or on the repository failed.
    Io,
    /// A configuration file is there already.
    ConfigExists,
    /// The remote is reached in a way that is not supported.
    UnsupportedProtocol,
}

/// The sentences in which failures are told.  One kind of failure is told
/// differently from one place to another.
#[derive(Clone, Copy, Debug, PartialEq, Eq, Structural)]
pub enum Wording {
    /// There is no configuration file.
    ConfigMissing,
    /// There is no file that keeps the sign-in.
    AuthMissing,
    /// A directory stands where the configuration file belongs.
    ConfigIsDirectory,
    /// A directory stands where the file that keeps the sign-in belongs.
    AuthIsDirectory,
    /// The configuration file holds no configuration.
    ConfigUnreadable,
    /// The file that keeps the sign-in holds none.
    AuthUnreadable,
    /// A configuration file is there and is not to be overwritten.
    ConfigExists,
    /// No entry has the name.
    NoEntry,
    /// No entry has the name of the entry to delete.
    NoEntryToDelete,
    /// No entry has the name of the entry to add files to.
    NoEntryToAddTo,
    /// The name of the entry to create is taken.
    EntryExists,
    /// A file to take in is not there.
    FileMissing,
    /// A file to remove is not there.
    FileToRemoveMissing,
    /// A file to remove is not tracked by the entry.
    FileNotInEntry,
    /// A path to take in could not be resolved.
    Unresolved,
    /// A path to remove could not be resolved.
    UnresolvedToRemove,
    /// The paths have no common base.
    NoCommonBase,
    /// A file lies outside the common base.
    OutsideBase,
    /// A file to remove lies outside the entry's storage.
    OutsideStorage,
    /// The entry has no base directory to give its files back to.
    NoTargetDir,
    /// There is no way from the configuration directory to a path.
    NoRelativePath,
    /// The remote has changes; nothing is added.
    ChangesBeforeAdding,
    /// The remote has changes; nothing is deleted.
    ChangesBeforeDeleting,
    /// A tracked file is missing from storage.
    MissingInStorage,
    /// A changed file belongs to no entry.
    Orphaned,
    /// An operation on a file failed.
    OperationFailed,
    /// The remote is reached in a way that is not supported.
    UnsupportedProtocol,
}

/// The kind of failure that a sentence tells.
pub open spec fn kind_of(w: Wording) -> ErrorKind {
    match w {
        Wording::ConfigMissing | Wording::AuthMissing => ErrorKind::ConfigMissing,
        Wording::ConfigIsDirectory | Wording::AuthIsDirectory | Wording::ConfigUnreadable
        | Wording::AuthUnreadable => ErrorKind::ConfigCorrupt,
        Wording::ConfigExists => ErrorKind::ConfigExists,
        Wording::NoEntry | Wording::NoEntryToDelete | Wording::NoEntryToAddTo => ErrorKind::EntryNotFound,
        Wording::EntryExists => ErrorKind::EntryAlreadyExists,
        Wording::FileMissing | Wording::FileToRemoveMissing | Wording::FileNotInEntry => ErrorKind::FileNotFound,
        Wording::Unresolved | Wording::UnresolvedToRemove | Wording::NoCommonBase
        | Wording::OutsideBase | Wording::OutsideStorage | Wording::NoTargetDir
        | Wording::NoRelativePath => ErrorKind::InvalidPath,
        Wording::ChangesBeforeAdding | Wording::ChangesBeforeDeleting => ErrorKind::RemoteDivergence,
        Wording::MissingInStorage => ErrorKind::CorruptState,
        Wording::Orphaned => ErrorKind::OrphanedFile,
        Wording::OperationFailed => ErrorKind::Io,
        Wording::UnsupportedProtocol => ErrorKind::UnsupportedProtocol,
    }
}

/// The words of a sentence in front of what it names first.
pub open spec fn lead_text(w: Wording) -> Seq<char> {
    match w {
        Wording::ConfigMissing => "Config file does not exist. Run `confinuum init` to create one."@,
        Wording::AuthMissing => "Auth file does not exist. Run `confinuum init` to create one."@,
        Wording::ConfigIsDirectory => "Config file is a directory. Please remove it and try again."@,
        Wording::AuthIsDirectory => "Auth file is a directory. Please remove it and try again."@,
        Wording::ConfigUnreadable => "Could not parse confinuum config"@,
        Wording::AuthUnreadable => "Could not parse the auth file"@,
        Wording::ConfigExists => "Config file already exists. Use --force to overwrite."@,
        Wording::NoEntry => "No entry named "@,
        Wording::NoEntryToDelete => "No entry named "@,
        Wording::NoEntryToAddTo => "Entry named "@,
        Wording::EntryExists => "Entry named "@,
        Wording::FileMissing => "File does not exist: \""@,
        Wording::FileToRemoveMissing => "File "@,
        Wording::FileNotInEntry => "File "@,
        Wording::Unresolved => "Failed to canonicalize: "@,
        Wording::UnresolvedToRemove => "Could not canonicalize "@,
        Wording::NoCommonBase => "Could not find common base path"@,
        Wording::OutsideBase => "Could not strip prefix "@,
        Wording::OutsideStorage => "cannot strip prefix "@,
        Wording::NoTargetDir => "Entry "@,
        Wording::NoRelativePath => "Could not get relative path"@,
        Wording::ChangesBeforeAdding => "Changes found on remote. Please pull them before adding files."@,
        Wording::ChangesBeforeDeleting => "Changes found on remote. Please pull them before deleting files."@,
        Wording::MissingInStorage => "File "@,
        Wording::Orphaned => "Found file that does not belong to any entry: "@,
        Wording::OperationFailed => "Operation failed on "@,
        Wording::UnsupportedProtocol => "Git protocol "@,
    }
}

/// The words of a sentence between the two things that it names.
pub open spec fn middle_text(w: Wording) -> Seq<char> {
    match w {
        Wording::NoEntry => " found"@,
        Wording::NoEntryToAddTo => " does not exist! Use the `new` subcommand to create it."@,
        Wording::EntryExists => " already exists! Use the `add` and `remove` subcommands to add or remove files from it."@,
        Wording::FileMissing => "\""@,
        Wording::FileToRemoveMissing => " does not exist"@,
        Wording::FileNotInEntry => " does not exist in entry "@,
        Wording::OutsideBase => " from "@,
        Wording::OutsideStorage => " from "@,
        Wording::NoTargetDir => " does not have a target directory, cannot restore files. Cancelling deletion."@,
        Wording::MissingInStorage => " does not exist in configs"@,
        Wording::UnsupportedProtocol => " is not yet supported by Confinuum :/"@,
        _ => ""@,
    }
}

/// Whether a sentence names the other thing before the subject.
pub open spec fn other_first(w: Wording) -> bool {
    w == Wording::OutsideBase || w == Wording::OutsideStorage
}

/// The model of a failure.
pub struct FailureModel {
    pub wording: Wording,
    pub subject: Seq<char>,
    pub other: Seq<char>,
}

/// A failure about one thing.
pub open spec fn failure_about(wording: Wording, subject: Seq<char>) -> FailureModel {
    FailureModel { wording, subject, other: Seq::empty() }
}

/// A failure about nothing in particular.
pub open spec fn bare_failure(wording: Wording) -> FailureModel {
    FailureModel { wording, subject: Seq::empty(), other: Seq::empty() }
}

/// The text of a failure: the words of its sentence around what it names.
pub open spec fn message_text(f: FailureModel) -> Seq<char> {
    if other_first(f.wording) {
        lead_text(f.wording) + f.other + middle_text(f.wording) + f.subject
    } else {
        lead_text(f.wording) + f.subject + middle_text(f.wording) + f.other
    }
}

/// A failure: the sentence that tells it, what it is about, a path or a
/// name, and what else the sentence names, if anything.
#[derive(Debug)]
pub struct Failure {
    pub wording: Wording,
    pub subject: String,
    pub other: String,
}

impl View for Failure {
    type V = FailureModel;

    open spec fn view(&self) -> FailureModel {
        FailureModel { wording: self.wording, subject: self.subject@, other: self.other@ }
    }
}

/// Whether `got` is the failure of the model.
pub open spec fn failure_matches(model: Option<FailureModel>, got: Option<Failure>) -> bool {
    match model {
        None => got is None,
        Some(m) => got is Some && got->0@ == m,
    }
}

impl Failure {
    /// The kind of the failure.
    pub open spec fn spec_kind(&self) -> ErrorKind {
        kind_of(self.wording)
    }

    /// The kind of the failure.
    #[verifier::when_used_as_spec(spec_kind)]
    pub fn kind(&self) -> (k: ErrorKind)
        ensures
            k == kind_of(self.wording),
    {
        match self.wording {
            Wording::ConfigMissing | Wording::AuthMissing => ErrorKind::ConfigMissing,
            Wording::ConfigIsDirectory | Wording::AuthIsDirectory | Wording::ConfigUnreadable
            | Wording::AuthUnreadable => ErrorKind::ConfigCorrupt,
            Wording::ConfigExists => ErrorKind::ConfigExists,
            Wording::NoEntry | Wording::NoEntryToDelete | Wording::NoEntryToAddTo => ErrorKind::EntryNotFound,
            Wording::EntryExists => ErrorKind::EntryAlreadyExists,
            Wording::FileMissing | Wording::FileToRemoveMissing | Wording::FileNotInEntry => ErrorKind::FileNotFound,
            Wording::Unresolved | Wording::UnresolvedToRemove | Wording::NoCommonBase
            | Wording::OutsideBase | Wording::OutsideStorage | Wording::NoTargetDir
            | Wording::NoRelativePath => ErrorKind::InvalidPath,
            Wording::ChangesBeforeAdding | Wording::ChangesBeforeDeleting => ErrorKind::RemoteDivergence,
            Wording::MissingInStorage => ErrorKind::CorruptState,
            Wording::Orphaned => ErrorKind::OrphanedFile,
            Wording::OperationFailed => ErrorKind::Io,
            Wording::UnsupportedProtocol => ErrorKind::UnsupportedProtocol,
        }
    }

    /// A failure about `subject`.
    pub fn new(wording: Wording, subject: String) -> (r: Failure)
        ensures
            r@ == failure_about(wording, subject@),
    {
        Failure { wording, subject, other: String::new() }
    }

    /// A failure about nothing in particular.
    pub fn bare(wording: Wording) -> (r: Failure)
        ensures
            r@ == bare_failure(wording),
    {
        Failure { wording, subject: String::new(), other: String::new() }
    }

    /// A failure about `subject` that names `other` as well.
    pub fn naming(wording: Wording, subject: String, other: String) -> (r: Failure)
        ensures
            r@ == (FailureModel { wording, subject: subject@, other: other@ }),
    {
        Failure { wording, subject, other }
    }

    /// The words of the sentence in front of what it names first.
    fn lead(&self) -> (r: &'static str)
        ensures
            r@ == lead_text(self.wording),
    {
        match self.wording {
            Wording::ConfigMissing => "Config file does not exist. Run `confinuum init` to create one.",
            Wording::AuthMissing => "Auth file does not exist. Run `confinuum init` to create one.",
            Wording::ConfigIsDirectory => "Config file is a directory. Please remove it and try again.",
            Wording::AuthIsDirectory => "Auth file is a directory. Please remove it and try again.",
            Wording::ConfigUnreadable => "Could not parse confinuum config",
            Wording::AuthUnreadable => "Could not parse the auth file",
            Wording::ConfigExists => "Config file already exists. Use --force to overwrite.",
            Wording::NoEntry => "No entry named ",
            Wording::NoEntryToDelete => "No entry named ",
            Wording::NoEntryToAddTo => "Entry named ",
            Wording::EntryExists => "Entry named ",
            Wording::FileMissing => "File does not exist: \"",
            Wording::FileToRemoveMissing => "File ",
            Wording::FileNotInEntry => "File ",
            Wording::Unresolved => "Failed to canonicalize: ",
            Wording::UnresolvedToRemove => "Could not canonicalize ",
            Wording::NoCommonBase => "Could not find common base path",
            Wording::OutsideBase => "Could not strip prefix ",
            Wording::OutsideStorage => "cannot strip prefix ",
            Wording::NoTargetDir => "Entry ",
            Wording::NoRelativePath => "Could not get relative path",
            Wording::ChangesBeforeAdding => "Changes found on remote. Please pull them before adding files.",
            Wording::ChangesBeforeDeleting => "Changes found on remote. Please pull them before deleting files.",
            Wording::MissingInStorage => "File ",
            Wording::Orphaned => "Found file that does not belong to any entry: ",
            Wording::OperationFailed => "Operation failed on ",
            Wording::UnsupportedProtocol => "Git protocol ",
        }
    }

    /// The words of the sentence between the two things that it names.
    fn middle(&self) -> (r: &'static str)
        ensures
            r@ == middle_text(self.wording),
    {
        match self.wording {
            Wording::NoEntry => " found",
            Wording::NoEntryToAddTo => " does not exist! Use the `new` subcommand to create it.",
            Wording::EntryExists => " already exists! Use the `add` and `remove` subcommands to add or remove files from it.",
            Wording::FileMissing => "\"",
            Wording::FileToRemoveMissing => " does not exist",
            Wording::FileNotInEntry => " does not exist in entry ",
            Wording::OutsideBase => " from ",
            Wording::OutsideStorage => " from ",
            Wording::NoTargetDir => " does not have a target directory, cannot restore files. Cancelling deletion.",
            Wording::MissingInStorage => " does not exist in configs",
            Wording::UnsupportedProtocol => " is not yet supported by Confinuum :/",
            _ => "",
        }
    }

    /// The text shown for this failure.
    pub fn message(&self) -> (r: String)
        ensures
            r@ == message_text(self@),
    {
        let mut out = String::from_str(self.lead());
        let swapped = match self.wording {
            Wording::OutsideBase | Wording::OutsideStorage => true,
            _ => false,
        };
        if swapped {
            out.append(self.other.as_str());
            out.append(self.middle());
            out.append(self.subject.as_str());
        } else {
            out.append(self.subject.as_str());
            out.append(self.middle());
            out.append(self.other.as_str());
        }
        out
    }
}

} // verus!
