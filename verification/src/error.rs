//! The failures the version store reports.
use vstd::prelude::*;

verus! {

/// Every failure carries what a caller needs to act on it: the version it
/// concerns or the path the failed operation touched.
#[derive(Debug)]
pub enum StoreError {
    /// The host operating system and architecture have no known release
    /// packaging. Fatal: nothing else can run.
    UnsupportedPlatform,
    /// Install was asked for a version the ledger already holds.
    AlreadyInstalled { version: String },
    /// Use or Uninstall was asked for a version the ledger does not hold.
    NotInstalled { version: String },
    /// The remote catalog offered no such release.
    VersionNotFound { version: String },
    /// A symlink could not be created; carries both paths involved.
    LinkCreationFailed { target: String, link: String },
    /// A store file was present but malformed.
    CorruptState { path: String },
    /// Any other filesystem failure, with the path that was attempted.
    IOFailure { path: String },
}

impl StoreError {
    /// A user-facing line describing the failure.
    pub fn message(&self) -> (r: String)
        ensures
            self is UnsupportedPlatform ==> r@ == "Your operating system and/or architecture is unsupported"@,
            (self matches StoreError::AlreadyInstalled { version } ==> r@
                == "The specified version is already installed: "@ + version@),
            (self matches StoreError::NotInstalled { version } ==> r@
                == "This version is not installed. Try running `haxeget install "@ + version@
                + "`"@),
            (self matches StoreError::VersionNotFound { version } ==> r@
                == "The specified version was not found: "@ + version@),
            (self matches StoreError::LinkCreationFailed { target, link } ==> r@
                == "I was unable to create a symlink from "@ + target@ + " to "@ + link@),
            (self matches StoreError::CorruptState { path } ==> r@
                == "Found a corrupt state file at "@ + path@),
            (self matches StoreError::IOFailure { path } ==> r@
                == "A filesystem operation failed on "@ + path@),
    {
        match self {
            StoreError::UnsupportedPlatform => String::from_str(
                "Your operating system and/or architecture is unsupported",
            ),
            StoreError::AlreadyInstalled { version } => {
                let mut s = String::from_str("The specified version is already installed: ");
                s.append(version.as_str());
                s
            },
            StoreError::NotInstalled { version } => {
                let mut s = String::from_str(
                    "This version is not installed. Try running `haxeget install ",
                );
                s.append(version.as_str());
                s.append("`");
                s
            },
            StoreError::VersionNotFound { version } => {
                let mut s = String::from_str("The specified version was not found: ");
                s.append(version.as_str());
                s
            },
            StoreError::LinkCreationFailed { target, link } => {
                let mut s = String::from_str("I was unable to create a symlink from ");
                s.append(target.as_str());
                s.append(" to ");
                s.append(link.as_str());
                s
            },
            StoreError::CorruptState { path } => {
                let mut s = String::from_str("Found a corrupt state file at ");
                s.append(path.as_str());
                s
            },
            StoreError::IOFailure { path } => {
                let mut s = String::from_str("A filesystem operation failed on ");
                s.append(path.as_str());
                s
            },
        }
    }
}

} // verus!
