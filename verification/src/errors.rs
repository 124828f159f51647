//! The errors the library reports, and the text each one is shown with.

use vstd::prelude::*;
use vstd::string::*;

verus! {

/// Why a scan, a plan or a cleanup could not go on.
#[derive(Debug)]
pub enum CacheError {
    /// No release of the package is active, so nothing can be planned.
    NoActiveRelease,
    /// Planning the cleanup of the named package failed because no release of
    /// it is active.
    PlanFailed { package: String },
    /// The Codex root directory does not exist.
    RootNotFound { codex_root: String },
    /// Neither package store exists under the packages directory.
    CachesNotFound { packages_dir: String },
    /// A package store exists but its `releases/` directory does not.
    ReleaseCacheMissing { package: String, releases_dir: String },
    /// Verification found errors, so the cleanup did not start.
    VerificationFailed,
    /// Neither `CODEX_HOME` nor `HOME` is set.
    HomeNotSet,
    /// Reading the file system failed; the text says what was being read.
    Io { message: String },
    /// A keep policy other than `current` or `current,previous`.
    InvalidKeepPolicy,
}

/// The text an error is shown with.
pub open spec fn error_text(e: CacheError) -> Seq<char> {
    match e {
        CacheError::NoActiveRelease => no_active_text(),
        CacheError::PlanFailed { package } => "failed to plan "@ + package@ + " cleanup"@,
        CacheError::RootNotFound { codex_root } => "Codex root was not found at "@
            + codex_root@,
        CacheError::CachesNotFound { packages_dir } => "Codex release caches were not found under "@
            + packages_dir@,
        CacheError::ReleaseCacheMissing { package, releases_dir } => "Codex "@ + package@
            + " release cache was not found at "@ + releases_dir@,
        CacheError::VerificationFailed => "verification failed; clean aborted"@,
        CacheError::HomeNotSet => "HOME is not set; set CODEX_HOME or HOME so the Codex root can be detected"@,
        CacheError::Io { message } => message@,
        CacheError::InvalidKeepPolicy => "keep must be one of: current, current,previous"@,
    }
}

/// The text of the refusal to plan without an active release.
pub open spec fn no_active_text() -> Seq<char> {
    "active Codex release could not be determined; refusing to produce a deletion plan"@
}

impl CacheError {
    /// The text this error is shown with.
    pub fn message(&self) -> (text: String)
        ensures
            text@ == error_text(*self),
    {
        match self {
            CacheError::NoActiveRelease => String::from_str(
                "active Codex release could not be determined; refusing to produce a deletion plan",
            ),
            CacheError::PlanFailed { package } => {
                let mut text = String::from_str("failed to plan ");
                text.append(package.as_str());
                text.append(" cleanup");
                text
            },
            CacheError::RootNotFound { codex_root } => {
                let mut text = String::from_str("Codex root was not found at ");
                text.append(codex_root.as_str());
                text
            },
            CacheError::CachesNotFound { packages_dir } => {
                let mut text = String::from_str("Codex release caches were not found under ");
                text.append(packages_dir.as_str());
                text
            },
            CacheError::ReleaseCacheMissing { package, releases_dir } => {
                let mut text = String::from_str("Codex ");
                text.append(package.as_str());
                text.append(" release cache was not found at ");
                text.append(releases_dir.as_str());
                text
            },
            CacheError::VerificationFailed => String::from_str(
                "verification failed; clean aborted",
            ),
            CacheError::HomeNotSet => String::from_str(
                "HOME is not set; set CODEX_HOME or HOME so the Codex root can be detected",
            ),
            CacheError::Io { message } => message.clone(),
            CacheError::InvalidKeepPolicy => String::from_str(
                "keep must be one of: current, current,previous",
            ),
        }
    }
}

} // verus!
