//! Inspection, verification and cleanup planning for Codex release caches.
//!
//! The library holds the decisions: how release directories are recognised and
//! ordered, which releases a keep policy removes, which checks a package layout
//! passes, when a deletion candidate is refused, and how every report is
//! rendered. Reading the file system and deleting directories happen outside,
//! and hand their observations to these functions as plain values.

pub mod sums;
pub mod model;
pub mod version;
pub mod errors;
pub mod paths;
pub mod plan;
pub mod text;
pub mod discover;
pub mod layout;
pub mod clean;
pub mod render;
pub mod order;

pub use clean::{
    absorb, clean_gate, codex_root_from, execute_deletion_plan_with, record_deletion,
    validate_deletion_candidate, CandidateLink, CandidateObservation,
};
pub use discover::{
    discover_releases, package_names, scan_cache, scan_package, scan_releases,
    PackageObservation, ReleaseEntry,
};
pub use errors::CacheError;
pub use layout::{
    verify_package, verify_report, CurrentLink, LayoutObservation, LinkTarget, RootEntry,
};
pub use model::{
    CacheScan, CleanupFailure, CleanupResult, DeletionPlan, KeepPolicy, PackageScan,
    ReleaseInfo, VerificationCheck, VerificationReport, VerificationStatus, VersionKey,
};
pub use paths::join_path;
pub use plan::{plan_deletions, plan_deletions_in, plan_scan_deletions};
pub use render::{
    render_clean_dry_run, render_clean_dry_runs, render_clean_result, render_list,
    render_report, render_scan, render_verify,
};
pub use text::format_bytes;
