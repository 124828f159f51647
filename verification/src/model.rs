//! The data the library works on: releases, package and cache scans, deletion
//! plans, cleanup results and verification reports, with their size totals and
//! counts.

use vstd::prelude::*;

use crate::sums::{
    lemma_sum_difference, lemma_sum_element_le, lemma_sum_nonneg, lemma_sum_pointwise_le, lemma_sum_prefix_le, lemma_sum_remove,
    lemma_sum_take_all, lemma_sum_take_next, nonneg_on, sum_of,
};

verus! {

/// The numeric part of a release version, `major.minor.patch`.
#[derive(Debug, Clone, Copy, PartialEq, Eq, Structural)]
pub struct VersionKey {
    pub major: u64,
    pub minor: u64,
    pub patch: u64,
}

/// One installed release directory of a package.
#[derive(Debug)]
pub struct ReleaseInfo {
    pub package: String,
    pub display_version: String,
    pub directory_name: String,
    pub path: String,
    pub size: u64,
    pub active: bool,
    pub version_key: VersionKey,
}

impl Clone for ReleaseInfo {
    fn clone(&self) -> (r: Self)
        ensures
            r == *self,
    {
        ReleaseInfo {
            package: self.package.clone(),
            display_version: self.display_version.clone(),
            directory_name: self.directory_name.clone(),
            path: self.path.clone(),
            size: self.size,
            active: self.active,
            version_key: self.version_key,
        }
    }
}

/// What a scan found for one package store.
#[derive(Debug)]
pub struct PackageScan {
    pub name: String,
    pub root: String,
    pub releases_dir: String,
    pub current_target: Option<String>,
    pub current_version: Option<String>,
    pub releases: Vec<ReleaseInfo>,
    pub warnings: Vec<String>,
}

/// What a scan found under a Codex root.
#[derive(Debug)]
pub struct CacheScan {
    pub codex_root: String,
    pub packages: Vec<PackageScan>,
}

/// Which releases a cleanup keeps in each package.
#[derive(Debug, Clone, Copy, PartialEq, Eq, Structural)]
pub enum KeepPolicy {
    /// Keep only the active release.
    Current,
    /// Keep the active release and the newest inactive one.
    CurrentPrevious,
}

/// The releases of one package that a cleanup would remove.
#[derive(Debug, Clone)]
pub struct DeletionPlan {
    pub keep_policy: KeepPolicy,
    pub releases_dir: String,
    pub current_target: Option<String>,
    pub releases_to_remove: Vec<ReleaseInfo>,
}

/// What a cleanup deleted and what it failed to delete.
#[derive(Debug)]
pub struct CleanupResult {
    pub deleted: Vec<ReleaseInfo>,
    pub failures: Vec<CleanupFailure>,
}

/// A release that was not deleted, and why.
#[derive(Debug)]
pub struct CleanupFailure {
    pub release: ReleaseInfo,
    pub message: String,
}

/// The checks made on the package stores of a Codex root.
#[derive(Debug)]
pub struct VerificationReport {
    pub checks: Vec<VerificationCheck>,
}

/// One check and its outcome.
#[derive(Debug)]
pub struct VerificationCheck {
    pub status: VerificationStatus,
    pub message: String,
}

/// The outcome of a check.
#[derive(Debug, Clone, Copy, PartialEq, Eq, Structural)]
pub enum VerificationStatus {
    Pass,
    Warning,
    Error,
}

impl Clone for CleanupFailure {
    fn clone(&self) -> (r: Self)
        ensures
            r == *self,
    {
        CleanupFailure { release: self.release.clone(), message: self.message.clone() }
    }
}

impl Clone for VerificationCheck {
    fn clone(&self) -> (r: Self)
        ensures
            r == *self,
    {
        VerificationCheck { status: self.status, message: self.message.clone() }
    }
}

// ---------------------------------------------------------------------------
// Specifications of totals and lookups
// ---------------------------------------------------------------------------

/// The size of a release, as an integer.
pub open spec fn size_fn() -> spec_fn(ReleaseInfo) -> int {
    |r: ReleaseInfo| r.size as int
}

/// The total size of a sequence of releases.
pub open spec fn release_bytes(s: Seq<ReleaseInfo>) -> int {
    sum_of(s, size_fn())
}

/// The index of the first release at or after `from` whose `active` flag is
/// `want_active`.
pub open spec fn first_index_with(s: Seq<ReleaseInfo>, want_active: bool, from: int) -> Option<
    int,
>
    decreases s.len() - from,
{
    if from < 0 || from >= s.len() {
        None
    } else if s[from].active == want_active {
        Some(from)
    } else {
        first_index_with(s, want_active, from + 1)
    }
}

/// The first release whose `active` flag is `want_active`.
pub open spec fn first_release(s: Seq<ReleaseInfo>, want_active: bool) -> Option<ReleaseInfo> {
    match first_index_with(s, want_active, 0) {
        Some(i) => Some(s[i]),
        None => None,
    }
}

/// The size of an optional release, zero when there is none.
pub open spec fn optional_size(r: Option<ReleaseInfo>) -> int {
    match r {
        Some(r) => r.size as int,
        None => 0,
    }
}

/// The total size of a package's releases.
pub open spec fn package_total(p: PackageScan) -> int {
    release_bytes(p.releases@)
}

/// The size of a package's active release, zero when none is active.
pub open spec fn package_current(p: PackageScan) -> int {
    optional_size(first_release(p.releases@, true))
}

/// The size of a package's newest inactive release, zero when there is none.
pub open spec fn package_previous(p: PackageScan) -> int {
    optional_size(first_release(p.releases@, false))
}

/// `a - b`, or zero when `b` exceeds `a`.
pub open spec fn saturating_diff(a: int, b: int) -> int {
    if a >= b {
        a - b
    } else {
        0
    }
}

/// The bytes freed in a package when the active and the newest inactive
/// release are kept.
pub open spec fn package_reclaim_keeping_previous(p: PackageScan) -> int {
    saturating_diff(package_total(p), package_current(p) + package_previous(p))
}

/// The total size of every package.
pub open spec fn scan_total(s: Seq<PackageScan>) -> int {
    sum_of(s, |p: PackageScan| package_total(p))
}

/// The total size of every package's active release.
pub open spec fn scan_current(s: Seq<PackageScan>) -> int {
    sum_of(s, |p: PackageScan| package_current(p))
}

/// The bytes freed over all packages when each keeps its active and newest
/// inactive release.
pub open spec fn scan_reclaim_keeping_previous(s: Seq<PackageScan>) -> int {
    sum_of(s, |p: PackageScan| package_reclaim_keeping_previous(p))
}

/// Every package's total fits in a `u64`.
pub open spec fn package_totals_fit(s: Seq<PackageScan>) -> bool {
    forall|i: int| 0 <= i < s.len() ==> package_total(#[trigger] s[i]) <= u64::MAX
}

/// The number of checks with the given status.
pub open spec fn count_status(s: Seq<VerificationCheck>, status: VerificationStatus) -> int
    decreases s.len(),
{
    if s.len() == 0 {
        0
    } else {
        count_status(s.drop_last(), status) + if s.last().status == status {
            1int
        } else {
            0int
        }
    }
}

// ---------------------------------------------------------------------------
// Small facts
// ---------------------------------------------------------------------------

/// Release sizes are never negative.
pub proof fn lemma_sizes_nonneg(s: Seq<ReleaseInfo>)
    ensures
        nonneg_on(s, size_fn()),
{
}

/// The first matching index is the searched status, in range, and no earlier
/// release from `from` on has that status.
pub proof fn lemma_first_index(s: Seq<ReleaseInfo>, want_active: bool, from: int)
    requires
        0 <= from,
    ensures
        match first_index_with(s, want_active, from) {
            Some(i) => from <= i < s.len() && s[i].active == want_active && forall|j: int|
                from <= j < i ==> s[j].active != want_active,
            None => forall|j: int| from <= j < s.len() ==> s[j].active != want_active,
        },
    decreases s.len() - from,
{
    if from < s.len() && s[from].active != want_active {
        lemma_first_index(s, want_active, from + 1);
    }
}

/// A package's active release, and its active and newest inactive release
/// together, are no larger than its total.
pub proof fn lemma_current_le_total(p: PackageScan)
    ensures
        0 <= package_current(p) <= package_total(p),
        0 <= package_previous(p) <= package_total(p),
        package_current(p) + package_previous(p) <= package_total(p),
{
    let s = p.releases@;
    lemma_sizes_nonneg(s);
    lemma_sum_nonneg(s, size_fn());
    lemma_first_index(s, true, 0);
    lemma_first_index(s, false, 0);
    if let Some(i) = first_index_with(s, true, 0) {
        lemma_sum_element_le(s, size_fn(), i);
        if let Some(j) = first_index_with(s, false, 0) {
            // The two are different releases: take one out, the other is
            // still counted in what is left.
            lemma_sum_remove(s, size_fn(), i);
            let k = if j < i {
                j
            } else {
                j - 1
            };
            assert(s.remove(i)[k] == s[j]);
            lemma_sizes_nonneg(s.remove(i));
            lemma_sum_element_le(s.remove(i), size_fn(), k);
        }
    }
    if let Some(j) = first_index_with(s, false, 0) {
        lemma_sum_element_le(s, size_fn(), j);
    }
}

/// The active releases together are no larger than the whole scan, and each
/// package no larger than the scan.
pub proof fn lemma_current_le_scan_total(s: Seq<PackageScan>)
    ensures
        0 <= scan_current(s) <= scan_total(s),
        forall|i: int| 0 <= i < s.len() ==> package_total(#[trigger] s[i]) <= scan_total(s),
{
    let c = |p: PackageScan| package_current(p);
    let t = |p: PackageScan| package_total(p);
    assert forall|j: int| 0 <= j < s.len() implies c(#[trigger] s[j]) <= t(s[j]) && c(s[j]) >= 0
        && t(s[j]) >= 0 by {
        lemma_current_le_total(s[j]);
    }
    lemma_sum_pointwise_le(s, c, t);
    lemma_sum_nonneg(s, c);
    assert forall|i: int| 0 <= i < s.len() implies package_total(#[trigger] s[i]) <= scan_total(
        s,
    ) by {
        lemma_sum_element_le(s, t, i);
    }
}

/// The number of checks with a given status never exceeds the number of
/// checks.
pub proof fn lemma_count_bounds(s: Seq<VerificationCheck>, status: VerificationStatus)
    ensures
        0 <= count_status(s, status) <= s.len(),
    decreases s.len(),
{
    if s.len() > 0 {
        lemma_count_bounds(s.drop_last(), status);
    }
}

// ---------------------------------------------------------------------------
// Executable totals and lookups
// ---------------------------------------------------------------------------

/// Adds up the sizes of `releases`.
pub(crate) fn sum_sizes(releases: &Vec<ReleaseInfo>) -> (total: u64)
    requires
        release_bytes(releases@) <= u64::MAX,
    ensures
        total == release_bytes(releases@),
{
    let mut total: u64 = 0;
    let mut i: usize = 0;
    while i < releases.len()
        invariant
            i <= releases.len(),
            release_bytes(releases@) <= u64::MAX,
            total == sum_of(releases@.take(i as int), size_fn()),
        decreases releases.len() - i,
    {
        proof {
            lemma_sum_take_next(releases@, size_fn(), i as int);
            lemma_sizes_nonneg(releases@);
            lemma_sum_prefix_le(releases@, size_fn(), i as int + 1);
        }
        total = total + releases[i].size;
        i = i + 1;
    }
    proof {
        lemma_sum_take_all(releases@, size_fn());
    }
    total
}

/// Finds the first release whose `active` flag is `want_active`.
pub(crate) fn find_release(releases: &[ReleaseInfo], want_active: bool) -> (r: Option<&ReleaseInfo>)
    ensures
        match r {
            Some(x) => first_release(releases@, want_active) == Some(*x),
            None => first_release(releases@, want_active) is None,
        },
{
    let mut i: usize = 0;
    while i < releases.len()
        invariant
            i <= releases.len(),
            first_index_with(releases@, want_active, 0) == first_index_with(
                releases@,
                want_active,
                i as int,
            ),
        decreases releases.len() - i,
    {
        if releases[i].active == want_active {
            return Some(&releases[i]);
        }
        i = i + 1;
    }
    None
}

impl PackageScan {
    /// The total size of the package's releases.
    pub fn total_size(&self) -> (total: u64)
        requires
            package_total(*self) <= u64::MAX,
        ensures
            total == package_total(*self),
    {
        sum_sizes(&self.releases)
    }

    /// The size of the active release, zero when none is active.
    pub fn current_size(&self) -> (size: u64)
        ensures
            size == package_current(*self),
    {
        match self.current_release() {
            Some(release) => release.size,
            None => 0,
        }
    }

    /// The bytes freed when the active and the newest inactive release are
    /// kept.
    pub fn reclaim_if_current_and_previous_kept(&self) -> (reclaim: u64)
        requires
            package_total(*self) <= u64::MAX,
        ensures
            reclaim == package_reclaim_keeping_previous(*self),
    {
        proof {
            lemma_current_le_total(*self);
        }
        let current = match self.current_release() {
            Some(release) => release.size,
            None => 0,
        };
        let previous = match self.previous_release() {
            Some(release) => release.size,
            None => 0,
        };
        let keep = current + previous;
        self.total_size().saturating_sub(keep)
    }

    /// The first active release; releases are held newest first.
    pub fn current_release(&self) -> (r: Option<&ReleaseInfo>)
        ensures
            match r {
                Some(x) => first_release(self.releases@, true) == Some(*x),
                None => first_release(self.releases@, true) is None,
            },
    {
        find_release(self.releases.as_slice(), true)
    }

    /// The first inactive release, which is the newest one.
    pub fn previous_release(&self) -> (r: Option<&ReleaseInfo>)
        ensures
            match r {
                Some(x) => first_release(self.releases@, false) == Some(*x),
                None => first_release(self.releases@, false) is None,
            },
    {
        find_release(self.releases.as_slice(), false)
    }
}

impl CacheScan {
    /// The total size of all packages.
    pub fn total_size(&self) -> (total: u64)
        requires
            scan_total(self.packages@) <= u64::MAX,
        ensures
            total == scan_total(self.packages@),
    {
        let ghost f = |p: PackageScan| package_total(p);
        let mut total: u64 = 0;
        let mut i: usize = 0;
        while i < self.packages.len()
            invariant
                i <= self.packages.len(),
                f == (|p: PackageScan| package_total(p)),
                scan_total(self.packages@) <= u64::MAX,
                total == sum_of(self.packages@.take(i as int), f),
            decreases self.packages.len() - i,
        {
            proof {
                lemma_sum_take_next(self.packages@, f, i as int);
                assert forall|j: int| 0 <= j < self.packages@.len() implies f(
                    #[trigger] self.packages@[j],
                ) >= 0 by {
                    lemma_current_le_total(self.packages@[j]);
                }
                lemma_sum_prefix_le(self.packages@, f, i as int + 1);
                lemma_sum_element_le(self.packages@, f, i as int);
            }
            total = total + self.packages[i].total_size();
            i = i + 1;
        }
        proof {
            lemma_sum_take_all(self.packages@, f);
        }
        total
    }

    /// The total size of every package's active release.
    pub fn current_size(&self) -> (total: u64)
        requires
            scan_current(self.packages@) <= u64::MAX,
        ensures
            total == scan_current(self.packages@),
    {
        let ghost f = |p: PackageScan| package_current(p);
        proof {
            assert forall|j: int| 0 <= j < self.packages@.len() implies f(
                #[trigger] self.packages@[j],
            ) >= 0 by {
                lemma_current_le_total(self.packages@[j]);
            }
        }
        let mut total: u64 = 0;
        let mut i: usize = 0;
        while i < self.packages.len()
            invariant
                i <= self.packages.len(),
                f == (|p: PackageScan| package_current(p)),
                sum_of(self.packages@, f) <= u64::MAX,
                nonneg_on(self.packages@, f),
                total == sum_of(self.packages@.take(i as int), f),
            decreases self.packages.len() - i,
        {
            proof {
                lemma_sum_take_next(self.packages@, f, i as int);
                lemma_sum_prefix_le(self.packages@, f, i as int + 1);
            }
            total = total + self.packages[i].current_size();
            i = i + 1;
        }
        proof {
            lemma_sum_take_all(self.packages@, f);
        }
        total
    }

    /// The bytes freed when every package keeps only its active release.
    pub fn reclaim_if_only_current_kept(&self) -> (reclaim: u64)
        requires
            scan_total(self.packages@) <= u64::MAX,
        ensures
            reclaim == saturating_diff(scan_total(self.packages@), scan_current(self.packages@)),
    {
        proof {
            lemma_current_le_scan_total(self.packages@);
        }
        self.total_size().saturating_sub(self.current_size())
    }

    /// The bytes freed when every package keeps its active and newest inactive
    /// release.
    pub fn reclaim_if_current_and_previous_kept(&self) -> (reclaim: u64)
        requires
            package_totals_fit(self.packages@),
            scan_reclaim_keeping_previous(self.packages@) <= u64::MAX,
        ensures
            reclaim == scan_reclaim_keeping_previous(self.packages@),
    {
        let ghost f = |p: PackageScan| package_reclaim_keeping_previous(p);
        proof {
            assert forall|j: int| 0 <= j < self.packages@.len() implies f(
                #[trigger] self.packages@[j],
            ) >= 0 by {
                lemma_current_le_total(self.packages@[j]);
            }
        }
        let mut total: u64 = 0;
        let mut i: usize = 0;
        while i < self.packages.len()
            invariant
                i <= self.packages.len(),
                f == (|p: PackageScan| package_reclaim_keeping_previous(p)),
                sum_of(self.packages@, f) <= u64::MAX,
                package_totals_fit(self.packages@),
                nonneg_on(self.packages@, f),
                total == sum_of(self.packages@.take(i as int), f),
            decreases self.packages.len() - i,
        {
            proof {
                lemma_sum_take_next(self.packages@, f, i as int);
                lemma_sum_prefix_le(self.packages@, f, i as int + 1);
            }
            total = total + self.packages[i].reclaim_if_current_and_previous_kept();
            i = i + 1;
        }
        proof {
            lemma_sum_take_all(self.packages@, f);
        }
        total
    }
}

impl DeletionPlan {
    /// The bytes the plan would free.
    pub fn reclaimed_bytes(&self) -> (total: u64)
        requires
            release_bytes(self.releases_to_remove@) <= u64::MAX,
        ensures
            total == release_bytes(self.releases_to_remove@),
    {
        sum_sizes(&self.releases_to_remove)
    }
}

impl CleanupResult {
    /// The bytes freed by the deletions that succeeded.
    pub fn reclaimed_bytes(&self) -> (total: u64)
        requires
            release_bytes(self.deleted@) <= u64::MAX,
        ensures
            total == release_bytes(self.deleted@),
    {
        sum_sizes(&self.deleted)
    }

    /// The number of deletions that failed.
    pub fn failed_count(&self) -> (n: usize)
        ensures
            n == self.failures@.len(),
    {
        self.failures.len()
    }

    /// The number of deletions that succeeded.
    pub fn success_count(&self) -> (n: usize)
        ensures
            n == self.deleted@.len(),
    {
        self.deleted.len()
    }

    /// Whether any deletion failed.
    pub fn has_failures(&self) -> (b: bool)
        ensures
            b == (self.failures@.len() > 0),
    {
        !self.failures.is_empty()
    }
}

/// Counts the checks with the given status.
fn count_checks(checks: &Vec<VerificationCheck>, status: VerificationStatus) -> (n: usize)
    ensures
        n == count_status(checks@, status),
{
    let mut n: usize = 0;
    let mut i: usize = 0;
    while i < checks.len()
        invariant
            i <= checks.len(),
            n == count_status(checks@.take(i as int), status),
        decreases checks.len() - i,
    {
        proof {
            assert(checks@.take(i as int + 1).drop_last() =~= checks@.take(i as int));
            lemma_count_bounds(checks@.take(i as int), status);
        }
        if checks[i].status == status {
            n = n + 1;
        }
        i = i + 1;
    }
    assert(checks@.take(checks@.len() as int) =~= checks@);
    n
}

impl VerificationReport {
    /// The number of failed checks.
    pub fn error_count(&self) -> (n: usize)
        ensures
            n == count_status(self.checks@, VerificationStatus::Error),
    {
        count_checks(&self.checks, VerificationStatus::Error)
    }

    /// The number of checks that raised a warning.
    pub fn warning_count(&self) -> (n: usize)
        ensures
            n == count_status(self.checks@, VerificationStatus::Warning),
    {
        count_checks(&self.checks, VerificationStatus::Warning)
    }

    /// The number of passed checks.
    pub fn pass_count(&self) -> (n: usize)
        ensures
            n == count_status(self.checks@, VerificationStatus::Pass),
    {
        count_checks(&self.checks, VerificationStatus::Pass)
    }
}

/// Every check is counted exactly once: passes, warnings and errors add up to
/// the number of checks.
pub proof fn law_status_counts_partition(report: VerificationReport)
    ensures
        count_status(report.checks@, VerificationStatus::Pass) + count_status(
            report.checks@,
            VerificationStatus::Warning,
        ) + count_status(report.checks@, VerificationStatus::Error) == report.checks@.len(),
{
    lemma_counts_partition(report.checks@);
}

proof fn lemma_counts_partition(s: Seq<VerificationCheck>)
    ensures
        count_status(s, VerificationStatus::Pass) + count_status(s, VerificationStatus::Warning)
            + count_status(s, VerificationStatus::Error) == s.len(),
    decreases s.len(),
{
    if s.len() > 0 {
        lemma_counts_partition(s.drop_last());
    }
}

/// Keeping the newest inactive release as well never frees more than keeping
/// only the active release.
pub proof fn law_keeping_previous_frees_no_more(packages: Seq<PackageScan>)
    ensures
        0 <= scan_reclaim_keeping_previous(packages) <= saturating_diff(
            scan_total(packages),
            scan_current(packages),
        ),
{
    let t = |p: PackageScan| package_total(p);
    let c = |p: PackageScan| package_current(p);
    let r = |p: PackageScan| package_reclaim_keeping_previous(p);
    let d = |p: PackageScan| package_total(p) - package_current(p);
    assert forall|i: int| 0 <= i < packages.len() implies r(#[trigger] packages[i]) <= d(
        packages[i],
    ) && r(packages[i]) >= 0 && d(packages[i]) >= 0 by {
        lemma_current_le_total(packages[i]);
    }
    lemma_sum_pointwise_le(packages, r, d);
    lemma_sum_nonneg(packages, r);
    lemma_sum_nonneg(packages, d);
    lemma_sum_difference(packages, t, c, d);
}

} // verus!
