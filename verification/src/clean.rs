//! Cleanup decisions: whether a planned release may be deleted, how outcomes
//! are recorded, when a cleanup may start, and where the Codex root lies.

use vstd::prelude::*;
use vstd::string::*;

use crate::errors::CacheError;
use crate::layout::text_equals;
use crate::model::{
    count_status, CleanupFailure, CleanupResult, DeletionPlan, KeepPolicy, ReleaseInfo,
    VerificationReport, VerificationStatus,
};
use crate::paths::{join_path, joined_path, parent_of, path_parent};

verus! {

/// What the `current` symlink of the package says at deletion time.
#[derive(Debug)]
pub enum CandidateLink {
    /// Reading it failed; the message says what was being read.
    Unreadable { message: String },
    /// There is no `current` symlink.
    Missing,
    /// It points somewhere; whether that is the candidate's directory.
    Target { matches_release: bool },
}

/// What was read about one deletion candidate just before deleting it.
#[derive(Debug)]
pub struct CandidateObservation {
    /// The plan's current target and the candidate's path are the same
    /// directory.
    pub matches_plan_target: bool,
    pub current_link: CandidateLink,
    /// The candidate lies inside the plan's `releases/` directory.
    pub inside_releases: bool,
    /// The candidate is the plan's `releases/` directory itself.
    pub is_releases_dir: bool,
}

/// Why a planned release must not be deleted, if there is a reason; the
/// reasons are checked in this order.
pub open spec fn refusal(
    plan: DeletionPlan,
    release: ReleaseInfo,
    obs: CandidateObservation,
) -> Option<Seq<char>> {
    if release.active {
        Some("refusing to delete active release"@)
    } else if plan.current_target is Some && obs.matches_plan_target {
        Some("refusing to delete current symlink target"@)
    } else if path_parent(plan.releases_dir@) is None {
        Some("invalid releases directory"@)
    } else {
        match obs.current_link {
            CandidateLink::Unreadable { message } => Some(message@),
            CandidateLink::Missing => Some("current symlink is missing; refusing deletion"@),
            CandidateLink::Target { matches_release } => if matches_release {
                Some("refusing to delete current symlink target"@)
            } else if !obs.inside_releases {
                Some("refusing to delete path outside releases/: "@ + release.path@)
            } else if obs.is_releases_dir {
                Some("refusing to delete releases/ directory itself"@)
            } else {
                None
            },
        }
    }
}

/// Decides whether a planned release may be deleted: not when it is active,
/// when it is the plan's or the live `current` target, when `current` cannot
/// be read, or when it is not strictly inside `releases/`.
pub fn validate_deletion_candidate(
    plan: &DeletionPlan,
    release: &ReleaseInfo,
    obs: &CandidateObservation,
) -> (r: Result<(), String>)
    ensures
        match r {
            Ok(()) => refusal(*plan, *release, *obs) is None,
            Err(m) => refusal(*plan, *release, *obs) == Some(m@),
        },
{
    if release.active {
        return Err(String::from_str("refusing to delete active release"));
    }
    if plan.current_target.is_some() && obs.matches_plan_target {
        return Err(String::from_str("refusing to delete current symlink target"));
    }
    if parent_of(plan.releases_dir.as_str()).is_none() {
        return Err(String::from_str("invalid releases directory"));
    }
    match &obs.current_link {
        CandidateLink::Unreadable { message } => {
            return Err(message.clone());
        },
        CandidateLink::Missing => {
            return Err(String::from_str("current symlink is missing; refusing deletion"));
        },
        CandidateLink::Target { matches_release } => {
            if *matches_release {
                return Err(String::from_str("refusing to delete current symlink target"));
            }
        },
    }
    if !obs.inside_releases {
        let mut message = String::from_str("refusing to delete path outside releases/: ");
        message.append(release.path.as_str());
        return Err(message);
    }
    if obs.is_releases_dir {
        return Err(String::from_str("refusing to delete releases/ directory itself"));
    }
    Ok(())
}

/// A candidate that is accepted is inactive, is neither the plan's nor the
/// live `current` target, and lies strictly inside `releases/`; and `current`
/// could be read.
pub proof fn law_accepted_candidates_are_protected(
    plan: DeletionPlan,
    release: ReleaseInfo,
    obs: CandidateObservation,
)
    requires
        refusal(plan, release, obs) is None,
    ensures
        !release.active,
        plan.current_target is Some ==> !obs.matches_plan_target,
        obs.current_link == (CandidateLink::Target { matches_release: false }),
        obs.inside_releases,
        !obs.is_releases_dir,
{
}

/// Records the outcome of one planned deletion: the release when it was
/// deleted, otherwise the release with the reason.
pub fn record_deletion(result: &mut CleanupResult, release: &ReleaseInfo, outcome: Result<(), String>)
    ensures
        match outcome {
            Ok(()) => final(result).deleted@ == old(result).deleted@.push(*release)
                && final(result).failures@ == old(result).failures@,
            Err(m) => final(result).deleted@ == old(result).deleted@ && final(result).failures@
                == old(result).failures@.push(CleanupFailure { release: *release, message: m }),
        },
{
    match outcome {
        Ok(()) => {
            result.deleted.push(release.clone());
        },
        Err(message) => {
            result.failures.push(CleanupFailure { release: release.clone(), message });
        },
    }
}

/// The releases whose deletion succeeded, in the order they were planned.
pub open spec fn deleted_of(releases: Seq<ReleaseInfo>, outcomes: Seq<Result<(), String>>) -> Seq<
    ReleaseInfo,
>
    decreases releases.len(),
{
    if releases.len() == 0 || outcomes.len() == 0 {
        Seq::<ReleaseInfo>::empty()
    } else {
        let before = deleted_of(releases.drop_last(), outcomes.drop_last());
        if outcomes.last() is Ok {
            before.push(releases.last())
        } else {
            before
        }
    }
}

/// The releases that were not deleted, with the reason, in the order they
/// were planned.
pub open spec fn failures_of(releases: Seq<ReleaseInfo>, outcomes: Seq<Result<(), String>>) -> Seq<
    CleanupFailure,
>
    decreases releases.len(),
{
    if releases.len() == 0 || outcomes.len() == 0 {
        Seq::<CleanupFailure>::empty()
    } else {
        let before = failures_of(releases.drop_last(), outcomes.drop_last());
        match outcomes.last() {
            Ok(()) => before,
            Err(message) => before.push(CleanupFailure { release: releases.last(), message }),
        }
    }
}

/// One step of a cleanup: `observed` is what `observe` saw of `release`, and
/// `outcome` is the refusal when there is one, otherwise what `remove` gave
/// back for the release.
pub open spec fn is_cleanup_step<O, R>(
    plan: DeletionPlan,
    observe: O,
    remove: R,
    release: ReleaseInfo,
    observed: CandidateObservation,
    outcome: Result<(), String>,
) -> bool where
    O: Fn(&ReleaseInfo) -> CandidateObservation,
    R: Fn(&ReleaseInfo) -> Result<(), String>,
{
    &&& call_ensures(observe, (&release,), observed)
    &&& match refusal(plan, release, observed) {
        Some(m) => outcome matches Err(e) && e@ == m,
        None => call_ensures(remove, (&release,), outcome),
    }
}

/// `result` is the cleanup of `plan` in which the planned releases were
/// observed as `observed` and ended as `outcomes`, one for each, in order.
pub open spec fn is_cleanup_run<O, R>(
    plan: DeletionPlan,
    observe: O,
    remove: R,
    observed: Seq<CandidateObservation>,
    outcomes: Seq<Result<(), String>>,
    result: CleanupResult,
) -> bool where
    O: Fn(&ReleaseInfo) -> CandidateObservation,
    R: Fn(&ReleaseInfo) -> Result<(), String>,
{
    let releases = plan.releases_to_remove@;
    &&& observed.len() == releases.len()
    &&& outcomes.len() == releases.len()
    &&& forall|i: int|
        0 <= i < releases.len() ==> #[trigger] is_cleanup_step(
            plan,
            observe,
            remove,
            releases[i],
            observed[i],
            outcomes[i],
        )
    &&& result.deleted@ == deleted_of(releases, outcomes)
    &&& result.failures@ == failures_of(releases, outcomes)
}

/// Every planned release ends either deleted or failed, never both.
pub proof fn law_each_planned_release_ends_once(
    releases: Seq<ReleaseInfo>,
    outcomes: Seq<Result<(), String>>,
)
    requires
        outcomes.len() == releases.len(),
    ensures
        deleted_of(releases, outcomes).len() + failures_of(releases, outcomes).len()
            == releases.len(),
        deleted_of(releases, outcomes).len() == count_ok(outcomes),
    decreases releases.len(),
{
    if releases.len() > 0 {
        law_each_planned_release_ends_once(releases.drop_last(), outcomes.drop_last());
    }
}

/// How many outcomes are successes.
pub open spec fn count_ok(outcomes: Seq<Result<(), String>>) -> nat
    decreases outcomes.len(),
{
    if outcomes.len() == 0 {
        0
    } else {
        count_ok(outcomes.drop_last()) + if outcomes.last() is Ok {
            1nat
        } else {
            0nat
        }
    }
}

/// Carries out a plan: each planned release, in order, is observed with
/// `observe`, checked, and handed to `remove` only when it is accepted; it
/// then ends among the deleted releases or the failures.
///
/// `remove` need only accept releases that some observation leaves without a
/// refusal: a body that handed it a refused release would not verify.
pub fn execute_deletion_plan_with<O, R>(plan: &DeletionPlan, observe: O, remove: R) -> (result:
    CleanupResult) where
    O: Fn(&ReleaseInfo) -> CandidateObservation,
    R: Fn(&ReleaseInfo) -> Result<(), String>,
    requires
        forall|r: &ReleaseInfo| #[trigger] observe.requires((r,)),
        forall|r: &ReleaseInfo|
            (exists|o: CandidateObservation|
                call_ensures(observe, (r,), o) && refusal(*plan, *r, o) is None)
                ==> #[trigger] remove.requires((r,)),
    ensures
        exists|observed: Seq<CandidateObservation>, outcomes: Seq<Result<(), String>>|
            is_cleanup_run(*plan, observe, remove, observed, outcomes, result),
        result.deleted@.len() + result.failures@.len() == plan.releases_to_remove@.len(),
{
    let mut result = CleanupResult { deleted: Vec::new(), failures: Vec::new() };
    let ghost mut observed: Seq<CandidateObservation> = Seq::empty();
    let ghost mut outcomes: Seq<Result<(), String>> = Seq::empty();
    let ghost releases = plan.releases_to_remove@;
    let mut i: usize = 0;
    while i < plan.releases_to_remove.len()
        invariant
            i <= plan.releases_to_remove.len(),
            releases == plan.releases_to_remove@,
            forall|r: &ReleaseInfo| #[trigger] observe.requires((r,)),
            forall|r: &ReleaseInfo|
                (exists|o: CandidateObservation|
                    call_ensures(observe, (r,), o) && refusal(*plan, *r, o) is None)
                    ==> #[trigger] remove.requires((r,)),
            observed.len() == i,
            outcomes.len() == i,
            forall|k: int|
                0 <= k < i ==> #[trigger] is_cleanup_step(
                    *plan,
                    observe,
                    remove,
                    releases[k],
                    observed[k],
                    outcomes[k],
                ),
            result.deleted@ == deleted_of(releases.take(i as int), outcomes),
            result.failures@ == failures_of(releases.take(i as int), outcomes),
        decreases plan.releases_to_remove.len() - i,
    {
        let release = &plan.releases_to_remove[i];
        let observation = observe(release);
        let outcome = match validate_deletion_candidate(plan, release, &observation) {
            Err(message) => Err(message),
            Ok(()) => remove(release),
        };
        proof {
            assert(is_cleanup_step(*plan, observe, remove, releases[i as int], observation, outcome));
            let before = outcomes;
            observed = observed.push(observation);
            outcomes = outcomes.push(outcome);
            assert(releases.take(i as int + 1).drop_last() =~= releases.take(i as int));
            assert(releases.take(i as int + 1).last() == releases[i as int]);
            assert(outcomes.drop_last() =~= before);
        }
        record_deletion(&mut result, release, outcome);
        i = i + 1;
    }
    proof {
        assert(releases.take(i as int) =~= releases);
        assert(is_cleanup_run(*plan, observe, remove, observed, outcomes, result));
        law_each_planned_release_ends_once(releases, outcomes);
    }
    result
}

/// Adds the outcomes of one package's cleanup to the outcomes so far.
pub fn absorb(result: &mut CleanupResult, package_result: CleanupResult)
    ensures
        final(result).deleted@ == old(result).deleted@ + package_result.deleted@,
        final(result).failures@ == old(result).failures@ + package_result.failures@,
{
    let mut package_result = package_result;
    result.deleted.append(&mut package_result.deleted);
    result.failures.append(&mut package_result.failures);
}

/// A cleanup starts only when verification found no error.
pub fn clean_gate(report: &VerificationReport) -> (r: Result<(), CacheError>)
    ensures
        r is Ok <==> count_status(report.checks@, VerificationStatus::Error) == 0,
        r matches Err(e) ==> e == CacheError::VerificationFailed,
{
    if report.error_count() > 0 {
        Err(CacheError::VerificationFailed)
    } else {
        Ok(())
    }
}

/// The Codex root: `CODEX_HOME` when set, otherwise `.codex` under `HOME`.
pub fn codex_root_from(codex_home: Option<String>, home: Option<String>) -> (r: Result<
    String,
    CacheError,
>)
    ensures
        match codex_home {
            Some(root) => r == Ok::<String, CacheError>(root),
            None => match home {
                Some(h) => r matches Ok(root) && root@ == joined_path(h@, ".codex"@),
                None => r == Err::<String, CacheError>(CacheError::HomeNotSet),
            },
        },
{
    match codex_home {
        Some(root) => Ok(root),
        None => match home {
            Some(h) => Ok(join_path(h.as_str(), ".codex")),
            None => Err(CacheError::HomeNotSet),
        },
    }
}

/// The policy a `--keep` value names.
pub open spec fn keep_policy_named(value: Seq<char>) -> Option<KeepPolicy> {
    if value == "current"@ {
        Some(KeepPolicy::Current)
    } else if value == "current,previous"@ {
        Some(KeepPolicy::CurrentPrevious)
    } else {
        None
    }
}

/// The `--keep` value that names a policy.
pub open spec fn keep_policy_text(policy: KeepPolicy) -> Seq<char> {
    match policy {
        KeepPolicy::Current => "current"@,
        KeepPolicy::CurrentPrevious => "current,previous"@,
    }
}

/// The label of a check status.
pub open spec fn status_text(status: VerificationStatus) -> Seq<char> {
    match status {
        VerificationStatus::Pass => "PASS"@,
        VerificationStatus::Warning => "WARNING"@,
        VerificationStatus::Error => "ERROR"@,
    }
}

impl KeepPolicy {
    /// The `--keep` value of the policy.
    pub fn label(self) -> (text: &'static str)
        ensures
            text@ == keep_policy_text(self),
    {
        match self {
            KeepPolicy::Current => "current",
            KeepPolicy::CurrentPrevious => "current,previous",
        }
    }

    /// Reads a `--keep` value: `current` or `current,previous`.
    pub fn parse(value: &str) -> (r: Result<KeepPolicy, CacheError>)
        ensures
            match keep_policy_named(value@) {
                Some(p) => r == Ok::<KeepPolicy, CacheError>(p),
                None => r == Err::<KeepPolicy, CacheError>(CacheError::InvalidKeepPolicy),
            },
    {
        if text_equals(value, "current") {
            Ok(KeepPolicy::Current)
        } else if text_equals(value, "current,previous") {
            Ok(KeepPolicy::CurrentPrevious)
        } else {
            Err(CacheError::InvalidKeepPolicy)
        }
    }
}

/// Reading a policy's own `--keep` value gives the policy back.
pub proof fn law_keep_policy_label_round_trip(policy: KeepPolicy)
    ensures
        keep_policy_named(keep_policy_text(policy)) == Some(policy),
{
    reveal_strlit("current");
    reveal_strlit("current,previous");
    assert("current"@.len() != "current,previous"@.len());
}

impl std::str::FromStr for KeepPolicy {
    type Err = CacheError;

    fn from_str(value: &str) -> (r: Result<KeepPolicy, CacheError>)
        ensures
            match keep_policy_named(value@) {
                Some(p) => r == Ok::<KeepPolicy, CacheError>(p),
                None => r == Err::<KeepPolicy, CacheError>(CacheError::InvalidKeepPolicy),
            },
    {
        KeepPolicy::parse(value)
    }
}

impl VerificationStatus {
    /// The label a check of this status is shown with.
    pub fn label(self) -> (text: &'static str)
        ensures
            text@ == status_text(self),
    {
        match self {
            VerificationStatus::Pass => "PASS",
            VerificationStatus::Warning => "WARNING",
            VerificationStatus::Error => "ERROR",
        }
    }
}

} // verus!
