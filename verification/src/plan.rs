//! Deletion plans: which releases of a package a keep policy removes.

use vstd::prelude::*;
use vstd::string::*;

use crate::errors::CacheError;
use crate::model::{
    lemma_current_le_total, saturating_diff, scan_current, scan_reclaim_keeping_previous,
    scan_total, find_release, first_index_with, first_release, lemma_first_index, lemma_sizes_nonneg, package_current,
    package_previous, package_reclaim_keeping_previous, package_total, release_bytes,
    size_fn, CacheScan, DeletionPlan, KeepPolicy, PackageScan, ReleaseInfo,
};
use crate::paths::{parent_of, path_parent, paths_equal, same_release_path};
use crate::sums::{
    lemma_sum_congruent, lemma_sum_difference, lemma_sum_nonneg, lemma_sum_remove, sum_of,
};

verus! {

/// The newest inactive release, when the policy keeps it.
pub open spec fn previous_kept(releases: Seq<ReleaseInfo>, policy: KeepPolicy) -> Option<
    ReleaseInfo,
> {
    if policy == KeepPolicy::CurrentPrevious {
        first_release(releases, false)
    } else {
        None
    }
}

/// A release is removed when it shares its path neither with the active
/// release nor with the kept previous release.
pub open spec fn removal_filter(releases: Seq<ReleaseInfo>, policy: KeepPolicy) -> spec_fn(
    ReleaseInfo,
) -> bool {
    |r: ReleaseInfo|
        match first_release(releases, true) {
            Some(active) => !same_release_path(r.path@, active.path@) && match previous_kept(
                releases,
                policy,
            ) {
                Some(previous) => !same_release_path(r.path@, previous.path@),
                None => true,
            },
            None => false,
        }
}

/// The releases a plan removes, in the order they are listed.
pub open spec fn planned_removals(releases: Seq<ReleaseInfo>, policy: KeepPolicy) -> Seq<
    ReleaseInfo,
> {
    releases.filter(removal_filter(releases, policy))
}

/// `plan` is the plan for `releases` in `releases_dir` under `policy`.
pub open spec fn is_plan_for(
    plan: DeletionPlan,
    releases_dir: Seq<char>,
    releases: Seq<ReleaseInfo>,
    policy: KeepPolicy,
) -> bool {
    &&& first_release(releases, true) matches Some(active)
    &&& plan.keep_policy == policy
    &&& plan.releases_dir@ == releases_dir
    &&& plan.current_target == Some(active.path)
    &&& plan.releases_to_remove@ == planned_removals(releases, policy)
}

/// The releases directory a plan is made for when none is given: the first
/// non-empty parent of a release path, or the empty path.
pub open spec fn default_releases_dir(releases: Seq<ReleaseInfo>, from: int) -> Seq<char>
    decreases releases.len() - from,
{
    if from < 0 || from >= releases.len() {
        Seq::<char>::empty()
    } else {
        match path_parent(releases[from].path@) {
            Some(parent) => if parent.len() > 0 {
                parent
            } else {
                default_releases_dir(releases, from + 1)
            },
            None => default_releases_dir(releases, from + 1),
        }
    }
}

/// No two releases share a path.
pub open spec fn distinct_release_paths(releases: Seq<ReleaseInfo>) -> bool {
    forall|i: int, j: int|
        0 <= i < releases.len() && 0 <= j < releases.len() && i != j ==> !same_release_path(
            #[trigger] releases[i].path@,
            #[trigger] releases[j].path@,
        )
}

/// Plans the cleanup of one package's releases held in `releases_dir`.
///
/// The active release is kept, and under `CurrentPrevious` also the newest
/// inactive one; every release sharing a path with neither is removed.
/// Without an active release no plan is made.
pub fn plan_deletions_in(releases_dir: &str, releases: &[ReleaseInfo], keep_policy: KeepPolicy) -> (r:
    Result<DeletionPlan, CacheError>)
    ensures
        match r {
            Ok(plan) => is_plan_for(plan, releases_dir@, releases@, keep_policy),
            Err(e) => first_release(releases@, true) is None && e == CacheError::NoActiveRelease,
        },
{
    let active = match find_release(releases, true) {
        Some(active) => active,
        None => {
            return Err(CacheError::NoActiveRelease);
        },
    };
    let previous = if keep_policy == KeepPolicy::CurrentPrevious {
        find_release(releases, false)
    } else {
        None
    };
    let ghost pred = removal_filter(releases@, keep_policy);
    let mut removed: Vec<ReleaseInfo> = Vec::new();
    let mut i: usize = 0;
    assert(releases@.take(0).filter(pred) =~= Seq::<ReleaseInfo>::empty()) by {
        reveal(Seq::filter);
    }
    while i < releases.len()
        invariant
            i <= releases.len(),
            pred == removal_filter(releases@, keep_policy),
            first_release(releases@, true) == Some(*active),
            previous_kept(releases@, keep_policy) == match previous {
                Some(p) => Some(*p),
                None => None::<ReleaseInfo>,
            },
            removed@ == releases@.take(i as int).filter(pred),
        decreases releases.len() - i,
    {
        let release = &releases[i];
        let keep = paths_equal(release.path.as_str(), active.path.as_str()) || match previous {
            Some(p) => paths_equal(release.path.as_str(), p.path.as_str()),
            None => false,
        };
        assert(keep == !pred(releases@[i as int]));
        if !keep {
            removed.push(release.clone());
        }
        proof {
            reveal(Seq::filter);
            assert(releases@.take(i as int + 1).drop_last() =~= releases@.take(i as int));
        }
        i = i + 1;
    }
    assert(releases@.take(releases@.len() as int) =~= releases@);
    Ok(
        DeletionPlan {
            keep_policy,
            releases_dir: releases_dir.to_owned(),
            current_target: Some(active.path.clone()),
            releases_to_remove: removed,
        },
    )
}

/// Plans the cleanup of one package's releases, taking the releases directory
/// from the first release path that has a non-empty parent.
pub fn plan_deletions(releases: &[ReleaseInfo], keep_policy: KeepPolicy) -> (r: Result<
    DeletionPlan,
    CacheError,
>)
    ensures
        match r {
            Ok(plan) => is_plan_for(plan, default_releases_dir(releases@, 0), releases@, keep_policy),
            Err(e) => first_release(releases@, true) is None && e == CacheError::NoActiveRelease,
        },
{
    let mut releases_dir = String::new();
    let mut i: usize = 0;
    while i < releases.len()
        invariant_except_break
            i <= releases.len(),
            default_releases_dir(releases@, 0) == default_releases_dir(releases@, i as int),
            releases_dir@ == Seq::<char>::empty(),
        ensures
            releases_dir@ == default_releases_dir(releases@, 0),
        decreases releases.len() - i,
    {
        match parent_of(releases[i].path.as_str()) {
            Some(parent) => {
                if parent.as_str().unicode_len() > 0 {
                    releases_dir = parent;
                    break;
                }
            },
            None => {},
        }
        i = i + 1;
    }
    plan_deletions_in(releases_dir.as_str(), releases, keep_policy)
}

/// Plans the cleanup of every package of a scan, each on its own. The first
/// package without an active release stops the planning.
pub fn plan_scan_deletions(scan: &CacheScan, keep_policy: KeepPolicy) -> (r: Result<
    Vec<DeletionPlan>,
    CacheError,
>)
    ensures
        match r {
            Ok(plans) => plans@.len() == scan.packages@.len() && forall|i: int|
                0 <= i < plans@.len() ==> is_plan_for(
                    #[trigger] plans@[i],
                    scan.packages@[i].releases_dir@,
                    scan.packages@[i].releases@,
                    keep_policy,
                ),
            Err(e) => exists|i: int|
                0 <= i < scan.packages@.len() && first_release(
                    #[trigger] scan.packages@[i].releases@,
                    true,
                ) is None && e == (CacheError::PlanFailed { package: scan.packages@[i].name })
                    && forall|j: int|
                    0 <= j < i ==> first_release(#[trigger] scan.packages@[j].releases@, true)
                        is Some,
        },
{
    let mut plans: Vec<DeletionPlan> = Vec::new();
    let mut i: usize = 0;
    while i < scan.packages.len()
        invariant
            i <= scan.packages.len(),
            plans@.len() == i,
            forall|j: int|
                0 <= j < i ==> is_plan_for(
                    #[trigger] plans@[j],
                    scan.packages@[j].releases_dir@,
                    scan.packages@[j].releases@,
                    keep_policy,
                ),
        decreases scan.packages.len() - i,
    {
        let package = &scan.packages[i];
        match plan_deletions_in(package.releases_dir.as_str(), package.releases.as_slice(), keep_policy) {
            Ok(plan) => {
                plans.push(plan);
            },
            Err(_) => {
                assert forall|j: int| 0 <= j < i implies first_release(
                    #[trigger] scan.packages@[j].releases@,
                    true,
                ) is Some by {
                    assert(is_plan_for(plans@[j], scan.packages@[j].releases_dir@, scan.packages@[j].releases@, keep_policy));
                }
                return Err(CacheError::PlanFailed { package: package.name.clone() });
            },
        }
        i = i + 1;
    }
    Ok(plans)
}

// ---------------------------------------------------------------------------
// Laws
// ---------------------------------------------------------------------------

/// A plan never removes a release that shares its path with the active
/// release, nor, under `CurrentPrevious`, with the newest inactive release;
/// and it removes every other release.
pub proof fn law_plan_keeps_exactly_the_protected_releases(
    releases: Seq<ReleaseInfo>,
    policy: KeepPolicy,
)
    requires
        first_release(releases, true) is Some,
    ensures
        forall|i: int|
            0 <= i < planned_removals(releases, policy).len() ==> {
                let r = #[trigger] planned_removals(releases, policy)[i];
                &&& !same_release_path(r.path@, first_release(releases, true)->0.path@)
                &&& (previous_kept(releases, policy) matches Some(previous) ==> !same_release_path(
                    r.path@,
                    previous.path@,
                ))
            },
        forall|i: int|
            0 <= i < releases.len() && !same_release_path(
                #[trigger] releases[i].path@,
                first_release(releases, true)->0.path@,
            ) && (previous_kept(releases, policy) matches Some(previous) ==> !same_release_path(
                releases[i].path@,
                previous.path@,
            )) ==> planned_removals(releases, policy).contains(releases[i]),
{
    broadcast use vstd::seq_lib::group_filter_ensures;

    let pred = removal_filter(releases, policy);
    assert forall|i: int| 0 <= i < planned_removals(releases, policy).len() implies {
        let r = #[trigger] planned_removals(releases, policy)[i];
        &&& !same_release_path(r.path@, first_release(releases, true)->0.path@)
        &&& (previous_kept(releases, policy) matches Some(previous) ==> !same_release_path(
            r.path@,
            previous.path@,
        ))
    } by {
        assert(pred(releases.filter(pred)[i]));
    }
    assert forall|i: int|
        0 <= i < releases.len() && !same_release_path(
            #[trigger] releases[i].path@,
            first_release(releases, true)->0.path@,
        ) && (previous_kept(releases, policy) matches Some(previous) ==> !same_release_path(
            releases[i].path@,
            previous.path@,
        )) implies planned_removals(releases, policy).contains(releases[i]) by {
        assert(pred(releases[i]));
    }
}

/// The sum over a filtered sequence is the sum of the values that pass.
proof fn lemma_filter_sum(s: Seq<ReleaseInfo>, p: spec_fn(ReleaseInfo) -> bool)
    ensures
        release_bytes(s.filter(p)) == sum_of(
            s,
            |r: ReleaseInfo|
                if p(r) {
                    r.size as int
                } else {
                    0
                },
        ),
    decreases s.len(),
{
    reveal(Seq::filter);
    if s.len() > 0 {
        lemma_filter_sum(s.drop_last(), p);
        let sub = s.drop_last().filter(p);
        assert(sub.push(s.last()).drop_last() =~= sub);
    }
}

/// Zeroing the value of one element lowers the sum by that element's value.
proof fn lemma_sum_zeroed_at(
    s: Seq<ReleaseInfo>,
    f: spec_fn(ReleaseInfo) -> int,
    g: spec_fn(ReleaseInfo) -> int,
    k: int,
)
    requires
        0 <= k < s.len(),
        f(s[k]) == 0,
        forall|i: int| 0 <= i < s.len() && i != k ==> f(#[trigger] s[i]) == g(s[i]),
    ensures
        sum_of(s, f) == sum_of(s, g) - g(s[k]),
{
    lemma_sum_remove(s, f, k);
    lemma_sum_remove(s, g, k);
    let rest = s.remove(k);
    assert forall|j: int| 0 <= j < rest.len() implies f(#[trigger] rest[j]) == g(rest[j]) by {
        if j < k {
            assert(rest[j] == s[j]);
        } else {
            assert(rest[j] == s[j + 1]);
        }
    }
    lemma_sum_congruent(rest, f, g);
}

/// When no two releases share a path, the plan keeping only the active
/// release frees the package's total less its active release, and the plan
/// that also keeps the newest inactive release frees exactly the report's
/// estimate for keeping current and previous.
pub proof fn law_plan_frees_the_reported_estimate(p: PackageScan)
    requires
        first_release(p.releases@, true) is Some,
        distinct_release_paths(p.releases@),
    ensures
        release_bytes(planned_removals(p.releases@, KeepPolicy::Current)) == package_total(p)
            - package_current(p),
        release_bytes(planned_removals(p.releases@, KeepPolicy::CurrentPrevious))
            == package_reclaim_keeping_previous(p),
        package_current(p) + package_previous(p) <= package_total(p),
{
    let s = p.releases@;
    lemma_first_index(s, true, 0);
    lemma_first_index(s, false, 0);
    let a = first_index_with(s, true, 0)->0;
    let active = s[a];
    // Keeping only the active release.
    let pc = removal_filter(s, KeepPolicy::Current);
    let only_active = |r: ReleaseInfo|
        if pc(r) {
            r.size as int
        } else {
            0
        };
    lemma_filter_sum(s, pc);
    assert forall|i: int| 0 <= i < s.len() && i != a implies only_active(#[trigger] s[i])
        == size_fn()(s[i]) by {
        assert(!same_release_path(s[i].path@, s[a].path@));
    }
    lemma_sum_zeroed_at(s, only_active, size_fn(), a);
    lemma_sizes_nonneg(s);
    lemma_sizes_nonneg(s.remove(a));
    lemma_sum_nonneg(s.remove(a), size_fn());
    lemma_sum_remove(s, size_fn(), a);
    // Keeping the active and the newest inactive release.
    let pp = removal_filter(s, KeepPolicy::CurrentPrevious);
    let both = |r: ReleaseInfo|
        if pp(r) {
            r.size as int
        } else {
            0
        };
    lemma_filter_sum(s, pp);
    match first_index_with(s, false, 0) {
        Some(b) => {
            assert(b != a);
            assert forall|i: int| 0 <= i < s.len() && i != b implies both(#[trigger] s[i])
                == only_active(s[i]) by {
                assert(!same_release_path(s[i].path@, s[b].path@));
            }
            assert(!same_release_path(s[b].path@, s[a].path@));
            lemma_sum_zeroed_at(s, both, only_active, b);
            let rest = s.remove(a);
            let bi = if b < a {
                b
            } else {
                b - 1
            };
            assert(rest[bi] == s[b]);
            lemma_sizes_nonneg(rest.remove(bi));
            lemma_sum_nonneg(rest.remove(bi), size_fn());
            lemma_sum_remove(rest, size_fn(), bi);
        },
        None => {
            assert forall|i: int| 0 <= i < s.len() implies both(#[trigger] s[i]) == only_active(
                s[i],
            ) by {}
            lemma_sum_congruent(s, both, only_active);
        },
    }
}

/// Over a whole scan whose packages each have an active release and no two
/// releases sharing a path, the dry run keeping only active releases frees
/// exactly the report's estimate for keeping current only, and the dry run
/// that also keeps the newest inactive releases frees exactly the report's
/// estimate for keeping current and previous.
pub proof fn law_scan_plans_free_the_reported_estimates(packages: Seq<PackageScan>)
    requires
        forall|i: int|
            0 <= i < packages.len() ==> first_release(#[trigger] packages[i].releases@, true)
                is Some && distinct_release_paths(packages[i].releases@),
    ensures
        sum_of(
            packages,
            |p: PackageScan| release_bytes(planned_removals(p.releases@, KeepPolicy::Current)),
        ) == saturating_diff(scan_total(packages), scan_current(packages)),
        sum_of(
            packages,
            |p: PackageScan|
                release_bytes(planned_removals(p.releases@, KeepPolicy::CurrentPrevious)),
        ) == scan_reclaim_keeping_previous(packages),
{
    let only = |p: PackageScan| release_bytes(planned_removals(p.releases@, KeepPolicy::Current));
    let both = |p: PackageScan|
        release_bytes(planned_removals(p.releases@, KeepPolicy::CurrentPrevious));
    let diff = |p: PackageScan| package_total(p) - package_current(p);
    let reclaim = |p: PackageScan| package_reclaim_keeping_previous(p);
    assert forall|i: int| 0 <= i < packages.len() implies only(#[trigger] packages[i]) == diff(
        packages[i],
    ) && both(packages[i]) == reclaim(packages[i]) && diff(packages[i]) >= 0 by {
        law_plan_frees_the_reported_estimate(packages[i]);
        lemma_current_le_total(packages[i]);
    }
    lemma_sum_congruent(packages, only, diff);
    lemma_sum_congruent(packages, both, reclaim);
    lemma_sum_difference(
        packages,
        |p: PackageScan| package_total(p),
        |p: PackageScan| package_current(p),
        diff,
    );
    lemma_sum_nonneg(packages, diff);
}

/// Filtering out the one element at `k` that fails the filter leaves the
/// rest of the sequence whole.
proof fn lemma_filter_drops_only(s: Seq<ReleaseInfo>, p: spec_fn(ReleaseInfo) -> bool, k: int)
    requires
        0 <= k < s.len(),
        !p(s[k]),
        forall|i: int| 0 <= i < s.len() && i != k ==> p(#[trigger] s[i]),
    ensures
        s.filter(p) == s.remove(k),
    decreases s.len(),
{
    reveal(Seq::filter);
    if k == s.len() - 1 {
        assert(s.remove(k) =~= s.drop_last());
        lemma_filter_all_pass(s.drop_last(), p);
    } else {
        assert forall|i: int| 0 <= i < s.drop_last().len() && i != k implies p(
            #[trigger] s.drop_last()[i],
        ) by {
            assert(s.drop_last()[i] == s[i]);
        }
        lemma_filter_drops_only(s.drop_last(), p, k);
        assert(p(s.last()));
        assert(s.remove(k) =~= s.drop_last().remove(k).push(s.last()));
    }
}

/// Filtering keeps a sequence whole when every element passes.
proof fn lemma_filter_all_pass(s: Seq<ReleaseInfo>, p: spec_fn(ReleaseInfo) -> bool)
    requires
        forall|i: int| 0 <= i < s.len() ==> p(#[trigger] s[i]),
    ensures
        s.filter(p) == s,
    decreases s.len(),
{
    reveal(Seq::filter);
    if s.len() > 0 {
        assert forall|i: int| 0 <= i < s.drop_last().len() implies p(#[trigger] s.drop_last()[i]) by {
            assert(s.drop_last()[i] == s[i]);
        }
        lemma_filter_all_pass(s.drop_last(), p);
        assert(s.drop_last().push(s.last()) =~= s);
    } else {
        assert(s.filter(p) =~= s);
    }
}

/// With no two releases sharing a path, keeping only the active release
/// removes every other release, in order.
proof fn lemma_keep_current_removes_the_rest(s: Seq<ReleaseInfo>)
    requires
        first_release(s, true) is Some,
        distinct_release_paths(s),
    ensures
        planned_removals(s, KeepPolicy::Current) == s.remove(first_index_with(s, true, 0)->0),
{
    lemma_first_index(s, true, 0);
    let a = first_index_with(s, true, 0)->0;
    let pc = removal_filter(s, KeepPolicy::Current);
    assert(!pc(s[a]));
    assert forall|i: int| 0 <= i < s.len() && i != a implies pc(#[trigger] s[i]) by {
        assert(!same_release_path(s[i].path@, s[a].path@));
    }
    lemma_filter_drops_only(s, pc, a);
}

/// With exactly one active release and no two releases sharing a path,
/// keeping the newest inactive release as well removes every release but
/// those two, in order; the newest inactive release is the first release
/// left once the active one is taken out.
proof fn lemma_keep_previous_removes_the_rest(s: Seq<ReleaseInfo>)
    requires
        first_release(s, true) is Some,
        distinct_release_paths(s),
        forall|i: int, j: int|
            0 <= i < s.len() && 0 <= j < s.len() && #[trigger] s[i].active && #[trigger] s[j].active
                ==> i == j,
    ensures
        ({
            let rest = s.remove(first_index_with(s, true, 0)->0);
            &&& rest.len() == 0 ==> planned_removals(s, KeepPolicy::CurrentPrevious).len() == 0
            &&& rest.len() > 0 ==> first_release(s, false) == Some(rest[0])
                && planned_removals(s, KeepPolicy::CurrentPrevious) == rest.drop_first()
        }),
{
    lemma_first_index(s, true, 0);
    let a = first_index_with(s, true, 0)->0;
    let rest = s.remove(a);
    let pp = removal_filter(s, KeepPolicy::CurrentPrevious);
    assert forall|i: int| 0 <= i < s.len() && i != a implies !(#[trigger] s[i]).active by {
        if s[i].active {
            assert(s[a].active);
        }
    }
    assert(!pp(s[a]));
    lemma_filter_skips_removed(s, pp, a);
    if rest.len() == 0 {
        assert(rest.filter(pp) =~= rest) by {
            reveal(Seq::filter);
        }
    } else {
        let b: int = if a == 0 {
            1
        } else {
            0
        };
        assert(rest[0] == s[b]);
        assert(!s[b].active);
        assert(first_index_with(s, false, 0) == Some(b)) by {
            if a == 0 {
                assert(first_index_with(s, false, 0) == first_index_with(s, false, 1));
            }
        }
        assert(!pp(rest[0]));
        assert forall|i: int| 0 <= i < rest.len() && i != 0 implies pp(#[trigger] rest[i]) by {
            let j = if i < a {
                i
            } else {
                i + 1
            };
            assert(rest[i] == s[j]);
            assert(j != a && j != b);
            assert(!same_release_path(s[j].path@, s[a].path@));
            assert(!same_release_path(s[j].path@, s[b].path@));
        }
        lemma_filter_drops_only(rest, pp, 0);
        assert(rest.remove(0) =~= rest.drop_first());
    }
}

/// Removing an element that fails the filter does not change what is kept.
proof fn lemma_filter_skips_removed(s: Seq<ReleaseInfo>, p: spec_fn(ReleaseInfo) -> bool, k: int)
    requires
        0 <= k < s.len(),
        !p(s[k]),
    ensures
        s.filter(p) == s.remove(k).filter(p),
    decreases s.len(),
{
    reveal(Seq::filter);
    if k == s.len() - 1 {
        assert(s.remove(k) =~= s.drop_last());
    } else {
        let rest = s.remove(k);
        assert(rest.drop_last() =~= s.drop_last().remove(k));
        assert(rest.last() == s.last());
        assert(s.drop_last()[k] == s[k]);
        lemma_filter_skips_removed(s.drop_last(), p, k);
    }
}

/// With one active release and no two releases sharing a path, the plan that
/// also keeps the newest inactive release removes exactly what the plan that
/// keeps only the active release removes, less its first removal; and that
/// first removal is the newest inactive release.
pub proof fn law_keeping_previous_spares_the_first_removal(releases: Seq<ReleaseInfo>)
    requires
        first_release(releases, true) is Some,
        distinct_release_paths(releases),
        forall|i: int, j: int|
            0 <= i < releases.len() && 0 <= j < releases.len() && #[trigger] releases[i].active
                && #[trigger] releases[j].active ==> i == j,
    ensures
        planned_removals(releases, KeepPolicy::CurrentPrevious) == if planned_removals(
            releases,
            KeepPolicy::Current,
        ).len() == 0 {
            Seq::<ReleaseInfo>::empty()
        } else {
            planned_removals(releases, KeepPolicy::Current).drop_first()
        },
        planned_removals(releases, KeepPolicy::Current).len() > 0 ==> first_release(
            releases,
            false,
        ) == Some(planned_removals(releases, KeepPolicy::Current)[0]),
{
    lemma_keep_current_removes_the_rest(releases);
    lemma_keep_previous_removes_the_rest(releases);
    if planned_removals(releases, KeepPolicy::Current).len() == 0 {
        assert(planned_removals(releases, KeepPolicy::CurrentPrevious) =~= Seq::<
            ReleaseInfo,
        >::empty());
    }
}

} // verus!
