//! Verification of package store layouts: which checks pass, warn or fail
//! for what was read of each store.

use vstd::prelude::*;
use vstd::string::*;

use crate::discover::{
    discover_releases, first_failure, is_release_entry, releases_of_entries,
    sort_releases, texts, warnings_of, ReleaseEntry,
};
use crate::model::{ReleaseInfo, VerificationCheck, VerificationReport, VerificationStatus};
use crate::sums::{lemma_sum_concat, sum_of};
use crate::text::{decimal, push_decimal};

verus! {

/// An entry directly under a package root.
#[derive(Debug)]
pub struct RootEntry {
    pub name: String,
    pub path: String,
}

/// What was found at a package's `current`.
#[derive(Debug)]
pub enum CurrentLink {
    /// Nothing is there.
    Missing,
    /// Inspecting it failed with the given error.
    Uninspectable { error: String },
    /// Something other than a symlink is there.
    NotSymlink,
    /// A symlink is there; reading it gave `target`.
    Symlink { target: LinkTarget },
}

/// What reading the `current` symlink gave.
#[derive(Debug)]
pub enum LinkTarget {
    /// Reading it failed; the message says what was being read.
    Unreadable { message: String },
    /// It disappeared before it could be read.
    Vanished,
    /// Its target (joined onto the package root when relative), whether the
    /// target exists, and whether it lies inside `releases/`.
    Found { target: String, exists: bool, inside_releases: bool },
}

/// What was read from one package store for verification.
#[derive(Debug)]
pub struct LayoutObservation {
    pub name: String,
    pub releases_dir: String,
    pub current: String,
    /// Whether `releases/` is a directory.
    pub releases_is_dir: bool,
    /// The entries of `releases/` (each with whether `current` points at it),
    /// or the error that listing it gave.
    pub releases_listing: Result<Vec<ReleaseEntry>, String>,
    /// The entries directly under the package root; none when it cannot be
    /// listed.
    pub root_entries: Vec<RootEntry>,
    pub current_link: CurrentLink,
}

/// A check as a status and a message.
pub type CheckLine = (VerificationStatus, Seq<char>);

/// The status and message of each check.
pub open spec fn check_lines(checks: Seq<VerificationCheck>) -> Seq<CheckLine> {
    checks.map_values(|c: VerificationCheck| (c.status, c.message@))
}

/// A single check.
pub open spec fn line(status: VerificationStatus, message: Seq<char>) -> Seq<CheckLine> {
    seq![(status, message)]
}

/// The names that belong under a package root.
pub open spec fn expected_root_entry(name: Seq<char>) -> bool {
    name == "current"@ || name == "releases"@ || name == "install.lock"@
}

/// A warning for each entry under the package root that does not belong
/// there.
pub open spec fn root_entry_checks(entries: Seq<RootEntry>) -> Seq<CheckLine>
    decreases entries.len(),
{
    if entries.len() == 0 {
        Seq::<CheckLine>::empty()
    } else {
        let earlier = root_entry_checks(entries.drop_last());
        if expected_root_entry(entries.last().name@) {
            earlier
        } else {
            earlier + line(
                VerificationStatus::Warning,
                "unexpected entry under package root: "@ + entries.last().path@,
            )
        }
    }
}

/// `current` points at a target that could be read.
pub open spec fn has_target(obs: LayoutObservation) -> bool {
    obs.current_link matches CurrentLink::Symlink { target: LinkTarget::Found { .. } }
}

/// The checks on the `current` symlink.
pub open spec fn current_checks(obs: LayoutObservation) -> Seq<CheckLine> {
    match obs.current_link {
        CurrentLink::Missing => line(
            VerificationStatus::Error,
            "current symlink is missing: "@ + obs.current@,
        ),
        CurrentLink::Uninspectable { error } => line(
            VerificationStatus::Error,
            "failed to inspect current symlink: "@ + obs.current@ + " ("@ + error@ + ")"@,
        ),
        CurrentLink::NotSymlink => line(
            VerificationStatus::Pass,
            "current symlink exists: "@ + obs.current@,
        ) + line(VerificationStatus::Error, "current exists but is not a symlink"@),
        CurrentLink::Symlink { target } => line(
            VerificationStatus::Pass,
            "current symlink exists: "@ + obs.current@,
        ) + line(VerificationStatus::Pass, "current is a symlink"@) + match target {
            LinkTarget::Unreadable { message } => line(
                VerificationStatus::Error,
                "failed to read current symlink: "@ + message@,
            ),
            LinkTarget::Vanished => Seq::<CheckLine>::empty(),
            LinkTarget::Found { target, exists, inside_releases } => (if exists {
                line(VerificationStatus::Pass, "current target exists: "@ + target@)
            } else {
                line(VerificationStatus::Error, "current symlink is dangling: "@ + target@)
            }) + (if inside_releases {
                line(
                    VerificationStatus::Pass,
                    "current target resides inside releases/: "@ + target@,
                )
            } else {
                line(VerificationStatus::Error, "current target is outside releases/: "@ + target@)
            }),
        },
    }
}

/// The number of releases that are active.
pub open spec fn active_count(s: Seq<ReleaseInfo>) -> int {
    sum_of(
        s,
        |r: ReleaseInfo|
            if r.active {
                1int
            } else {
                0int
            },
    )
}

/// The number of release entries whose directory `current` points at.
pub open spec fn active_release_entries(entries: Seq<ReleaseEntry>) -> int
    decreases entries.len(),
{
    if entries.len() == 0 {
        0
    } else {
        active_release_entries(entries.drop_last()) + if is_release_entry(entries.last())
            && entries.last() matches ReleaseEntry::Directory { active: true, .. } {
            1int
        } else {
            0int
        }
    }
}

/// The check that exactly one release is active.
pub open spec fn active_checks(obs: LayoutObservation, entries: Seq<ReleaseEntry>) -> Seq<
    CheckLine,
> {
    if has_target(obs) {
        let n = active_release_entries(entries);
        if n == 1 {
            line(VerificationStatus::Pass, "active release appears exactly once"@)
        } else {
            line(
                VerificationStatus::Error,
                "active release appears "@ + decimal(n as nat) + " times"@,
            )
        }
    } else {
        line(
            VerificationStatus::Error,
            "active release cannot be checked without a readable current symlink"@,
        )
    }
}

/// The checks on the release directories, made when `releases/` can be
/// listed.
pub open spec fn release_checks(obs: LayoutObservation) -> Seq<CheckLine> {
    match obs.releases_listing {
        Err(_) => Seq::<CheckLine>::empty(),
        Ok(entries) => match first_failure(obs.releases_dir@, entries@) {
            Some(m) => line(
                VerificationStatus::Error,
                "failed to inspect release directories: "@ + m,
            ),
            None => warnings_of(obs.releases_dir@, entries@).map_values(
                |w: Seq<char>| (VerificationStatus::Warning, w),
            ) + active_checks(obs, entries@),
        },
    }
}

/// Every check made on one package store, in order.
pub open spec fn layout_checks(obs: LayoutObservation) -> Seq<CheckLine> {
    (if obs.releases_is_dir {
        line(VerificationStatus::Pass, "releases directory exists: "@ + obs.releases_dir@)
    } else {
        line(VerificationStatus::Error, "releases directory is missing: "@ + obs.releases_dir@)
    }) + match obs.releases_listing {
        Ok(_) => line(
            VerificationStatus::Pass,
            "releases directory is readable: "@ + obs.releases_dir@,
        ),
        Err(error) => line(
            VerificationStatus::Error,
            "releases directory is not readable: "@ + obs.releases_dir@ + " ("@ + error@ + ")"@,
        ),
    } + root_entry_checks(obs.root_entries@) + current_checks(obs) + release_checks(obs)
}

/// Each check with the package name in front of its message.
pub open spec fn prefixed(name: Seq<char>, checks: Seq<CheckLine>) -> Seq<CheckLine> {
    checks.map_values(|c: CheckLine| (c.0, name + ": "@ + c.1))
}

/// The checks of every present package store, store by store.
pub open spec fn stores_checks(stores: Seq<LayoutObservation>) -> Seq<CheckLine>
    decreases stores.len(),
{
    if stores.len() == 0 {
        Seq::<CheckLine>::empty()
    } else {
        stores_checks(stores.drop_last()) + prefixed(
            stores.last().name@,
            layout_checks(stores.last()),
        )
    }
}

/// The checks of a Codex root: those of its present package stores, or an
/// error when there is none.
pub open spec fn report_checks(packages_dir: Seq<char>, stores: Seq<LayoutObservation>) -> Seq<
    CheckLine,
> {
    if stores.len() == 0 {
        line(VerificationStatus::Error, "no Codex release cache found under "@ + packages_dir)
    } else {
        stores_checks(stores)
    }
}

// ---------------------------------------------------------------------------
// Counting active releases
// ---------------------------------------------------------------------------

proof fn lemma_active_count_insert(s: Seq<ReleaseInfo>, p: int, r: ReleaseInfo)
    requires
        0 <= p <= s.len(),
    ensures
        active_count(s.insert(p, r)) == active_count(s) + if r.active {
            1int
        } else {
            0int
        },
{
    let f = |r: ReleaseInfo|
        if r.active {
            1int
        } else {
            0int
        };
    assert(s.insert(p, r) =~= s.take(p) + seq![r] + s.skip(p));
    assert(s =~= s.take(p) + s.skip(p));
    lemma_sum_concat(s.take(p) + seq![r], s.skip(p), f);
    lemma_sum_concat(s.take(p), seq![r], f);
    lemma_sum_concat(s.take(p), s.skip(p), f);
    let single = seq![r];
    assert(single.drop_last() =~= Seq::<ReleaseInfo>::empty());
    assert(sum_of(single.drop_last(), f) == 0);
    assert(single.last() == r);
    assert(sum_of(single, f) == f(r));
}

proof fn lemma_active_count_sorted(s: Seq<ReleaseInfo>)
    ensures
        active_count(sort_releases(s)) == active_count(s),
    decreases s.len(),
{
    if s.len() > 0 {
        lemma_active_count_sorted(s.drop_last());
        let sorted = sort_releases(s.drop_last());
        crate::discover::lemma_insert_position_bounds(sorted, s.last(), 0);
        lemma_active_count_insert(
            sorted,
            crate::discover::insert_position(sorted, s.last(), 0),
            s.last(),
        );
    }
}

proof fn lemma_active_count_entries(
    dir: Seq<char>,
    entries: Seq<ReleaseEntry>,
    found: Seq<ReleaseInfo>,
)
    requires
        releases_of_entries(""@, dir, entries, found),
    ensures
        active_count(found) == active_release_entries(entries),
    decreases entries.len(),
{
    if entries.len() > 0 {
        if is_release_entry(entries.last()) {
            lemma_active_count_entries(dir, entries.drop_last(), found.drop_last());
        } else {
            lemma_active_count_entries(dir, entries.drop_last(), found);
        }
    }
}

// ---------------------------------------------------------------------------
// Building checks
// ---------------------------------------------------------------------------

fn push_check(checks: &mut Vec<VerificationCheck>, status: VerificationStatus, message: String)
    ensures
        check_lines(final(checks)@) == check_lines(old(checks)@) + line(status, message@),
{
    checks.push(VerificationCheck { status, message });
    assert(check_lines(final(checks)@) =~= check_lines(old(checks)@) + line(status, message@));
}

/// Records a passed check.
fn pass(checks: &mut Vec<VerificationCheck>, message: String)
    ensures
        check_lines(final(checks)@) == check_lines(old(checks)@) + line(
            VerificationStatus::Pass,
            message@,
        ),
{
    push_check(checks, VerificationStatus::Pass, message);
}

/// Records a warning.
fn warning_check(checks: &mut Vec<VerificationCheck>, message: String)
    ensures
        check_lines(final(checks)@) == check_lines(old(checks)@) + line(
            VerificationStatus::Warning,
            message@,
        ),
{
    push_check(checks, VerificationStatus::Warning, message);
}

/// Records a failed check.
fn error_check(checks: &mut Vec<VerificationCheck>, message: String)
    ensures
        check_lines(final(checks)@) == check_lines(old(checks)@) + line(
            VerificationStatus::Error,
            message@,
        ),
{
    push_check(checks, VerificationStatus::Error, message);
}

/// Records a check that passes or fails with the given status.
fn check(
    checks: &mut Vec<VerificationCheck>,
    passed: bool,
    pass_message: String,
    failure_status: VerificationStatus,
    failure_message: String,
)
    ensures
        check_lines(final(checks)@) == check_lines(old(checks)@) + if passed {
            line(VerificationStatus::Pass, pass_message@)
        } else {
            line(failure_status, failure_message@)
        },
{
    if passed {
        pass(checks, pass_message);
    } else {
        push_check(checks, failure_status, failure_message);
    }
}

/// `prefix` followed by `rest`.
fn text_of(prefix: &str, rest: &str) -> (t: String)
    ensures
        t@ == prefix@ + rest@,
{
    let mut t = String::from_str(prefix);
    t.append(rest);
    t
}

/// `prefix`, `middle`, ` (`, `detail` and `)`.
fn text_with_detail(prefix: &str, middle: &str, detail: &str) -> (t: String)
    ensures
        t@ == prefix@ + middle@ + " ("@ + detail@ + ")"@,
{
    let mut t = String::from_str(prefix);
    t.append(middle);
    t.append(" (");
    t.append(detail);
    t.append(")");
    t
}

/// Whether two strings hold the same characters.
pub fn text_equals(a: &str, b: &str) -> (equal: bool)
    ensures
        equal == (a@ == b@),
{
    let n = a.unicode_len();
    if n != b.unicode_len() {
        return false;
    }
    let mut i: usize = 0;
    while i < n
        invariant
            n == a@.len(),
            n == b@.len(),
            i <= n,
            a@.take(i as int) == b@.take(i as int),
        decreases n - i,
    {
        if a.get_char(i) != b.get_char(i) {
            assert(a@[i as int] != b@[i as int]);
            return false;
        }
        assert(a@.take(i as int + 1) =~= a@.take(i as int).push(a@[i as int]));
        assert(b@.take(i as int + 1) =~= b@.take(i as int).push(b@[i as int]));
        i = i + 1;
    }
    assert(a@.take(n as int) =~= a@);
    assert(b@.take(n as int) =~= b@);
    true
}

/// Warns about every entry under the package root that does not belong there.
fn warn_about_unexpected_layout(checks: &mut Vec<VerificationCheck>, entries: &Vec<RootEntry>)
    ensures
        check_lines(final(checks)@) == check_lines(old(checks)@) + root_entry_checks(entries@),
{
    let mut i: usize = 0;
    assert(entries@.take(0) =~= Seq::<RootEntry>::empty());
    assert(check_lines(checks@) =~= check_lines(old(checks)@) + Seq::<CheckLine>::empty());
    while i < entries.len()
        invariant
            i <= entries.len(),
            check_lines(checks@) == check_lines(old(checks)@) + root_entry_checks(
                entries@.take(i as int),
            ),
        decreases entries.len() - i,
    {
        proof {
            assert(entries@.take(i as int + 1).drop_last() =~= entries@.take(i as int));
            assert(entries@.take(i as int + 1).last() == entries@[i as int]);
            reveal_strlit("current");
            reveal_strlit("releases");
            reveal_strlit("install.lock");
        }
        let name = entries[i].name.as_str();
        let expected = text_equals(name, "current") || text_equals(name, "releases")
            || text_equals(name, "install.lock");
        if !expected {
            let ghost before = check_lines(checks@);
            warning_check(
                checks,
                text_of("unexpected entry under package root: ", entries[i].path.as_str()),
            );
            assert(check_lines(checks@) =~= check_lines(old(checks)@) + root_entry_checks(
                entries@.take(i as int + 1),
            ));
        }
        i = i + 1;
    }
    assert(entries@.take(entries@.len() as int) =~= entries@);
}

/// Records the checks on the `current` symlink.
fn check_current(checks: &mut Vec<VerificationCheck>, obs: &LayoutObservation)
    ensures
        check_lines(final(checks)@) == check_lines(old(checks)@) + current_checks(*obs),
{
    let ghost start = check_lines(checks@);
    match &obs.current_link {
        CurrentLink::Missing => {
            error_check(checks, text_of("current symlink is missing: ", obs.current.as_str()));
        },
        CurrentLink::Uninspectable { error } => {
            error_check(
                checks,
                text_with_detail(
                    "failed to inspect current symlink: ",
                    obs.current.as_str(),
                    error.as_str(),
                ),
            );
        },
        CurrentLink::NotSymlink => {
            pass(checks, text_of("current symlink exists: ", obs.current.as_str()));
            error_check(checks, String::from_str("current exists but is not a symlink"));
        },
        CurrentLink::Symlink { target } => {
            pass(checks, text_of("current symlink exists: ", obs.current.as_str()));
            pass(checks, String::from_str("current is a symlink"));
            let ghost middle = check_lines(checks@);
            match target {
                LinkTarget::Unreadable { message } => {
                    error_check(checks, text_of("failed to read current symlink: ", message.as_str()));
                },
                LinkTarget::Vanished => {},
                LinkTarget::Found { target, exists, inside_releases } => {
                    if *exists {
                        pass(checks, text_of("current target exists: ", target.as_str()));
                    } else {
                        error_check(checks, text_of("current symlink is dangling: ", target.as_str()));
                    }
                    check(
                        checks,
                        *inside_releases,
                        text_of("current target resides inside releases/: ", target.as_str()),
                        VerificationStatus::Error,
                        text_of("current target is outside releases/: ", target.as_str()),
                    );
                },
            }
        },
    }
    assert(check_lines(checks@) =~= start + current_checks(*obs));
}

/// Records the checks on the release directories.
fn check_releases(
    checks: &mut Vec<VerificationCheck>,
    obs: &LayoutObservation,
    entries: &Vec<ReleaseEntry>,
)
    requires
        obs.releases_listing == Ok::<Vec<ReleaseEntry>, String>(*entries),
    ensures
        check_lines(final(checks)@) == check_lines(old(checks)@) + release_checks(*obs),
{
    let ghost start = check_lines(checks@);
    match discover_releases("", obs.releases_dir.as_str(), entries) {
        Ok((releases, warnings)) => {
            let mut i: usize = 0;
            let ghost w = warnings_of(obs.releases_dir@, entries@);
            let ghost as_checks = w.map_values(|m: Seq<char>| (VerificationStatus::Warning, m));
            assert(texts(warnings@) == w);
            while i < warnings.len()
                invariant
                    i <= warnings.len(),
                    texts(warnings@) == w,
                    as_checks == w.map_values(|m: Seq<char>| (VerificationStatus::Warning, m)),
                    check_lines(checks@) == start + as_checks.take(i as int),
                decreases warnings.len() - i,
            {
                warning_check(checks, warnings[i].clone());
                proof {
                    assert(texts(warnings@)[i as int] == warnings@[i as int]@);
                    assert(as_checks.take(i as int + 1) =~= as_checks.take(i as int).push(
                        as_checks[i as int],
                    ));
                }
                i = i + 1;
            }
            assert(as_checks.take(w.len() as int) =~= as_checks);
            let mut active: usize = 0;
            let mut j: usize = 0;
            let ghost f = |r: ReleaseInfo|
                if r.active {
                    1int
                } else {
                    0int
                };
            while j < releases.len()
                invariant
                    j <= releases.len(),
                    f == (|r: ReleaseInfo|
                        if r.active {
                            1int
                        } else {
                            0int
                        }),
                    active == sum_of(releases@.take(j as int), f),
                    active <= j,
                decreases releases.len() - j,
            {
                proof {
                    crate::sums::lemma_sum_take_next(releases@, f, j as int);
                }
                if releases[j].active {
                    active = active + 1;
                }
                j = j + 1;
            }
            proof {
                crate::sums::lemma_sum_take_all(releases@, f);
                let found = choose|found: Seq<ReleaseInfo>|
                    releases_of_entries(""@, obs.releases_dir@, entries@, found) && releases@
                        == sort_releases(found);
                lemma_active_count_sorted(found);
                lemma_active_count_entries(obs.releases_dir@, entries@, found);
            }
            match &obs.current_link {
                CurrentLink::Symlink { target: LinkTarget::Found { .. } } => {
                    if active == 1 {
                        pass(checks, String::from_str("active release appears exactly once"));
                    } else {
                        let mut message = String::from_str("active release appears ");
                        push_decimal(&mut message, active as u64);
                        message.append(" times");
                        error_check(checks, message);
                    }
                },
                _ => {
                    error_check(
                        checks,
                        String::from_str(
                            "active release cannot be checked without a readable current symlink",
                        ),
                    );
                },
            }
        },
        Err(message) => {
            error_check(checks, text_of("failed to inspect release directories: ", message.as_str()));
        },
    }
    assert(check_lines(checks@) =~= start + release_checks(*obs));
}

/// Records every check on one package store.
pub fn verify_package(checks: &mut Vec<VerificationCheck>, obs: &LayoutObservation)
    ensures
        check_lines(final(checks)@) == check_lines(old(checks)@) + layout_checks(*obs),
{
    let ghost start = check_lines(checks@);
    check(
        checks,
        obs.releases_is_dir,
        text_of("releases directory exists: ", obs.releases_dir.as_str()),
        VerificationStatus::Error,
        text_of("releases directory is missing: ", obs.releases_dir.as_str()),
    );
    match &obs.releases_listing {
        Ok(_) => {
            pass(checks, text_of("releases directory is readable: ", obs.releases_dir.as_str()));
        },
        Err(error) => {
            error_check(
                checks,
                text_with_detail(
                    "releases directory is not readable: ",
                    obs.releases_dir.as_str(),
                    error.as_str(),
                ),
            );
        },
    }
    warn_about_unexpected_layout(checks, &obs.root_entries);
    check_current(checks, obs);
    match &obs.releases_listing {
        Ok(entries) => {
            check_releases(checks, obs, entries);
        },
        Err(_) => {},
    }
    assert(check_lines(checks@) =~= start + layout_checks(*obs));
}

/// Verifies the package stores that are present under a Codex root, each
/// check named after its store; with no store present the report holds a
/// single error.
pub fn verify_report(packages_dir: &str, stores: &Vec<LayoutObservation>) -> (report:
    VerificationReport)
    ensures
        check_lines(report.checks@) == report_checks(packages_dir@, stores@),
{
    let mut checks: Vec<VerificationCheck> = Vec::new();
    if stores.len() == 0 {
        error_check(&mut checks, text_of("no Codex release cache found under ", packages_dir));
        assert(check_lines(checks@) =~= report_checks(packages_dir@, stores@));
        return VerificationReport { checks };
    }
    let mut i: usize = 0;
    assert(stores@.take(0) =~= Seq::<LayoutObservation>::empty());
    assert(check_lines(checks@) =~= Seq::<CheckLine>::empty());
    while i < stores.len()
        invariant
            i <= stores.len(),
            check_lines(checks@) == stores_checks(stores@.take(i as int)),
        decreases stores.len() - i,
    {
        let store = &stores[i];
        let mut own: Vec<VerificationCheck> = Vec::new();
        verify_package(&mut own, store);
        assert(check_lines(own@) =~= layout_checks(*store));
        let ghost start = check_lines(checks@);
        let mut j: usize = 0;
        while j < own.len()
            invariant
                j <= own.len(),
                check_lines(own@) == layout_checks(*store),
                check_lines(checks@) == start + prefixed(store.name@, check_lines(own@).take(j as int)),
            decreases own.len() - j,
        {
            let mut message = store.name.clone();
            message.append(": ");
            message.append(own[j].message.as_str());
            push_check(&mut checks, own[j].status, message);
            assert(prefixed(store.name@, check_lines(own@).take(j as int + 1)) =~= prefixed(
                store.name@,
                check_lines(own@).take(j as int),
            ) + line(own@[j as int].status, message@));
            j = j + 1;
        }
        proof {
            assert(check_lines(own@).take(own@.len() as int) =~= check_lines(own@));
            assert(stores@.take(i as int + 1).drop_last() =~= stores@.take(i as int));
            assert(stores@.take(i as int + 1).last() == *store);
        }
        i = i + 1;
    }
    assert(stores@.take(stores@.len() as int) =~= stores@);
    VerificationReport { checks }
}

// ---------------------------------------------------------------------------
// Laws
// ---------------------------------------------------------------------------

/// No check failed.
pub open spec fn no_errors(lines: Seq<CheckLine>) -> bool {
    forall|i: int| 0 <= i < lines.len() ==> (#[trigger] lines[i]).0 != VerificationStatus::Error
}

proof fn lemma_no_errors_concat(a: Seq<CheckLine>, b: Seq<CheckLine>)
    requires
        no_errors(a),
        no_errors(b),
    ensures
        no_errors(a + b),
{
    assert forall|i: int| 0 <= i < (a + b).len() implies (#[trigger] (a + b)[i]).0
        != VerificationStatus::Error by {
        if i < a.len() {
            assert((a + b)[i] == a[i]);
        } else {
            assert((a + b)[i] == b[i - a.len()]);
        }
    }
}

proof fn lemma_root_entry_checks_warn_only(entries: Seq<RootEntry>)
    ensures
        no_errors(root_entry_checks(entries)),
    decreases entries.len(),
{
    if entries.len() > 0 {
        lemma_root_entry_checks_warn_only(entries.drop_last());
        let earlier = root_entry_checks(entries.drop_last());
        if !expected_root_entry(entries.last().name@) {
            lemma_no_errors_concat(
                earlier,
                line(
                    VerificationStatus::Warning,
                    "unexpected entry under package root: "@ + entries.last().path@,
                ),
            );
        }
    }
}

/// A package store whose `releases/` is a readable directory whose releases
/// can all be measured, whose `current` symlink points at an existing target
/// inside `releases/`, and of which exactly one release is active, passes
/// verification: it may draw warnings, but no check fails.
pub proof fn law_sound_store_passes_verification(obs: LayoutObservation)
    requires
        obs.releases_is_dir,
        obs.releases_listing matches Ok(entries) && first_failure(obs.releases_dir@, entries@)
            is None && active_release_entries(entries@) == 1,
        obs.current_link matches CurrentLink::Symlink {
            target: LinkTarget::Found { exists: true, inside_releases: true, .. },
        },
    ensures
        no_errors(layout_checks(obs)),
{
    let entries = obs.releases_listing->Ok_0;
    lemma_root_entry_checks_warn_only(obs.root_entries@);
    let first = line(VerificationStatus::Pass, "releases directory exists: "@ + obs.releases_dir@);
    let second = line(
        VerificationStatus::Pass,
        "releases directory is readable: "@ + obs.releases_dir@,
    );
    let warnings = warnings_of(obs.releases_dir@, entries@).map_values(
        |w: Seq<char>| (VerificationStatus::Warning, w),
    );
    assert(no_errors(warnings));
    assert(no_errors(first));
    assert(no_errors(second));
    assert(no_errors(current_checks(obs)));
    assert(no_errors(active_checks(obs, entries@)));
    lemma_no_errors_concat(warnings, active_checks(obs, entries@));
    lemma_no_errors_concat(first, second);
    lemma_no_errors_concat(first + second, root_entry_checks(obs.root_entries@));
    lemma_no_errors_concat(
        first + second + root_entry_checks(obs.root_entries@),
        current_checks(obs),
    );
    lemma_no_errors_concat(
        first + second + root_entry_checks(obs.root_entries@) + current_checks(obs),
        release_checks(obs),
    );
}

} // verus!
