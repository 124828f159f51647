//! The reports shown to people: scan, report, list, clean dry run, clean
//! result and verification.

use vstd::prelude::*;
use vstd::string::*;

use crate::clean::{keep_policy_text, status_text};
use crate::discover::all_releases_of;
use crate::model::{
    count_status, release_bytes, saturating_diff, scan_current,
    scan_reclaim_keeping_previous, scan_total, CacheScan, CleanupFailure, CleanupResult,
    DeletionPlan, PackageScan, ReleaseInfo, VerificationCheck, VerificationReport,
};
use crate::sums::{lemma_sum_element_le, lemma_sum_nonneg, lemma_sum_prefix_le, lemma_sum_take_all, lemma_sum_take_next, nonneg_on, sum_of};
use crate::text::{
    decimal, format_bytes, format_bytes_text, pad_end, pad_start, push_decimal, push_padded_end,
    push_padded_start,
};

verus! {

// ---------------------------------------------------------------------------
// Building blocks
// ---------------------------------------------------------------------------

/// The texts of `f` over `s`, one after another.
pub open spec fn concat_map<T>(s: Seq<T>, f: spec_fn(T) -> Seq<char>) -> Seq<char>
    decreases s.len(),
{
    if s.len() == 0 {
        Seq::<char>::empty()
    } else {
        concat_map(s.drop_last(), f) + f(s.last())
    }
}

proof fn lemma_concat_map_next<T>(s: Seq<T>, f: spec_fn(T) -> Seq<char>, i: int)
    requires
        0 <= i < s.len(),
    ensures
        concat_map(s.take(i + 1), f) == concat_map(s.take(i), f) + f(s[i]),
{
    assert(s.take(i + 1).drop_last() =~= s.take(i));
}

proof fn lemma_concat_map_all<T>(s: Seq<T>, f: spec_fn(T) -> Seq<char>)
    ensures
        concat_map(s.take(s.len() as int), f) == concat_map(s, f),
{
    assert(s.take(s.len() as int) =~= s);
}

proof fn lemma_concat_map_empty<T>(s: Seq<T>, f: spec_fn(T) -> Seq<char>)
    ensures
        concat_map(s.take(0), f) == Seq::<char>::empty(),
{
    assert(s.take(0) =~= Seq::<T>::empty());
}

/// A warning line.
pub open spec fn warning_line_fn() -> spec_fn(String) -> Seq<char> {
    |w: String| "  "@ + w@ + "\n"@
}

/// The warnings of a package, under a heading, or nothing without warnings.
pub open spec fn warnings_block(warnings: Seq<String>) -> Seq<char> {
    if warnings.len() == 0 {
        Seq::<char>::empty()
    } else {
        "\nWarnings:\n"@ + concat_map(warnings, warning_line_fn())
    }
}

/// Appends the warnings of a package.
fn append_warnings(output: &mut String, warnings: &Vec<String>)
    ensures
        final(output)@ == old(output)@ + warnings_block(warnings@),
{
    if warnings.len() == 0 {
        assert(final(output)@ =~= old(output)@ + warnings_block(warnings@));
        return;
    }
    output.append("\nWarnings:\n");
    let ghost start = output@;
    let mut i: usize = 0;
    proof {
        lemma_concat_map_empty(warnings@, warning_line_fn());
    }
    while i < warnings.len()
        invariant
            i <= warnings.len(),
            output@ == start + concat_map(warnings@.take(i as int), warning_line_fn()),
        decreases warnings.len() - i,
    {
        output.append("  ");
        output.append(warnings[i].as_str());
        output.append("\n");
        proof {
            lemma_concat_map_next(warnings@, warning_line_fn(), i as int);
        }
        i = i + 1;
        assert(output@ =~= start + concat_map(warnings@.take(i as int), warning_line_fn()));
    }
    proof {
        lemma_concat_map_all(warnings@, warning_line_fn());
    }
    assert(final(output)@ =~= old(output)@ + warnings_block(warnings@));
}

/// An optional text, or a fallback.
pub open spec fn text_or(t: Option<String>, fallback: Seq<char>) -> Seq<char> {
    match t {
        Some(t) => t@,
        None => fallback,
    }
}

fn push_text_or(output: &mut String, t: &Option<String>, fallback: &str)
    ensures
        final(output)@ == old(output)@ + text_or(*t, fallback@),
{
    match t {
        Some(t) => output.append(t.as_str()),
        None => output.append(fallback),
    }
}

// ---------------------------------------------------------------------------
// Scan
// ---------------------------------------------------------------------------

/// A release line of the scan.
pub open spec fn scan_release_line_fn() -> spec_fn(ReleaseInfo) -> Seq<char> {
    |r: ReleaseInfo|
        "  "@ + pad_end(r.display_version@, 12) + " "@ + pad_start(format_bytes_text(r.size as nat), 10)
            + "  "@ + (if r.active {
            "active  "@
        } else {
            "inactive"@
        }) + "  "@ + r.path@ + "\n"@
}

/// A labelled line.
pub open spec fn field(label: Seq<char>, value: Seq<char>) -> Seq<char> {
    label + value + "\n"@
}

/// The name and paths of a package's scan section.
pub open spec fn scan_package_paths(p: PackageScan) -> Seq<char> {
    field("\n"@, p.name@ + ":"@) + field("Package root:    "@, p.root@) + field(
        "Releases dir:    "@,
        p.releases_dir@,
    )
}

/// The current target and version of a package's scan section.
pub open spec fn scan_package_state(p: PackageScan) -> Seq<char> {
    field("Current target:  "@, text_or(p.current_target, "not found"@)) + field(
        "Current version: "@,
        text_or(p.current_version, "unknown"@),
    ) + "Installed releases:\n"@ + (if p.releases@.len() == 0 {
        "  none\n"@
    } else {
        Seq::<char>::empty()
    })
}

/// The heading of a package's scan section.
pub open spec fn scan_package_header(p: PackageScan) -> Seq<char> {
    scan_package_paths(p) + scan_package_state(p)
}

/// The scan section of one package.
pub open spec fn scan_package_block(p: PackageScan) -> Seq<char> {
    scan_package_header(p) + concat_map(p.releases@, scan_release_line_fn()) + warnings_block(
        p.warnings@,
    )
}

/// A scan section for each package.
pub open spec fn scan_package_block_fn() -> spec_fn(PackageScan) -> Seq<char> {
    |p: PackageScan| scan_package_block(p)
}

/// The text of a scan.
pub open spec fn scan_text(scan: CacheScan) -> Seq<char> {
    "Codex release cache scan\n"@ + "Codex root:      "@ + scan.codex_root@ + "\n"@ + concat_map(
        scan.packages@,
        scan_package_block_fn(),
    )
}

fn push_scan_release(output: &mut String, r: &ReleaseInfo)
    ensures
        final(output)@ == old(output)@ + scan_release_line_fn()(*r),
{
    output.append("  ");
    push_padded_end(output, r.display_version.as_str(), 12);
    output.append(" ");
    let size = format_bytes(r.size);
    push_padded_start(output, size.as_str(), 10);
    output.append("  ");
    if r.active {
        output.append("active  ");
    } else {
        output.append("inactive");
    }
    output.append("  ");
    output.append(r.path.as_str());
    output.append("\n");
    assert(final(output)@ =~= old(output)@ + scan_release_line_fn()(*r));
}

/// Appends a labelled line.
fn push_field(output: &mut String, label: &str, value: &str)
    ensures
        final(output)@ == old(output)@ + field(label@, value@),
{
    output.append(label);
    output.append(value);
    output.append("\n");
    assert(final(output)@ =~= old(output)@ + field(label@, value@));
}

fn push_scan_header(output: &mut String, p: &PackageScan)
    ensures
        final(output)@ == old(output)@ + scan_package_header(*p),
{
    let mut title = p.name.clone();
    title.append(":");
    push_field(output, "\n", title.as_str());
    push_field(output, "Package root:    ", p.root.as_str());
    push_field(output, "Releases dir:    ", p.releases_dir.as_str());
    let ghost middle = output@;
    assert(middle =~= old(output)@ + scan_package_paths(*p));
    let target = match &p.current_target {
        Some(t) => t.clone(),
        None => String::from_str("not found"),
    };
    push_field(output, "Current target:  ", target.as_str());
    let version = match &p.current_version {
        Some(v) => v.clone(),
        None => String::from_str("unknown"),
    };
    push_field(output, "Current version: ", version.as_str());
    output.append("Installed releases:\n");
    if p.releases.len() == 0 {
        output.append("  none\n");
    }
    assert(final(output)@ =~= middle + scan_package_state(*p));
}

fn push_scan_package(output: &mut String, p: &PackageScan)
    ensures
        final(output)@ == old(output)@ + scan_package_block(*p),
{
    push_scan_header(output, p);
    let ghost start = output@;
    let mut i: usize = 0;
    proof {
        lemma_concat_map_empty(p.releases@, scan_release_line_fn());
    }
    while i < p.releases.len()
        invariant
            i <= p.releases.len(),
            output@ == start + concat_map(p.releases@.take(i as int), scan_release_line_fn()),
        decreases p.releases.len() - i,
    {
        push_scan_release(output, &p.releases[i]);
        proof {
            lemma_concat_map_next(p.releases@, scan_release_line_fn(), i as int);
        }
        i = i + 1;
        assert(output@ =~= start + concat_map(p.releases@.take(i as int), scan_release_line_fn()));
    }
    proof {
        lemma_concat_map_all(p.releases@, scan_release_line_fn());
    }
    append_warnings(output, &p.warnings);
    assert(final(output)@ =~= old(output)@ + scan_package_block(*p));
}

/// Shows the releases and paths a scan found, package by package.
pub fn render_scan(scan: &CacheScan) -> (output: String)
    ensures
        output@ == scan_text(*scan),
{
    let mut output = String::new();
    output.append("Codex release cache scan\n");
    output.append("Codex root:      ");
    output.append(scan.codex_root.as_str());
    output.append("\n");
    let ghost start = output@;
    let mut i: usize = 0;
    proof {
        lemma_concat_map_empty(scan.packages@, scan_package_block_fn());
    }
    while i < scan.packages.len()
        invariant
            i <= scan.packages.len(),
            output@ == start + concat_map(scan.packages@.take(i as int), scan_package_block_fn()),
        decreases scan.packages.len() - i,
    {
        push_scan_package(&mut output, &scan.packages[i]);
        proof {
            lemma_concat_map_next(scan.packages@, scan_package_block_fn(), i as int);
        }
        i = i + 1;
        assert(output@ =~= start + concat_map(
            scan.packages@.take(i as int),
            scan_package_block_fn(),
        ));
    }
    proof {
        lemma_concat_map_all(scan.packages@, scan_package_block_fn());
    }
    assert(output@ =~= scan_text(*scan));
    output
}

// ---------------------------------------------------------------------------
// Shared pieces of the report and the list
// ---------------------------------------------------------------------------

/// The warnings of a package, as a function.
pub open spec fn package_warnings_fn() -> spec_fn(PackageScan) -> Seq<char> {
    |p: PackageScan| warnings_block(p.warnings@)
}

fn push_all_warnings(output: &mut String, packages: &Vec<PackageScan>)
    ensures
        final(output)@ == old(output)@ + concat_map(packages@, package_warnings_fn()),
{
    let ghost start = output@;
    let mut i: usize = 0;
    proof {
        lemma_concat_map_empty(packages@, package_warnings_fn());
    }
    while i < packages.len()
        invariant
            i <= packages.len(),
            output@ == start + concat_map(packages@.take(i as int), package_warnings_fn()),
        decreases packages.len() - i,
    {
        append_warnings(output, &packages[i].warnings);
        proof {
            lemma_concat_map_next(packages@, package_warnings_fn(), i as int);
        }
        i = i + 1;
        assert(output@ =~= start + concat_map(packages@.take(i as int), package_warnings_fn()));
    }
    proof {
        lemma_concat_map_all(packages@, package_warnings_fn());
    }
}

/// No package holds a release.
pub open spec fn no_releases(packages: Seq<PackageScan>) -> bool {
    all_releases_of(packages).len() == 0
}

/// Whether no package of the scan holds a release.
fn has_no_releases(scan: &CacheScan) -> (none: bool)
    ensures
        none == no_releases(scan.packages@),
{
    let mut none = true;
    let mut i: usize = 0;
    assert(scan.packages@.take(0) =~= Seq::<PackageScan>::empty());
    while i < scan.packages.len()
        invariant
            i <= scan.packages.len(),
            none == (all_releases_of(scan.packages@.take(i as int)).len() == 0),
        decreases scan.packages.len() - i,
    {
        proof {
            assert(scan.packages@.take(i as int + 1).drop_last() =~= scan.packages@.take(i as int));
        }
        if scan.packages[i].releases.len() > 0 {
            none = false;
        }
        i = i + 1;
    }
    assert(scan.packages@.take(scan.packages@.len() as int) =~= scan.packages@);
    none
}

// ---------------------------------------------------------------------------
// Report
// ---------------------------------------------------------------------------

/// The versions of the releases, separated by commas.
pub open spec fn joined_versions(s: Seq<ReleaseInfo>) -> Seq<char>
    decreases s.len(),
{
    if s.len() == 0 {
        Seq::<char>::empty()
    } else if s.len() == 1 {
        s[0].display_version@
    } else {
        joined_versions(s.drop_last()) + ", "@ + s.last().display_version@
    }
}

/// The installed versions of a package, or `none`.
pub open spec fn installed_versions_text(p: PackageScan) -> Seq<char> {
    if p.releases@.len() == 0 {
        "none"@
    } else {
        joined_versions(p.releases@)
    }
}

/// Lists the installed versions of a package.
fn installed_versions(scan: &PackageScan) -> (text: String)
    ensures
        text@ == installed_versions_text(*scan),
{
    if scan.releases.len() == 0 {
        return String::from_str("none");
    }
    let mut text = String::new();
    let mut i: usize = 0;
    assert(scan.releases@.take(0) =~= Seq::<ReleaseInfo>::empty());
    while i < scan.releases.len()
        invariant
            i <= scan.releases.len(),
            text@ == joined_versions(scan.releases@.take(i as int)),
        decreases scan.releases.len() - i,
    {
        proof {
            assert(scan.releases@.take(i as int + 1).drop_last() =~= scan.releases@.take(i as int));
            assert(scan.releases@.take(i as int + 1).last() == scan.releases@[i as int]);
        }
        if i > 0 {
            text.append(", ");
        }
        text.append(scan.releases[i].display_version.as_str());
        proof {
            if i == 0 {
                assert(scan.releases@.take(1)[0] == scan.releases@[0]);
                assert(text@ =~= joined_versions(scan.releases@.take(1)));
            } else {
                assert(text@ =~= joined_versions(scan.releases@.take(i as int + 1)));
            }
        }
        i = i + 1;
    }
    assert(scan.releases@.take(scan.releases@.len() as int) =~= scan.releases@);
    text
}

/// The report section of one package.
pub open spec fn report_package_block_fn() -> spec_fn(PackageScan) -> Seq<char> {
    |p: PackageScan|
        "\n"@ + p.name@ + ":\n"@ + "Current version: "@ + text_or(p.current_version, "unknown"@)
            + "\n"@ + "Installed versions: "@ + installed_versions_text(p) + "\n"@
}

/// The first position at or after `from` whose release `r` is larger than.
pub open spec fn size_position(sorted: Seq<ReleaseInfo>, r: ReleaseInfo, from: int) -> int
    decreases sorted.len() - from,
{
    if from < 0 || from >= sorted.len() {
        sorted.len() as int
    } else if r.size > sorted[from].size {
        from
    } else {
        size_position(sorted, r, from + 1)
    }
}

/// Releases from largest to smallest by a stable sort: releases of equal
/// size keep their order.
pub open spec fn sort_by_size(s: Seq<ReleaseInfo>) -> Seq<ReleaseInfo>
    decreases s.len(),
{
    if s.len() == 0 {
        s
    } else {
        let sorted = sort_by_size(s.drop_last());
        sorted.insert(size_position(sorted, s.last(), 0), s.last())
    }
}

/// The largest releases, at most five.
pub open spec fn largest_releases(packages: Seq<PackageScan>) -> Seq<ReleaseInfo> {
    let sorted = sort_by_size(all_releases_of(packages));
    if sorted.len() > 5 {
        sorted.take(5)
    } else {
        sorted
    }
}

/// A line of the largest releases.
pub open spec fn largest_line_fn() -> spec_fn(ReleaseInfo) -> Seq<char> {
    |r: ReleaseInfo|
        "  "@ + pad_end(r.package@, 17) + " "@ + pad_end(r.display_version@, 12) + " "@
            + pad_start(format_bytes_text(r.size as nat), 10) + "  "@ + r.path@ + "\n"@
}

/// The text of a report.
pub open spec fn report_text(scan: CacheScan) -> Seq<char> {
    let total = scan_total(scan.packages@);
    "Codex release cache report\n"@ + concat_map(scan.packages@, report_package_block_fn())
        + "Total cache size: "@ + format_bytes_text(total as nat) + "\n"@
        + "Potential reclaim, keeping current only: "@ + format_bytes_text(
        saturating_diff(total, scan_current(scan.packages@)) as nat,
    ) + "\n"@ + "Potential reclaim, keeping current + previous: "@ + format_bytes_text(
        scan_reclaim_keeping_previous(scan.packages@) as nat,
    ) + "\n\n"@ + "Largest releases:\n"@ + concat_map(
        largest_releases(scan.packages@),
        largest_line_fn(),
    ) + (if no_releases(scan.packages@) {
        "  none\n"@
    } else {
        Seq::<char>::empty()
    }) + concat_map(scan.packages@, package_warnings_fn())
}

/// Orders releases from largest to smallest, keeping the order of releases of
/// equal size.
fn sort_releases_by_size(items: &Vec<ReleaseInfo>) -> (sorted: Vec<ReleaseInfo>)
    ensures
        sorted@ == sort_by_size(items@),
{
    let mut sorted: Vec<ReleaseInfo> = Vec::new();
    let mut i: usize = 0;
    assert(items@.take(0) =~= Seq::<ReleaseInfo>::empty());
    while i < items.len()
        invariant
            i <= items.len(),
            sorted@ == sort_by_size(items@.take(i as int)),
        decreases items.len() - i,
    {
        let item = items[i].clone();
        let mut p: usize = 0;
        while p < sorted.len()
            invariant_except_break
                p <= sorted.len(),
                size_position(sorted@, item, 0) == size_position(sorted@, item, p as int),
            ensures
                p <= sorted.len(),
                size_position(sorted@, item, 0) == p,
            decreases sorted.len() - p,
        {
            if item.size > sorted[p].size {
                break;
            }
            p = p + 1;
        }
        proof {
            assert(items@.take(i as int + 1).drop_last() =~= items@.take(i as int));
            assert(items@.take(i as int + 1).last() == items@[i as int]);
        }
        sorted.insert(p, item);
        i = i + 1;
    }
    assert(items@.take(items@.len() as int) =~= items@);
    sorted
}

fn push_report_package(output: &mut String, p: &PackageScan)
    ensures
        final(output)@ == old(output)@ + report_package_block_fn()(*p),
{
    output.append("\n");
    output.append(p.name.as_str());
    output.append(":\n");
    output.append("Current version: ");
    push_text_or(output, &p.current_version, "unknown");
    output.append("\n");
    output.append("Installed versions: ");
    let versions = installed_versions(p);
    output.append(versions.as_str());
    output.append("\n");
    assert(final(output)@ =~= old(output)@ + report_package_block_fn()(*p));
}

fn push_largest_line(output: &mut String, r: &ReleaseInfo)
    ensures
        final(output)@ == old(output)@ + largest_line_fn()(*r),
{
    output.append("  ");
    push_padded_end(output, r.package.as_str(), 17);
    output.append(" ");
    push_padded_end(output, r.display_version.as_str(), 12);
    output.append(" ");
    let size = format_bytes(r.size);
    push_padded_start(output, size.as_str(), 10);
    output.append("  ");
    output.append(r.path.as_str());
    output.append("\n");
    assert(final(output)@ =~= old(output)@ + largest_line_fn()(*r));
}

/// Summarises versions, cache size, reclaim estimates and the largest
/// releases.
pub fn render_report(scan: &CacheScan) -> (output: String)
    requires
        scan_total(scan.packages@) <= u64::MAX,
    ensures
        output@ == report_text(*scan),
{
    let mut output = String::new();
    output.append("Codex release cache report\n");
    let ghost start = output@;
    let mut i: usize = 0;
    proof {
        lemma_concat_map_empty(scan.packages@, report_package_block_fn());
    }
    while i < scan.packages.len()
        invariant
            i <= scan.packages.len(),
            output@ == start + concat_map(scan.packages@.take(i as int), report_package_block_fn()),
        decreases scan.packages.len() - i,
    {
        push_report_package(&mut output, &scan.packages[i]);
        proof {
            lemma_concat_map_next(scan.packages@, report_package_block_fn(), i as int);
        }
        i = i + 1;
        assert(output@ =~= start + concat_map(
            scan.packages@.take(i as int),
            report_package_block_fn(),
        ));
    }
    proof {
        lemma_concat_map_all(scan.packages@, report_package_block_fn());
    }
    proof {
        crate::model::lemma_current_le_scan_total(scan.packages@);
        crate::model::law_keeping_previous_frees_no_more(scan.packages@);
    }
    output.append("Total cache size: ");
    let total = format_bytes(scan.total_size());
    output.append(total.as_str());
    output.append("\n");
    output.append("Potential reclaim, keeping current only: ");
    let only_current = format_bytes(scan.reclaim_if_only_current_kept());
    output.append(only_current.as_str());
    output.append("\n");
    output.append("Potential reclaim, keeping current + previous: ");
    let with_previous = format_bytes(scan.reclaim_if_current_and_previous_kept());
    output.append(with_previous.as_str());
    output.append("\n\n");
    output.append("Largest releases:\n");
    let all = crate::discover::scan_releases(scan);
    let sorted = sort_releases_by_size(&all);
    let shown: usize = if sorted.len() > 5 {
        5
    } else {
        sorted.len()
    };
    let ghost largest = largest_releases(scan.packages@);
    assert(largest =~= sorted@.take(shown as int));
    let ghost middle = output@;
    let mut j: usize = 0;
    proof {
        lemma_concat_map_empty(largest, largest_line_fn());
    }
    while j < shown
        invariant
            j <= shown,
            shown <= sorted.len(),
            largest == sorted@.take(shown as int),
            output@ == middle + concat_map(largest.take(j as int), largest_line_fn()),
        decreases shown - j,
    {
        push_largest_line(&mut output, &sorted[j]);
        proof {
            assert(largest[j as int] == sorted@[j as int]);
            lemma_concat_map_next(largest, largest_line_fn(), j as int);
        }
        j = j + 1;
        assert(output@ =~= middle + concat_map(largest.take(j as int), largest_line_fn()));
    }
    proof {
        lemma_concat_map_all(largest, largest_line_fn());
    }
    if has_no_releases(scan) {
        output.append("  none\n");
    }
    push_all_warnings(&mut output, &scan.packages);
    assert(output@ =~= report_text(*scan));
    output
}

// ---------------------------------------------------------------------------
// List
// ---------------------------------------------------------------------------

/// A line of the release table.
pub open spec fn list_line_fn() -> spec_fn(ReleaseInfo) -> Seq<char> {
    |r: ReleaseInfo|
        pad_end(r.package@, 18) + " "@ + pad_end(r.display_version@, 11) + " "@ + pad_end(
            if r.active {
                "*"@
            } else {
                ""@
            },
            7,
        ) + " "@ + format_bytes_text(r.size as nat) + "\n"@
}

/// The text of the release table.
pub open spec fn list_text(scan: CacheScan) -> Seq<char> {
    "Package            Version     Active  Size\n"@ + concat_map(
        all_releases_of(scan.packages@),
        list_line_fn(),
    ) + (if no_releases(scan.packages@) {
        "none\n"@
    } else {
        Seq::<char>::empty()
    }) + concat_map(scan.packages@, package_warnings_fn())
}

fn push_list_line(output: &mut String, r: &ReleaseInfo)
    ensures
        final(output)@ == old(output)@ + list_line_fn()(*r),
{
    push_padded_end(output, r.package.as_str(), 18);
    output.append(" ");
    push_padded_end(output, r.display_version.as_str(), 11);
    output.append(" ");
    if r.active {
        push_padded_end(output, "*", 7);
    } else {
        push_padded_end(output, "", 7);
    }
    output.append(" ");
    let size = format_bytes(r.size);
    output.append(size.as_str());
    output.append("\n");
    assert(final(output)@ =~= old(output)@ + list_line_fn()(*r));
}

/// Shows a compact table of every release.
pub fn render_list(scan: &CacheScan) -> (output: String)
    ensures
        output@ == list_text(*scan),
{
    let mut output = String::new();
    output.append("Package            Version     Active  Size\n");
    let all = crate::discover::scan_releases(scan);
    let ghost start = output@;
    let mut i: usize = 0;
    proof {
        lemma_concat_map_empty(all@, list_line_fn());
    }
    while i < all.len()
        invariant
            i <= all.len(),
            output@ == start + concat_map(all@.take(i as int), list_line_fn()),
        decreases all.len() - i,
    {
        push_list_line(&mut output, &all[i]);
        proof {
            lemma_concat_map_next(all@, list_line_fn(), i as int);
        }
        i = i + 1;
        assert(output@ =~= start + concat_map(all@.take(i as int), list_line_fn()));
    }
    proof {
        lemma_concat_map_all(all@, list_line_fn());
    }
    if has_no_releases(scan) {
        output.append("none\n");
    }
    push_all_warnings(&mut output, &scan.packages);
    assert(output@ =~= list_text(*scan));
    output
}

// ---------------------------------------------------------------------------
// Clean dry run
// ---------------------------------------------------------------------------

/// A line naming a release to be removed or that was removed.
pub open spec fn removal_line_fn() -> spec_fn(ReleaseInfo) -> Seq<char> {
    |r: ReleaseInfo| "  "@ + r.package@ + "  "@ + r.path@ + "\n"@
}

/// The removal lines of one plan.
pub open spec fn plan_lines_fn() -> spec_fn(DeletionPlan) -> Seq<char> {
    |plan: DeletionPlan| concat_map(plan.releases_to_remove@, removal_line_fn())
}

/// The bytes a plan frees, as a function.
pub open spec fn plan_bytes_fn() -> spec_fn(DeletionPlan) -> int {
    |plan: DeletionPlan| release_bytes(plan.releases_to_remove@)
}

/// The bytes all plans free together.
pub open spec fn plans_bytes(plans: Seq<DeletionPlan>) -> int {
    sum_of(plans, plan_bytes_fn())
}

/// No plan removes anything.
pub open spec fn plans_remove_nothing(plans: Seq<DeletionPlan>) -> bool {
    forall|i: int| 0 <= i < plans.len() ==> #[trigger] plans[i].releases_to_remove@.len() == 0
}

/// The text of a dry run over some plans.
pub open spec fn dry_run_text(plans: Seq<DeletionPlan>) -> Seq<char> {
    let total = plans_bytes(plans);
    "Codex release cache clean dry run\n"@ + (if plans.len() > 0 {
        "Keep policy: "@ + keep_policy_text(plans[0].keep_policy) + "\n"@
    } else {
        Seq::<char>::empty()
    }) + "Would remove:\n"@ + (if plans_remove_nothing(plans) {
        "  none\n"@
    } else {
        concat_map(plans, plan_lines_fn())
    }) + "Reclaimed bytes: "@ + decimal(total as nat) + "\n"@ + "Reclaimed size: "@
        + format_bytes_text(total as nat) + "\n"@ + "Dry run: no files were deleted.\n"@
}

fn push_removal_lines(output: &mut String, releases: &Vec<ReleaseInfo>)
    ensures
        final(output)@ == old(output)@ + concat_map(releases@, removal_line_fn()),
{
    let ghost start = output@;
    let mut i: usize = 0;
    proof {
        lemma_concat_map_empty(releases@, removal_line_fn());
    }
    while i < releases.len()
        invariant
            i <= releases.len(),
            output@ == start + concat_map(releases@.take(i as int), removal_line_fn()),
        decreases releases.len() - i,
    {
        output.append("  ");
        output.append(releases[i].package.as_str());
        output.append("  ");
        output.append(releases[i].path.as_str());
        output.append("\n");
        proof {
            lemma_concat_map_next(releases@, removal_line_fn(), i as int);
        }
        i = i + 1;
        assert(output@ =~= start + concat_map(releases@.take(i as int), removal_line_fn()));
    }
    proof {
        lemma_concat_map_all(releases@, removal_line_fn());
    }
}

/// `std::slice::from_ref` views one value as a slice holding just that
/// value, without copying it.
pub assume_specification<T>[ core::slice::from_ref::<T> ](s: &T) -> (r: &[T])
    ensures
        r@ == seq![*s],
;

/// Shows what a cleanup of one package would remove, without removing it.
pub fn render_clean_dry_run(plan: &DeletionPlan) -> (output: String)
    requires
        release_bytes(plan.releases_to_remove@) <= u64::MAX,
    ensures
        output@ == dry_run_text(seq![*plan]),
{
    let plans = std::slice::from_ref(plan);
    proof {
        let f = plan_bytes_fn();
        assert(plans@.drop_last() =~= Seq::<DeletionPlan>::empty());
        assert(sum_of(plans@.drop_last(), f) == 0);
        assert(plans_bytes(plans@) == release_bytes(plan.releases_to_remove@));
    }
    render_clean_dry_runs(plans)
}

/// Shows what a cleanup would remove from every package, without removing
/// anything.
pub fn render_clean_dry_runs(plans: &[DeletionPlan]) -> (output: String)
    requires
        plans_bytes(plans@) <= u64::MAX,
    ensures
        output@ == dry_run_text(plans@),
{
    let mut output = String::new();
    output.append("Codex release cache clean dry run\n");
    if plans.len() > 0 {
        output.append("Keep policy: ");
        output.append(plans[0].keep_policy.label());
        output.append("\n");
    }
    output.append("Would remove:\n");
    let mut nothing = true;
    let mut k: usize = 0;
    while k < plans.len()
        invariant
            k <= plans.len(),
            nothing == (forall|i: int|
                0 <= i < k ==> #[trigger] plans@[i].releases_to_remove@.len() == 0),
        decreases plans.len() - k,
    {
        if plans[k].releases_to_remove.len() > 0 {
            nothing = false;
        }
        k = k + 1;
    }
    let ghost before_lines = output@;
    if nothing {
        output.append("  none\n");
    } else {
        let mut i: usize = 0;
        proof {
            lemma_concat_map_empty(plans@, plan_lines_fn());
        }
        while i < plans.len()
            invariant
                i <= plans.len(),
                output@ == before_lines + concat_map(plans@.take(i as int), plan_lines_fn()),
            decreases plans.len() - i,
        {
            push_removal_lines(&mut output, &plans[i].releases_to_remove);
            proof {
                lemma_concat_map_next(plans@, plan_lines_fn(), i as int);
            }
            i = i + 1;
            assert(output@ =~= before_lines + concat_map(plans@.take(i as int), plan_lines_fn()));
        }
        proof {
            lemma_concat_map_all(plans@, plan_lines_fn());
        }
    }
    let ghost f = plan_bytes_fn();
    let mut reclaimed: u64 = 0;
    let mut j: usize = 0;
    proof {
        assert forall|x: int| 0 <= x < plans@.len() implies f(#[trigger] plans@[x]) >= 0 by {
            crate::model::lemma_sizes_nonneg(plans@[x].releases_to_remove@);
            lemma_sum_nonneg(plans@[x].releases_to_remove@, crate::model::size_fn());
        }
    }
    while j < plans.len()
        invariant
            j <= plans.len(),
            f == plan_bytes_fn(),
            nonneg_on(plans@, f),
            plans_bytes(plans@) <= u64::MAX,
            reclaimed == sum_of(plans@.take(j as int), f),
        decreases plans.len() - j,
    {
        proof {
            lemma_sum_take_next(plans@, f, j as int);
            lemma_sum_prefix_le(plans@, f, j as int + 1);
            lemma_sum_element_le(plans@, f, j as int);
        }
        reclaimed = reclaimed + plans[j].reclaimed_bytes();
        j = j + 1;
    }
    proof {
        lemma_sum_take_all(plans@, f);
    }
    output.append("Reclaimed bytes: ");
    push_decimal(&mut output, reclaimed);
    output.append("\n");
    output.append("Reclaimed size: ");
    let size = format_bytes(reclaimed);
    output.append(size.as_str());
    output.append("\n");
    output.append("Dry run: no files were deleted.\n");
    assert(output@ =~= dry_run_text(plans@));
    output
}

// ---------------------------------------------------------------------------
// Clean result
// ---------------------------------------------------------------------------

/// A line naming a release that could not be deleted, and why.
pub open spec fn failure_line_fn() -> spec_fn(CleanupFailure) -> Seq<char> {
    |f: CleanupFailure|
        "  "@ + f.release.package@ + "  "@ + f.release.path@ + " ("@ + f.message@ + ")\n"@
}

/// The text of a cleanup's outcome.
pub open spec fn clean_result_text(result: CleanupResult) -> Seq<char> {
    let total = release_bytes(result.deleted@);
    "Codex release cache clean\n"@ + "Deleted:\n"@ + (if result.deleted@.len() == 0 {
        "  none\n"@
    } else {
        concat_map(result.deleted@, removal_line_fn())
    }) + (if result.failures@.len() > 0 {
        "Failed:\n"@ + concat_map(result.failures@, failure_line_fn())
    } else {
        Seq::<char>::empty()
    }) + "Reclaimed bytes: "@ + decimal(total as nat) + "\n"@ + "Reclaimed size: "@
        + format_bytes_text(total as nat) + "\n"@ + "Successful deletions: "@ + decimal(
        result.deleted@.len(),
    ) + "\n"@ + "Failed deletions: "@ + decimal(result.failures@.len()) + "\n"@
}

/// Shows what a cleanup deleted, what it failed to delete, and the bytes
/// freed.
pub fn render_clean_result(result: &CleanupResult) -> (output: String)
    requires
        release_bytes(result.deleted@) <= u64::MAX,
    ensures
        output@ == clean_result_text(*result),
{
    let mut output = String::new();
    output.append("Codex release cache clean\n");
    output.append("Deleted:\n");
    if result.deleted.len() == 0 {
        output.append("  none\n");
    } else {
        push_removal_lines(&mut output, &result.deleted);
    }
    if result.failures.len() > 0 {
        output.append("Failed:\n");
        let ghost start = output@;
        let mut i: usize = 0;
        proof {
            lemma_concat_map_empty(result.failures@, failure_line_fn());
        }
        while i < result.failures.len()
            invariant
                i <= result.failures.len(),
                output@ == start + concat_map(result.failures@.take(i as int), failure_line_fn()),
            decreases result.failures.len() - i,
        {
            let failure = &result.failures[i];
            output.append("  ");
            output.append(failure.release.package.as_str());
            output.append("  ");
            output.append(failure.release.path.as_str());
            output.append(" (");
            output.append(failure.message.as_str());
            output.append(")\n");
            proof {
                lemma_concat_map_next(result.failures@, failure_line_fn(), i as int);
            }
            i = i + 1;
            assert(output@ =~= start + concat_map(
                result.failures@.take(i as int),
                failure_line_fn(),
            ));
        }
        proof {
            lemma_concat_map_all(result.failures@, failure_line_fn());
        }
    }
    let reclaimed = result.reclaimed_bytes();
    output.append("Reclaimed bytes: ");
    push_decimal(&mut output, reclaimed);
    output.append("\n");
    output.append("Reclaimed size: ");
    let size = format_bytes(reclaimed);
    output.append(size.as_str());
    output.append("\n");
    output.append("Successful deletions: ");
    push_decimal(&mut output, result.success_count() as u64);
    output.append("\n");
    output.append("Failed deletions: ");
    push_decimal(&mut output, result.failed_count() as u64);
    output.append("\n");
    assert(output@ =~= clean_result_text(*result));
    output
}

// ---------------------------------------------------------------------------
// Verification
// ---------------------------------------------------------------------------

/// A line of the verification report.
pub open spec fn check_line_fn() -> spec_fn(VerificationCheck) -> Seq<char> {
    |c: VerificationCheck| pad_end(status_text(c.status), 7) + " "@ + c.message@ + "\n"@
}

/// The text of a verification report.
pub open spec fn verify_text(report: VerificationReport) -> Seq<char> {
    "Codex release cache verification\n"@ + concat_map(report.checks@, check_line_fn())
        + "\nSummary: "@ + decimal(
        count_status(report.checks@, crate::model::VerificationStatus::Pass) as nat,
    ) + " PASS, "@ + decimal(
        count_status(report.checks@, crate::model::VerificationStatus::Warning) as nat,
    ) + " WARNING, "@ + decimal(
        count_status(report.checks@, crate::model::VerificationStatus::Error) as nat,
    ) + " ERROR\n"@
}

/// Shows every check and a summary of the outcomes.
pub fn render_verify(report: &VerificationReport) -> (output: String)
    ensures
        output@ == verify_text(*report),
{
    let mut output = String::new();
    output.append("Codex release cache verification\n");
    let ghost start = output@;
    let mut i: usize = 0;
    proof {
        lemma_concat_map_empty(report.checks@, check_line_fn());
    }
    while i < report.checks.len()
        invariant
            i <= report.checks.len(),
            output@ == start + concat_map(report.checks@.take(i as int), check_line_fn()),
        decreases report.checks.len() - i,
    {
        let check = &report.checks[i];
        push_padded_end(&mut output, check.status.label(), 7);
        output.append(" ");
        output.append(check.message.as_str());
        output.append("\n");
        proof {
            lemma_concat_map_next(report.checks@, check_line_fn(), i as int);
        }
        i = i + 1;
        assert(output@ =~= start + concat_map(report.checks@.take(i as int), check_line_fn()));
    }
    proof {
        lemma_concat_map_all(report.checks@, check_line_fn());
    }
    output.append("\nSummary: ");
    push_decimal(&mut output, report.pass_count() as u64);
    output.append(" PASS, ");
    push_decimal(&mut output, report.warning_count() as u64);
    output.append(" WARNING, ");
    push_decimal(&mut output, report.error_count() as u64);
    output.append(" ERROR\n");
    assert(output@ =~= verify_text(*report));
    output
}

// ---------------------------------------------------------------------------
// What the reports hold, stated over the scan and the plans themselves
// ---------------------------------------------------------------------------

/// The texts of `f` over `s` are the flattened sequence of those texts.
proof fn lemma_concat_map_flatten<T>(s: Seq<T>, f: spec_fn(T) -> Seq<char>)
    ensures
        concat_map(s, f) == s.map_values(f).flatten(),
    decreases s.len(),
{
    if s.len() > 0 {
        lemma_concat_map_flatten(s.drop_last(), f);
        assert(s.map_values(f) =~= s.drop_last().map_values(f).push(f(s.last())));
        s.drop_last().map_values(f).lemma_flatten_push(f(s.last()));
    } else {
        assert(s.map_values(f) =~= Seq::<Seq<char>>::empty());
    }
}

/// Texts over a concatenation are the texts over each part.
proof fn lemma_concat_map_append<T>(a: Seq<T>, b: Seq<T>, f: spec_fn(T) -> Seq<char>)
    ensures
        concat_map(a + b, f) == concat_map(a, f) + concat_map(b, f),
    decreases b.len(),
{
    if b.len() == 0 {
        assert(a + b =~= a);
    } else {
        lemma_concat_map_append(a, b.drop_last(), f);
        assert((a + b).drop_last() =~= a + b.drop_last());
        assert((a + b).last() == b.last());
    }
}

/// Every release of every package, package by package, in listing order.
pub open spec fn every_release(packages: Seq<PackageScan>) -> Seq<ReleaseInfo> {
    packages.map_values(|p: PackageScan| p.releases@).flatten()
}

/// Every release of every plan, plan by plan, in plan order.
pub open spec fn every_planned_release(plans: Seq<DeletionPlan>) -> Seq<ReleaseInfo> {
    plans.map_values(|p: DeletionPlan| p.releases_to_remove@).flatten()
}

proof fn lemma_every_release(packages: Seq<PackageScan>)
    ensures
        all_releases_of(packages) == every_release(packages),
    decreases packages.len(),
{
    let g = |p: PackageScan| p.releases@;
    if packages.len() > 0 {
        lemma_every_release(packages.drop_last());
        assert(packages.map_values(g) =~= packages.drop_last().map_values(g).push(
            packages.last().releases@,
        ));
        packages.drop_last().map_values(g).lemma_flatten_push(packages.last().releases@);
    } else {
        assert(packages.map_values(g) =~= Seq::<Seq<ReleaseInfo>>::empty());
    }
}

proof fn lemma_every_planned_release(plans: Seq<DeletionPlan>)
    ensures
        concat_map(plans, plan_lines_fn()) == concat_map(
            every_planned_release(plans),
            removal_line_fn(),
        ),
        plans_bytes(plans) == release_bytes(every_planned_release(plans)),
        plans_remove_nothing(plans) <==> every_planned_release(plans).len() == 0,
    decreases plans.len(),
{
    let g = |p: DeletionPlan| p.releases_to_remove@;
    if plans.len() > 0 {
        let before = plans.drop_last();
        let last = plans.last();
        lemma_every_planned_release(before);
        assert(plans.map_values(g) =~= before.map_values(g).push(last.releases_to_remove@));
        before.map_values(g).lemma_flatten_push(last.releases_to_remove@);
        assert(every_planned_release(plans) == every_planned_release(before)
            + last.releases_to_remove@);
        lemma_concat_map_append(
            every_planned_release(before),
            last.releases_to_remove@,
            removal_line_fn(),
        );
        crate::sums::lemma_sum_concat(
            every_planned_release(before),
            last.releases_to_remove@,
            crate::model::size_fn(),
        );
        if plans_remove_nothing(plans) {
            assert(plans[plans.len() - 1].releases_to_remove@.len() == 0);
            assert forall|i: int| 0 <= i < before.len() implies #[trigger] before[i].releases_to_remove@.len()
                == 0 by {
                assert(before[i] == plans[i]);
            }
        }
        if every_planned_release(plans).len() == 0 {
            assert forall|i: int| 0 <= i < plans.len() implies #[trigger] plans[i].releases_to_remove@.len()
                == 0 by {
                if i < before.len() {
                    assert(before[i] == plans[i]);
                }
            }
        }
    } else {
        assert(plans.map_values(g) =~= Seq::<Seq<ReleaseInfo>>::empty());
        assert(every_planned_release(plans) =~= Seq::<ReleaseInfo>::empty());
    }
}

/// A dry run lists, under `Would remove:`, one line for each release of
/// every plan, plan by plan; it shows `none` exactly when no plan removes
/// anything; and the bytes it reports are those of every planned release.
pub proof fn law_dry_run_lists_every_planned_release(plans: Seq<DeletionPlan>)
    ensures
        ({
            let planned = every_planned_release(plans);
            ("Codex release cache clean dry run\n"@ + (if plans.len() > 0 {
                "Keep policy: "@ + keep_policy_text(plans[0].keep_policy) + "\n"@
            } else {
                Seq::<char>::empty()
            }) + "Would remove:\n"@ + (if planned.len() == 0 {
                "  none\n"@
            } else {
                planned.map_values(
                    |r: ReleaseInfo| "  "@ + r.package@ + "  "@ + r.path@ + "\n"@,
                ).flatten()
            }) + "Reclaimed bytes: "@ + decimal(release_bytes(planned) as nat) + "\n"@).is_prefix_of(
                dry_run_text(plans),
            )
        }),
{
    let planned = every_planned_release(plans);
    lemma_every_planned_release(plans);
    lemma_concat_map_flatten(planned, removal_line_fn());
    assert(planned.map_values(removal_line_fn()) =~= planned.map_values(
        |r: ReleaseInfo| "  "@ + r.package@ + "  "@ + r.path@ + "\n"@,
    ));
}

/// The outcome of a cleanup lists, under `Deleted:`, one line for each
/// deleted release in order (`none` when nothing was deleted), then one line
/// for each failure in order, and ends with the two counts.
pub proof fn law_clean_result_lists_every_outcome(result: CleanupResult)
    ensures
        ({
            let deleted = result.deleted@;
            let failures = result.failures@;
            ("Codex release cache clean\n"@ + "Deleted:\n"@ + (if deleted.len() == 0 {
                "  none\n"@
            } else {
                deleted.map_values(
                    |r: ReleaseInfo| "  "@ + r.package@ + "  "@ + r.path@ + "\n"@,
                ).flatten()
            }) + (if failures.len() > 0 {
                "Failed:\n"@ + failures.map_values(
                    |f: CleanupFailure|
                        "  "@ + f.release.package@ + "  "@ + f.release.path@ + " ("@ + f.message@
                            + ")\n"@,
                ).flatten()
            } else {
                Seq::<char>::empty()
            }) + "Reclaimed bytes: "@ + decimal(release_bytes(deleted) as nat) + "\n"@).is_prefix_of(
                clean_result_text(result),
            )
        }),
        ("Successful deletions: "@ + decimal(result.deleted@.len()) + "\n"@
            + "Failed deletions: "@ + decimal(result.failures@.len()) + "\n"@).is_suffix_of(
            clean_result_text(result),
        ),
{
    let deleted = result.deleted@;
    let failures = result.failures@;
    lemma_concat_map_flatten(deleted, removal_line_fn());
    lemma_concat_map_flatten(failures, failure_line_fn());
    assert(deleted.map_values(removal_line_fn()) =~= deleted.map_values(
        |r: ReleaseInfo| "  "@ + r.package@ + "  "@ + r.path@ + "\n"@,
    ));
    assert(failures.map_values(failure_line_fn()) =~= failures.map_values(
        |f: CleanupFailure|
            "  "@ + f.release.package@ + "  "@ + f.release.path@ + " ("@ + f.message@ + ")\n"@,
    ));
}

/// The release table holds one row for each release of every package of the
/// scan, package by package in listing order, and `none` exactly when there
/// is no release.
pub proof fn law_list_has_a_row_per_release(scan: CacheScan)
    ensures
        ({
            let all = every_release(scan.packages@);
            ("Package            Version     Active  Size\n"@ + all.map_values(
                |r: ReleaseInfo|
                    pad_end(r.package@, 18) + " "@ + pad_end(r.display_version@, 11) + " "@
                        + pad_end(
                        if r.active {
                            "*"@
                        } else {
                            ""@
                        },
                        7,
                    ) + " "@ + format_bytes_text(r.size as nat) + "\n"@,
            ).flatten() + (if all.len() == 0 {
                "none\n"@
            } else {
                Seq::<char>::empty()
            })).is_prefix_of(list_text(scan))
        }),
{
    let all = every_release(scan.packages@);
    lemma_every_release(scan.packages@);
    lemma_concat_map_flatten(all, list_line_fn());
    assert(all.map_values(list_line_fn()) =~= all.map_values(
        |r: ReleaseInfo|
            pad_end(r.package@, 18) + " "@ + pad_end(r.display_version@, 11) + " "@ + pad_end(
                if r.active {
                    "*"@
                } else {
                    ""@
                },
                7,
            ) + " "@ + format_bytes_text(r.size as nat) + "\n"@,
    ));
}

/// The size position is the first place, from `from` on, holding a smaller
/// release than `r`.
proof fn lemma_size_position_first(sorted: Seq<ReleaseInfo>, r: ReleaseInfo, from: int)
    requires
        0 <= from <= sorted.len(),
    ensures
        from <= size_position(sorted, r, from) <= sorted.len(),
        forall|k: int|
            from <= k < size_position(sorted, r, from) ==> r.size <= #[trigger] sorted[k].size,
        size_position(sorted, r, from) < sorted.len() ==> r.size > sorted[size_position(
            sorted,
            r,
            from,
        )].size,
    decreases sorted.len() - from,
{
    if from < sorted.len() && r.size <= sorted[from].size {
        lemma_size_position_first(sorted, r, from + 1);
    }
}

/// Sorting by size keeps every release, as often as it occurs, and orders
/// them from largest to smallest.
proof fn lemma_sort_by_size_orders(s: Seq<ReleaseInfo>)
    ensures
        sort_by_size(s).len() == s.len(),
        sort_by_size(s).to_multiset() == s.to_multiset(),
        forall|i: int, j: int|
            0 <= i < j < s.len() ==> (#[trigger] sort_by_size(s)[j]).size <= (
            #[trigger] sort_by_size(s)[i]).size,
    decreases s.len(),
{
    if s.len() == 0 {
    } else {
        let sorted = sort_by_size(s.drop_last());
        let x = s.last();
        lemma_sort_by_size_orders(s.drop_last());
        lemma_size_position_first(sorted, x, 0);
        let p = size_position(sorted, x, 0);
        let out = sorted.insert(p, x);
        assert(out == sort_by_size(s));
        vstd::seq_lib::to_multiset_insert(sorted, p, x);
        vstd::seq_lib::to_multiset_build(s.drop_last(), x);
        assert(s.drop_last().push(x) =~= s);
        assert forall|i: int, j: int| 0 <= i < j < out.len() implies (#[trigger] out[j]).size <= (
        #[trigger] out[i]).size by {
            if j < p {
                assert(out[i] == sorted[i] && out[j] == sorted[j]);
            } else if j == p {
                assert(out[i] == sorted[i] && out[j] == x);
            } else if i < p {
                assert(out[i] == sorted[i] && out[j] == sorted[j - 1]);
                assert(sorted[j - 1].size <= sorted[i].size);
            } else if i == p {
                assert(out[i] == x && out[j] == sorted[j - 1]);
                if j - 1 > p {
                    assert(sorted[j - 1].size <= sorted[p].size);
                }
            } else {
                assert(out[i] == sorted[i - 1] && out[j] == sorted[j - 1]);
            }
        }
    }
}

/// The report's largest releases are drawn from every release of every
/// package: it shows as many as there are, up to five, from largest to
/// smallest, none of the releases left out is larger than one shown, and
/// `none` appears exactly when there is no release.
pub proof fn law_report_shows_the_largest_releases(scan: CacheScan)
    ensures
        ({
            let all = every_release(scan.packages@);
            let sorted = sort_by_size(all);
            let m: int = if all.len() < 5 {
                all.len() as int
            } else {
                5
            };
            let shown = sorted.take(m);
            let left = sorted.skip(m);
            &&& shown.len() == m
            &&& (shown + left).to_multiset() == all.to_multiset()
            &&& forall|i: int, j: int|
                0 <= i < shown.len() && 0 <= j < left.len() ==> (#[trigger] left[j]).size <= (
                #[trigger] shown[i]).size
            &&& forall|i: int, j: int|
                0 <= i < j < shown.len() ==> (#[trigger] shown[j]).size <= (
                #[trigger] shown[i]).size
            &&& ("Largest releases:\n"@ + shown.map_values(
                |r: ReleaseInfo|
                    "  "@ + pad_end(r.package@, 17) + " "@ + pad_end(r.display_version@, 12) + " "@
                        + pad_start(format_bytes_text(r.size as nat), 10) + "  "@ + r.path@
                        + "\n"@,
            ).flatten() + (if all.len() == 0 {
                "  none\n"@
            } else {
                Seq::<char>::empty()
            }) + concat_map(scan.packages@, package_warnings_fn())).is_suffix_of(
                report_text(scan),
            )
        }),
{
    let all = every_release(scan.packages@);
    let sorted = sort_by_size(all);
    let m: int = if all.len() < 5 {
        all.len() as int
    } else {
        5
    };
    let shown = sorted.take(m);
    let left = sorted.skip(m);
    lemma_every_release(scan.packages@);
    lemma_sort_by_size_orders(all);
    assert(shown + left =~= sorted);
    assert(shown =~= largest_releases(scan.packages@));
    assert forall|i: int, j: int| 0 <= i < shown.len() && 0 <= j < left.len() implies (
    #[trigger] left[j]).size <= (#[trigger] shown[i]).size by {
        assert(left[j] == sorted[m + j] && shown[i] == sorted[i]);
    }
    assert forall|i: int, j: int| 0 <= i < j < shown.len() implies (#[trigger] shown[j]).size <= (
    #[trigger] shown[i]).size by {
        assert(shown[j] == sorted[j] && shown[i] == sorted[i]);
    }
    lemma_concat_map_flatten(shown, largest_line_fn());
    assert(shown.map_values(largest_line_fn()) =~= shown.map_values(
        |r: ReleaseInfo|
            "  "@ + pad_end(r.package@, 17) + " "@ + pad_end(r.display_version@, 12) + " "@
                + pad_start(format_bytes_text(r.size as nat), 10) + "  "@ + r.path@ + "\n"@,
    ));
}

} // verus!
