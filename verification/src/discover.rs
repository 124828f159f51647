//! Turning what was read from a package store into a scan: recognising
//! release directories, ordering them newest first, and collecting warnings.

use vstd::prelude::*;
use vstd::string::*;

use crate::errors::CacheError;
use crate::model::{CacheScan, PackageScan, ReleaseInfo, VersionKey};
use crate::paths::{file_name_of, join_path, joined_path, path_file_name};
use crate::version::{parse_release_name, parse_version, release_version_of, version_key_of};

verus! {

/// One entry of a `releases/` directory, as it was read.
#[derive(Debug)]
pub enum ReleaseEntry {
    /// Reading the entry failed; the message says what was being read.
    Unreadable { message: String },
    /// An entry that is not a directory.
    Other { name: String },
    /// A directory: whether the `current` symlink points at it, and its size
    /// or the failure met while measuring it.
    Directory { name: String, active: bool, size: Result<u64, String> },
}

/// What was read from one package store for a scan.
#[derive(Debug)]
pub struct PackageObservation {
    pub name: String,
    pub root: String,
    /// Whether `releases/` is a directory.
    pub releases_is_dir: bool,
    /// Where the `current` symlink points (joined onto the package root when
    /// relative), none when there is no symlink, or the failure to read it.
    pub current_target: Result<Option<String>, String>,
    /// The entries of `releases/`, in the order they were read.
    pub entries: Vec<ReleaseEntry>,
}

/// The views of a sequence of strings.
pub open spec fn texts(s: Seq<String>) -> Seq<Seq<char>> {
    s.map_values(|w: String| w@)
}

/// Version keys ordered by `major`, then `minor`, then `patch`.
pub open spec fn key_greater(a: VersionKey, b: VersionKey) -> bool {
    a.major > b.major || (a.major == b.major && (a.minor > b.minor || (a.minor == b.minor
        && a.patch > b.patch)))
}

/// Strings ordered character by character, a proper prefix first. For UTF-8
/// text this is the byte order in which `String`s compare.
pub open spec fn text_less(a: Seq<char>, b: Seq<char>) -> bool
    decreases a.len(),
{
    if a.len() == 0 {
        b.len() > 0
    } else if b.len() == 0 {
        false
    } else if a[0] != b[0] {
        a[0] < b[0]
    } else {
        text_less(a.drop_first(), b.drop_first())
    }
}

/// `a` is listed before `b`: a newer version, or the same version under a
/// directory name that sorts later.
pub open spec fn release_before(a: ReleaseInfo, b: ReleaseInfo) -> bool {
    key_greater(a.version_key, b.version_key) || (a.version_key == b.version_key && text_less(
        b.directory_name@,
        a.directory_name@,
    ))
}

/// The first position at or after `from` whose release `r` goes before.
pub open spec fn insert_position(sorted: Seq<ReleaseInfo>, r: ReleaseInfo, from: int) -> int
    decreases sorted.len() - from,
{
    if from < 0 || from >= sorted.len() {
        sorted.len() as int
    } else if release_before(r, sorted[from]) {
        from
    } else {
        insert_position(sorted, r, from + 1)
    }
}

/// The insert position lies within the sorted sequence, or just past it.
pub proof fn lemma_insert_position_bounds(sorted: Seq<ReleaseInfo>, r: ReleaseInfo, from: int)
    requires
        0 <= from,
    ensures
        from <= insert_position(sorted, r, from) <= sorted.len() || (from > sorted.len()
            && insert_position(sorted, r, from) == sorted.len()),
    decreases sorted.len() - from,
{
    if from < sorted.len() && !release_before(r, sorted[from]) {
        lemma_insert_position_bounds(sorted, r, from + 1);
    }
}

/// `s` ordered newest first by a stable sort: releases that tie keep their
/// order.
pub open spec fn sort_releases(s: Seq<ReleaseInfo>) -> Seq<ReleaseInfo>
    decreases s.len(),
{
    if s.len() == 0 {
        s
    } else {
        let sorted = sort_releases(s.drop_last());
        sorted.insert(insert_position(sorted, s.last(), 0), s.last())
    }
}

/// The failure an entry stops the discovery with, if any.
pub open spec fn entry_failure(dir: Seq<char>, e: ReleaseEntry) -> Option<Seq<char>> {
    match e {
        ReleaseEntry::Unreadable { message } => Some(message@),
        ReleaseEntry::Other { .. } => None,
        ReleaseEntry::Directory { name, size, .. } => if release_version_of(name@) is Some
            && size is Err {
            Some("failed to size "@ + joined_path(dir, name@))
        } else {
            None
        },
    }
}

/// The warning an entry raises, if any.
pub open spec fn entry_warning(dir: Seq<char>, e: ReleaseEntry) -> Option<Seq<char>> {
    match e {
        ReleaseEntry::Unreadable { .. } => None,
        ReleaseEntry::Other { name } => Some(
            "unexpected non-directory entry in releases/: "@ + joined_path(dir, name@),
        ),
        ReleaseEntry::Directory { name, .. } => if release_version_of(name@) is None {
            Some("ignored release directory with unrecognized version: "@ + joined_path(dir, name@))
        } else {
            None
        },
    }
}

/// The entry is a release directory that was measured.
pub open spec fn is_release_entry(e: ReleaseEntry) -> bool {
    match e {
        ReleaseEntry::Directory { name, size, .. } => release_version_of(name@) is Some
            && size is Ok,
        _ => false,
    }
}

/// `r` is the release record of the entry `e` of package `package` in `dir`.
pub open spec fn release_of_entry(
    r: ReleaseInfo,
    package: Seq<char>,
    dir: Seq<char>,
    e: ReleaseEntry,
) -> bool {
    match e {
        ReleaseEntry::Directory { name, active, size } => {
            &&& release_version_of(name@) == Some(r.display_version@)
            &&& version_key_of(r.display_version@) == Some(r.version_key)
            &&& size == Ok::<u64, String>(r.size)
            &&& r.active == active
            &&& r.package@ == package
            &&& r.directory_name@ == name@
            &&& r.path@ == joined_path(dir, name@)
        },
        _ => false,
    }
}

/// The first failure among the entries, if any.
pub open spec fn first_failure(dir: Seq<char>, entries: Seq<ReleaseEntry>) -> Option<Seq<char>>
    decreases entries.len(),
{
    if entries.len() == 0 {
        None
    } else {
        match first_failure(dir, entries.drop_last()) {
            Some(m) => Some(m),
            None => entry_failure(dir, entries.last()),
        }
    }
}

/// The warnings the entries raise, in order.
pub open spec fn warnings_of(dir: Seq<char>, entries: Seq<ReleaseEntry>) -> Seq<Seq<char>>
    decreases entries.len(),
{
    if entries.len() == 0 {
        Seq::<Seq<char>>::empty()
    } else {
        let earlier = warnings_of(dir, entries.drop_last());
        match entry_warning(dir, entries.last()) {
            Some(w) => earlier.push(w),
            None => earlier,
        }
    }
}

/// `found` holds, in entry order, one release record for each release entry.
pub open spec fn releases_of_entries(
    package: Seq<char>,
    dir: Seq<char>,
    entries: Seq<ReleaseEntry>,
    found: Seq<ReleaseInfo>,
) -> bool
    decreases entries.len(),
{
    if entries.len() == 0 {
        found.len() == 0
    } else if is_release_entry(entries.last()) {
        found.len() > 0 && release_of_entry(found.last(), package, dir, entries.last())
            && releases_of_entries(package, dir, entries.drop_last(), found.drop_last())
    } else {
        releases_of_entries(package, dir, entries.drop_last(), found)
    }
}

/// `releases` and `warnings` are what discovering `entries` gives.
pub open spec fn is_discovery(
    package: Seq<char>,
    dir: Seq<char>,
    entries: Seq<ReleaseEntry>,
    releases: Seq<ReleaseInfo>,
    warnings: Seq<String>,
) -> bool {
    &&& first_failure(dir, entries) is None
    &&& exists|found: Seq<ReleaseInfo>|
        releases_of_entries(package, dir, entries, found) && releases == sort_releases(found)
    &&& texts(warnings) == warnings_of(dir, entries)
}

/// A failure met in a prefix of the entries is the first failure of all of
/// them.
proof fn lemma_first_failure_prefix(dir: Seq<char>, entries: Seq<ReleaseEntry>, k: int)
    requires
        0 <= k <= entries.len(),
        first_failure(dir, entries.take(k)) is Some,
    ensures
        first_failure(dir, entries) == first_failure(dir, entries.take(k)),
    decreases entries.len() - k,
{
    if k < entries.len() {
        assert(entries.take(k + 1).drop_last() =~= entries.take(k));
        lemma_first_failure_prefix(dir, entries, k + 1);
    } else {
        assert(entries.take(k) =~= entries);
    }
}

/// Compares two strings character by character.
fn text_less_exec(a: &str, b: &str) -> (less: bool)
    ensures
        less == text_less(a@, b@),
{
    let a_len = a.unicode_len();
    let b_len = b.unicode_len();
    let mut i: usize = 0;
    assert(a@.skip(0) =~= a@);
    assert(b@.skip(0) =~= b@);
    while i < a_len && i < b_len
        invariant
            a_len == a@.len(),
            b_len == b@.len(),
            i <= a_len,
            i <= b_len,
            text_less(a@, b@) == text_less(a@.skip(i as int), b@.skip(i as int)),
        decreases a_len - i,
    {
        let x = a.get_char(i);
        let y = b.get_char(i);
        proof {
            assert(a@.skip(i as int)[0] == x);
            assert(b@.skip(i as int)[0] == y);
            assert(a@.skip(i as int).drop_first() =~= a@.skip(i as int + 1));
            assert(b@.skip(i as int).drop_first() =~= b@.skip(i as int + 1));
        }
        if x != y {
            return x < y;
        }
        i = i + 1;
    }
    assert(a@.skip(i as int).len() == a_len - i);
    assert(b@.skip(i as int).len() == b_len - i);
    i == a_len && i < b_len
}

/// Whether `a` is listed before `b`.
fn release_before_exec(a: &ReleaseInfo, b: &ReleaseInfo) -> (before: bool)
    ensures
        before == release_before(*a, *b),
{
    let ka = a.version_key;
    let kb = b.version_key;
    if ka.major != kb.major {
        return ka.major > kb.major;
    }
    if ka.minor != kb.minor {
        return ka.minor > kb.minor;
    }
    if ka.patch != kb.patch {
        return ka.patch > kb.patch;
    }
    text_less_exec(b.directory_name.as_str(), a.directory_name.as_str())
}

/// Orders releases newest first, keeping the order of releases that tie.
fn sort_releases_exec(items: &Vec<ReleaseInfo>) -> (sorted: Vec<ReleaseInfo>)
    ensures
        sorted@ == sort_releases(items@),
{
    let mut sorted: Vec<ReleaseInfo> = Vec::new();
    let mut i: usize = 0;
    assert(items@.take(0) =~= Seq::<ReleaseInfo>::empty());
    while i < items.len()
        invariant
            i <= items.len(),
            sorted@ == sort_releases(items@.take(i as int)),
        decreases items.len() - i,
    {
        let item = items[i].clone();
        let mut p: usize = 0;
        while p < sorted.len()
            invariant_except_break
                p <= sorted.len(),
                insert_position(sorted@, item, 0) == insert_position(sorted@, item, p as int),
            ensures
                p <= sorted.len(),
                insert_position(sorted@, item, 0) == p,
            decreases sorted.len() - p,
        {
            if release_before_exec(&item, &sorted[p]) {
                break;
            }
            p = p + 1;
        }
        proof {
            assert(items@.take(i as int + 1).drop_last() =~= items@.take(i as int));
            assert(items@.take(i as int + 1).last() == items@[i as int]);
        }
        sorted.insert(p, item);
        i = i + 1;
    }
    assert(items@.take(items@.len() as int) =~= items@);
    sorted
}

/// Recognises the release directories among the entries of `releases_dir`,
/// collects a warning for every other entry, and orders the releases newest
/// first. The first entry that could not be read, or a release directory that
/// could not be measured, stops the discovery with its message.
pub fn discover_releases(package: &str, releases_dir: &str, entries: &Vec<ReleaseEntry>) -> (r:
    Result<(Vec<ReleaseInfo>, Vec<String>), String>)
    ensures
        match r {
            Ok((releases, warnings)) => is_discovery(
                package@,
                releases_dir@,
                entries@,
                releases@,
                warnings@,
            ),
            Err(m) => first_failure(releases_dir@, entries@) == Some(m@),
        },
{
    let mut found: Vec<ReleaseInfo> = Vec::new();
    let mut warnings: Vec<String> = Vec::new();
    let mut i: usize = 0;
    assert(entries@.take(0) =~= Seq::<ReleaseEntry>::empty());
    assert(texts(warnings@) =~= Seq::<Seq<char>>::empty());
    while i < entries.len()
        invariant
            i <= entries.len(),
            first_failure(releases_dir@, entries@.take(i as int)) is None,
            releases_of_entries(package@, releases_dir@, entries@.take(i as int), found@),
            texts(warnings@) == warnings_of(releases_dir@, entries@.take(i as int)),
        decreases entries.len() - i,
    {
        let ghost prefix = entries@.take(i as int + 1);
        proof {
            assert(prefix.drop_last() =~= entries@.take(i as int));
            assert(prefix.last() == entries@[i as int]);
        }
        match &entries[i] {
            ReleaseEntry::Unreadable { message } => {
                proof {
                    lemma_first_failure_prefix(releases_dir@, entries@, i as int + 1);
                }
                return Err(message.clone());
            },
            ReleaseEntry::Other { name } => {
                let mut warning = String::from_str("unexpected non-directory entry in releases/: ");
                let path = join_path(releases_dir, name.as_str());
                warning.append(path.as_str());
                warnings.push(warning);
                assert(texts(warnings@) =~= warnings_of(releases_dir@, prefix));
            },
            ReleaseEntry::Directory { name, active, size } => {
                let path = join_path(releases_dir, name.as_str());
                match parse_release_name(name.as_str()) {
                    None => {
                        let mut warning = String::from_str(
                            "ignored release directory with unrecognized version: ",
                        );
                        warning.append(path.as_str());
                        warnings.push(warning);
                        assert(texts(warnings@) =~= warnings_of(releases_dir@, prefix));
                    },
                    Some((version, key)) => {
                        match size {
                            Err(_) => {
                                let mut message = String::from_str("failed to size ");
                                message.append(path.as_str());
                                proof {
                                    lemma_first_failure_prefix(releases_dir@, entries@, i as int + 1);
                                }
                                return Err(message);
                            },
                            Ok(size) => {
                                let release = ReleaseInfo {
                                    package: package.to_owned(),
                                    display_version: version,
                                    directory_name: name.clone(),
                                    path,
                                    size: *size,
                                    active: *active,
                                    version_key: key,
                                };
                                let ghost before = found@;
                                found.push(release);
                                proof {
                                    assert(found@.drop_last() =~= before);
                                }
                                assert(texts(warnings@) =~= warnings_of(releases_dir@, prefix));
                            },
                        }
                    },
                }
            },
        }
        i = i + 1;
    }
    assert(entries@.take(entries@.len() as int) =~= entries@);
    let sorted = sort_releases_exec(&found);
    Ok((sorted, warnings))
}

/// The `releases/` directory of the package store that `obs` describes.
pub open spec fn releases_dir_of(obs: PackageObservation) -> Seq<char> {
    joined_path(obs.root@, "releases"@)
}

/// `p` is the scan of the package store that `obs` describes.
pub open spec fn is_package_scan(p: PackageScan, obs: PackageObservation) -> bool {
    &&& obs.current_target matches Ok(target)
    &&& p.name == obs.name
    &&& p.root == obs.root
    &&& p.releases_dir@ == releases_dir_of(obs)
    &&& p.current_target == target
    &&& match target {
        Some(t) => match path_file_name(t@) {
            Some(n) => match release_version_of(n) {
                Some(v) => p.current_version matches Some(cv) && cv@ == v,
                None => p.current_version is None,
            },
            None => p.current_version is None,
        },
        None => p.current_version is None,
    }
    &&& is_discovery(obs.name@, releases_dir_of(obs), obs.entries@, p.releases@, p.warnings@)
}

/// Scanning the store that `obs` describes fails: `releases/` is not a
/// directory, the `current` symlink cannot be read, or an entry of
/// `releases/` cannot be read.
pub open spec fn store_fails(obs: PackageObservation) -> bool {
    ||| !obs.releases_is_dir
    ||| obs.current_target is Err
    ||| first_failure(releases_dir_of(obs), obs.entries@) is Some
}

/// Scanning the store that `obs` describes fails with `e`, the failures
/// checked in the order the store is read: `releases/`, then the `current`
/// symlink, then the entries.
pub open spec fn store_fails_with(obs: PackageObservation, e: CacheError) -> bool {
    if !obs.releases_is_dir {
        e matches CacheError::ReleaseCacheMissing { package, releases_dir } && package == obs.name
            && releases_dir@ == releases_dir_of(obs)
    } else if obs.current_target is Err {
        e == CacheError::Io { message: obs.current_target->Err_0 }
    } else {
        e matches CacheError::Io { message } && first_failure(releases_dir_of(obs), obs.entries@)
            == Some(message@)
    }
}

/// No text is less than itself.
proof fn lemma_text_less_irreflexive(a: Seq<char>)
    ensures
        !text_less(a, a),
    decreases a.len(),
{
    if a.len() > 0 {
        lemma_text_less_irreflexive(a.drop_first());
    }
}

/// Text order is transitive.
proof fn lemma_text_less_transitive(a: Seq<char>, b: Seq<char>, c: Seq<char>)
    requires
        text_less(a, b),
        text_less(b, c),
    ensures
        text_less(a, c),
    decreases a.len(),
{
    if a.len() > 0 && a[0] == b[0] && b[0] == c[0] {
        lemma_text_less_transitive(a.drop_first(), b.drop_first(), c.drop_first());
    }
}

/// Listing order is transitive.
proof fn lemma_release_before_transitive(a: ReleaseInfo, b: ReleaseInfo, c: ReleaseInfo)
    requires
        release_before(a, b),
        release_before(b, c),
    ensures
        release_before(a, c),
{
    if a.version_key == b.version_key && b.version_key == c.version_key {
        lemma_text_less_transitive(c.directory_name@, b.directory_name@, a.directory_name@);
    }
}

/// No release is listed before itself.
proof fn lemma_release_before_irreflexive(a: ReleaseInfo)
    ensures
        !release_before(a, a),
{
    lemma_text_less_irreflexive(a.directory_name@);
}

/// No release of `s` is listed before one that comes earlier in `s`.
pub open spec fn listed_in_order(s: Seq<ReleaseInfo>) -> bool {
    forall|i: int, j: int|
        0 <= i < j < s.len() ==> !release_before(#[trigger] s[j], #[trigger] s[i])
}

/// The insert position is the first place, from `from` on, that `r` goes
/// before.
proof fn lemma_insert_position_first(sorted: Seq<ReleaseInfo>, r: ReleaseInfo, from: int)
    requires
        0 <= from,
    ensures
        forall|k: int|
            from <= k < insert_position(sorted, r, from) ==> !release_before(r, #[trigger] sorted[k]),
        insert_position(sorted, r, from) < sorted.len() ==> release_before(
            r,
            sorted[insert_position(sorted, r, from)],
        ),
    decreases sorted.len() - from,
{
    if from < sorted.len() && !release_before(r, sorted[from]) {
        lemma_insert_position_first(sorted, r, from + 1);
    }
}

/// The stable sort keeps every release and lists them in order.
proof fn lemma_sort_releases_in_order(s: Seq<ReleaseInfo>)
    ensures
        sort_releases(s).len() == s.len(),
        sort_releases(s).to_multiset() == s.to_multiset(),
        listed_in_order(sort_releases(s)),
    decreases s.len(),
{
    if s.len() > 0 {
        let sorted = sort_releases(s.drop_last());
        let x = s.last();
        lemma_sort_releases_in_order(s.drop_last());
        lemma_insert_position_bounds(sorted, x, 0);
        lemma_insert_position_first(sorted, x, 0);
        let p = insert_position(sorted, x, 0);
        let out = sorted.insert(p, x);
        assert(out == sort_releases(s));
        vstd::seq_lib::to_multiset_insert(sorted, p, x);
        vstd::seq_lib::to_multiset_build(s.drop_last(), x);
        assert(s.drop_last().push(x) =~= s);
        assert forall|i: int, j: int| 0 <= i < j < out.len() implies !release_before(
            #[trigger] out[j],
            #[trigger] out[i],
        ) by {
            if j < p {
                assert(out[i] == sorted[i] && out[j] == sorted[j]);
            } else if j == p {
                assert(out[i] == sorted[i] && out[j] == x);
            } else if i < p {
                assert(out[i] == sorted[i] && out[j] == sorted[j - 1]);
            } else if i == p {
                assert(out[i] == x && out[j] == sorted[j - 1]);
                if release_before(sorted[j - 1], x) {
                    lemma_release_before_transitive(sorted[j - 1], x, sorted[p]);
                    if j - 1 == p {
                        lemma_release_before_irreflexive(sorted[p]);
                    }
                }
            } else {
                assert(out[i] == sorted[i - 1] && out[j] == sorted[j - 1]);
            }
        }
    }
}

/// Discovery lists releases newest first by their numeric version: a release
/// with a larger major version comes before one with a smaller, whatever
/// their minor and patch versions; with equal majors, a larger minor comes
/// first; with equal majors and minors, a larger patch comes first; and of
/// two releases of the same version, the one whose directory name sorts later
/// comes first. Ordering loses no release: the listing holds the record of
/// each release directory among the entries, each as often as it occurs.
pub proof fn law_discovery_lists_newest_first(
    package: Seq<char>,
    dir: Seq<char>,
    entries: Seq<ReleaseEntry>,
    releases: Seq<ReleaseInfo>,
    warnings: Seq<String>,
)
    requires
        is_discovery(package, dir, entries, releases, warnings),
    ensures
        forall|i: int, j: int|
            #![trigger releases[i], releases[j]]
            0 <= i < releases.len() && 0 <= j < releases.len() ==> {
                let a = releases[i].version_key;
                let b = releases[j].version_key;
                &&& a.major > b.major ==> i < j
                &&& a.major == b.major && a.minor > b.minor ==> i < j
                &&& a.major == b.major && a.minor == b.minor && a.patch > b.patch ==> i < j
                &&& a == b && text_less(releases[j].directory_name@, releases[i].directory_name@)
                    ==> i < j
            },
        exists|found: Seq<ReleaseInfo>|
            #[trigger] releases_of_entries(package, dir, entries, found) && releases.to_multiset()
                == found.to_multiset(),
{
    let found = choose|found: Seq<ReleaseInfo>|
        releases_of_entries(package, dir, entries, found) && releases == sort_releases(found);
    lemma_sort_releases_in_order(found);
    assert forall|i: int, j: int|
        0 <= i < releases.len() && 0 <= j < releases.len() && release_before(
            releases[i],
            releases[j],
        ) implies i < j by {
        if j < i {
            assert(!release_before(releases[i], releases[j]));
        } else if i == j {
            lemma_release_before_irreflexive(releases[i]);
        }
    }
    assert forall|i: int, j: int|
        #![trigger releases[i], releases[j]]
        0 <= i < releases.len() && 0 <= j < releases.len() && release_before(
            releases[i],
            releases[j],
        ) implies i < j by {}
}

/// Builds the scan of one package store from what was read of it.
pub fn scan_package(obs: &PackageObservation) -> (r: Result<PackageScan, CacheError>)
    ensures
        match r {
            Ok(p) => !store_fails(*obs) && is_package_scan(p, *obs),
            Err(e) => store_fails(*obs) && store_fails_with(*obs, e),
        },
{
    let releases_dir = join_path(obs.root.as_str(), "releases");
    if !obs.releases_is_dir {
        return Err(CacheError::ReleaseCacheMissing { package: obs.name.clone(), releases_dir });
    }
    let current_target = match &obs.current_target {
        Ok(target) => target.clone(),
        Err(message) => {
            return Err(CacheError::Io { message: message.clone() });
        },
    };
    let current_version = match &current_target {
        Some(target) => match file_name_of(target.as_str()) {
            Some(name) => parse_version(name.as_str()),
            None => None,
        },
        None => None,
    };
    match discover_releases(obs.name.as_str(), releases_dir.as_str(), &obs.entries) {
        Ok((releases, warnings)) => Ok(
            PackageScan {
                name: obs.name.clone(),
                root: obs.root.clone(),
                releases_dir,
                current_target,
                current_version,
                releases,
                warnings,
            },
        ),
        Err(message) => Err(CacheError::Io { message }),
    }
}

/// The package stores under `packages/`, in the order they are scanned.
pub fn package_names() -> (names: Vec<&'static str>)
    ensures
        names@.len() == 2,
        names@[0]@ == "standalone"@,
        names@[1]@ == "app-server-daemon"@,
{
    let mut names: Vec<&'static str> = Vec::new();
    names.push("standalone");
    names.push("app-server-daemon");
    names
}

/// `packages` holds, in order, the scan of each store that is present.
pub open spec fn scans_of_stores(
    stores: Seq<Option<PackageObservation>>,
    packages: Seq<PackageScan>,
) -> bool
    decreases stores.len(),
{
    if stores.len() == 0 {
        packages.len() == 0
    } else {
        match stores.last() {
            Some(obs) => packages.len() > 0 && is_package_scan(packages.last(), obs)
                && scans_of_stores(stores.drop_last(), packages.drop_last()),
            None => scans_of_stores(stores.drop_last(), packages),
        }
    }
}

/// Some store is present.
pub open spec fn any_store(stores: Seq<Option<PackageObservation>>) -> bool {
    exists|i: int| 0 <= i < stores.len() && stores[i] is Some
}

/// The index of the first present store whose scan fails, if any.
pub open spec fn first_failing_store(stores: Seq<Option<PackageObservation>>, from: int) -> Option<
    int,
>
    decreases stores.len() - from,
{
    if from < 0 || from >= stores.len() {
        None
    } else if stores[from] matches Some(obs) && store_fails(obs) {
        Some(from)
    } else {
        first_failing_store(stores, from + 1)
    }
}

/// Builds the scan of a Codex root from what was read of its package stores:
/// `None` for a store that is absent. A missing root, a store that cannot be
/// scanned, or the absence of every store is an error.
pub fn scan_cache(
    codex_root: &str,
    root_exists: bool,
    packages_dir: &str,
    stores: &Vec<Option<PackageObservation>>,
) -> (r: Result<CacheScan, CacheError>)
    ensures
        match r {
            Ok(scan) => root_exists && first_failing_store(stores@, 0) is None && any_store(stores@)
                && scan.codex_root@ == codex_root@ && scans_of_stores(stores@, scan.packages@),
            Err(e) => if !root_exists {
                e matches CacheError::RootNotFound { codex_root: shown } && shown@ == codex_root@
            } else {
                match first_failing_store(stores@, 0) {
                    Some(i) => store_fails_with(stores@[i]->Some_0, e),
                    None => !any_store(stores@) && (e matches CacheError::CachesNotFound {
                        packages_dir: shown,
                    } && shown@ == packages_dir@),
                }
            },
        },
{
    if !root_exists {
        return Err(CacheError::RootNotFound { codex_root: codex_root.to_owned() });
    }
    let mut packages: Vec<PackageScan> = Vec::new();
    let mut i: usize = 0;
    assert(stores@.take(0) =~= Seq::<Option<PackageObservation>>::empty());
    while i < stores.len()
        invariant
            i <= stores.len(),
            root_exists,
            first_failing_store(stores@, 0) == first_failing_store(stores@, i as int),
            scans_of_stores(stores@.take(i as int), packages@),
            packages@.len() == 0 <==> !(exists|j: int| 0 <= j < i && stores@[j] is Some),
        decreases stores.len() - i,
    {
        proof {
            assert(stores@.take(i as int + 1).drop_last() =~= stores@.take(i as int));
            assert(stores@.take(i as int + 1).last() == stores@[i as int]);
        }
        match &stores[i] {
            Some(obs) => {
                match scan_package(obs) {
                    Ok(package) => {
                        let ghost before = packages@;
                        packages.push(package);
                        proof {
                            assert(packages@.drop_last() =~= before);
                        }
                    },
                    Err(e) => {
                        assert(stores@[i as int] == Some(*obs));
                        assert(first_failing_store(stores@, i as int) == Some(i as int));
                        return Err(e);
                    },
                }
            },
            None => {},
        }
        i = i + 1;
    }
    assert(stores@.take(stores@.len() as int) =~= stores@);
    if packages.len() == 0 {
        return Err(CacheError::CachesNotFound { packages_dir: packages_dir.to_owned() });
    }
    Ok(CacheScan { codex_root: codex_root.to_owned(), packages })
}

/// Every release of a scan, package by package.
pub open spec fn all_releases_of(packages: Seq<PackageScan>) -> Seq<ReleaseInfo>
    decreases packages.len(),
{
    if packages.len() == 0 {
        Seq::<ReleaseInfo>::empty()
    } else {
        all_releases_of(packages.drop_last()) + packages.last().releases@
    }
}

/// Lists every release of a scan, package by package.
pub fn scan_releases(scan: &CacheScan) -> (releases: Vec<ReleaseInfo>)
    ensures
        releases@ == all_releases_of(scan.packages@),
{
    let mut releases: Vec<ReleaseInfo> = Vec::new();
    let mut i: usize = 0;
    assert(scan.packages@.take(0) =~= Seq::<PackageScan>::empty());
    while i < scan.packages.len()
        invariant
            i <= scan.packages.len(),
            releases@ == all_releases_of(scan.packages@.take(i as int)),
        decreases scan.packages.len() - i,
    {
        let package = &scan.packages[i];
        let mut j: usize = 0;
        let ghost start = releases@;
        while j < package.releases.len()
            invariant
                j <= package.releases.len(),
                releases@ == start + package.releases@.take(j as int),
            decreases package.releases.len() - j,
        {
            releases.push(package.releases[j].clone());
            j = j + 1;
            assert(releases@ =~= start + package.releases@.take(j as int));
        }
        proof {
            assert(scan.packages@.take(i as int + 1).drop_last() =~= scan.packages@.take(i as int));
            assert(package.releases@.take(j as int) =~= package.releases@);
        }
        i = i + 1;
    }
    assert(scan.packages@.take(scan.packages@.len() as int) =~= scan.packages@);
    releases
}

} // verus!
