use codex_cache::{
    discover_releases, package_names, render_list, render_report, render_scan, scan_cache,
    scan_package, scan_releases, CacheScan, PackageObservation, ReleaseEntry,
};

const ROOT: &str = "/home/user/.codex";

fn package_root(package: &str) -> String {
    format!("{ROOT}/packages/{package}")
}

/// A package store whose `releases/` holds one directory per release, each
/// holding a payload of the given size, and whose `current` symlink points at
/// `releases/<current>` when given.
fn store(package: &str, releases: &[(&str, u64)], current: Option<&str>) -> PackageObservation {
    let root = package_root(package);
    let entries = releases
        .iter()
        .map(|(name, size)| ReleaseEntry::Directory {
            name: name.to_string(),
            active: current == Some(*name),
            size: Ok(*size),
        })
        .collect();
    PackageObservation {
        name: package.to_string(),
        root: root.clone(),
        releases_is_dir: true,
        current_target: Ok(current.map(|name| format!("{root}/releases/{name}"))),
        entries,
    }
}

fn scan_of(stores: Vec<Option<PackageObservation>>) -> CacheScan {
    scan_cache(ROOT, true, &format!("{ROOT}/packages"), &stores).unwrap()
}

fn standalone(releases: &[(&str, u64)], current: Option<&str>) -> CacheScan {
    scan_of(vec![Some(store("standalone", releases, current)), None])
}

#[test]
fn scan_detects_releases_and_active_current() {
    let scan = standalone(
        &[
            ("0.144.5-x86_64-unknown-linux-musl", 20),
            ("0.145.0-x86_64-unknown-linux-musl", 30),
        ],
        Some("0.145.0-x86_64-unknown-linux-musl"),
    );

    assert_eq!(scan.packages[0].current_version.as_deref(), Some("0.145.0"));
    assert_eq!(scan.packages[0].releases.len(), 2);
    assert_eq!(scan.packages[0].releases[0].display_version, "0.145.0");
    assert!(scan.packages[0].releases[0].active);
    assert_eq!(scan.packages[0].releases[1].display_version, "0.144.5");
    assert!(!scan.packages[0].releases[1].active);
    assert_eq!(scan.total_size(), 50);
    assert_eq!(scan.reclaim_if_only_current_kept(), 20);
}

#[test]
fn active_detection_uses_full_release_path_not_display_version() {
    let scan = standalone(
        &[
            ("0.145.0-aarch64-apple-darwin", 10),
            ("0.145.0-x86_64-unknown-linux-musl", 20),
        ],
        Some("0.145.0-x86_64-unknown-linux-musl"),
    );

    assert_eq!(scan.packages[0].releases.len(), 2);
    assert_eq!(
        scan.packages[0].current_release().unwrap().directory_name,
        "0.145.0-x86_64-unknown-linux-musl"
    );
    assert_eq!(
        scan.packages[0]
            .releases
            .iter()
            .filter(|release| release.display_version == "0.145.0")
            .count(),
        2
    );
}

#[test]
fn report_keeps_current_and_previous_for_reclaim_calculation() {
    let scan = standalone(
        &[
            ("0.144.0-x86_64-unknown-linux-musl", 10),
            ("0.144.5-x86_64-unknown-linux-musl", 20),
            ("0.145.0-x86_64-unknown-linux-musl", 30),
        ],
        Some("0.145.0-x86_64-unknown-linux-musl"),
    );

    assert_eq!(scan.reclaim_if_current_and_previous_kept(), 10);
    let report = render_report(&scan);
    assert!(report.contains("Potential reclaim, keeping current + previous: 10 B"));
    assert!(report.contains("Installed versions: 0.145.0, 0.144.5, 0.144.0"));
}

#[test]
fn list_renders_compact_table() {
    let scan = standalone(
        &[
            ("0.144.5-x86_64-unknown-linux-musl", 20),
            ("0.145.0-x86_64-unknown-linux-musl", 30),
        ],
        Some("0.145.0-x86_64-unknown-linux-musl"),
    );

    let output = render_list(&scan);

    assert!(output.starts_with("Package            Version     Active  Size\n"));
    assert!(output.contains("standalone         0.145.0     *       30 B\n"));
    assert!(output.contains("standalone         0.144.5             20 B\n"));
}

#[test]
fn scan_warns_about_unrecognized_release_directories() {
    let mut observation = store(
        "standalone",
        &[("0.145.0-x86_64-unknown-linux-musl", 30)],
        None,
    );
    observation.entries.push(ReleaseEntry::Directory {
        name: "latest".to_string(),
        active: false,
        size: Ok(0),
    });

    let scan = scan_of(vec![Some(observation), None]);

    assert_eq!(scan.packages[0].releases.len(), 1);
    assert_eq!(scan.packages[0].warnings.len(), 1);
    assert!(scan.packages[0].warnings[0].contains("latest"));
}

#[test]
fn render_scan_includes_evidence_paths() {
    let scan = standalone(&[("0.145.0-x86_64-unknown-linux-musl", 30)], None);
    let output = render_scan(&scan);

    assert!(output.contains("Codex root:"));
    assert!(output.contains("Current target:  not found"));
    assert!(output.contains("0.145.0"));
    assert!(output.contains("inactive"));
}

#[test]
fn missing_cache_returns_contextual_error() {
    let error = scan_cache(ROOT, true, &format!("{ROOT}/packages"), &vec![None, None])
        .unwrap_err()
        .message();

    assert!(error.contains("Codex release caches were not found"));
}

#[test]
fn two_packages_have_independent_current_and_previous_releases() {
    let scan = scan_of(vec![
        Some(store(
            "standalone",
            &[("0.155.0", 10), ("0.156.0", 10), ("0.157.0", 10)],
            Some("0.157.0"),
        )),
        Some(store(
            "app-server-daemon",
            &[("0.153.0", 10), ("0.154.0", 10), ("0.155.0", 10)],
            Some("0.154.0"),
        )),
    ]);
    assert_eq!(scan.packages.len(), 2);
    assert_eq!(scan.packages[0].current_version.as_deref(), Some("0.157.0"));
    assert_eq!(scan.packages[1].current_version.as_deref(), Some("0.154.0"));
    assert_eq!(scan.reclaim_if_only_current_kept(), 40);
    assert_eq!(scan.reclaim_if_current_and_previous_kept(), 20);
    assert!(render_report(&scan).contains("app-server-daemon:\nCurrent version: 0.154.0"));
    assert!(render_list(&scan).contains("app-server-daemon  0.154.0"));

    let plans = codex_cache::plan_scan_deletions(&scan, codex_cache::KeepPolicy::CurrentPrevious)
        .unwrap();
    assert_eq!(plans.len(), 2);
    let names = |plan: &codex_cache::DeletionPlan| {
        plan.releases_to_remove
            .iter()
            .map(|release| release.directory_name.clone())
            .collect::<Vec<_>>()
    };
    assert_eq!(names(&plans[0]), vec!["0.155.0"]);
    assert_eq!(names(&plans[1]), vec!["0.153.0"]);
    let dry_run = codex_cache::render_clean_dry_runs(&plans);
    assert!(dry_run.contains("standalone  "));
    assert!(dry_run.contains("app-server-daemon  "));
}

#[test]
fn scan_keeps_store_order_and_skips_absent_stores() {
    let names = package_names();
    assert_eq!(names, vec!["standalone", "app-server-daemon"]);
    let scan = scan_of(vec![
        None,
        Some(store("app-server-daemon", &[("0.157.0", 20)], Some("0.157.0"))),
    ]);
    assert_eq!(scan.packages.len(), 1);
    assert_eq!(scan.packages[0].name, "app-server-daemon");
    assert_eq!(scan.codex_root, ROOT);
}

#[test]
fn scan_of_missing_root_is_an_error() {
    let error = scan_cache(ROOT, false, &format!("{ROOT}/packages"), &vec![None, None])
        .unwrap_err()
        .message();
    assert_eq!(error, format!("Codex root was not found at {ROOT}"));
}

#[test]
fn store_without_releases_directory_is_an_error() {
    let mut observation = store("standalone", &[], None);
    observation.releases_is_dir = false;
    let error = scan_package(&observation).unwrap_err().message();
    assert_eq!(
        error,
        format!(
            "Codex standalone release cache was not found at {}/releases",
            package_root("standalone")
        )
    );
}

#[test]
fn unreadable_current_symlink_stops_the_scan() {
    let mut observation = store("standalone", &[("0.145.0", 1)], None);
    observation.current_target = Err("failed to read /x/current".to_string());
    let error = scan_package(&observation).unwrap_err().message();
    assert_eq!(error, "failed to read /x/current");
}

#[test]
fn discovery_orders_by_version_then_name_and_reports_failures() {
    let dir = "/r/releases";
    let entries = vec![
        ReleaseEntry::Directory { name: "0.9.10".to_string(), active: false, size: Ok(1) },
        ReleaseEntry::Directory { name: "0.10.0-b".to_string(), active: true, size: Ok(2) },
        ReleaseEntry::Other { name: "notes.txt".to_string() },
        ReleaseEntry::Directory { name: "0.10.0-a".to_string(), active: false, size: Ok(3) },
        ReleaseEntry::Directory { name: "1.2".to_string(), active: false, size: Ok(4) },
        ReleaseEntry::Directory { name: "1.2.3.4".to_string(), active: false, size: Ok(4) },
        ReleaseEntry::Directory { name: "1..3".to_string(), active: false, size: Ok(4) },
        ReleaseEntry::Directory {
            name: "99999999999999999999.0.0".to_string(),
            active: false,
            size: Ok(4),
        },
    ];
    let (releases, warnings) = discover_releases("standalone", dir, &entries).unwrap();
    let names: Vec<&str> = releases.iter().map(|r| r.directory_name.as_str()).collect();
    assert_eq!(names, vec!["0.10.0-b", "0.10.0-a", "0.9.10"]);
    assert_eq!(releases[0].path, "/r/releases/0.10.0-b");
    assert_eq!(releases[0].display_version, "0.10.0");
    assert_eq!(releases[0].package, "standalone");
    assert_eq!(releases[0].version_key.minor, 10);
    assert_eq!(
        warnings,
        vec![
            "unexpected non-directory entry in releases/: /r/releases/notes.txt".to_string(),
            "ignored release directory with unrecognized version: /r/releases/1.2".to_string(),
            "ignored release directory with unrecognized version: /r/releases/1.2.3.4".to_string(),
            "ignored release directory with unrecognized version: /r/releases/1..3".to_string(),
            "ignored release directory with unrecognized version: /r/releases/99999999999999999999.0.0"
                .to_string(),
        ]
    );

    let failing = vec![
        ReleaseEntry::Directory { name: "latest".to_string(), active: false, size: Err("x".to_string()) },
        ReleaseEntry::Directory { name: "0.1.0".to_string(), active: false, size: Err("x".to_string()) },
        ReleaseEntry::Unreadable { message: "failed to read /r/releases".to_string() },
    ];
    assert_eq!(
        discover_releases("standalone", dir, &failing).unwrap_err(),
        "failed to size /r/releases/0.1.0"
    );
    let unreadable = vec![ReleaseEntry::Unreadable { message: "failed to read /r/releases".to_string() }];
    assert_eq!(
        discover_releases("standalone", dir, &unreadable).unwrap_err(),
        "failed to read /r/releases"
    );
}

#[test]
fn current_version_comes_from_the_symlink_target_name() {
    let mut observation = store("standalone", &[("0.145.0-x", 1)], None);
    observation.current_target = Ok(Some("/elsewhere/0.146.1-linux/".to_string()));
    let scan = scan_package(&observation).unwrap();
    assert_eq!(scan.current_version.as_deref(), Some("0.146.1"));
    observation.current_target = Ok(Some("/elsewhere/..".to_string()));
    assert_eq!(scan_package(&observation).unwrap().current_version, None);
    observation.current_target = Ok(Some("/elsewhere/latest".to_string()));
    assert_eq!(scan_package(&observation).unwrap().current_version, None);
}

#[test]
fn report_lists_at_most_five_largest_releases_and_totals() {
    let scan = standalone(
        &[
            ("0.1.0", 5),
            ("0.2.0", 70),
            ("0.3.0", 70),
            ("0.4.0", 2048),
            ("0.5.0", 1),
            ("0.6.0", 30),
            ("0.7.0", 9),
        ],
        Some("0.7.0"),
    );
    let report = render_report(&scan);
    let root = package_root("standalone");
    let mut expected = String::from("Largest releases:\n");
    for (version, size) in [("0.4.0", "2.0 KiB"), ("0.3.0", "70 B"), ("0.2.0", "70 B"), ("0.6.0", "30 B"), ("0.7.0", "9 B")] {
        expected.push_str(&format!(
            "  {:<17} {:<12} {:>10}  {}\n",
            "standalone",
            version,
            size,
            format!("{root}/releases/{version}")
        ));
    }
    assert!(report.contains(&expected), "{report}");
    assert!(report.contains("Total cache size: 2.2 KiB\n"));
    assert!(report.contains("Potential reclaim, keeping current only: 2.2 KiB\n"));
    assert!(!report.contains("0.1.0          "));
}

#[test]
fn empty_store_renders_none() {
    let scan = standalone(&[], None);
    assert!(render_list(&scan).contains("none\n"));
    assert!(render_report(&scan).contains("Largest releases:\n  none\n"));
    assert!(render_scan(&scan).contains("Installed releases:\n  none\n"));
    assert!(render_report(&scan).contains("Installed versions: none\n"));
    assert!(render_scan(&scan).contains("Current version: unknown\n"));
}

#[test]
fn scan_text_is_exact() {
    let mut observation = store("standalone", &[("0.145.0-x", 2048)], Some("0.145.0-x"));
    observation.entries.push(ReleaseEntry::Other { name: "junk".to_string() });
    let scan = scan_of(vec![Some(observation), None]);
    let root = package_root("standalone");
    let mut expected = String::new();
    expected.push_str("Codex release cache scan\n");
    expected.push_str(&format!("Codex root:      {ROOT}\n"));
    expected.push_str("\nstandalone:\n");
    expected.push_str(&format!("Package root:    {root}\n"));
    expected.push_str(&format!("Releases dir:    {root}/releases\n"));
    expected.push_str(&format!("Current target:  {root}/releases/0.145.0-x\n"));
    expected.push_str("Current version: 0.145.0\n");
    expected.push_str("Installed releases:\n");
    expected.push_str(&format!(
        "  {:<12} {:>10}  {}  {}\n",
        "0.145.0",
        "2.0 KiB",
        "active  ",
        format!("{root}/releases/0.145.0-x")
    ));
    expected.push_str("\nWarnings:\n");
    expected.push_str(&format!("  unexpected non-directory entry in releases/: {root}/releases/junk\n"));
    assert_eq!(render_scan(&scan), expected);
}

#[test]
fn scan_releases_lists_every_package() {
    let scan = scan_of(vec![
        Some(store("standalone", &[("0.1.0", 1), ("0.2.0", 2)], Some("0.2.0"))),
        Some(store("app-server-daemon", &[("0.3.0", 3)], Some("0.3.0"))),
    ]);
    let releases = scan_releases(&scan);
    let names: Vec<&str> = releases.iter().map(|r| r.directory_name.as_str()).collect();
    assert_eq!(names, vec!["0.2.0", "0.1.0", "0.3.0"]);
}

#[test]
fn previous_release_is_the_newest_inactive_one() {
    let scan = standalone(
        &[("0.1.0", 1), ("0.3.0", 3), ("0.2.0", 2), ("0.4.0", 4)],
        Some("0.3.0"),
    );
    let package = &scan.packages[0];
    assert_eq!(package.current_release().unwrap().directory_name, "0.3.0");
    assert_eq!(package.previous_release().unwrap().directory_name, "0.4.0");
    assert_eq!(package.current_size(), 3);
    assert_eq!(package.total_size(), 10);
    assert_eq!(package.reclaim_if_current_and_previous_kept(), 3);
    assert!(scan.reclaim_if_current_and_previous_kept() <= scan.reclaim_if_only_current_kept());
    assert_eq!(scan.current_size(), 3);
}

#[test]
fn join_path_agrees_with_std_path_join() {
    let dirs = ["", "/", "/a", "/a/", "a/b", "a//", "."];
    let names = ["", "b", "/b", "b/c", "..", "./x"];
    for dir in dirs {
        for name in names {
            let expected = std::path::Path::new(dir).join(name);
            assert_eq!(
                codex_cache::join_path(dir, name),
                expected.to_str().unwrap(),
                "{dir:?} joined with {name:?}"
            );
        }
    }
}

#[test]
fn releases_directory_is_joined_onto_the_package_root() {
    let mut observation = store("standalone", &[("0.145.0", 1)], Some("0.145.0"));
    observation.root = "/opt/codex/standalone/".to_string();
    let scan = scan_package(&observation).unwrap();
    assert_eq!(scan.releases_dir, "/opt/codex/standalone/releases");
    assert_eq!(scan.releases[0].path, "/opt/codex/standalone/releases/0.145.0");
    observation.root = "/opt/codex/standalone".to_string();
    observation.releases_is_dir = false;
    assert_eq!(
        scan_package(&observation).unwrap_err().message(),
        "Codex standalone release cache was not found at /opt/codex/standalone/releases"
    );
}
