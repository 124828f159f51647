use codex_cache::{
    discover_releases, plan_deletions, plan_deletions_in, plan_scan_deletions,
    render_clean_dry_run, render_clean_dry_runs, scan_cache, CacheError, CacheScan, DeletionPlan,
    KeepPolicy,
    PackageObservation, ReleaseEntry, ReleaseInfo,
};

const ROOT: &str = "/home/user/.codex";

fn store(package: &str, releases: &[(&str, u64)], current: Option<&str>) -> PackageObservation {
    let root = format!("{ROOT}/packages/{package}");
    PackageObservation {
        name: package.to_string(),
        root: root.clone(),
        releases_is_dir: true,
        current_target: Ok(current.map(|name| format!("{root}/releases/{name}"))),
        entries: releases
            .iter()
            .map(|(name, size)| ReleaseEntry::Directory {
                name: name.to_string(),
                active: current == Some(*name),
                size: Ok(*size),
            })
            .collect(),
    }
}

fn standalone(releases: &[(&str, u64)], current: Option<&str>) -> CacheScan {
    scan_cache(
        ROOT,
        true,
        &format!("{ROOT}/packages"),
        &vec![Some(store("standalone", releases, current)), None],
    )
    .unwrap()
}

fn release_names(releases: &[ReleaseInfo]) -> Vec<&str> {
    releases
        .iter()
        .map(|release| release.directory_name.as_str())
        .collect()
}

const THREE: [(&str, u64); 3] = [
    ("0.144.0-x86_64-unknown-linux-musl", 10),
    ("0.144.5-x86_64-unknown-linux-musl", 20),
    ("0.145.0-x86_64-unknown-linux-musl", 30),
];

#[test]
fn keep_current_plans_all_inactive_releases() {
    let scan = standalone(&THREE, Some("0.145.0-x86_64-unknown-linux-musl"));
    let plan = plan_deletions(&scan.packages[0].releases, KeepPolicy::Current).unwrap();

    assert_eq!(plan.reclaimed_bytes(), 30);
    assert_eq!(
        release_names(&plan.releases_to_remove),
        vec![
            "0.144.5-x86_64-unknown-linux-musl",
            "0.144.0-x86_64-unknown-linux-musl"
        ]
    );
}

#[test]
fn keep_current_previous_keeps_newest_inactive_release() {
    let scan = standalone(&THREE, Some("0.145.0-x86_64-unknown-linux-musl"));
    let plan = plan_deletions(&scan.packages[0].releases, KeepPolicy::CurrentPrevious).unwrap();

    assert_eq!(plan.reclaimed_bytes(), 10);
    assert_eq!(
        release_names(&plan.releases_to_remove),
        vec!["0.144.0-x86_64-unknown-linux-musl"]
    );
}

#[test]
fn missing_active_symlink_refuses_deletion_plan() {
    let scan = standalone(
        &[
            ("0.144.5-x86_64-unknown-linux-musl", 20),
            ("0.145.0-x86_64-unknown-linux-musl", 30),
        ],
        None,
    );
    let error = plan_deletions(&scan.packages[0].releases, KeepPolicy::Current)
        .unwrap_err()
        .message();

    assert!(error.contains("active Codex release could not be determined"));
}

#[test]
fn dry_run_output_lists_directories_and_reclaim_sizes() {
    let scan = standalone(
        &[
            ("0.144.5-x86_64-unknown-linux-musl", 2048),
            ("0.145.0-x86_64-unknown-linux-musl", 1024),
        ],
        Some("0.145.0-x86_64-unknown-linux-musl"),
    );
    let plan = plan_deletions(&scan.packages[0].releases, KeepPolicy::Current).unwrap();
    let output = render_clean_dry_run(&plan);

    assert!(output.contains("Keep policy: current\n"));
    assert!(output.contains("0.144.5-x86_64-unknown-linux-musl"));
    assert!(output.contains("Reclaimed bytes: 2048\n"));
    assert!(output.contains("Reclaimed size: 2.0 KiB\n"));
    assert!(output.contains("Dry run: no files were deleted.\n"));
}

#[test]
fn plan_records_policy_directory_and_current_target() {
    let scan = standalone(&THREE, Some("0.144.5-x86_64-unknown-linux-musl"));
    let package = &scan.packages[0];
    let plan = plan_deletions_in(&package.releases_dir, &package.releases, KeepPolicy::CurrentPrevious)
        .unwrap();
    assert_eq!(plan.keep_policy, KeepPolicy::CurrentPrevious);
    assert_eq!(plan.releases_dir, package.releases_dir);
    assert_eq!(
        plan.current_target.as_deref(),
        Some(format!("{ROOT}/packages/standalone/releases/0.144.5-x86_64-unknown-linux-musl").as_str())
    );
    // The newest inactive release is 0.145.0, so only 0.144.0 goes.
    assert_eq!(
        release_names(&plan.releases_to_remove),
        vec!["0.144.0-x86_64-unknown-linux-musl"]
    );
}

#[test]
fn plan_without_releases_dir_takes_first_non_empty_parent() {
    let entries = vec![ReleaseEntry::Directory {
        name: "0.1.0".to_string(),
        active: true,
        size: Ok(1),
    }];
    let (releases, _) = discover_releases("standalone", "", &entries).unwrap();
    assert_eq!(releases[0].path, "0.1.0");
    let plan = plan_deletions(&releases, KeepPolicy::Current).unwrap();
    assert_eq!(plan.releases_dir, "");

    let scan = standalone(&THREE, Some("0.145.0-x86_64-unknown-linux-musl"));
    let plan = plan_deletions(&scan.packages[0].releases, KeepPolicy::Current).unwrap();
    assert_eq!(plan.releases_dir, format!("{ROOT}/packages/standalone/releases"));
}

#[test]
fn releases_sharing_the_active_path_by_components_are_kept() {
    let entries = vec![
        ReleaseEntry::Directory { name: "0.2.0".to_string(), active: true, size: Ok(5) },
        ReleaseEntry::Directory { name: "0.1.0".to_string(), active: false, size: Ok(7) },
    ];
    let (mut releases, _) = discover_releases("standalone", "/r/releases", &entries).unwrap();
    // A second record of the active directory, written with a doubled slash.
    let mut alias = releases[0].clone();
    alias.path = "/r//releases/0.2.0/".to_string();
    alias.active = false;
    releases.push(alias);
    let plan = plan_deletions_in("/r/releases", &releases, KeepPolicy::Current).unwrap();
    assert_eq!(release_names(&plan.releases_to_remove), vec!["0.1.0"]);
    assert_eq!(plan.reclaimed_bytes(), 7);
}

#[test]
fn scan_planning_names_the_package_without_active_release() {
    let scan = scan_cache(
        ROOT,
        true,
        &format!("{ROOT}/packages"),
        &vec![
            Some(store("standalone", &[("0.1.0", 1)], Some("0.1.0"))),
            Some(store("app-server-daemon", &[("0.2.0", 1)], None)),
        ],
    )
    .unwrap();
    let error = plan_scan_deletions(&scan, KeepPolicy::Current).unwrap_err();
    assert!(matches!(error, CacheError::PlanFailed { ref package } if package == "app-server-daemon"));
    assert_eq!(error.message(), "failed to plan app-server-daemon cleanup");
}

#[test]
fn dry_run_without_removals_says_none() {
    let scan = standalone(&[("0.1.0", 1)], Some("0.1.0"));
    let plans = plan_scan_deletions(&scan, KeepPolicy::CurrentPrevious).unwrap();
    let output = render_clean_dry_runs(&plans);
    assert_eq!(
        output,
        "Codex release cache clean dry run\n\
         Keep policy: current,previous\n\
         Would remove:\n  none\n\
         Reclaimed bytes: 0\n\
         Reclaimed size: 0 B\n\
         Dry run: no files were deleted.\n"
    );
    assert_eq!(
        render_clean_dry_runs(&[]),
        "Codex release cache clean dry run\nWould remove:\n  none\nReclaimed bytes: 0\nReclaimed size: 0 B\nDry run: no files were deleted.\n"
    );
}

#[test]
fn dry_run_reclaims_what_the_report_estimates() {
    let scan = standalone(&THREE, Some("0.145.0-x86_64-unknown-linux-musl"));
    let package = &scan.packages[0];
    let current = plan_deletions_in(&package.releases_dir, &package.releases, KeepPolicy::Current)
        .unwrap();
    assert_eq!(
        current.reclaimed_bytes(),
        package.total_size() - package.current_size()
    );
    let previous =
        plan_deletions_in(&package.releases_dir, &package.releases, KeepPolicy::CurrentPrevious)
            .unwrap();
    assert_eq!(
        previous.reclaimed_bytes(),
        package.reclaim_if_current_and_previous_kept()
    );
}

#[test]
fn keep_policy_parses_and_labels() {
    assert_eq!(KeepPolicy::parse("current").unwrap(), KeepPolicy::Current);
    assert_eq!(
        KeepPolicy::parse("current,previous").unwrap(),
        KeepPolicy::CurrentPrevious
    );
    assert_eq!(
        KeepPolicy::parse("previous").unwrap_err().message(),
        "keep must be one of: current, current,previous"
    );
    assert_eq!("current".parse::<KeepPolicy>().unwrap(), KeepPolicy::Current);
    for policy in [KeepPolicy::Current, KeepPolicy::CurrentPrevious] {
        assert_eq!(KeepPolicy::parse(policy.label()).unwrap(), policy);
    }
}

#[test]
fn scan_dry_runs_reclaim_the_report_estimates() {
    let scan = scan_cache(
        ROOT,
        true,
        &format!("{ROOT}/packages"),
        &vec![
            Some(store(
                "standalone",
                &[("0.155.0", 11), ("0.156.0", 12), ("0.157.0", 13)],
                Some("0.157.0"),
            )),
            Some(store(
                "app-server-daemon",
                &[("0.153.0", 21), ("0.154.0", 22), ("0.155.0", 23)],
                Some("0.154.0"),
            )),
        ],
    )
    .unwrap();
    let total = |policy| -> u64 {
        plan_scan_deletions(&scan, policy)
            .unwrap()
            .iter()
            .map(|plan| plan.reclaimed_bytes())
            .sum()
    };
    assert_eq!(total(KeepPolicy::Current), scan.reclaim_if_only_current_kept());
    assert_eq!(total(KeepPolicy::Current), 11 + 12 + 21 + 23);
    assert_eq!(
        total(KeepPolicy::CurrentPrevious),
        scan.reclaim_if_current_and_previous_kept()
    );
    assert_eq!(total(KeepPolicy::CurrentPrevious), 11 + 21);
}

#[test]
fn keeping_previous_spares_only_the_newest_inactive_release() {
    let releases = [
        ("0.143.0", 5),
        ("0.144.0", 10),
        ("0.145.0", 20),
        ("0.146.0", 40),
    ];
    let scan = standalone(&releases, Some("0.145.0"));
    let package = &scan.packages[0];
    let current = plan_deletions_in(&package.releases_dir, &package.releases, KeepPolicy::Current)
        .unwrap();
    let previous =
        plan_deletions_in(&package.releases_dir, &package.releases, KeepPolicy::CurrentPrevious)
            .unwrap();
    let names = |plan: &DeletionPlan| -> Vec<String> {
        plan.releases_to_remove.iter().map(|r| r.directory_name.clone()).collect()
    };
    assert_eq!(names(&current), vec!["0.146.0", "0.144.0", "0.143.0"]);
    assert_eq!(names(&previous), names(&current)[1..].to_vec());
    assert_eq!(
        package.previous_release().unwrap().directory_name,
        current.releases_to_remove[0].directory_name
    );

    let lone = standalone(&[("0.145.0", 20)], Some("0.145.0"));
    let lone = &lone.packages[0];
    for policy in [KeepPolicy::Current, KeepPolicy::CurrentPrevious] {
        let plan = plan_deletions_in(&lone.releases_dir, &lone.releases, policy).unwrap();
        assert!(plan.releases_to_remove.is_empty());
    }
}
