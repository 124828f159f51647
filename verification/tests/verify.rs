use codex_cache::{
    clean_gate, render_verify, verify_report, CurrentLink, LayoutObservation, LinkTarget,
    ReleaseEntry, RootEntry, VerificationReport, VerificationStatus,
};

const ROOT: &str = "/home/user/.codex";

fn packages_dir() -> String {
    format!("{ROOT}/packages")
}

fn package_root(package: &str) -> String {
    format!("{ROOT}/packages/{package}")
}

/// A package store with the given release directories and extra entries under
/// its root; `current` is a symlink to `releases/<link>` when given, and the
/// target exists when it names one of the releases.
fn layout(
    package: &str,
    releases: &[(&str, u64)],
    link: Option<&str>,
    extra_root_entries: &[&str],
) -> LayoutObservation {
    let root = package_root(package);
    let target_exists = link.is_some_and(|link| releases.iter().any(|(name, _)| *name == link));
    let mut root_entries = vec![RootEntry {
        name: "releases".to_string(),
        path: format!("{root}/releases"),
    }];
    if link.is_some() {
        root_entries.push(RootEntry {
            name: "current".to_string(),
            path: format!("{root}/current"),
        });
    }
    for name in extra_root_entries {
        root_entries.push(RootEntry {
            name: name.to_string(),
            path: format!("{root}/{name}"),
        });
    }
    LayoutObservation {
        name: package.to_string(),
        releases_dir: format!("{root}/releases"),
        current: format!("{root}/current"),
        releases_is_dir: true,
        releases_listing: Ok(releases
            .iter()
            .map(|(name, size)| ReleaseEntry::Directory {
                name: name.to_string(),
                active: target_exists && link == Some(*name),
                size: Ok(*size),
            })
            .collect()),
        root_entries,
        current_link: match link {
            Some(link) => CurrentLink::Symlink {
                target: LinkTarget::Found {
                    target: format!("{root}/releases/{link}"),
                    exists: target_exists,
                    inside_releases: true,
                },
            },
            None => CurrentLink::Missing,
        },
    }
}

fn has(report: &VerificationReport, status: VerificationStatus, needle: &str) -> bool {
    report
        .checks
        .iter()
        .any(|check| check.status == status && check.message.contains(needle))
}

fn has_error(report: &VerificationReport, needle: &str) -> bool {
    has(report, VerificationStatus::Error, needle)
}

fn has_warning(report: &VerificationReport, needle: &str) -> bool {
    has(report, VerificationStatus::Warning, needle)
}

const RELEASE: (&str, u64) = ("0.145.0-x86_64-unknown-linux-musl", 30);

#[test]
fn verify_valid_installation_reports_success_summary() {
    let report = verify_report(
        &packages_dir(),
        &vec![layout("standalone", &[RELEASE], Some(RELEASE.0), &["install.lock"])],
    );
    let output = render_verify(&report);

    assert_eq!(report.error_count(), 0);
    assert_eq!(report.warning_count(), 0);
    assert!(output.contains("PASS    standalone: active release appears exactly once"));
    assert!(output.contains("Summary:"));
    assert!(output.contains("0 ERROR"));
}

#[test]
fn verify_missing_current_reports_error_summary() {
    let report = verify_report(
        &packages_dir(),
        &vec![layout("standalone", &[RELEASE], None, &[])],
    );

    assert!(has_error(&report, "current symlink is missing"));
    assert!(has_error(&report, "active release cannot be checked"));
    assert!(render_verify(&report).contains("ERROR"));
}

#[test]
fn verify_dangling_current_reports_error() {
    let report = verify_report(
        &packages_dir(),
        &vec![layout(
            "standalone",
            &[RELEASE],
            Some("9.999.9-x86_64-unknown-linux-musl"),
            &[],
        )],
    );

    assert!(has_error(&report, "current symlink is dangling"));
    assert!(has_error(&report, "active release appears 0 times"));
}

#[test]
fn verify_current_outside_releases_reports_error() {
    let mut observation = layout("standalone", &[RELEASE], None, &[]);
    observation.current_link = CurrentLink::Symlink {
        target: LinkTarget::Found {
            target: format!("{ROOT}/outside"),
            exists: true,
            inside_releases: false,
        },
    };
    let report = verify_report(&packages_dir(), &vec![observation]);

    assert!(has_error(&report, "current target is outside releases/"));
    assert!(has_error(&report, "active release appears 0 times"));
}

#[test]
fn verify_malformed_release_names_are_warnings() {
    let report = verify_report(
        &packages_dir(),
        &vec![layout("standalone", &[RELEASE, ("latest", 0)], Some(RELEASE.0), &[])],
    );

    assert!(has_warning(&report, "unrecognized version"));
    assert_eq!(report.error_count(), 0);
}

#[test]
fn verify_missing_releases_directory_reports_error() {
    let root = package_root("standalone");
    let observation = LayoutObservation {
        name: "standalone".to_string(),
        releases_dir: format!("{root}/releases"),
        current: format!("{root}/current"),
        releases_is_dir: false,
        releases_listing: Err("No such file or directory (os error 2)".to_string()),
        root_entries: Vec::new(),
        current_link: CurrentLink::Missing,
    };
    let report = verify_report(&packages_dir(), &vec![observation]);

    assert!(has_error(&report, "releases directory is missing"));
    assert!(has_error(&report, "releases directory is not readable"));
}

#[test]
fn verify_unknown_file_under_standalone_root_reports_warning_only() {
    let report = verify_report(
        &packages_dir(),
        &vec![layout("standalone", &[RELEASE], Some(RELEASE.0), &["notes.txt"])],
    );

    assert!(has_warning(&report, "unexpected entry under package root"));
    assert!(has_warning(&report, "notes.txt"));
    assert_eq!(report.warning_count(), 1);
    assert_eq!(report.error_count(), 0);
}

#[test]
fn verify_unknown_directory_under_standalone_root_reports_warning_only() {
    let report = verify_report(
        &packages_dir(),
        &vec![layout("standalone", &[RELEASE], Some(RELEASE.0), &["scratch"])],
    );

    assert!(has_warning(&report, "unexpected entry under package root"));
    assert!(has_warning(&report, "scratch"));
    assert_eq!(report.warning_count(), 1);
    assert_eq!(report.error_count(), 0);
}

#[test]
fn verify_mixed_expected_and_unexpected_standalone_entries_only_warns_for_unexpected() {
    let report = verify_report(
        &packages_dir(),
        &vec![layout(
            "standalone",
            &[RELEASE],
            Some(RELEASE.0),
            &["install.lock", "scratch"],
        )],
    );

    assert!(has_warning(&report, "scratch"));
    assert!(!has_warning(&report, "install.lock"));
    assert_eq!(report.warning_count(), 1);
    assert_eq!(report.error_count(), 0);
}

#[test]
fn missing_package_is_skipped_but_invalid_present_package_blocks_clean() {
    let daemon = || {
        layout(
            "app-server-daemon",
            &[("0.157.0", 20), ("0.156.0", 10)],
            Some("0.157.0"),
            &[],
        )
    };
    let report = verify_report(&packages_dir(), &vec![daemon()]);
    assert_eq!(report.error_count(), 0);
    assert!(clean_gate(&report).is_ok());

    let root = package_root("standalone");
    let broken = LayoutObservation {
        name: "standalone".to_string(),
        releases_dir: format!("{root}/releases"),
        current: format!("{root}/current"),
        releases_is_dir: false,
        releases_listing: Err("No such file or directory (os error 2)".to_string()),
        root_entries: Vec::new(),
        current_link: CurrentLink::Missing,
    };
    let report = verify_report(&packages_dir(), &vec![broken, daemon()]);
    assert!(has_error(&report, "standalone: releases directory is missing"));
    assert!(clean_gate(&report).is_err());
}

#[test]
fn verify_reports_each_package_error_without_hiding_the_other() {
    let report = verify_report(
        &packages_dir(),
        &vec![
            layout("standalone", &[("0.157.0", 10)], Some("0.157.0"), &[]),
            layout("app-server-daemon", &[("0.156.0", 10)], Some("0.999.0"), &[]),
        ],
    );
    let output = render_verify(&report);
    assert!(output.contains("standalone: active release appears exactly once"));
    assert!(has_error(&report, "app-server-daemon: current symlink is dangling"));
    assert!(clean_gate(&report).is_err());
}

#[test]
fn verification_with_no_store_is_an_error() {
    let report = verify_report(&packages_dir(), &vec![]);
    assert_eq!(report.checks.len(), 1);
    assert_eq!(report.checks[0].status, VerificationStatus::Error);
    assert_eq!(
        report.checks[0].message,
        format!("no Codex release cache found under {ROOT}/packages")
    );
}

#[test]
fn verification_text_is_exact() {
    let report = verify_report(
        &packages_dir(),
        &vec![layout("standalone", &[RELEASE, ("latest", 1)], Some(RELEASE.0), &["x"])],
    );
    let root = package_root("standalone");
    let expected = format!(
        "Codex release cache verification\n\
         PASS    standalone: releases directory exists: {root}/releases\n\
         PASS    standalone: releases directory is readable: {root}/releases\n\
         WARNING standalone: unexpected entry under package root: {root}/x\n\
         PASS    standalone: current symlink exists: {root}/current\n\
         PASS    standalone: current is a symlink\n\
         PASS    standalone: current target exists: {root}/releases/{name}\n\
         PASS    standalone: current target resides inside releases/: {root}/releases/{name}\n\
         WARNING standalone: ignored release directory with unrecognized version: {root}/releases/latest\n\
         PASS    standalone: active release appears exactly once\n\
         \n\
         Summary: 7 PASS, 2 WARNING, 0 ERROR\n",
        name = RELEASE.0
    );
    assert_eq!(render_verify(&report), expected);
    assert_eq!(
        report.pass_count() + report.warning_count() + report.error_count(),
        report.checks.len()
    );
}

#[test]
fn other_current_link_states_are_reported() {
    let mut observation = layout("standalone", &[RELEASE], None, &[]);
    observation.current_link = CurrentLink::NotSymlink;
    let report = verify_report(&packages_dir(), &vec![observation]);
    assert!(has_error(&report, "current exists but is not a symlink"));
    assert!(has(&report, VerificationStatus::Pass, "current symlink exists"));

    let mut observation = layout("standalone", &[RELEASE], None, &[]);
    observation.current_link = CurrentLink::Uninspectable {
        error: "Permission denied (os error 13)".to_string(),
    };
    let report = verify_report(&packages_dir(), &vec![observation]);
    assert!(has_error(
        &report,
        &format!(
            "failed to inspect current symlink: {}/current (Permission denied (os error 13))",
            package_root("standalone")
        )
    ));

    let mut observation = layout("standalone", &[RELEASE], None, &[]);
    observation.current_link = CurrentLink::Symlink {
        target: LinkTarget::Unreadable {
            message: "failed to read /x/current".to_string(),
        },
    };
    let report = verify_report(&packages_dir(), &vec![observation]);
    assert!(has_error(&report, "failed to read current symlink: failed to read /x/current"));
    assert!(has_error(&report, "active release cannot be checked"));

    let mut observation = layout("standalone", &[RELEASE], None, &[]);
    observation.releases_listing = Ok(vec![ReleaseEntry::Unreadable {
        message: "failed to read /x/releases".to_string(),
    }]);
    let report = verify_report(&packages_dir(), &vec![observation]);
    assert!(has_error(
        &report,
        "failed to inspect release directories: failed to read /x/releases"
    ));
}
