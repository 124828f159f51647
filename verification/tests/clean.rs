use std::cell::RefCell;

use codex_cache::{
    absorb, clean_gate, codex_root_from, execute_deletion_plan_with, plan_deletions_in,
    plan_scan_deletions, render_clean_result, scan_cache, validate_deletion_candidate, verify_report, CacheError,
    CandidateLink, CandidateObservation, CleanupResult, CurrentLink, DeletionPlan, KeepPolicy,
    LayoutObservation, LinkTarget, PackageObservation, ReleaseEntry, ReleaseInfo,
};

const ROOT: &str = "/home/user/.codex";

fn store(package: &str, releases: &[(&str, u64)], current: Option<&str>) -> PackageObservation {
    let root = format!("{ROOT}/packages/{package}");
    PackageObservation {
        name: package.to_string(),
        root: root.clone(),
        releases_is_dir: true,
        current_target: Ok(current.map(|name| format!("{root}/releases/{name}"))),
        entries: releases
            .iter()
            .map(|(name, size)| ReleaseEntry::Directory {
                name: name.to_string(),
                active: current == Some(*name),
                size: Ok(*size),
            })
            .collect(),
    }
}

fn plan_for(package: &str, releases: &[(&str, u64)], current: &str) -> DeletionPlan {
    let scan = scan_cache(
        ROOT,
        true,
        &format!("{ROOT}/packages"),
        &vec![Some(store(package, releases, Some(current)))],
    )
    .unwrap();
    plan_deletions_in(
        &scan.packages[0].releases_dir,
        &scan.packages[0].releases,
        KeepPolicy::Current,
    )
    .unwrap()
}

/// What a deletion candidate looks like when nothing protects it.
fn unprotected() -> CandidateObservation {
    CandidateObservation {
        matches_plan_target: false,
        current_link: CandidateLink::Target {
            matches_release: false,
        },
        inside_releases: true,
        is_releases_dir: false,
    }
}

/// A directory tree held in memory: the directories that exist and the
/// `current` symlinks with their targets. Removal deletes a directory;
/// observing a candidate reads the tree the way the command reads the disk.
struct Disk {
    dirs: RefCell<Vec<String>>,
    links: Vec<(String, String)>,
}

impl Disk {
    fn new() -> Disk {
        Disk { dirs: RefCell::new(Vec::new()), links: Vec::new() }
    }

    /// A package store whose releases all exist and whose `current` symlink
    /// points at `releases/<current>`.
    fn with_package(mut self, package: &str, releases: &[(&str, u64)], current: &str) -> Disk {
        let root = format!("{ROOT}/packages/{package}");
        for (name, _) in releases {
            self.dirs.borrow_mut().push(format!("{root}/releases/{name}"));
        }
        self.links.push((format!("{root}/current"), format!("{root}/releases/{current}")));
        self
    }

    fn with_dir(self, path: &str) -> Disk {
        self.dirs.borrow_mut().push(path.to_string());
        self
    }

    fn relink(&mut self, link: &str, target: &str) {
        for entry in &mut self.links {
            if entry.0 == link {
                entry.1 = target.to_string();
            }
        }
    }

    fn has_dir(&self, path: &str) -> bool {
        self.dirs.borrow().iter().any(|dir| dir == path)
    }

    fn link_target(&self, link: &str) -> Option<&str> {
        self.links.iter().find(|entry| entry.0 == link).map(|entry| entry.1.as_str())
    }

    fn observe(&self, plan: &DeletionPlan, release: &ReleaseInfo) -> CandidateObservation {
        let package_root = plan.releases_dir.rsplit_once('/').map(|(root, _)| root).unwrap_or("");
        let current_link = match self.link_target(&format!("{package_root}/current")) {
            Some(target) => CandidateLink::Target { matches_release: target == release.path },
            None => CandidateLink::Missing,
        };
        CandidateObservation {
            matches_plan_target: plan.current_target.as_deref() == Some(release.path.as_str()),
            current_link,
            inside_releases: release.path.starts_with(&format!("{}/", plan.releases_dir)),
            is_releases_dir: release.path == plan.releases_dir,
        }
    }

    fn remove(&self, release: &ReleaseInfo) -> Result<(), String> {
        let mut dirs = self.dirs.borrow_mut();
        match dirs.iter().position(|dir| *dir == release.path) {
            Some(index) => {
                dirs.remove(index);
                Ok(())
            },
            None => Err(format!("No such file or directory: {}", release.path)),
        }
    }
}

#[test]
fn clean_deletes_selected_release_directories() {
    let plan = plan_for(
        "standalone",
        &[
            ("0.144.5-x86_64-unknown-linux-musl", 20),
            ("0.145.0-x86_64-unknown-linux-musl", 30),
        ],
        "0.145.0-x86_64-unknown-linux-musl",
    );
    let disk = Disk::new().with_package(
        "standalone",
        &[
            ("0.144.5-x86_64-unknown-linux-musl", 20),
            ("0.145.0-x86_64-unknown-linux-musl", 30),
        ],
        "0.145.0-x86_64-unknown-linux-musl",
    );
    let result = execute_deletion_plan_with(
        &plan,
        |release| disk.observe(&plan, release),
        |release| disk.remove(release),
    );
    let output = render_clean_result(&result);
    let releases = format!("{ROOT}/packages/standalone/releases");
    assert!(!disk.has_dir(&format!("{releases}/0.144.5-x86_64-unknown-linux-musl")));
    assert!(disk.has_dir(&format!("{releases}/0.145.0-x86_64-unknown-linux-musl")));

    assert_eq!(result.success_count(), 1);
    assert_eq!(result.failed_count(), 0);
    assert_eq!(result.reclaimed_bytes(), 20);
    assert!(output.contains("Codex release cache clean\n"));
    assert!(output.contains("Reclaimed bytes: 20\n"));
    assert!(output.contains("Successful deletions: 1\n"));
    assert!(output.contains("Failed deletions: 0\n"));
    assert_eq!(
        result.deleted[0].directory_name,
        "0.144.5-x86_64-unknown-linux-musl"
    );
}

#[test]
fn clean_reports_partial_deletion_failure_and_continues() {
    let plan = plan_for(
        "standalone",
        &[
            ("0.144.0-x86_64-unknown-linux-musl", 10),
            ("0.144.5-x86_64-unknown-linux-musl", 20),
            ("0.145.0-x86_64-unknown-linux-musl", 30),
        ],
        "0.145.0-x86_64-unknown-linux-musl",
    );
    let failing_release = "0.144.5-x86_64-unknown-linux-musl";
    let result = execute_deletion_plan_with(
        &plan,
        |_| unprotected(),
        |release| {
            if release.directory_name == failing_release {
                Err("simulated delete failure".to_string())
            } else {
                Ok(())
            }
        },
    );
    let output = render_clean_result(&result);

    assert_eq!(result.success_count(), 1);
    assert_eq!(result.failed_count(), 1);
    assert_eq!(result.reclaimed_bytes(), 10);
    assert!(output.contains("Failed:\n"));
    assert!(output.contains("simulated delete failure"));
    assert!(output.contains("Successful deletions: 1\n"));
    assert!(output.contains("Failed deletions: 1\n"));
    assert!(result.has_failures());
}

fn dangling_layout() -> LayoutObservation {
    let root = format!("{ROOT}/packages/standalone");
    LayoutObservation {
        name: "standalone".to_string(),
        releases_dir: format!("{root}/releases"),
        current: format!("{root}/current"),
        releases_is_dir: true,
        releases_listing: Ok(vec![ReleaseEntry::Directory {
            name: "0.145.0-x86_64-unknown-linux-musl".to_string(),
            active: false,
            size: Ok(30),
        }]),
        root_entries: Vec::new(),
        current_link: CurrentLink::Symlink {
            target: LinkTarget::Found {
                target: format!("{root}/releases/9.999.9-x86_64-unknown-linux-musl"),
                exists: false,
                inside_releases: true,
            },
        },
    }
}

#[test]
fn clean_aborts_when_current_symlink_is_invalid() {
    let report = verify_report(&format!("{ROOT}/packages"), &vec![dangling_layout()]);
    let error = clean_gate(&report).unwrap_err().message();

    assert_eq!(error, "verification failed; clean aborted");
}

#[test]
fn execute_deletion_plan_refuses_paths_outside_releases() {
    let mut plan = plan_for(
        "standalone",
        &[
            ("0.144.5-x86_64-unknown-linux-musl", 20),
            ("0.145.0-x86_64-unknown-linux-musl", 30),
        ],
        "0.145.0-x86_64-unknown-linux-musl",
    );
    let outside = format!("{ROOT}/outside-release");
    plan.releases_to_remove[0].path = outside.clone();
    let disk = Disk::new()
        .with_package(
            "standalone",
            &[
                ("0.144.5-x86_64-unknown-linux-musl", 20),
                ("0.145.0-x86_64-unknown-linux-musl", 30),
            ],
            "0.145.0-x86_64-unknown-linux-musl",
        )
        .with_dir(&outside);

    let result = execute_deletion_plan_with(
        &plan,
        |release| disk.observe(&plan, release),
        |release| disk.remove(release),
    );

    assert_eq!(result.success_count(), 0);
    assert_eq!(result.failed_count(), 1);
    assert!(result.failures[0].message.contains("outside releases/"));
    assert!(disk.has_dir(&outside));
}

#[test]
fn execute_deletion_plan_protects_current_after_symlink_changes() {
    let plan = plan_for("standalone", &[("0.144.0", 10), ("0.145.0", 20)], "0.145.0");
    let mut disk =
        Disk::new().with_package("standalone", &[("0.144.0", 10), ("0.145.0", 20)], "0.145.0");
    let root = format!("{ROOT}/packages/standalone");
    disk.relink(&format!("{root}/current"), &format!("{root}/releases/0.144.0"));
    let result = execute_deletion_plan_with(
        &plan,
        |release| disk.observe(&plan, release),
        |release| disk.remove(release),
    );
    assert_eq!(result.success_count(), 0);
    assert_eq!(result.failed_count(), 1);
    assert!(result.failures[0].message.contains("current symlink target"));
    assert!(disk.has_dir(&format!("{root}/releases/0.144.0")));
}

#[test]
fn clean_both_packages_preserves_each_current_target() {
    let scan = scan_cache(
        ROOT,
        true,
        &format!("{ROOT}/packages"),
        &vec![
            Some(store("standalone", &[("0.155.0", 10), ("0.157.0", 20)], Some("0.157.0"))),
            Some(store(
                "app-server-daemon",
                &[("0.155.0", 10), ("0.156.0", 20)],
                Some("0.156.0"),
            )),
        ],
    )
    .unwrap();
    let disk = Disk::new()
        .with_package("standalone", &[("0.155.0", 10), ("0.157.0", 20)], "0.157.0")
        .with_package("app-server-daemon", &[("0.155.0", 10), ("0.156.0", 20)], "0.156.0");
    let mut result = CleanupResult {
        deleted: Vec::new(),
        failures: Vec::new(),
    };
    for plan in plan_scan_deletions(&scan, KeepPolicy::Current).unwrap() {
        absorb(
            &mut result,
            execute_deletion_plan_with(
                &plan,
                |release| disk.observe(&plan, release),
                |release| disk.remove(release),
            ),
        );
    }
    assert_eq!(result.success_count(), 2);
    for (package, current) in [("standalone", "0.157.0"), ("app-server-daemon", "0.156.0")] {
        let root = format!("{ROOT}/packages/{package}");
        assert_eq!(
            disk.link_target(&format!("{root}/current")),
            Some(format!("{root}/releases/{current}").as_str())
        );
        assert!(disk.has_dir(&format!("{root}/releases/{current}")));
        assert!(!disk.has_dir(&format!("{root}/releases/0.155.0")));
    }
    for release in &result.deleted {
        assert_eq!(release.directory_name, "0.155.0");
        assert!(!release.active);
    }
    assert_eq!(result.deleted[0].package, "standalone");
    assert_eq!(result.deleted[1].package, "app-server-daemon");
    assert_eq!(result.reclaimed_bytes(), 20);
}

#[test]
fn refusals_come_in_order_with_their_messages() {
    let plan = plan_for("standalone", &[("0.144.0", 10), ("0.145.0", 20)], "0.145.0");
    let candidate = plan.releases_to_remove[0].clone();
    let refuse = |release: &ReleaseInfo, obs: CandidateObservation| {
        validate_deletion_candidate(&plan, release, &obs).unwrap_err()
    };

    let mut active = candidate.clone();
    active.active = true;
    assert_eq!(refuse(&active, unprotected()), "refusing to delete active release");
    assert_eq!(
        refuse(
            &candidate,
            CandidateObservation {
                matches_plan_target: true,
                ..unprotected()
            }
        ),
        "refusing to delete current symlink target"
    );
    assert_eq!(
        refuse(
            &candidate,
            CandidateObservation {
                current_link: CandidateLink::Missing,
                ..unprotected()
            }
        ),
        "current symlink is missing; refusing deletion"
    );
    assert_eq!(
        refuse(
            &candidate,
            CandidateObservation {
                current_link: CandidateLink::Unreadable {
                    message: "failed to read /x/current".to_string(),
                },
                ..unprotected()
            }
        ),
        "failed to read /x/current"
    );
    assert_eq!(
        refuse(
            &candidate,
            CandidateObservation {
                inside_releases: false,
                ..unprotected()
            }
        ),
        format!("refusing to delete path outside releases/: {}", candidate.path)
    );
    assert_eq!(
        refuse(
            &candidate,
            CandidateObservation {
                is_releases_dir: true,
                ..unprotected()
            }
        ),
        "refusing to delete releases/ directory itself"
    );
    assert!(validate_deletion_candidate(&plan, &candidate, &unprotected()).is_ok());

    let mut rootless = plan.clone();
    rootless.releases_dir = "/".to_string();
    assert_eq!(
        validate_deletion_candidate(&rootless, &candidate, &unprotected()).unwrap_err(),
        "invalid releases directory"
    );
    let mut no_target = plan.clone();
    no_target.current_target = None;
    assert!(validate_deletion_candidate(
        &no_target,
        &candidate,
        &CandidateObservation {
            matches_plan_target: true,
            ..unprotected()
        }
    )
    .is_ok());
}

#[test]
fn clean_result_text_is_exact() {
    let plan = plan_for("standalone", &[("0.1.0", 1024), ("0.2.0", 1), ("0.3.0", 1)], "0.3.0");
    let result = execute_deletion_plan_with(
        &plan,
        |_| unprotected(),
        |release| {
            if release.directory_name == "0.2.0" {
                Err("busy".to_string())
            } else {
                Ok(())
            }
        },
    );
    let releases = format!("{ROOT}/packages/standalone/releases");
    assert_eq!(
        render_clean_result(&result),
        format!(
            "Codex release cache clean\nDeleted:\n  standalone  {releases}/0.1.0\nFailed:\n  standalone  {releases}/0.2.0 (busy)\nReclaimed bytes: 1024\nReclaimed size: 1.0 KiB\nSuccessful deletions: 1\nFailed deletions: 1\n"
        )
    );
    let empty = CleanupResult {
        deleted: Vec::new(),
        failures: Vec::new(),
    };
    assert_eq!(
        render_clean_result(&empty),
        "Codex release cache clean\nDeleted:\n  none\nReclaimed bytes: 0\nReclaimed size: 0 B\nSuccessful deletions: 0\nFailed deletions: 0\n"
    );
    assert!(!empty.has_failures());
}

#[test]
fn codex_root_prefers_codex_home_then_home() {
    assert_eq!(
        codex_root_from(Some("/opt/codex".to_string()), Some("/home/u".to_string())).unwrap(),
        "/opt/codex"
    );
    assert_eq!(
        codex_root_from(None, Some("/home/u".to_string())).unwrap(),
        "/home/u/.codex"
    );
    assert_eq!(codex_root_from(None, Some("/home/u/".to_string())).unwrap(), "/home/u/.codex");
    let error = codex_root_from(None, None).unwrap_err();
    assert!(matches!(error, CacheError::HomeNotSet));
    assert_eq!(
        error.message(),
        "HOME is not set; set CODEX_HOME or HOME so the Codex root can be detected"
    );
}

#[test]
fn gate_lets_a_clean_report_through() {
    let mut layout = dangling_layout();
    layout.current_link = CurrentLink::Symlink {
        target: LinkTarget::Found {
            target: format!("{ROOT}/packages/standalone/releases/0.145.0-x86_64-unknown-linux-musl"),
            exists: true,
            inside_releases: true,
        },
    };
    layout.releases_listing = Ok(vec![ReleaseEntry::Directory {
        name: "0.145.0-x86_64-unknown-linux-musl".to_string(),
        active: true,
        size: Ok(30),
    }]);
    let report = verify_report(&format!("{ROOT}/packages"), &vec![layout]);
    assert_eq!(report.error_count(), 0);
    assert!(clean_gate(&report).is_ok());
}

#[test]
fn only_accepted_releases_are_handed_to_removal() {
    let plan = plan_for(
        "standalone",
        &[("0.143.0", 10), ("0.144.0", 20), ("0.145.0", 30), ("0.146.0", 40)],
        "0.146.0",
    );
    let removed = RefCell::new(Vec::new());
    let result = execute_deletion_plan_with(
        &plan,
        |release: &ReleaseInfo| {
            let mut obs = unprotected();
            if release.directory_name == "0.144.0" {
                obs.inside_releases = false;
            }
            obs
        },
        |release: &ReleaseInfo| {
            removed.borrow_mut().push(release.directory_name.clone());
            if release.directory_name == "0.143.0" {
                Err("permission denied".to_string())
            } else {
                Ok(())
            }
        },
    );
    assert_eq!(*removed.borrow(), vec!["0.145.0".to_string(), "0.143.0".to_string()]);
    let deleted: Vec<&str> = result.deleted.iter().map(|r| r.directory_name.as_str()).collect();
    assert_eq!(deleted, vec!["0.145.0"]);
    let failed: Vec<(&str, &str)> = result
        .failures
        .iter()
        .map(|f| (f.release.directory_name.as_str(), f.message.as_str()))
        .collect();
    let outside = format!(
        "refusing to delete path outside releases/: {ROOT}/packages/standalone/releases/0.144.0"
    );
    assert_eq!(failed, vec![("0.144.0", outside.as_str()), ("0.143.0", "permission denied")]);
    assert_eq!(result.deleted.len() + result.failures.len(), plan.releases_to_remove.len());
}
