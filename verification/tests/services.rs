use rainbox::constants::PackageManagerType;
use rainbox::models::{CmdResult, FileRead, PathCandidate, RunOutcome};
use rainbox::services::{
    DiffInput, ExportService, ManagerService, PackageService, StatusInput,
};

fn content(s: &str) -> FileRead {
    FileRead::Content(s.to_string())
}

fn status_inputs_all_missing() -> Vec<StatusInput> {
    PackageManagerType::all()
        .iter()
        .map(|m| StatusInput {
            manager: m.id().to_string(),
            base: FileRead::Missing,
            local: FileRead::Missing,
            installed: Ok(Vec::new()),
        })
        .collect()
}

fn diff_inputs_all_missing() -> Vec<DiffInput> {
    PackageManagerType::all()
        .iter()
        .map(|m| DiffInput {
            manager: m.id().to_string(),
            base: FileRead::Missing,
            local: FileRead::Missing,
            installed: None,
        })
        .collect()
}

#[test]
fn status_counts_installed_declared_packages() {
    let input = StatusInput {
        manager: "npm".to_string(),
        base: content("typescript\neslint\n"),
        local: content("eslint\nts-node\n"),
        installed: Ok(vec!["typescript".to_string(), "ts-node".to_string()]),
    };
    let pm = ManagerService::get_status(&input).expect("manifest readable");
    assert_eq!(pm.name, "npm".to_string());
    assert_eq!(pm.total, 3);
    assert_eq!(pm.installed, 2);
    assert_eq!(pm.updates_available, 0);
}

#[test]
fn status_none_when_manifest_missing() {
    let input = StatusInput {
        manager: "npm".to_string(),
        base: FileRead::Missing,
        local: FileRead::Missing,
        installed: Ok(Vec::new()),
    };
    assert!(ManagerService::get_status(&input).is_none());
}

#[test]
fn missing_command_yields_zero_installed_status() {
    // The probe's executable is absent: the status still appears, with
    // nothing counted as installed.
    let input = StatusInput {
        manager: "brew".to_string(),
        base: content("git\nnode\n"),
        local: FileRead::Missing,
        installed: Err("Failed to run brew: No such file or directory (os error 2)".to_string()),
    };
    let pm = ManagerService::get_status(&input).expect("still present");
    assert_eq!(pm.total, 2);
    assert_eq!(pm.installed, 0);
}

#[test]
fn aggregate_status_never_aborts_on_one_failure() {
    let mut inputs = status_inputs_all_missing();
    inputs[0].base = content("git\n");
    inputs[0].installed = Err("sh: brew: command not found".to_string());
    inputs[2].base = content("typescript\n");
    inputs[2].installed = Ok(vec!["typescript".to_string()]);
    let statuses = ManagerService::get_all_status(&inputs).expect("aggregate always succeeds");
    assert_eq!(statuses.len(), 2);
    assert_eq!(statuses[0].name, "brew".to_string());
    assert_eq!(statuses[0].installed, 0);
    assert_eq!(statuses[1].name, "npm".to_string());
    assert_eq!(statuses[1].installed, 1);
}

#[test]
fn get_packages_marks_installed_and_local() {
    let installed = Ok(vec!["typescript".to_string(), "ts-node".to_string()]);
    let packages = PackageService::get_packages(
        "npm",
        &content("typescript\neslint\n"),
        &content("eslint\nts-node\n"),
        &installed,
    )
    .expect("readable");
    let summary: Vec<(String, bool, bool)> = packages
        .iter()
        .map(|p| (p.name.clone(), p.installed, p.is_local))
        .collect();
    assert_eq!(
        summary,
        vec![
            ("eslint".to_string(), false, true),
            ("ts-node".to_string(), true, true),
            ("typescript".to_string(), true, false)
        ]
    );
    assert!(packages.iter().all(|p| p.manager == "npm" && p.version.is_none()));
}

#[test]
fn get_packages_missing_command_degrades_to_uninstalled() {
    let installed = Err("zsh: command not found: pnpm".to_string());
    let packages = PackageService::get_packages(
        "pnpm",
        &content("typescript\n"),
        &FileRead::Missing,
        &installed,
    )
    .expect("degrades, not an error");
    assert_eq!(packages.len(), 1);
    assert!(!packages[0].installed);
}

#[test]
fn get_packages_other_probe_failure_is_an_error() {
    let installed = Err("Failed to parse npm output: expected value".to_string());
    let err = PackageService::get_packages(
        "npm",
        &content("typescript\n"),
        &FileRead::Missing,
        &installed,
    )
    .expect_err("real failure surfaces");
    assert_eq!(
        err,
        "Failed to check installed packages for npm: Failed to parse npm output: expected value"
            .to_string()
    );
}

#[test]
fn get_packages_missing_manifest_is_an_error() {
    let err = PackageService::get_packages(
        "npm",
        &FileRead::Missing,
        &FileRead::Missing,
        &Ok(Vec::new()),
    )
    .expect_err("manifest required");
    assert_eq!(err, "Package file not found for manager: npm".to_string());
}

#[test]
fn diff_scenario_to_install_and_to_remove() {
    // Declared: eslint, ts-node, typescript; installed: typescript and
    // ts-node. Only eslint is left to install, nothing to remove.
    let mut inputs = diff_inputs_all_missing();
    inputs[2].base = content("typescript\neslint\n");
    inputs[2].local = content("eslint\nts-node\n");
    inputs[2].installed = Some(Ok(vec!["typescript".to_string(), "ts-node".to_string()]));
    let diffs = PackageService::get_diff(&inputs).expect("aggregate always succeeds");
    assert_eq!(diffs.len(), 1);
    assert_eq!(diffs[0].name, "npm".to_string());
    assert_eq!(diffs[0].display_name, "npm".to_string());
    assert_eq!(diffs[0].to_install, vec!["eslint".to_string()]);
    assert!(diffs[0].to_remove.is_empty());
}

#[test]
fn diff_reports_undeclared_installed_packages() {
    let mut inputs = diff_inputs_all_missing();
    inputs[0].base = content("git\n");
    inputs[0].installed = Some(Ok(vec!["git".to_string(), "stray".to_string()]));
    let diffs = PackageService::get_diff(&inputs).expect("ok");
    assert_eq!(diffs.len(), 1);
    assert_eq!(diffs[0].display_name, "Homebrew".to_string());
    assert!(diffs[0].to_install.is_empty());
    assert_eq!(diffs[0].to_remove, vec!["stray".to_string()]);
}

#[test]
fn diff_probe_failure_degrades_to_everything_to_install() {
    let mut inputs = diff_inputs_all_missing();
    inputs[6].base = content("ripgrep\nbat\n");
    inputs[6].installed = Some(Err("Failed to run cargo: boom".to_string()));
    let diffs = PackageService::get_diff(&inputs).expect("best-effort");
    assert_eq!(diffs.len(), 1);
    assert_eq!(diffs[0].name, "cargo".to_string());
    assert_eq!(
        diffs[0].to_install,
        vec!["bat".to_string(), "ripgrep".to_string()]
    );
    assert!(diffs[0].to_remove.is_empty());
}

#[test]
fn diff_sides_are_disjoint_from_the_other_set() {
    // Declared {a, b, c} against installed {b, d}: what is to install is
    // never installed, what is to remove is never declared, and each
    // side is covered by the shared part plus its diff.
    let mut inputs = diff_inputs_all_missing();
    inputs[0].base = content("a\nb\nc\n");
    inputs[0].installed = Some(Ok(vec!["b".to_string(), "d".to_string()]));
    let diffs = PackageService::get_diff(&inputs).expect("ok");
    let d = &diffs[0];
    assert_eq!(d.to_install, vec!["a".to_string(), "c".to_string()]);
    assert_eq!(d.to_remove, vec!["d".to_string()]);
    let declared = ["a", "b", "c"];
    let installed = ["b", "d"];
    assert!(d.to_install.iter().all(|n| !installed.contains(&n.as_str())));
    assert!(d.to_remove.iter().all(|n| !declared.contains(&n.as_str())));
    for name in declared.iter() {
        let shared = installed.contains(name);
        let listed = d.to_install.iter().any(|n| n == name);
        assert!(shared != listed);
    }
    for name in installed.iter() {
        let shared = declared.contains(name);
        let listed = d.to_remove.iter().any(|n| n == name);
        assert!(shared != listed);
    }
}

#[test]
fn diff_skips_managers_without_manifest() {
    let diffs = PackageService::get_diff(&diff_inputs_all_missing()).expect("ok");
    assert!(diffs.is_empty());
}

#[test]
fn export_fails_when_script_is_missing() {
    let script = PathCandidate {
        path: "/dots/scripts/export-packages.sh".to_string(),
        exists: false,
    };
    let err = ExportService::export_packages(&script, &None).expect_err("no script");
    assert_eq!(err, "Script not found: /dots/scripts/export-packages.sh".to_string());
}

#[test]
fn export_returns_stdout_on_success_and_stderr_on_failure() {
    let script = PathCandidate {
        path: "/dots/scripts/export-packages.sh".to_string(),
        exists: true,
    };
    let good = Some(RunOutcome::Ran(CmdResult {
        success: true,
        stdout: "exported 3 manifests\n".to_string(),
        stderr: String::new(),
    }));
    assert_eq!(
        ExportService::export_packages(&script, &good).expect("success"),
        "exported 3 manifests\n".to_string()
    );
    let bad = Some(RunOutcome::Ran(CmdResult {
        success: false,
        stdout: String::new(),
        stderr: "brew not found\n".to_string(),
    }));
    assert_eq!(
        ExportService::init_local(&script, &bad).expect_err("failure"),
        "brew not found\n".to_string()
    );
    let spawn = Some(RunOutcome::SpawnFailed("permission denied".to_string()));
    assert_eq!(
        ExportService::export_packages(&script, &spawn).expect_err("spawn failure"),
        "Failed to execute script: permission denied".to_string()
    );
}

#[test]
fn verify_environment_reports_first_missing_piece() {
    let there = |p: &str| PathCandidate { path: p.to_string(), exists: true };
    let gone = |p: &str| PathCandidate { path: p.to_string(), exists: false };
    assert!(ExportService::verify_environment(
        &there("/d/scripts"),
        &there("/d/scripts/package-sync.sh"),
        &there("/d/scripts/export-packages.sh")
    )
    .is_ok());
    assert_eq!(
        ExportService::verify_environment(
            &gone("/d/scripts"),
            &there("/d/scripts/package-sync.sh"),
            &there("/d/scripts/export-packages.sh")
        )
        .expect_err("dir missing"),
        "Scripts directory not found: /d/scripts".to_string()
    );
    assert_eq!(
        ExportService::verify_environment(
            &there("/d/scripts"),
            &gone("/d/scripts/package-sync.sh"),
            &there("/d/scripts/export-packages.sh")
        )
        .expect_err("sync script missing"),
        "package-sync.sh not found: /d/scripts/package-sync.sh".to_string()
    );
    assert_eq!(
        ExportService::verify_environment(
            &there("/d/scripts"),
            &there("/d/scripts/package-sync.sh"),
            &gone("/d/scripts/export-packages.sh")
        )
        .expect_err("export script missing"),
        "export-packages.sh not found: /d/scripts/export-packages.sh".to_string()
    );
}
