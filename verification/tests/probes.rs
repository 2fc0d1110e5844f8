use rainbox::models::{CmdResult, ProbeInput, RunOutcome};
use rainbox::probes::{
    check_brew_cask_installed, check_brew_installed, check_bun_installed, check_cargo_installed,
    check_go_installed, check_installed_packages, check_luarocks_installed, check_npm_installed,
    check_pip_installed, check_pipx_installed, check_pnpm_installed, check_uv_installed,
    check_yarn_installed, is_command_missing_error,
};

fn ran(stdout: &str) -> RunOutcome {
    RunOutcome::Ran(CmdResult {
        success: true,
        stdout: stdout.to_string(),
        stderr: String::new(),
    })
}

fn failed_run(stderr: &str) -> RunOutcome {
    RunOutcome::Ran(CmdResult {
        success: false,
        stdout: String::new(),
        stderr: stderr.to_string(),
    })
}

#[test]
fn brew_one_name_per_nonempty_line() {
    let out = check_brew_installed(&ran("git\nnode\n\n  ripgrep  \n")).expect("parsed");
    assert_eq!(
        out,
        vec!["git".to_string(), "node".to_string(), "ripgrep".to_string()]
    );
}

#[test]
fn brew_cask_parses_like_brew() {
    let out = check_brew_cask_installed(&ran("firefox\nkitty\n")).expect("parsed");
    assert_eq!(out, vec!["firefox".to_string(), "kitty".to_string()]);
}

#[test]
fn brew_missing_command_exit_is_empty_set() {
    // The shell exits non-zero and reports the missing executable on
    // stderr: the manager counts as unused, not broken.
    let out = check_brew_installed(&failed_run("zsh: command not found: brew\n"))
        .expect("treated as unused");
    assert!(out.is_empty());
}

#[test]
fn brew_other_failed_exit_is_an_error() {
    // A non-zero exit for any other reason surfaces as an explicit
    // error carrying the run's stderr.
    let err = check_brew_installed(&failed_run("Error: broken tap\n")).expect_err("surfaced");
    assert_eq!(err, "Error: broken tap\n".to_string());
}

#[test]
fn npm_failed_exit_follows_the_same_rule() {
    let out = check_npm_installed(&failed_run("sh: npm: command not found\n"))
        .expect("treated as unused");
    assert!(out.is_empty());
    let err = check_npm_installed(&failed_run("npm ERR! registry down\n")).expect_err("surfaced");
    assert_eq!(err, "npm ERR! registry down\n".to_string());
}

#[test]
fn brew_spawn_failure_is_prefixed_error() {
    let outcome = RunOutcome::SpawnFailed("No such file or directory (os error 2)".to_string());
    let err = check_brew_installed(&outcome).expect_err("spawn failed");
    assert_eq!(
        err,
        "Failed to run brew: No such file or directory (os error 2)".to_string()
    );
    assert!(is_command_missing_error(&err));
}

#[test]
fn npm_takes_dependency_keys_excluding_npm() {
    let json = "{\"dependencies\":{\"typescript\":{},\"npm\":{},\"corepack\":{}}}";
    let out = check_npm_installed(&ran(json)).expect("parsed");
    assert_eq!(out, vec!["corepack".to_string(), "typescript".to_string()]);
}

#[test]
fn npm_without_dependencies_object_is_empty() {
    let out = check_npm_installed(&ran("{\"name\":\"global\"}")).expect("parsed");
    assert!(out.is_empty());
}

#[test]
fn npm_malformed_json_is_parse_error() {
    let err = check_npm_installed(&ran("{not json")).expect_err("malformed");
    assert!(err.starts_with("Failed to parse npm output: "));
}

#[test]
fn pnpm_reads_first_tokens_after_dependencies_marker() {
    let out = "Legend: production dependency\n\n/home/u/.local/share/pnpm/global/5\n\ndependencies:\ntypescript 5.3.3\n/skipped/path 1.0\neslint 8.57.0\n";
    let got = check_pnpm_installed(&ran(out)).expect("parsed");
    assert_eq!(got, vec!["typescript".to_string(), "eslint".to_string()]);
}

#[test]
fn pnpm_before_marker_lines_are_ignored() {
    let got = check_pnpm_installed(&ran("typescript 5.3.3\n")).expect("parsed");
    assert!(got.is_empty());
}

#[test]
fn yarn_extracts_quoted_name_before_version() {
    let out = "yarn global v1.22.19\ninfo \"typescript@5.3.3\" has binaries:\n   - tsc\ninfo \"prettier@3.0.0\" has binaries:\nDone in 0.11s.\n";
    let got = check_yarn_installed(&ran(out)).expect("parsed");
    assert_eq!(got, vec!["typescript".to_string(), "prettier".to_string()]);
}

#[test]
fn bun_strips_tree_marker_and_version() {
    let out = "/home/u/.bun/install/global node_modules (3)\n\u{251c}\u{2500}\u{2500} typescript@5.3.3\n\u{251c}\u{2500}\u{2500} @types/node@20.0.0\n\u{2514}\u{2500}\u{2500} eslint@8.57.0\n";
    let got = check_bun_installed(&ran(out)).expect("parsed");
    assert_eq!(
        got,
        vec![
            "typescript".to_string(),
            "@types/node".to_string(),
            "eslint".to_string()
        ]
    );
}

#[test]
fn cargo_takes_top_level_first_tokens() {
    let out = "ripgrep v14.1.0:\n    rg\nbat v0.24.0:\n    bat\n";
    let got = check_cargo_installed(&ran(out)).expect("parsed");
    assert_eq!(got, vec!["ripgrep".to_string(), "bat".to_string()]);
}

#[test]
fn pip_reads_name_fields_of_json_array() {
    let json = "[{\"name\":\"black\",\"version\":\"23.1.0\"},{\"name\":\"mypy\",\"version\":\"1.8.0\"}]";
    let got = check_pip_installed(&ran(json)).expect("parsed");
    assert_eq!(got, vec!["black".to_string(), "mypy".to_string()]);
}

#[test]
fn pip_non_array_json_is_empty() {
    let got = check_pip_installed(&ran("{\"name\":\"black\"}")).expect("parsed");
    assert!(got.is_empty());
}

#[test]
fn pip_malformed_json_is_parse_error() {
    let err = check_pip_installed(&ran("[truncated")).expect_err("malformed");
    assert!(err.starts_with("Failed to parse pip output: "));
}

#[test]
fn uv_excludes_bootstrap_packages() {
    let json = "[{\"name\":\"pip\"},{\"name\":\"ruff\"},{\"name\":\"setuptools\"},{\"name\":\"httpie\"}]";
    let got = check_uv_installed(&ran(json)).expect("parsed");
    assert_eq!(got, vec!["ruff".to_string(), "httpie".to_string()]);
}

#[test]
fn pipx_takes_second_token_of_package_lines() {
    let out = "venvs are in /home/u/.local/share/pipx/venvs\n   package black 23.1.0, installed using Python 3.11.4\n    - black\n   package httpie 3.2.2, installed using Python 3.11.4\n";
    let got = check_pipx_installed(&ran(out)).expect("parsed");
    assert_eq!(got, vec!["black".to_string(), "httpie".to_string()]);
}

#[test]
fn luarocks_reads_names_after_separator() {
    let out = "Rocks installed for Lua 5.4\n---------------------------\n\nluasocket\n   3.1.0-1 (installed)\nlpeg\n";
    let got = check_luarocks_installed(&ran(out)).expect("parsed");
    // The version line is indented but non-empty, so its first token
    // counts too, exactly as the output format is defined.
    assert_eq!(
        got,
        vec![
            "luasocket".to_string(),
            "3.1.0-1".to_string(),
            "lpeg".to_string()
        ]
    );
}

#[test]
fn go_lists_bin_dir_entries() {
    let got = check_go_installed(&Some(vec!["gopls".to_string(), "dlv".to_string()]))
        .expect("listed");
    assert_eq!(got, vec!["gopls".to_string(), "dlv".to_string()]);
}

#[test]
fn go_missing_bin_dir_is_empty() {
    let got = check_go_installed(&None).expect("no directory");
    assert!(got.is_empty());
}

#[test]
fn dispatch_routes_to_the_named_manager() {
    let got = check_installed_packages("brew", &ProbeInput::Command(ran("git\n")))
        .expect("brew parsed");
    assert_eq!(got, vec!["git".to_string()]);
    let got = check_installed_packages("go", &ProbeInput::BinDir(Some(vec!["gopls".to_string()])))
        .expect("go listed");
    assert_eq!(got, vec!["gopls".to_string()]);
}

#[test]
fn dispatch_rejects_unknown_manager() {
    let err = check_installed_packages("apt", &ProbeInput::Command(ran("")))
        .expect_err("unknown manager");
    assert_eq!(err, "Unknown package manager: apt".to_string());
}

#[test]
fn command_missing_detection_matches_both_phrasings() {
    assert!(is_command_missing_error(
        "sh: brew: command not found"
    ));
    assert!(is_command_missing_error(
        "Failed to run brew: No such file or directory (os error 2)"
    ));
    assert!(!is_command_missing_error("exit status 1"));
}
