use rainbox::models::{CmdResult, PathCandidate, RunOutcome};
use rainbox::resolver::{
    build_command_line, build_shell_source_prefix, effective_env, get_command_path,
    get_shell_path, parse_env_lines, path_candidates, shell_choice, which_candidate,
};

fn ran(stdout: &str) -> RunOutcome {
    RunOutcome::Ran(CmdResult {
        success: true,
        stdout: stdout.to_string(),
        stderr: String::new(),
    })
}

#[test]
fn zsh_gets_the_zsh_sourcing_prefix() {
    let prefix = build_shell_source_prefix("/bin/zsh");
    assert!(prefix.starts_with("test -f ~/.zshenv"));
    assert!(prefix.contains(".zshrc"));
}

#[test]
fn bash_gets_the_bash_sourcing_prefix() {
    let prefix = build_shell_source_prefix("/usr/bin/bash");
    assert!(prefix.starts_with("test -f ~/.bash_profile"));
    assert!(prefix.contains(".bashrc"));
}

#[test]
fn other_shells_get_no_prefix() {
    assert_eq!(build_shell_source_prefix("/usr/bin/fish"), "");
}

#[test]
fn shell_choice_defaults_to_zsh() {
    assert_eq!(shell_choice(&Some("/usr/bin/fish".to_string())), "/usr/bin/fish".to_string());
    assert_eq!(shell_choice(&None), "/bin/zsh".to_string());
}

#[test]
fn empty_sourced_environment_keeps_process_path() {
    let parsed = vec![("HOME".to_string(), "/root".to_string())];
    assert_eq!(effective_env(parsed.clone(), &Some("/usr/bin".to_string())), parsed);
    assert_eq!(
        effective_env(Vec::new(), &Some("/usr/bin".to_string())),
        vec![("PATH".to_string(), "/usr/bin".to_string())]
    );
    assert!(effective_env(Vec::new(), &None).is_empty());
}

#[test]
fn env_lines_split_at_first_equals_sign() {
    let pairs = parse_env_lines("PATH=/usr/bin:/bin\nHOME=/root\nnoise\nEQ=a=b\n");
    assert_eq!(
        pairs,
        vec![
            ("PATH".to_string(), "/usr/bin:/bin".to_string()),
            ("HOME".to_string(), "/root".to_string()),
            ("EQ".to_string(), "a=b".to_string())
        ]
    );
}

#[test]
fn shell_path_prefers_trimmed_echo_output() {
    assert_eq!(
        get_shell_path(&ran("  /opt/bin:/usr/bin \n"), &Some("/fallback".to_string())),
        "/opt/bin:/usr/bin".to_string()
    );
}

#[test]
fn shell_path_falls_back_to_process_env_then_default() {
    let spawn_failed = RunOutcome::SpawnFailed("no shell".to_string());
    assert_eq!(
        get_shell_path(&spawn_failed, &Some("/from-env".to_string())),
        "/from-env".to_string()
    );
    assert_eq!(
        get_shell_path(&ran("   \n"), &None),
        "/usr/local/bin:/usr/bin:/bin:/usr/sbin:/sbin".to_string()
    );
}

#[test]
fn which_candidate_requires_success_and_output() {
    assert_eq!(
        which_candidate(&ran("/usr/local/bin/npm\n")),
        Some("/usr/local/bin/npm".to_string())
    );
    assert_eq!(which_candidate(&ran("\n")), None);
    let failed = RunOutcome::Ran(CmdResult {
        success: false,
        stdout: "/usr/local/bin/npm\n".to_string(),
        stderr: String::new(),
    });
    assert_eq!(which_candidate(&failed), None);
}

#[test]
fn path_candidates_skip_empty_segments() {
    assert_eq!(
        path_candidates("/usr/bin::/bin", "npm"),
        vec!["/usr/bin/npm".to_string(), "/bin/npm".to_string()]
    );
}

#[test]
fn configured_path_wins_when_it_exists() {
    let config = Some(PathCandidate { path: "/opt/npm".to_string(), exists: true });
    let which = Some(PathCandidate { path: "/usr/bin/npm".to_string(), exists: true });
    assert_eq!(get_command_path("npm", &config, &which, &vec![]), "/opt/npm".to_string());
}

#[test]
fn stale_configured_path_falls_through_to_which() {
    let config = Some(PathCandidate { path: "/gone/npm".to_string(), exists: false });
    let which = Some(PathCandidate { path: "/usr/bin/npm".to_string(), exists: true });
    assert_eq!(get_command_path("npm", &config, &which, &vec![]), "/usr/bin/npm".to_string());
}

#[test]
fn path_scan_takes_first_existing_candidate() {
    let scan = vec![
        PathCandidate { path: "/a/npm".to_string(), exists: false },
        PathCandidate { path: "/b/npm".to_string(), exists: true },
        PathCandidate { path: "/c/npm".to_string(), exists: true },
    ];
    assert_eq!(get_command_path("npm", &None, &None, &scan), "/b/npm".to_string());
}

#[test]
fn unresolvable_command_falls_back_to_its_name() {
    let scan = vec![PathCandidate { path: "/a/npm".to_string(), exists: false }];
    assert_eq!(get_command_path("npm", &None, &None, &scan), "npm".to_string());
}

#[test]
fn command_line_quotes_arguments_with_spaces() {
    let args = vec!["list".to_string(), "--formula".to_string()];
    assert_eq!(build_command_line("brew", &args), "brew list --formula".to_string());
    let spaced = vec!["a b".to_string(), "c".to_string()];
    assert_eq!(build_command_line("echo", &spaced), "echo \"a b\" c".to_string());
}
