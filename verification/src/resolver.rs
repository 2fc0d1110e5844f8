//! Resolving a command name to an executable path, and the pure parts of
//! the shell-environment bootstrap: which startup files to source, how to
//! read the sourced environment, and the three-tier path lookup over the
//! observations the application gathers.

use vstd::prelude::*;
use vstd::string::{StrSliceExecFns, StringExecFns};
use crate::models::{PathCandidate, RunOutcome};
use crate::text::{
    spec_contains_str, spec_first_idx, spec_lines, spec_split, spec_trim, contains_str, find_char,
    lemma_first_idx, split_char, split_lines, trim,
};

verus! {

/// The command prefix that sources a zsh setup before running a command.
pub open spec fn spec_zsh_prefix() -> Seq<char> {
    "test -f ~/.zshenv && source ~/.zshenv; test -n \"$ZDOTDIR\" && test -f \"$ZDOTDIR/.zshrc\" && source \"$ZDOTDIR/.zshrc\" || test -f ~/.zshrc && source ~/.zshrc"@
}

/// The command prefix that sources a bash setup before running a command.
pub open spec fn spec_bash_prefix() -> Seq<char> {
    "test -f ~/.bash_profile && source ~/.bash_profile || test -f ~/.bashrc && source ~/.bashrc"@
}

/// The source prefix a shell needs: zsh and bash do not source their
/// startup files in non-interactive mode, so the prefix does it by hand;
/// other shells get no prefix.
pub open spec fn spec_shell_source_prefix(shell: Seq<char>) -> Seq<char> {
    if spec_contains_str(shell, "zsh"@) {
        spec_zsh_prefix()
    } else if spec_contains_str(shell, "bash"@) {
        spec_bash_prefix()
    } else {
        ""@
    }
}

/// The startup-file sourcing prefix for the user's shell.
pub fn build_shell_source_prefix(shell: &str) -> (r: &'static str)
    ensures
        r@ == spec_shell_source_prefix(shell@),
{
    if contains_str(shell, "zsh") {
        "test -f ~/.zshenv && source ~/.zshenv; test -n \"$ZDOTDIR\" && test -f \"$ZDOTDIR/.zshrc\" && source \"$ZDOTDIR/.zshrc\" || test -f ~/.zshrc && source ~/.zshrc"
    } else if contains_str(shell, "bash") {
        "test -f ~/.bash_profile && source ~/.bash_profile || test -f ~/.bashrc && source ~/.bashrc"
    } else {
        ""
    }
}

/// The shell the bootstrap sources: the user's own, or zsh when the
/// environment names none.
pub open spec fn spec_shell_choice(shell: &Option<String>) -> Seq<char> {
    match shell {
        Some(s) => s@,
        None => "/bin/zsh"@,
    }
}

/// Choose the shell to bootstrap through from the `SHELL` environment
/// variable's value, if the environment holds one.
pub fn shell_choice(shell: &Option<String>) -> (r: String)
    ensures
        r@ == spec_shell_choice(shell),
{
    match shell {
        Some(s) => s.clone(),
        None => {
            let d = "/bin/zsh";
            d.to_owned()
        },
    }
}

/// The variable bindings `env` output declares: one per line holding an
/// `=`, split at its first `=`.
pub open spec fn spec_env_entries(lines: Seq<Seq<char>>) -> Seq<(Seq<char>, Seq<char>)>
    decreases lines.len(),
{
    if lines.len() == 0 {
        Seq::empty()
    } else {
        let front = spec_env_entries(lines.drop_last());
        let l = lines.last();
        let i = spec_first_idx(l, '=');
        if i < l.len() {
            front.push((l.take(i), l.skip(i + 1)))
        } else {
            front
        }
    }
}

/// The environment a sourced shell printed: `KEY=value` pairs, one per
/// line, in print order (a caller building a map keeps the last binding
/// of a repeated key, as the shell's own environment does).
pub fn parse_env_lines(out: &str) -> (r: Vec<(String, String)>)
    ensures
        r@.map_values(|p: (String, String)| (p.0@, p.1@)) =~= spec_env_entries(spec_lines(out@)),
{
    let lines = split_lines(out);
    let n = lines.len();
    let mut out_pairs: Vec<(String, String)> = Vec::new();
    let mut i: usize = 0;
    proof {
        assert(lines.deep_view().take(0) =~= Seq::<Seq<char>>::empty());
        assert(out_pairs@.map_values(|p: (String, String)| (p.0@, p.1@)) =~= spec_env_entries(
            lines.deep_view().take(0),
        ));
    }
    while i < n
        invariant
            n == lines.len(),
            i <= n,
            lines.deep_view() =~= spec_lines(out@),
            out_pairs@.map_values(|p: (String, String)| (p.0@, p.1@)) =~= spec_env_entries(
                lines.deep_view().take(i as int),
            ),
        decreases n - i,
    {
        proof {
            assert(lines.deep_view()[i as int] == lines@[i as int]@);
            assert(lines.deep_view().take(i + 1).drop_last() =~= lines.deep_view().take(i as int));
            assert(lines.deep_view().take(i + 1).last() == lines.deep_view()[i as int]);
        }
        let l = lines[i].as_str();
        let ln = l.unicode_len();
        proof {
            lemma_first_idx(l@, '=');
        }
        let eq = find_char(l, '=');
        if eq < ln {
            let key = l.substring_char(0, eq);
            let value = l.substring_char(eq + 1, ln);
            let ghost old_pairs = out_pairs@.map_values(|p: (String, String)| (p.0@, p.1@));
            out_pairs.push((key.to_owned(), value.to_owned()));
            proof {
                assert(key@ =~= l@.take(eq as int));
                assert(value@ =~= l@.skip(eq + 1));
                assert(out_pairs@.map_values(|p: (String, String)| (p.0@, p.1@)) =~= old_pairs.push(
                    (l@.take(eq as int), l@.skip(eq + 1)),
                ));
            }
        }
        i += 1;
    }
    proof {
        assert(lines.deep_view().take(n as int) =~= lines.deep_view());
    }
    out_pairs
}

/// The environment the probes run under: what sourcing the shell
/// printed, and when that yielded nothing, at least the process's own
/// PATH so commands remain findable.
pub fn effective_env(parsed: Vec<(String, String)>, process_path: &Option<String>) -> (r: Vec<
    (String, String),
>)
    ensures
        parsed@.len() > 0 ==> r == parsed,
        parsed@.len() == 0 ==> match process_path {
            Some(p) => r@.len() == 1 && r@[0].0@ == "PATH"@ && r@[0].1@ == p@,
            None => r@.len() == 0,
        },
{
    if parsed.len() > 0 {
        return parsed;
    }
    let mut r: Vec<(String, String)> = Vec::new();
    match process_path {
        Some(p) => {
            let key = "PATH";
            r.push((key.to_owned(), p.clone()));
        },
        None => {},
    }
    r
}

/// The PATH fallback used when neither the shell nor the process
/// environment offers one.
pub open spec fn spec_default_path() -> Seq<char> {
    "/usr/local/bin:/usr/bin:/bin:/usr/sbin:/sbin"@
}

/// The PATH string the resolver works with: what a sourced shell echoed,
/// if that succeeded and was non-empty; else the process's own PATH;
/// else a fixed default.
pub open spec fn spec_shell_path(echo: &RunOutcome, env_path: &Option<String>) -> Seq<char> {
    let fallback = match env_path {
        Some(p) => p@,
        None => spec_default_path(),
    };
    match echo {
        RunOutcome::Ran(c) => if c.success && spec_trim(c.stdout@).len() > 0 {
            spec_trim(c.stdout@)
        } else {
            fallback
        },
        RunOutcome::SpawnFailed(_) => fallback,
    }
}

/// Choose the PATH string from what echoing `$PATH` through the sourced
/// shell produced and what the process environment holds.
pub fn get_shell_path(echo: &RunOutcome, env_path: &Option<String>) -> (r: String)
    ensures
        r@ == spec_shell_path(echo, env_path),
{
    match echo {
        RunOutcome::Ran(c) => {
            if c.success {
                let t = trim(c.stdout.as_str());
                if t.as_str().unicode_len() > 0 {
                    return t;
                }
            }
        },
        RunOutcome::SpawnFailed(_) => {},
    }
    match env_path {
        Some(p) => p.clone(),
        None => {
            let d = "/usr/local/bin:/usr/bin:/bin:/usr/sbin:/sbin";
            d.to_owned()
        },
    }
}

/// The path `which` resolved, if the lookup succeeded with non-empty
/// output: its stdout, trimmed.
pub open spec fn spec_which_candidate(out: &RunOutcome) -> Option<Seq<char>> {
    match out {
        RunOutcome::Ran(c) => if c.success && spec_trim(c.stdout@).len() > 0 {
            Some(spec_trim(c.stdout@))
        } else {
            None
        },
        RunOutcome::SpawnFailed(_) => None,
    }
}

/// The candidate path a `which` lookup produced, if any.
pub fn which_candidate(out: &RunOutcome) -> (r: Option<String>)
    ensures
        match r {
            Some(p) => spec_which_candidate(out) == Some(p@),
            None => spec_which_candidate(out) is None,
        },
{
    match out {
        RunOutcome::Ran(c) => {
            if c.success {
                let t = trim(c.stdout.as_str());
                if t.as_str().unicode_len() > 0 {
                    return Some(t);
                }
            }
            None
        },
        RunOutcome::SpawnFailed(_) => None,
    }
}

/// The joined candidate `dir/command` for each non-empty `:`-separated
/// segment of a PATH string.
pub open spec fn spec_path_candidates(parts: Seq<Seq<char>>, command: Seq<char>) -> Seq<Seq<char>>
    decreases parts.len(),
{
    if parts.len() == 0 {
        Seq::empty()
    } else {
        let front = spec_path_candidates(parts.drop_last(), command);
        let d = parts.last();
        if d.len() > 0 {
            front.push(d + "/"@ + command)
        } else {
            front
        }
    }
}

/// The candidate executable paths a PATH string offers for `command`:
/// one per non-empty segment.
pub fn path_candidates(shell_path: &str, command: &str) -> (r: Vec<String>)
    ensures
        r.deep_view() =~= spec_path_candidates(spec_split(shell_path@, ':'), command@),
{
    let parts = split_char(shell_path, ':');
    let n = parts.len();
    let mut out: Vec<String> = Vec::new();
    let mut i: usize = 0;
    proof {
        assert(parts.deep_view().take(0) =~= Seq::<Seq<char>>::empty());
    }
    while i < n
        invariant
            n == parts.len(),
            i <= n,
            parts.deep_view() =~= spec_split(shell_path@, ':'),
            out.deep_view() =~= spec_path_candidates(parts.deep_view().take(i as int), command@),
        decreases n - i,
    {
        proof {
            assert(parts.deep_view()[i as int] == parts@[i as int]@);
            assert(parts.deep_view().take(i + 1).drop_last() =~= parts.deep_view().take(i as int));
            assert(parts.deep_view().take(i + 1).last() == parts.deep_view()[i as int]);
        }
        let d = parts[i].as_str();
        if d.unicode_len() > 0 {
            let mut joined = d.to_owned();
            joined.append("/");
            joined.append(command);
            let ghost old_out = out.deep_view();
            out.push(joined);
            proof {
                assert(out.deep_view() =~= old_out.push(
                    parts.deep_view()[i as int] + "/"@ + command@,
                ));
            }
        }
        i += 1;
    }
    proof {
        assert(parts.deep_view().take(n as int) =~= parts.deep_view());
    }
    out
}

/// The first candidate that exists on disk, if any.
pub open spec fn spec_first_existing(scan: Seq<PathCandidate>) -> Option<Seq<char>>
    decreases scan.len(),
{
    if scan.len() == 0 {
        None
    } else if scan.first().exists {
        Some(scan.first().path@)
    } else {
        spec_first_existing(scan.drop_first())
    }
}

/// The path the three-tier resolution must return: the user-configured
/// path when it exists on disk, else what `which` found when that
/// exists, else the first existing PATH-scan candidate, else the bare
/// command name.
/// The last two tiers: what `which` found when that exists, else the
/// first existing PATH-scan candidate, else the bare command name.
pub open spec fn spec_resolved_fallback(
    command: Seq<char>,
    which: &Option<PathCandidate>,
    scan: Seq<PathCandidate>,
) -> Seq<char> {
    let scanned = match spec_first_existing(scan) {
        Some(p) => p,
        None => command,
    };
    match which {
        Some(w) => if w.exists {
            w.path@
        } else {
            scanned
        },
        None => scanned,
    }
}

pub open spec fn spec_resolved_path(
    command: Seq<char>,
    config: &Option<PathCandidate>,
    which: &Option<PathCandidate>,
    scan: Seq<PathCandidate>,
) -> Seq<char> {
    match config {
        Some(c) => if c.exists {
            c.path@
        } else {
            spec_resolved_fallback(command, which, scan)
        },
        None => spec_resolved_fallback(command, which, scan),
    }
}

/// Resolve `command` to an executable path from the gathered
/// observations: the configured path, the `which` result, and the PATH
/// scan, each paired with whether it exists on disk. Never fails: when
/// nothing resolves, the bare command name comes back and the caller
/// proceeds best-effort.
pub fn get_command_path(
    command: &str,
    config: &Option<PathCandidate>,
    which: &Option<PathCandidate>,
    scan: &Vec<PathCandidate>,
) -> (r: String)
    ensures
        r@ == spec_resolved_path(command@, config, which, scan@),
{
    match config {
        Some(c) => {
            if c.exists {
                return c.path.clone();
            }
        },
        None => {},
    }
    match which {
        Some(w) => {
            if w.exists {
                return w.path.clone();
            }
        },
        None => {},
    }
    let n = scan.len();
    let mut i: usize = 0;
    proof {
        assert(scan@.skip(0) =~= scan@);
    }
    while i < n
        invariant
            n == scan@.len(),
            i <= n,
            spec_first_existing(scan@) == spec_first_existing(scan@.skip(i as int)),
            match config {
                Some(c) => !c.exists,
                None => true,
            },
            match which {
                Some(w) => !w.exists,
                None => true,
            },
        decreases n - i,
    {
        proof {
            assert(scan@.skip(i as int).first() == scan@[i as int]);
            assert(scan@.skip(i as int).drop_first() =~= scan@.skip(i + 1));
        }
        if scan[i].exists {
            let chosen = scan[i].path.clone();
            proof {
                assert(scan@.skip(i as int).first().exists);
                assert(spec_first_existing(scan@.skip(i as int)) == Some(scan@[i as int].path@));
                assert(chosen@ == scan@[i as int].path@);
                assert(match config {
                    Some(c) => !c.exists,
                    None => true,
                });
                assert(match which {
                    Some(w) => !w.exists,
                    None => true,
                });
                assert(spec_resolved_fallback(command@, which, scan@) == chosen@);
                assert(chosen@ == spec_resolved_path(command@, config, which, scan@));
            }
            return chosen;
        }
        i += 1;
    }
    proof {
        assert(scan@.skip(n as int) =~= Seq::<PathCandidate>::empty());
    }
    command.to_owned()
}

/// A shell command line: the command followed by each argument, space
/// separated, an argument containing a space wrapped in double quotes.
pub open spec fn spec_command_line(command: Seq<char>, args: Seq<Seq<char>>) -> Seq<char>
    decreases args.len(),
{
    if args.len() == 0 {
        command
    } else {
        let front = spec_command_line(command, args.drop_last());
        let a = args.last();
        if spec_first_idx(a, ' ') < a.len() {
            front + " \""@ + a + "\""@
        } else {
            front + " "@ + a
        }
    }
}

/// Build the command line handed to the sourced shell.
pub fn build_command_line(command: &str, args: &Vec<String>) -> (r: String)
    ensures
        r@ == spec_command_line(command@, args.deep_view()),
{
    let mut line = command.to_owned();
    let n = args.len();
    let mut i: usize = 0;
    proof {
        assert(args.deep_view().take(0) =~= Seq::<Seq<char>>::empty());
    }
    while i < n
        invariant
            n == args.len(),
            i <= n,
            line@ == spec_command_line(command@, args.deep_view().take(i as int)),
        decreases n - i,
    {
        proof {
            assert(args.deep_view()[i as int] == args@[i as int]@);
            assert(args.deep_view().take(i + 1).drop_last() =~= args.deep_view().take(i as int));
            assert(args.deep_view().take(i + 1).last() == args.deep_view()[i as int]);
            lemma_first_idx(args@[i as int]@, ' ');
        }
        let a = args[i].as_str();
        let an = a.unicode_len();
        if find_char(a, ' ') < an {
            line.append(" \"");
            line.append(a);
            line.append("\"");
        } else {
            line.append(" ");
            line.append(a);
        }
        i += 1;
    }
    proof {
        assert(args.deep_view().take(n as int) =~= args.deep_view());
    }
    line
}

} // verus!
