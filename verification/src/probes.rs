//! Installed-state probes: one parser per package manager, turning the
//! listing command's output into the set of installed package names, and
//! the per-manager check functions that classify how the command ran.

use vstd::prelude::*;
use vstd::string::{StrSliceExecFns, StringExecFns};
use crate::models::{CmdResult, ProbeInput, RunOutcome};
use crate::constants::{spec_from_str, PackageManagerType};
use crate::text::{
    spec_lines, spec_trim, spec_tokens, spec_dedup, spec_first_idx, spec_contains_str,
    spec_starts_with, split_lines, split_tokens, trim, dedup_keep_first, find_char, find_str,
    contains_str, starts_with, lemma_first_idx,
};

verus! {

/// Whether an error message describes a missing executable.
pub open spec fn spec_is_command_missing(e: Seq<char>) -> bool {
    spec_contains_str(e, "No such file or directory"@) || spec_contains_str(
        e,
        "command not found"@,
    )
}

/// An error with this text means the probed command does not exist on
/// the host, which callers treat as "nothing installed".
pub fn is_command_missing_error(error: &str) -> (r: bool)
    ensures
        r == spec_is_command_missing(error@),
{
    contains_str(error, "No such file or directory") || contains_str(error, "command not found")
}

/// `prefix` followed by `e`.
fn prefixed_error(prefix: &str, e: &str) -> (r: String)
    ensures
        r@ == prefix@ + e@,
{
    let mut s = prefix.to_owned();
    s.append(e);
    s
}

/// One name per non-empty line, trimmed.
pub open spec fn spec_plain_entries(lines: Seq<Seq<char>>) -> Seq<Seq<char>>
    decreases lines.len(),
{
    if lines.len() == 0 {
        Seq::empty()
    } else {
        let front = spec_plain_entries(lines.drop_last());
        let t = spec_trim(lines.last());
        if t.len() > 0 {
            front.push(t)
        } else {
            front
        }
    }
}

/// The installed set a plain line listing (brew and brew-cask) denotes.
pub open spec fn spec_plain_list(out: Seq<char>) -> Seq<Seq<char>> {
    spec_dedup(spec_plain_entries(spec_lines(out)))
}

/// Parse a plain line listing: one package name per non-empty line.
pub fn parse_plain_output(out: &str) -> (r: Vec<String>)
    ensures
        r.deep_view() =~= spec_plain_list(out@),
{
    let lines = split_lines(out);
    let n = lines.len();
    let mut raw: Vec<String> = Vec::new();
    let mut i: usize = 0;
    proof {
        assert(lines.deep_view().take(0) =~= Seq::<Seq<char>>::empty());
    }
    while i < n
        invariant
            n == lines.len(),
            i <= n,
            lines.deep_view() =~= spec_lines(out@),
            raw.deep_view() =~= spec_plain_entries(lines.deep_view().take(i as int)),
        decreases n - i,
    {
        proof {
            assert(lines.deep_view()[i as int] == lines@[i as int]@);
            assert(lines.deep_view().take(i + 1).drop_last() =~= lines.deep_view().take(i as int));
            assert(lines.deep_view().take(i + 1).last() == lines.deep_view()[i as int]);
        }
        let t = trim(lines[i].as_str());
        if t.as_str().unicode_len() > 0 {
            let ghost old_raw = raw.deep_view();
            raw.push(t);
            proof {
                assert(raw.deep_view() =~= old_raw.push(spec_trim(lines.deep_view()[i as int])));
            }
        }
        i += 1;
    }
    proof {
        assert(lines.deep_view().take(n as int) =~= lines.deep_view());
    }
    dedup_keep_first(&raw)
}

/// What a check over a line-based probe must return: the spawn failure
/// message prefixed; for a failed run, the empty set when its stderr
/// shows the command is missing, and otherwise that stderr as an
/// explicit error; for a successful run, the parsed listing.
pub open spec fn spec_lines_check_post(
    outcome: &RunOutcome,
    prefix: Seq<char>,
    parsed: Seq<Seq<char>>,
    r: &Result<Vec<String>, String>,
) -> bool {
    match outcome {
        RunOutcome::SpawnFailed(e) => r matches Err(m) && m@ == prefix + e@,
        RunOutcome::Ran(c) => if c.success {
            r matches Ok(v) && v.deep_view() == parsed
        } else if spec_is_command_missing(c.stderr@) {
            r matches Ok(v) && v.deep_view() == Seq::<Seq<char>>::empty()
        } else {
            r matches Err(m) && m@ == c.stderr@
        },
    }
}

/// The installed Homebrew formulae, from `brew list --formula` output.
pub fn check_brew_installed(outcome: &RunOutcome) -> (r: Result<Vec<String>, String>)
    ensures
        spec_lines_check_post(
            outcome,
            "Failed to run brew: "@,
            match outcome {
                RunOutcome::Ran(c) => spec_plain_list(c.stdout@),
                _ => Seq::empty(),
            },
            &r,
        ),
{
    match outcome {
        RunOutcome::SpawnFailed(e) => Err(prefixed_error("Failed to run brew: ", e.as_str())),
        RunOutcome::Ran(c) => {
            if !c.success {
                if is_command_missing_error(c.stderr.as_str()) {
                    let v: Vec<String> = Vec::new();
                    assert(v.deep_view() =~= Seq::<Seq<char>>::empty());
                    Ok(v)
                } else {
                    Err(c.stderr.clone())
                }
            } else {
                Ok(parse_plain_output(c.stdout.as_str()))
            }
        },
    }
}

/// The installed Homebrew casks, from `brew list --cask` output.
pub fn check_brew_cask_installed(outcome: &RunOutcome) -> (r: Result<Vec<String>, String>)
    ensures
        spec_lines_check_post(
            outcome,
            "Failed to run brew: "@,
            match outcome {
                RunOutcome::Ran(c) => spec_plain_list(c.stdout@),
                _ => Seq::empty(),
            },
            &r,
        ),
{
    match outcome {
        RunOutcome::SpawnFailed(e) => Err(prefixed_error("Failed to run brew: ", e.as_str())),
        RunOutcome::Ran(c) => {
            if !c.success {
                if is_command_missing_error(c.stderr.as_str()) {
                    let v: Vec<String> = Vec::new();
                    assert(v.deep_view() =~= Seq::<Seq<char>>::empty());
                    Ok(v)
                } else {
                    Err(c.stderr.clone())
                }
            } else {
                Ok(parse_plain_output(c.stdout.as_str()))
            }
        },
    }
}

/// The name a `cargo install --list` line contributes: its first token,
/// for top-level lines (no leading space) that contain a `v`.
pub open spec fn spec_cargo_entry(l: Seq<char>) -> Option<Seq<char>> {
    if !(l.len() > 0 && l[0] == ' ') && spec_first_idx(l, 'v') < l.len() && spec_tokens(
        l,
    ).len() > 0 {
        Some(spec_tokens(l)[0])
    } else {
        None
    }
}

pub open spec fn spec_cargo_entries(lines: Seq<Seq<char>>) -> Seq<Seq<char>>
    decreases lines.len(),
{
    if lines.len() == 0 {
        Seq::empty()
    } else {
        let front = spec_cargo_entries(lines.drop_last());
        match spec_cargo_entry(lines.last()) {
            Some(t) => front.push(t),
            None => front,
        }
    }
}

/// The installed set a `cargo install --list` output denotes.
pub open spec fn spec_cargo_list(out: Seq<char>) -> Seq<Seq<char>> {
    spec_dedup(spec_cargo_entries(spec_lines(out)))
}

/// Parse `cargo install --list` output.
pub fn parse_cargo_output(out: &str) -> (r: Vec<String>)
    ensures
        r.deep_view() =~= spec_cargo_list(out@),
{
    let lines = split_lines(out);
    let n = lines.len();
    let mut raw: Vec<String> = Vec::new();
    let mut i: usize = 0;
    proof {
        assert(lines.deep_view().take(0) =~= Seq::<Seq<char>>::empty());
    }
    while i < n
        invariant
            n == lines.len(),
            i <= n,
            lines.deep_view() =~= spec_lines(out@),
            raw.deep_view() =~= spec_cargo_entries(lines.deep_view().take(i as int)),
        decreases n - i,
    {
        proof {
            assert(lines.deep_view()[i as int] == lines@[i as int]@);
            assert(lines.deep_view().take(i + 1).drop_last() =~= lines.deep_view().take(i as int));
            assert(lines.deep_view().take(i + 1).last() == lines.deep_view()[i as int]);
        }
        let l = lines[i].as_str();
        let ln = l.unicode_len();
        let top_level = !(ln > 0 && l.get_char(0) == ' ');
        let has_v = find_char(l, 'v') < ln;
        proof {
            lemma_first_idx(l@, 'v');
        }
        if top_level && has_v {
            let toks = split_tokens(l);
            if toks.len() > 0 {
                let ghost old_raw = raw.deep_view();
                let first = toks[0].clone();
                raw.push(first);
                proof {
                    assert(toks.deep_view()[0] == toks@[0]@);
                    assert(raw.deep_view() =~= old_raw.push(spec_tokens(l@)[0]));
                }
            }
        }
        i += 1;
    }
    proof {
        assert(lines.deep_view().take(n as int) =~= lines.deep_view());
    }
    dedup_keep_first(&raw)
}

/// The installed cargo binaries, from `cargo install --list` output.
pub fn check_cargo_installed(outcome: &RunOutcome) -> (r: Result<Vec<String>, String>)
    ensures
        spec_lines_check_post(
            outcome,
            "Failed to run cargo: "@,
            match outcome {
                RunOutcome::Ran(c) => spec_cargo_list(c.stdout@),
                _ => Seq::empty(),
            },
            &r,
        ),
{
    match outcome {
        RunOutcome::SpawnFailed(e) => Err(prefixed_error("Failed to run cargo: ", e.as_str())),
        RunOutcome::Ran(c) => {
            if !c.success {
                if is_command_missing_error(c.stderr.as_str()) {
                    let v: Vec<String> = Vec::new();
                    assert(v.deep_view() =~= Seq::<Seq<char>>::empty());
                    Ok(v)
                } else {
                    Err(c.stderr.clone())
                }
            } else {
                Ok(parse_cargo_output(c.stdout.as_str()))
            }
        },
    }
}

/// The name a `pipx list` line contributes: its second token, for lines
/// whose trimmed text starts with `package`.
pub open spec fn spec_pipx_entry(l: Seq<char>) -> Option<Seq<char>> {
    if spec_starts_with(spec_trim(l), "package"@) && spec_tokens(l).len() > 1 {
        Some(spec_tokens(l)[1])
    } else {
        None
    }
}

pub open spec fn spec_pipx_entries(lines: Seq<Seq<char>>) -> Seq<Seq<char>>
    decreases lines.len(),
{
    if lines.len() == 0 {
        Seq::empty()
    } else {
        let front = spec_pipx_entries(lines.drop_last());
        match spec_pipx_entry(lines.last()) {
            Some(t) => front.push(t),
            None => front,
        }
    }
}

/// The installed set a `pipx list` output denotes.
pub open spec fn spec_pipx_list(out: Seq<char>) -> Seq<Seq<char>> {
    spec_dedup(spec_pipx_entries(spec_lines(out)))
}

/// Parse `pipx list` output.
pub fn parse_pipx_output(out: &str) -> (r: Vec<String>)
    ensures
        r.deep_view() =~= spec_pipx_list(out@),
{
    let lines = split_lines(out);
    let n = lines.len();
    let mut raw: Vec<String> = Vec::new();
    let mut i: usize = 0;
    proof {
        assert(lines.deep_view().take(0) =~= Seq::<Seq<char>>::empty());
    }
    while i < n
        invariant
            n == lines.len(),
            i <= n,
            lines.deep_view() =~= spec_lines(out@),
            raw.deep_view() =~= spec_pipx_entries(lines.deep_view().take(i as int)),
        decreases n - i,
    {
        proof {
            assert(lines.deep_view()[i as int] == lines@[i as int]@);
            assert(lines.deep_view().take(i + 1).drop_last() =~= lines.deep_view().take(i as int));
            assert(lines.deep_view().take(i + 1).last() == lines.deep_view()[i as int]);
        }
        let l = lines[i].as_str();
        let t = trim(l);
        if starts_with(t.as_str(), "package") {
            let toks = split_tokens(l);
            if toks.len() > 1 {
                let ghost old_raw = raw.deep_view();
                let second = toks[1].clone();
                raw.push(second);
                proof {
                    assert(toks.deep_view()[1] == toks@[1]@);
                    assert(raw.deep_view() =~= old_raw.push(spec_tokens(l@)[1]));
                }
            }
        }
        i += 1;
    }
    proof {
        assert(lines.deep_view().take(n as int) =~= lines.deep_view());
    }
    dedup_keep_first(&raw)
}

/// The installed pipx packages, from `pipx list` output.
pub fn check_pipx_installed(outcome: &RunOutcome) -> (r: Result<Vec<String>, String>)
    ensures
        spec_lines_check_post(
            outcome,
            "Failed to run pipx: "@,
            match outcome {
                RunOutcome::Ran(c) => spec_pipx_list(c.stdout@),
                _ => Seq::empty(),
            },
            &r,
        ),
{
    match outcome {
        RunOutcome::SpawnFailed(e) => Err(prefixed_error("Failed to run pipx: ", e.as_str())),
        RunOutcome::Ran(c) => {
            if !c.success {
                if is_command_missing_error(c.stderr.as_str()) {
                    let v: Vec<String> = Vec::new();
                    assert(v.deep_view() =~= Seq::<Seq<char>>::empty());
                    Ok(v)
                } else {
                    Err(c.stderr.clone())
                }
            } else {
                Ok(parse_pipx_output(c.stdout.as_str()))
            }
        },
    }
}

/// The names `pnpm list -g --depth=0` output declares: first tokens of
/// the lines after a `dependencies:` marker line, skipping tokens that
/// begin with `/`.
pub open spec fn spec_pnpm_entries(lines: Seq<Seq<char>>, in_deps: bool) -> Seq<Seq<char>>
    decreases lines.len(),
{
    if lines.len() == 0 {
        Seq::empty()
    } else {
        let l = lines.first();
        let rest = lines.drop_first();
        if spec_starts_with(l, "dependencies:"@) {
            spec_pnpm_entries(rest, true)
        } else if in_deps && spec_tokens(l).len() > 0 && spec_tokens(l)[0].len() > 0
            && spec_tokens(l)[0][0] != '/' {
            seq![spec_tokens(l)[0]] + spec_pnpm_entries(rest, true)
        } else {
            spec_pnpm_entries(rest, in_deps)
        }
    }
}

/// The installed set a `pnpm list -g --depth=0` output denotes.
pub open spec fn spec_pnpm_list(out: Seq<char>) -> Seq<Seq<char>> {
    spec_dedup(spec_pnpm_entries(spec_lines(out), false))
}

/// Parse `pnpm list -g --depth=0` output.
pub fn parse_pnpm_output(out: &str) -> (r: Vec<String>)
    ensures
        r.deep_view() =~= spec_pnpm_list(out@),
{
    let lines = split_lines(out);
    let n = lines.len();
    let mut raw: Vec<String> = Vec::new();
    let mut in_deps = false;
    let mut i: usize = 0;
    proof {
        assert(lines.deep_view().skip(0) =~= lines.deep_view());
        assert(raw.deep_view() =~= Seq::<Seq<char>>::empty());
    }
    while i < n
        invariant
            n == lines.len(),
            i <= n,
            lines.deep_view() =~= spec_lines(out@),
            spec_pnpm_entries(lines.deep_view(), false) =~= raw.deep_view() + spec_pnpm_entries(
                lines.deep_view().skip(i as int),
                in_deps,
            ),
        decreases n - i,
    {
        proof {
            assert(lines.deep_view()[i as int] == lines@[i as int]@);
            assert(lines.deep_view().skip(i as int).first() == lines.deep_view()[i as int]);
            assert(lines.deep_view().skip(i as int).drop_first() =~= lines.deep_view().skip(
                i + 1,
            ));
        }
        let l = lines[i].as_str();
        if starts_with(l, "dependencies:") {
            in_deps = true;
        } else if in_deps {
            let toks = split_tokens(l);
            if toks.len() > 0 {
                let tn = toks[0].as_str().unicode_len();
                if tn > 0 && toks[0].as_str().get_char(0) != '/' {
                    let ghost old_raw = raw.deep_view();
                    let first = toks[0].clone();
                    raw.push(first);
                    proof {
                        assert(toks.deep_view()[0] == toks@[0]@);
                        assert(raw.deep_view() =~= old_raw.push(spec_tokens(l@)[0]));
                    }
                } else {
                    proof {
                        assert(toks.deep_view()[0] == toks@[0]@);
                    }
                }
            }
        }
        i += 1;
    }
    proof {
        assert(lines.deep_view().skip(n as int) =~= Seq::<Seq<char>>::empty());
    }
    dedup_keep_first(&raw)
}

/// The installed pnpm global packages.
pub fn check_pnpm_installed(outcome: &RunOutcome) -> (r: Result<Vec<String>, String>)
    ensures
        spec_lines_check_post(
            outcome,
            "Failed to run pnpm: "@,
            match outcome {
                RunOutcome::Ran(c) => spec_pnpm_list(c.stdout@),
                _ => Seq::empty(),
            },
            &r,
        ),
{
    match outcome {
        RunOutcome::SpawnFailed(e) => Err(prefixed_error("Failed to run pnpm: ", e.as_str())),
        RunOutcome::Ran(c) => {
            if !c.success {
                if is_command_missing_error(c.stderr.as_str()) {
                    let v: Vec<String> = Vec::new();
                    assert(v.deep_view() =~= Seq::<Seq<char>>::empty());
                    Ok(v)
                } else {
                    Err(c.stderr.clone())
                }
            } else {
                Ok(parse_pnpm_output(c.stdout.as_str()))
            }
        },
    }
}

/// The names a `luarocks list` output declares: first tokens of the
/// non-empty lines after a `---` separator line.
pub open spec fn spec_luarocks_entries(lines: Seq<Seq<char>>, in_list: bool) -> Seq<Seq<char>>
    decreases lines.len(),
{
    if lines.len() == 0 {
        Seq::empty()
    } else {
        let l = lines.first();
        let rest = lines.drop_first();
        if spec_contains_str(l, "---"@) {
            spec_luarocks_entries(rest, true)
        } else if in_list && spec_trim(l).len() > 0 && spec_tokens(l).len() > 0 {
            seq![spec_tokens(l)[0]] + spec_luarocks_entries(rest, true)
        } else {
            spec_luarocks_entries(rest, in_list)
        }
    }
}

/// The installed set a `luarocks list` output denotes.
pub open spec fn spec_luarocks_list(out: Seq<char>) -> Seq<Seq<char>> {
    spec_dedup(spec_luarocks_entries(spec_lines(out), false))
}

/// Parse `luarocks list` output.
pub fn parse_luarocks_output(out: &str) -> (r: Vec<String>)
    ensures
        r.deep_view() =~= spec_luarocks_list(out@),
{
    let lines = split_lines(out);
    let n = lines.len();
    let mut raw: Vec<String> = Vec::new();
    let mut in_list = false;
    let mut i: usize = 0;
    proof {
        assert(lines.deep_view().skip(0) =~= lines.deep_view());
        assert(raw.deep_view() =~= Seq::<Seq<char>>::empty());
    }
    while i < n
        invariant
            n == lines.len(),
            i <= n,
            lines.deep_view() =~= spec_lines(out@),
            spec_luarocks_entries(lines.deep_view(), false) =~= raw.deep_view()
                + spec_luarocks_entries(lines.deep_view().skip(i as int), in_list),
        decreases n - i,
    {
        proof {
            assert(lines.deep_view()[i as int] == lines@[i as int]@);
            assert(lines.deep_view().skip(i as int).first() == lines.deep_view()[i as int]);
            assert(lines.deep_view().skip(i as int).drop_first() =~= lines.deep_view().skip(
                i + 1,
            ));
        }
        let l = lines[i].as_str();
        if contains_str(l, "---") {
            in_list = true;
        } else if in_list {
            let t = trim(l);
            if t.as_str().unicode_len() > 0 {
                let toks = split_tokens(l);
                if toks.len() > 0 {
                    let ghost old_raw = raw.deep_view();
                    let first = toks[0].clone();
                    raw.push(first);
                    proof {
                        assert(toks.deep_view()[0] == toks@[0]@);
                        assert(raw.deep_view() =~= old_raw.push(spec_tokens(l@)[0]));
                    }
                }
            }
        }
        i += 1;
    }
    proof {
        assert(lines.deep_view().skip(n as int) =~= Seq::<Seq<char>>::empty());
    }
    dedup_keep_first(&raw)
}

/// The installed luarocks packages.
pub fn check_luarocks_installed(outcome: &RunOutcome) -> (r: Result<Vec<String>, String>)
    ensures
        spec_lines_check_post(
            outcome,
            "Failed to run luarocks: "@,
            match outcome {
                RunOutcome::Ran(c) => spec_luarocks_list(c.stdout@),
                _ => Seq::empty(),
            },
            &r,
        ),
{
    match outcome {
        RunOutcome::SpawnFailed(e) => Err(
            prefixed_error("Failed to run luarocks: ", e.as_str()),
        ),
        RunOutcome::Ran(c) => {
            if !c.success {
                if is_command_missing_error(c.stderr.as_str()) {
                    let v: Vec<String> = Vec::new();
                    assert(v.deep_view() =~= Seq::<Seq<char>>::empty());
                    Ok(v)
                } else {
                    Err(c.stderr.clone())
                }
            } else {
                Ok(parse_luarocks_output(c.stdout.as_str()))
            }
        },
    }
}

/// The name a `yarn global list` line contributes: for lines holding
/// both `info` and `@`, the text between the first pair of double
/// quotes, cut before its first `@`.
pub open spec fn spec_yarn_entry(l: Seq<char>) -> Option<Seq<char>> {
    if spec_contains_str(l, "info"@) && spec_first_idx(l, '@') < l.len() {
        let q1 = spec_first_idx(l, '"');
        if q1 < l.len() {
            let rest = l.skip(q1 + 1);
            let tok = rest.take(spec_first_idx(rest, '"'));
            Some(tok.take(spec_first_idx(tok, '@')))
        } else {
            None
        }
    } else {
        None
    }
}

pub open spec fn spec_yarn_entries(lines: Seq<Seq<char>>) -> Seq<Seq<char>>
    decreases lines.len(),
{
    if lines.len() == 0 {
        Seq::empty()
    } else {
        let front = spec_yarn_entries(lines.drop_last());
        match spec_yarn_entry(lines.last()) {
            Some(t) => front.push(t),
            None => front,
        }
    }
}

/// The installed set a `yarn global list` output denotes.
pub open spec fn spec_yarn_list(out: Seq<char>) -> Seq<Seq<char>> {
    spec_dedup(spec_yarn_entries(spec_lines(out)))
}

/// Parse `yarn global list --depth=0` output.
pub fn parse_yarn_output(out: &str) -> (r: Vec<String>)
    ensures
        r.deep_view() =~= spec_yarn_list(out@),
{
    let lines = split_lines(out);
    let n = lines.len();
    let mut raw: Vec<String> = Vec::new();
    let mut i: usize = 0;
    proof {
        assert(lines.deep_view().take(0) =~= Seq::<Seq<char>>::empty());
    }
    while i < n
        invariant
            n == lines.len(),
            i <= n,
            lines.deep_view() =~= spec_lines(out@),
            raw.deep_view() =~= spec_yarn_entries(lines.deep_view().take(i as int)),
        decreases n - i,
    {
        proof {
            assert(lines.deep_view()[i as int] == lines@[i as int]@);
            assert(lines.deep_view().take(i + 1).drop_last() =~= lines.deep_view().take(i as int));
            assert(lines.deep_view().take(i + 1).last() == lines.deep_view()[i as int]);
        }
        let l = lines[i].as_str();
        let ln = l.unicode_len();
        if contains_str(l, "info") && find_char(l, '@') < ln {
            proof {
                lemma_first_idx(l@, '"');
            }
            let q1 = find_char(l, '"');
            if q1 < ln {
                let rest = l.substring_char(q1 + 1, ln);
                proof {
                    assert(rest@ =~= l@.skip(q1 + 1));
                    lemma_first_idx(rest@, '"');
                }
                let q2 = find_char(rest, '"');
                let tok = rest.substring_char(0, q2);
                proof {
                    assert(tok@ =~= rest@.take(q2 as int));
                    lemma_first_idx(tok@, '@');
                }
                let a = find_char(tok, '@');
                let name = tok.substring_char(0, a);
                let ghost old_raw = raw.deep_view();
                raw.push(name.to_owned());
                proof {
                    assert(name@ =~= tok@.take(a as int));
                    assert(spec_yarn_entry(lines.deep_view()[i as int]) == Some(name@));
                    assert(raw.deep_view() =~= old_raw.push(name@));
                }
            }
        }
        i += 1;
    }
    proof {
        assert(lines.deep_view().take(n as int) =~= lines.deep_view());
    }
    dedup_keep_first(&raw)
}

/// The installed yarn global packages.
pub fn check_yarn_installed(outcome: &RunOutcome) -> (r: Result<Vec<String>, String>)
    ensures
        spec_lines_check_post(
            outcome,
            "Failed to run yarn: "@,
            match outcome {
                RunOutcome::Ran(c) => spec_yarn_list(c.stdout@),
                _ => Seq::empty(),
            },
            &r,
        ),
{
    match outcome {
        RunOutcome::SpawnFailed(e) => Err(prefixed_error("Failed to run yarn: ", e.as_str())),
        RunOutcome::Ran(c) => {
            if !c.success {
                if is_command_missing_error(c.stderr.as_str()) {
                    let v: Vec<String> = Vec::new();
                    assert(v.deep_view() =~= Seq::<Seq<char>>::empty());
                    Ok(v)
                } else {
                    Err(c.stderr.clone())
                }
            } else {
                Ok(parse_yarn_output(c.stdout.as_str()))
            }
        },
    }
}

/// The name a `bun pm ls -g` line contributes: for lines with a tree
/// branch marker, the text after the marker, trimmed, cut at the `@`
/// that begins its version; a scoped name keeps its leading `@scope/`.
pub open spec fn spec_bun_entry(l: Seq<char>) -> Option<Seq<char>> {
    if spec_contains_str(l, "\u{251c}\u{2500}\u{2500}"@) || spec_contains_str(
        l,
        "\u{2514}\u{2500}\u{2500}"@,
    ) {
        match crate::text::spec_find_str(l, "\u{2500}\u{2500}"@) {
            Some(m) => {
                let t = spec_trim(l.skip(m + 2));
                let name = if t.len() > 0 && t[0] == '@' {
                    let stripped = t.skip(1);
                    let a = spec_first_idx(stripped, '@');
                    if a < stripped.len() {
                        t.take(a + 1)
                    } else {
                        t
                    }
                } else {
                    t.take(spec_first_idx(t, '@'))
                };
                if name.len() > 0 {
                    Some(name)
                } else {
                    None
                }
            },
            None => None,
        }
    } else {
        None
    }
}

pub open spec fn spec_bun_entries(lines: Seq<Seq<char>>) -> Seq<Seq<char>>
    decreases lines.len(),
{
    if lines.len() == 0 {
        Seq::empty()
    } else {
        let front = spec_bun_entries(lines.drop_last());
        match spec_bun_entry(lines.last()) {
            Some(t) => front.push(t),
            None => front,
        }
    }
}

/// The installed set a `bun pm ls -g` output denotes.
pub open spec fn spec_bun_list(out: Seq<char>) -> Seq<Seq<char>> {
    spec_dedup(spec_bun_entries(spec_lines(out)))
}

/// Parse `bun pm ls -g` output.
pub fn parse_bun_output(out: &str) -> (r: Vec<String>)
    ensures
        r.deep_view() =~= spec_bun_list(out@),
{
    let lines = split_lines(out);
    let n = lines.len();
    let mut raw: Vec<String> = Vec::new();
    let mut i: usize = 0;
    proof {
        broadcast use vstd::string::group_string_axioms;

        reveal_strlit("\u{2500}\u{2500}");
        assert(lines.deep_view().take(0) =~= Seq::<Seq<char>>::empty());
        assert("\u{2500}\u{2500}"@.len() == 2);
    }
    while i < n
        invariant
            n == lines.len(),
            i <= n,
            "\u{2500}\u{2500}"@.len() == 2,
            lines.deep_view() =~= spec_lines(out@),
            raw.deep_view() =~= spec_bun_entries(lines.deep_view().take(i as int)),
        decreases n - i,
    {
        proof {
            assert(lines.deep_view()[i as int] == lines@[i as int]@);
            assert(lines.deep_view().take(i + 1).drop_last() =~= lines.deep_view().take(i as int));
            assert(lines.deep_view().take(i + 1).last() == lines.deep_view()[i as int]);
        }
        let l = lines[i].as_str();
        let ln = l.unicode_len();
        if contains_str(l, "\u{251c}\u{2500}\u{2500}") || contains_str(
            l,
            "\u{2514}\u{2500}\u{2500}",
        ) {
            match find_str(l, "\u{2500}\u{2500}") {
                Some(m) => {
                    let after = l.substring_char(m + 2, ln);
                    proof {
                        assert(after@ =~= l@.skip(m + 2));
                    }
                    let t = trim(after);
                    let tn = t.as_str().unicode_len();
                    let name: String = if tn > 0 && t.as_str().get_char(0) == '@' {
                        let stripped = t.as_str().substring_char(1, tn);
                        proof {
                            assert(stripped@ =~= t@.skip(1));
                            lemma_first_idx(stripped@, '@');
                        }
                        let a = find_char(stripped, '@');
                        if a < tn - 1 {
                            let cut = t.as_str().substring_char(0, a + 1);
                            proof {
                                assert(cut@ =~= t@.take(a + 1));
                            }
                            cut.to_owned()
                        } else {
                            t
                        }
                    } else {
                        proof {
                            lemma_first_idx(t@, '@');
                        }
                        let a = find_char(t.as_str(), '@');
                        let cut = t.as_str().substring_char(0, a);
                        proof {
                            assert(cut@ =~= t@.take(a as int));
                        }
                        cut.to_owned()
                    };
                    if name.as_str().unicode_len() > 0 {
                        let ghost old_raw = raw.deep_view();
                        raw.push(name);
                        proof {
                            assert(raw.deep_view() =~= old_raw.push(
                                spec_bun_entry(lines.deep_view()[i as int]).unwrap(),
                            ));
                        }
                    }
                },
                None => {},
            }
        }
        i += 1;
    }
    proof {
        assert(lines.deep_view().take(n as int) =~= lines.deep_view());
    }
    dedup_keep_first(&raw)
}

/// The installed bun global packages.
pub fn check_bun_installed(outcome: &RunOutcome) -> (r: Result<Vec<String>, String>)
    ensures
        spec_lines_check_post(
            outcome,
            "Failed to run bun: "@,
            match outcome {
                RunOutcome::Ran(c) => spec_bun_list(c.stdout@),
                _ => Seq::empty(),
            },
            &r,
        ),
{
    match outcome {
        RunOutcome::SpawnFailed(e) => Err(prefixed_error("Failed to run bun: ", e.as_str())),
        RunOutcome::Ran(c) => {
            if !c.success {
                if is_command_missing_error(c.stderr.as_str()) {
                    let v: Vec<String> = Vec::new();
                    assert(v.deep_view() =~= Seq::<Seq<char>>::empty());
                    Ok(v)
                } else {
                    Err(c.stderr.clone())
                }
            } else {
                Ok(parse_bun_output(c.stdout.as_str()))
            }
        },
    }
}

/// The installed set a directory listing of `$GOPATH/bin` denotes: the
/// file names themselves, or nothing when the directory is absent.
pub open spec fn spec_go_list(entries: &Option<Vec<String>>) -> Seq<Seq<char>> {
    match entries {
        Some(v) => spec_dedup(v.deep_view()),
        None => Seq::empty(),
    }
}

/// The installed go binaries, from the file names under `$GOPATH/bin`
/// (`None` when that directory does not exist).
pub fn check_go_installed(entries: &Option<Vec<String>>) -> (r: Result<Vec<String>, String>)
    ensures
        r matches Ok(v) && v.deep_view() == spec_go_list(entries),
{
    match entries {
        Some(v) => Ok(dedup_keep_first(v)),
        None => {
            let v: Vec<String> = Vec::new();
            assert(v.deep_view() =~= Seq::<Seq<char>>::empty());
            Ok(v)
        },
    }
}

/// `names` without every occurrence of `x`, in order.
pub open spec fn spec_exclude(names: Seq<Seq<char>>, x: Seq<char>) -> Seq<Seq<char>>
    decreases names.len(),
{
    if names.len() == 0 {
        Seq::empty()
    } else {
        let front = spec_exclude(names.drop_last(), x);
        if names.last() == x {
            front
        } else {
            front.push(names.last())
        }
    }
}

/// Remove every element equal to `x`.
fn exclude_name(v: &Vec<String>, x: &str) -> (r: Vec<String>)
    ensures
        r.deep_view() =~= spec_exclude(v.deep_view(), x@),
{
    let n = v.len();
    let mut out: Vec<String> = Vec::new();
    let mut i: usize = 0;
    proof {
        assert(v.deep_view().take(0) =~= Seq::<Seq<char>>::empty());
    }
    while i < n
        invariant
            n == v.len(),
            i <= n,
            out.deep_view() =~= spec_exclude(v.deep_view().take(i as int), x@),
        decreases n - i,
    {
        proof {
            assert(v.deep_view()[i as int] == v@[i as int]@);
            assert(v.deep_view().take(i + 1).drop_last() =~= v.deep_view().take(i as int));
            assert(v.deep_view().take(i + 1).last() == v.deep_view()[i as int]);
        }
        if !crate::text::str_eq(v[i].as_str(), x) {
            let ghost old_out = out.deep_view();
            out.push(v[i].clone());
            proof {
                assert(out.deep_view() =~= old_out.push(v.deep_view()[i as int]));
            }
        }
        i += 1;
    }
    proof {
        assert(v.deep_view().take(n as int) =~= v.deep_view());
    }
    out
}

/// What extracting the keys of the object stored under `field` in the
/// JSON document `s` yields: `None` when `s` is not valid JSON,
/// `Some(None)` when there is no object under `field`, and
/// `Some(Some(keys))` otherwise. A function of the text alone.
pub uninterp spec fn json_object_field_keys_of(s: Seq<char>, field: Seq<char>) -> Option<
    Option<Seq<Seq<char>>>,
>;

/// Relies on serde_json: `from_str::<Value>` parses the document,
/// `Value::get` looks `field` up in it, `Value::as_object` accepts only
/// the object variant, and `Map::keys` iterates the keys in a fixed
/// (sorted) order, so the result depends on the text alone. The error
/// text is serde_json's parse message.
#[verifier::external_body]
fn json_object_field_keys(s: &str, field: &str) -> (r: Result<Option<Vec<String>>, String>)
    ensures
        match json_object_field_keys_of(s@, field@) {
            None => r matches Err(_),
            Some(None) => r matches Ok(v) && v is None,
            Some(Some(ks)) => r matches Ok(v) && v matches Some(vs) && vs.deep_view() == ks,
        },
{
    let value: serde_json::Value = match serde_json::from_str(s) {
        Ok(v) => v,
        Err(e) => return Err(e.to_string()),
    };
    let field_value = match value.get(field) {
        Some(v) => v,
        None => return Ok(None),
    };
    match field_value.as_object() {
        Some(map) => Ok(Some(map.keys().cloned().collect())),
        None => Ok(None),
    }
}

/// What extracting the string stored under `field` from each element of
/// the JSON array `s` yields: `None` when `s` is not valid JSON,
/// `Some(None)` when the document is not an array, and
/// `Some(Some(values))` otherwise, skipping elements without a string at
/// `field`. A function of the text alone.
pub uninterp spec fn json_array_string_fields_of(s: Seq<char>, field: Seq<char>) -> Option<
    Option<Seq<Seq<char>>>,
>;

/// Relies on serde_json: `from_str::<Value>` parses the document,
/// `Value::as_array` accepts only the array variant, and per element
/// `Value::get` and `Value::as_str` read the string under `field`, in
/// array order, so the result depends on the text alone. The error text
/// is serde_json's parse message.
#[verifier::external_body]
fn json_array_string_fields(s: &str, field: &str) -> (r: Result<Option<Vec<String>>, String>)
    ensures
        match json_array_string_fields_of(s@, field@) {
            None => r matches Err(_),
            Some(None) => r matches Ok(v) && v is None,
            Some(Some(vals)) => r matches Ok(v) && v matches Some(vs) && vs.deep_view() == vals,
        },
{
    let value: serde_json::Value = match serde_json::from_str(s) {
        Ok(v) => v,
        Err(e) => return Err(e.to_string()),
    };
    let items = match value.as_array() {
        Some(a) => a,
        None => return Ok(None),
    };
    let names = items.iter().filter_map(|i| i.get(field)).filter_map(|n| n.as_str());
    Ok(Some(names.map(|t| t.to_string()).collect()))
}

/// What the npm check must return: the keys of the `dependencies`
/// object of the JSON listing, without `npm` itself.
pub open spec fn spec_npm_post(outcome: &RunOutcome, r: &Result<Vec<String>, String>) -> bool {
    match outcome {
        RunOutcome::SpawnFailed(e) => r matches Err(m) && m@ == "Failed to run npm: "@ + e@,
        RunOutcome::Ran(c) => if !c.success {
            if spec_is_command_missing(c.stderr@) {
                r matches Ok(v) && v.deep_view() == Seq::<Seq<char>>::empty()
            } else {
                r matches Err(m) && m@ == c.stderr@
            }
        } else {
            match json_object_field_keys_of(c.stdout@, "dependencies"@) {
                None => r matches Err(m) && spec_starts_with(
                    m@,
                    "Failed to parse npm output: "@,
                ),
                Some(None) => r matches Ok(v) && v.deep_view() == Seq::<Seq<char>>::empty(),
                Some(Some(ks)) => r matches Ok(v) && v.deep_view() == spec_dedup(
                    spec_exclude(ks, "npm"@),
                ),
            }
        },
    }
}

/// The installed npm global packages, from `npm list -g --depth=0
/// --json` output.
pub fn check_npm_installed(outcome: &RunOutcome) -> (r: Result<Vec<String>, String>)
    ensures
        spec_npm_post(outcome, &r),
{
    match outcome {
        RunOutcome::SpawnFailed(e) => Err(prefixed_error("Failed to run npm: ", e.as_str())),
        RunOutcome::Ran(c) => {
            if !c.success {
                if is_command_missing_error(c.stderr.as_str()) {
                    let v: Vec<String> = Vec::new();
                    assert(v.deep_view() =~= Seq::<Seq<char>>::empty());
                    Ok(v)
                } else {
                    Err(c.stderr.clone())
                }
            } else {
                match json_object_field_keys(c.stdout.as_str(), "dependencies") {
                    Err(e) => {
                        let m = prefixed_error("Failed to parse npm output: ", e.as_str());
                        proof {
                            assert(m@.subrange(0, "Failed to parse npm output: "@.len() as int)
                                =~= "Failed to parse npm output: "@);
                        }
                        Err(m)
                    },
                    Ok(None) => {
                        let v: Vec<String> = Vec::new();
                        assert(v.deep_view() =~= Seq::<Seq<char>>::empty());
                        Ok(v)
                    },
                    Ok(Some(keys)) => {
                        let kept = exclude_name(&keys, "npm");
                        Ok(dedup_keep_first(&kept))
                    },
                }
            }
        },
    }
}

/// What a pip-style check must return: the `name` strings of the JSON
/// array's elements, with `excluded` (bootstrap packages) removed.
pub open spec fn spec_pip_style_post(
    outcome: &RunOutcome,
    run_prefix: Seq<char>,
    parse_prefix: Seq<char>,
    excluded: Seq<Seq<char>>,
    r: &Result<Vec<String>, String>,
) -> bool {
    match outcome {
        RunOutcome::SpawnFailed(e) => r matches Err(m) && m@ == run_prefix + e@,
        RunOutcome::Ran(c) => if !c.success {
            if spec_is_command_missing(c.stderr@) {
                r matches Ok(v) && v.deep_view() == Seq::<Seq<char>>::empty()
            } else {
                r matches Err(m) && m@ == c.stderr@
            }
        } else {
            match json_array_string_fields_of(c.stdout@, "name"@) {
                None => r matches Err(m) && spec_starts_with(m@, parse_prefix),
                Some(None) => r matches Ok(v) && v.deep_view() == Seq::<Seq<char>>::empty(),
                Some(Some(vals)) => r matches Ok(v) && v.deep_view() == spec_dedup(
                    spec_exclude_all(vals, excluded),
                ),
            }
        },
    }
}

/// `names` with every occurrence of any element of `xs` removed.
pub open spec fn spec_exclude_all(names: Seq<Seq<char>>, xs: Seq<Seq<char>>) -> Seq<Seq<char>>
    decreases xs.len(),
{
    if xs.len() == 0 {
        names
    } else {
        spec_exclude_all(spec_exclude(names, xs.first()), xs.drop_first())
    }
}

/// The installed pip packages, from `pip list --format=json` output.
pub fn check_pip_installed(outcome: &RunOutcome) -> (r: Result<Vec<String>, String>)
    ensures
        spec_pip_style_post(
            outcome,
            "Failed to run pip: "@,
            "Failed to parse pip output: "@,
            Seq::empty(),
            &r,
        ),
{
    match outcome {
        RunOutcome::SpawnFailed(e) => Err(prefixed_error("Failed to run pip: ", e.as_str())),
        RunOutcome::Ran(c) => {
            if !c.success {
                if is_command_missing_error(c.stderr.as_str()) {
                    let v: Vec<String> = Vec::new();
                    assert(v.deep_view() =~= Seq::<Seq<char>>::empty());
                    Ok(v)
                } else {
                    Err(c.stderr.clone())
                }
            } else {
                match json_array_string_fields(c.stdout.as_str(), "name") {
                    Err(e) => {
                        let m = prefixed_error("Failed to parse pip output: ", e.as_str());
                        proof {
                            assert(m@.subrange(0, "Failed to parse pip output: "@.len() as int)
                                =~= "Failed to parse pip output: "@);
                        }
                        Err(m)
                    },
                    Ok(None) => {
                        let v: Vec<String> = Vec::new();
                        assert(v.deep_view() =~= Seq::<Seq<char>>::empty());
                        Ok(v)
                    },
                    Ok(Some(vals)) => {
                        proof {
                            assert(spec_exclude_all(vals.deep_view(), Seq::empty())
                                == vals.deep_view());
                        }
                        Ok(dedup_keep_first(&vals))
                    },
                }
            }
        },
    }
}

/// The installed uv packages, from `uv pip list --format=json` output;
/// the bootstrap packages `pip` and `setuptools` are not counted.
pub fn check_uv_installed(outcome: &RunOutcome) -> (r: Result<Vec<String>, String>)
    ensures
        spec_pip_style_post(
            outcome,
            "Failed to run uv: "@,
            "Failed to parse uv output: "@,
            seq!["pip"@, "setuptools"@],
            &r,
        ),
{
    match outcome {
        RunOutcome::SpawnFailed(e) => Err(prefixed_error("Failed to run uv: ", e.as_str())),
        RunOutcome::Ran(c) => {
            if !c.success {
                if is_command_missing_error(c.stderr.as_str()) {
                    let v: Vec<String> = Vec::new();
                    assert(v.deep_view() =~= Seq::<Seq<char>>::empty());
                    Ok(v)
                } else {
                    Err(c.stderr.clone())
                }
            } else {
                match json_array_string_fields(c.stdout.as_str(), "name") {
                    Err(e) => {
                        let m = prefixed_error("Failed to parse uv output: ", e.as_str());
                        proof {
                            assert(m@.subrange(0, "Failed to parse uv output: "@.len() as int)
                                =~= "Failed to parse uv output: "@);
                        }
                        Err(m)
                    },
                    Ok(None) => {
                        let v: Vec<String> = Vec::new();
                        assert(v.deep_view() =~= Seq::<Seq<char>>::empty());
                        Ok(v)
                    },
                    Ok(Some(vals)) => {
                        let no_pip = exclude_name(&vals, "pip");
                        let kept = exclude_name(&no_pip, "setuptools");
                        proof {
                            let xs = seq!["pip"@, "setuptools"@];
                            let ys = xs.drop_first();
                            assert(xs.first() == "pip"@);
                            assert(ys.first() == "setuptools"@);
                            assert(no_pip.deep_view() == spec_exclude(vals.deep_view(), "pip"@));
                            assert(kept.deep_view() == spec_exclude(
                                no_pip.deep_view(),
                                "setuptools"@,
                            ));
                            assert(spec_exclude_all(vals.deep_view(), xs) == spec_exclude_all(
                                no_pip.deep_view(),
                                ys,
                            ));
                            assert(spec_exclude_all(no_pip.deep_view(), ys) == spec_exclude_all(
                                kept.deep_view(),
                                ys.drop_first(),
                            ));
                            assert(ys.drop_first() =~= Seq::<Seq<char>>::empty());
                            assert(spec_exclude_all(kept.deep_view(), ys.drop_first())
                                == kept.deep_view());
                        }
                        Ok(dedup_keep_first(&kept))
                    },
                }
            }
        },
    }
}

/// What checking a manager's installed set must return, over the probe
/// observation the application hands in.
pub open spec fn spec_check_installed_post(
    manager: Seq<char>,
    input: &ProbeInput,
    r: &Result<Vec<String>, String>,
) -> bool {
    match spec_from_str(manager) {
        None => r matches Err(m) && m@ == "Unknown package manager: "@ + manager,
        Some(PackageManagerType::Go) => input matches ProbeInput::BinDir(entries) && r matches Ok(
            v,
        ) && v.deep_view() == spec_go_list(entries),
        Some(t) => input matches ProbeInput::Command(oc) && (match t {
            PackageManagerType::Brew => spec_lines_check_post(
                oc,
                "Failed to run brew: "@,
                match oc {
                    RunOutcome::Ran(c) => spec_plain_list(c.stdout@),
                    _ => Seq::empty(),
                },
                r,
            ),
            PackageManagerType::BrewCask => spec_lines_check_post(
                oc,
                "Failed to run brew: "@,
                match oc {
                    RunOutcome::Ran(c) => spec_plain_list(c.stdout@),
                    _ => Seq::empty(),
                },
                r,
            ),
            PackageManagerType::Npm => spec_npm_post(oc, r),
            PackageManagerType::Pnpm => spec_lines_check_post(
                oc,
                "Failed to run pnpm: "@,
                match oc {
                    RunOutcome::Ran(c) => spec_pnpm_list(c.stdout@),
                    _ => Seq::empty(),
                },
                r,
            ),
            PackageManagerType::Yarn => spec_lines_check_post(
                oc,
                "Failed to run yarn: "@,
                match oc {
                    RunOutcome::Ran(c) => spec_yarn_list(c.stdout@),
                    _ => Seq::empty(),
                },
                r,
            ),
            PackageManagerType::Bun => spec_lines_check_post(
                oc,
                "Failed to run bun: "@,
                match oc {
                    RunOutcome::Ran(c) => spec_bun_list(c.stdout@),
                    _ => Seq::empty(),
                },
                r,
            ),
            PackageManagerType::Cargo => spec_lines_check_post(
                oc,
                "Failed to run cargo: "@,
                match oc {
                    RunOutcome::Ran(c) => spec_cargo_list(c.stdout@),
                    _ => Seq::empty(),
                },
                r,
            ),
            PackageManagerType::Pip => spec_pip_style_post(
                oc,
                "Failed to run pip: "@,
                "Failed to parse pip output: "@,
                Seq::empty(),
                r,
            ),
            PackageManagerType::Pipx => spec_lines_check_post(
                oc,
                "Failed to run pipx: "@,
                match oc {
                    RunOutcome::Ran(c) => spec_pipx_list(c.stdout@),
                    _ => Seq::empty(),
                },
                r,
            ),
            PackageManagerType::Luarocks => spec_lines_check_post(
                oc,
                "Failed to run luarocks: "@,
                match oc {
                    RunOutcome::Ran(c) => spec_luarocks_list(c.stdout@),
                    _ => Seq::empty(),
                },
                r,
            ),
            PackageManagerType::Uv => spec_pip_style_post(
                oc,
                "Failed to run uv: "@,
                "Failed to parse uv output: "@,
                seq!["pip"@, "setuptools"@],
                r,
            ),
            PackageManagerType::Go => false,
        }),
    }
}

/// Whether a probe observation is of the kind the manager's check reads:
/// a directory listing for go, a command outcome for every other
/// manager; any observation does for an unknown identifier.
pub open spec fn spec_probe_input_fits(manager: Seq<char>, input: &ProbeInput) -> bool {
    match spec_from_str(manager) {
        Some(PackageManagerType::Go) => input matches ProbeInput::BinDir(_),
        Some(_) => input matches ProbeInput::Command(_),
        None => true,
    }
}

/// Check the installed set of the manager named `manager` from the probe
/// observation the application took for it. An identifier outside the
/// supported set is an error.
pub fn check_installed_packages(manager: &str, input: &ProbeInput) -> (r: Result<
    Vec<String>,
    String,
>)
    requires
        spec_probe_input_fits(manager@, input),
    ensures
        spec_check_installed_post(manager@, input, &r),
{
    let mt = PackageManagerType::from_str(manager);
    match mt {
        None => Err(prefixed_error("Unknown package manager: ", manager)),
        Some(t) => match input {
            ProbeInput::Command(oc) => match t {
                PackageManagerType::Brew => check_brew_installed(oc),
                PackageManagerType::BrewCask => check_brew_cask_installed(oc),
                PackageManagerType::Npm => check_npm_installed(oc),
                PackageManagerType::Pnpm => check_pnpm_installed(oc),
                PackageManagerType::Yarn => check_yarn_installed(oc),
                PackageManagerType::Bun => check_bun_installed(oc),
                PackageManagerType::Cargo => check_cargo_installed(oc),
                PackageManagerType::Pip => check_pip_installed(oc),
                PackageManagerType::Pipx => check_pipx_installed(oc),
                PackageManagerType::Luarocks => check_luarocks_installed(oc),
                PackageManagerType::Uv => check_uv_installed(oc),
                PackageManagerType::Go => {
                    proof {
                        assert(false);
                    }
                    Err(String::new())
                },
            },
            ProbeInput::BinDir(entries) => match t {
                PackageManagerType::Go => check_go_installed(entries),
                _ => {
                    proof {
                        assert(false);
                    }
                    Err(String::new())
                },
            },
        },
    }
}

} // verus!
