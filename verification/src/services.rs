//! The reconciliation layer: per-manager status, aggregate status over
//! the closed manager set, install/remove diffs, and the script-run
//! decisions of the export flow.

use vstd::prelude::*;
use vstd::string::StringExecFns;
use crate::constants::{
    lemma_from_str_id, spec_all_managers, spec_display_name, spec_from_str, spec_id,
    PackageManagerType,
};
use crate::manifest::{
    read_package_list, read_packages, read_packages_with_source, package_file_exists,
    spec_file_names, spec_pair_names, spec_union_post,
};
use crate::models::{
    DiffResult, FileRead, Package, PackageManager, PathCandidate, RunOutcome,
};
use crate::probes::{is_command_missing_error, spec_is_command_missing};
use crate::text::vec_contains_str;

verus! {

/// The observations one aggregate-status step works from: the manager's
/// identifier, its two manifest files, and the result of checking its
/// installed set (served from the cache or computed by a probe).
pub struct StatusInput {
    pub manager: String,
    pub base: FileRead,
    pub local: FileRead,
    pub installed: Result<Vec<String>, String>,
}

/// The observations one diff step works from. `installed` is `None`
/// when the manager was not probed because its base manifest is absent.
pub struct DiffInput {
    pub manager: String,
    pub base: FileRead,
    pub local: FileRead,
    pub installed: Option<Result<Vec<String>, String>>,
}

/// Whether `decl` is the declared union of the two manifests (false
/// when either cannot be read).
pub open spec fn spec_declared_names_ok(
    base: &FileRead,
    local: &FileRead,
    decl: Seq<Seq<char>>,
) -> bool {
    match (spec_file_names(base), spec_file_names(local)) {
        (Ok(bn), Ok(ln)) => spec_union_post(bn, ln, decl),
        _ => false,
    }
}

/// How many of `decl` appear in `iset`.
pub open spec fn spec_count_in(decl: Seq<Seq<char>>, iset: Seq<Seq<char>>) -> int
    decreases decl.len(),
{
    if decl.len() == 0 {
        0
    } else {
        spec_count_in(decl.drop_last(), iset) + (if iset.contains(decl.last()) {
            1int
        } else {
            0int
        })
    }
}

/// Whether reading a manager's declared list fails: the base manifest
/// is absent, or either file exists but cannot be read.
pub open spec fn spec_read_fails(base: &FileRead, local: &FileRead) -> bool {
    match base {
        FileRead::Missing => true,
        FileRead::Unreadable(_) => true,
        FileRead::Content(_) => local matches FileRead::Unreadable(_),
    }
}

/// The installed set a status step counts against: the checked set, or
/// nothing when the check failed (a missing command and any other probe
/// failure both degrade to an empty set here).
pub open spec fn spec_installed_or_empty(installed: &Result<Vec<String>, String>) -> Seq<
    Seq<char>,
> {
    match installed {
        Ok(v) => v.deep_view(),
        Err(_) => Seq::empty(),
    }
}

/// What a present per-manager status must hold: the manager's name, the
/// declared count, how many declared names the installed set holds, and
/// an update count pinned at zero (update detection is a non-goal).
pub open spec fn spec_status_some_post(input: &StatusInput, pm: &PackageManager) -> bool {
    &&& pm.name@ == input.manager@
    &&& pm.updates_available == 0
    &&& exists|decl: Seq<Seq<char>>|
        {
            &&& #[trigger] spec_declared_names_ok(&input.base, &input.local, decl)
            &&& pm.total == decl.len()
            &&& pm.installed == spec_count_in(decl, spec_installed_or_empty(&input.installed))
        }
}

/// What the aggregate status list must be: one entry per manager whose
/// declared list is readable, in manager order, each meeting
/// [`spec_status_some_post`]; unreadable managers are dropped, never an
/// error.
pub open spec fn spec_statuses_post(inputs: Seq<StatusInput>, v: Seq<PackageManager>) -> bool
    decreases inputs.len(),
{
    if inputs.len() == 0 {
        v.len() == 0
    } else {
        let rest = inputs.drop_last();
        if spec_read_fails(&inputs.last().base, &inputs.last().local) {
            spec_statuses_post(rest, v)
        } else {
            &&& v.len() > 0
            &&& spec_status_some_post(&inputs.last(), &v.last())
            &&& spec_statuses_post(rest, v.drop_last())
        }
    }
}

/// Computes per-manager and aggregate status.
pub struct ManagerService;

impl ManagerService {
    /// The status of one manager: `None` when its declared list cannot
    /// be read (the manager is untracked), and the declared/installed
    /// counts otherwise. A failed installed-set check counts as zero
    /// installed.
    pub fn get_status(input: &StatusInput) -> (r: Option<PackageManager>)
        ensures
            (r is None) == spec_read_fails(&input.base, &input.local),
            r matches Some(pm) ==> spec_status_some_post(input, &pm),
    {
        let declared = match read_packages(input.manager.as_str(), &input.base, &input.local) {
            Ok(v) => v,
            Err(_) => {
                return None;
            },
        };
        let empty: Vec<String> = Vec::new();
        let iset: &Vec<String> = match &input.installed {
            Ok(v) => v,
            Err(_) => &empty,
        };
        proof {
            assert(iset.deep_view() =~= spec_installed_or_empty(&input.installed));
        }
        let n = declared.len();
        let mut count: usize = 0;
        let mut i: usize = 0;
        while i < n
            invariant
                n == declared.len(),
                i <= n,
                count <= i,
                count == spec_count_in(declared.deep_view().take(i as int), iset.deep_view()),
            decreases n - i,
        {
            proof {
                assert(declared.deep_view()[i as int] == declared@[i as int]@);
                assert(declared.deep_view().take(i + 1).drop_last() =~= declared.deep_view().take(
                    i as int,
                ));
                assert(declared.deep_view().take(i + 1).last() == declared.deep_view()[i as int]);
            }
            if vec_contains_str(iset, declared[i].as_str()) {
                count += 1;
            }
            i += 1;
        }
        proof {
            assert(declared.deep_view().take(n as int) =~= declared.deep_view());
        }
        let pm = PackageManager {
            name: input.manager.clone(),
            total: declared.len(),
            installed: count,
            updates_available: 0,
        };
        proof {
            assert(spec_declared_names_ok(&input.base, &input.local, declared.deep_view()));
        }
        Some(pm)
    }

    /// The status of every supported manager, one observation per
    /// manager in the closed set's order. Never fails as a whole: a
    /// manager whose declared list cannot be read is dropped.
    pub fn get_all_status(inputs: &Vec<StatusInput>) -> (r: Result<Vec<PackageManager>, String>)
        requires
            inputs@.len() == spec_all_managers().len(),
            forall|i: int|
                0 <= i < inputs@.len() ==> (#[trigger] inputs@[i].manager)@ == spec_id(
                    spec_all_managers()[i],
                ),
        ensures
            r matches Ok(v) && spec_statuses_post(inputs@, v@),
    {
        let n = inputs.len();
        let mut out: Vec<PackageManager> = Vec::new();
        let mut i: usize = 0;
        while i < n
            invariant
                n == inputs@.len(),
                i <= n,
                spec_statuses_post(inputs@.take(i as int), out@),
            decreases n - i,
        {
            proof {
                assert(inputs@.take(i + 1).drop_last() =~= inputs@.take(i as int));
                assert(inputs@.take(i + 1).last() == inputs@[i as int]);
            }
            match Self::get_status(&inputs[i]) {
                Some(pm) => {
                    let ghost old_out = out@;
                    out.push(pm);
                    proof {
                        assert(out@.drop_last() =~= old_out);
                    }
                },
                None => {},
            }
            i += 1;
        }
        proof {
            assert(inputs@.take(n as int) =~= inputs@);
        }
        Ok(out)
    }
}

/// The cache key one manager's installed set is stored under.
pub open spec fn spec_cache_key(manager: Seq<char>) -> Seq<char> {
    "installed_"@ + manager
}

/// The cache key for one manager's installed set.
pub fn cache_key(manager: &str) -> (r: String)
    ensures
        r@ == spec_cache_key(manager@),
{
    let mut s = "installed_".to_owned();
    s.append(manager);
    s
}

/// Look one manager's installed set up in the cache; nothing comes back
/// once the stored entry has outlived the TTL, and the probe must then
/// be run afresh.
pub fn lookup_installed(
    cache: &crate::cache::PackageCache<Vec<String>>,
    manager: &str,
    now_ms: u64,
) -> (r: Option<Vec<String>>)
    requires
        cache.wf(),
    ensures
        match crate::cache::spec_cache_lookup(
            cache.entries(),
            spec_cache_key(manager@),
            now_ms,
            cache.ttl(),
        ) {
            Some(v) => r matches Some(x) && x.deep_view() == v.deep_view(),
            None => r is None,
        },
{
    let key = cache_key(manager);
    let r = cache.get(key.as_str(), now_ms);
    proof {
        match crate::cache::spec_cache_lookup(
            cache.entries(),
            spec_cache_key(manager@),
            now_ms,
            cache.ttl(),
        ) {
            Some(v) => {
                broadcast use vstd::std_specs::vec::vec_clone_deep_view_proof;

                let x = r->Some_0;
                assert(vstd::pervasive::cloned(v, x));
                assert(v.deep_view() =~= x.deep_view()) by {
                    assert(forall|i: int|
                        0 <= i < v@.len() ==> vstd::pervasive::cloned::<String>(
                            #[trigger] v@[i],
                            x@[i],
                        ) || v@[i] == x@[i]);
                    assert(forall|i: int| 0 <= i < v@.len() ==> (#[trigger] v@[i])@ == x@[i]@);
                }
            },
            None => {},
        }
    }
    r
}

/// Record a freshly probed installed set in the cache, restarting that
/// manager's expiry clock.
pub fn store_installed(
    cache: &mut crate::cache::PackageCache<Vec<String>>,
    manager: &str,
    set: &Vec<String>,
    now_ms: u64,
)
    requires
        old(cache).wf(),
    ensures
        final(cache).wf(),
        final(cache).ttl() == old(cache).ttl(),
        final(cache).entries().contains_key(spec_cache_key(manager@)),
        final(cache).entries()[spec_cache_key(manager@)].0.deep_view() == set.deep_view(),
        final(cache).entries()[spec_cache_key(manager@)].1 == now_ms,
        forall|k: Seq<char>|
            k != spec_cache_key(manager@) ==> (#[trigger] final(cache).entries().contains_key(k))
                == old(cache).entries().contains_key(k) && (old(cache).entries().contains_key(k)
                ==> final(cache).entries()[k] == old(cache).entries()[k]),
{
    let key = cache_key(manager);
    let copy = set.clone();
    proof {
        assert(copy.deep_view() =~= set.deep_view()) by {
            assert(forall|i: int| 0 <= i < set@.len() ==> (#[trigger] set@[i])@ == copy@[i]@);
        }
    }
    cache.set(key, copy, now_ms);
}

/// The elements of `a` that do not occur in `b`, in order.
pub open spec fn spec_seq_diff(a: Seq<Seq<char>>, b: Seq<Seq<char>>) -> Seq<Seq<char>>
    decreases a.len(),
{
    if a.len() == 0 {
        Seq::empty()
    } else {
        let front = spec_seq_diff(a.drop_last(), b);
        if b.contains(a.last()) {
            front
        } else {
            front.push(a.last())
        }
    }
}

/// The elements of `a` not contained in `b`.
pub fn diff_names(a: &Vec<String>, b: &Vec<String>) -> (r: Vec<String>)
    ensures
        r.deep_view() =~= spec_seq_diff(a.deep_view(), b.deep_view()),
{
    let n = a.len();
    let mut out: Vec<String> = Vec::new();
    let mut i: usize = 0;
    proof {
        assert(a.deep_view().take(0) =~= Seq::<Seq<char>>::empty());
    }
    while i < n
        invariant
            n == a.len(),
            i <= n,
            out.deep_view() =~= spec_seq_diff(a.deep_view().take(i as int), b.deep_view()),
        decreases n - i,
    {
        proof {
            assert(a.deep_view()[i as int] == a@[i as int]@);
            assert(a.deep_view().take(i + 1).drop_last() =~= a.deep_view().take(i as int));
            assert(a.deep_view().take(i + 1).last() == a.deep_view()[i as int]);
        }
        if !vec_contains_str(b, a[i].as_str()) {
            let ghost old_out = out.deep_view();
            out.push(a[i].clone());
            proof {
                assert(out.deep_view() =~= old_out.push(a.deep_view()[i as int]));
            }
        }
        i += 1;
    }
    proof {
        assert(a.deep_view().take(n as int) =~= a.deep_view());
    }
    out
}

/// The installed set a diff step subtracts: the checked set when the
/// probe ran and succeeded, and nothing otherwise (best-effort: a
/// failed probe still leaves the declared names visible as to-install).
pub open spec fn spec_diff_installed(installed: &Option<Result<Vec<String>, String>>) -> Seq<
    Seq<char>,
> {
    match installed {
        Some(Ok(v)) => v.deep_view(),
        _ => Seq::empty(),
    }
}

/// What one manager's diff must hold: its identifier and display name,
/// `to_install` the declared names not installed, `to_remove` the
/// installed names not declared.
pub open spec fn spec_diff_entry_post(input: &DiffInput, d: &DiffResult) -> bool {
    &&& d.name@ == input.manager@
    &&& (match spec_from_str(input.manager@) {
        Some(t) => d.display_name@ == spec_display_name(t),
        None => false,
    })
    &&& exists|decl: Seq<Seq<char>>|
        {
            &&& #[trigger] spec_declared_names_ok(&input.base, &input.local, decl)
            &&& d.to_install.deep_view() == spec_seq_diff(
                decl,
                spec_diff_installed(&input.installed),
            )
            &&& d.to_remove.deep_view() == spec_seq_diff(
                spec_diff_installed(&input.installed),
                decl,
            )
        }
}

/// What the aggregate diff list must be: one entry per manager whose
/// declared list is readable, in manager order; unreadable managers are
/// skipped, never an error.
pub open spec fn spec_diffs_post(inputs: Seq<DiffInput>, v: Seq<DiffResult>) -> bool
    decreases inputs.len(),
{
    if inputs.len() == 0 {
        v.len() == 0
    } else {
        let rest = inputs.drop_last();
        if spec_read_fails(&inputs.last().base, &inputs.last().local) {
            spec_diffs_post(rest, v)
        } else {
            &&& v.len() > 0
            &&& spec_diff_entry_post(&inputs.last(), &v.last())
            &&& spec_diffs_post(rest, v.drop_last())
        }
    }
}

/// Computes declared package lists and diffs.
pub struct PackageService;

impl PackageService {
    /// The declared packages of one manager, each marked with whether it
    /// is installed. `installed` is what checking the installed set
    /// produced (from the cache or a fresh probe); a missing command
    /// degrades to nothing installed, any other check failure is an
    /// error.
    pub fn get_packages(
        manager: &str,
        base: &FileRead,
        local: &FileRead,
        installed: &Result<Vec<String>, String>,
    ) -> (r: Result<Vec<Package>, String>)
        ensures
            match base {
                FileRead::Missing => r matches Err(e) && e@
                    == "Package file not found for manager: "@ + manager@,
                FileRead::Unreadable(m) => r matches Err(e) && e@ == m@,
                FileRead::Content(_) => match spec_file_names(local) {
                    Err(m) => r matches Err(e) && e@ == m,
                    Ok(ln) => match installed {
                        Err(err) => if spec_is_command_missing(err@) {
                            r matches Ok(v) && (spec_file_names(base) matches Ok(bn)
                                && spec_packages_entries_post(manager@, bn, ln, Seq::empty(), v@))
                        } else {
                            r matches Err(e) && e@ == "Failed to check installed packages for "@
                                + manager@ + ": "@ + err@
                        },
                        Ok(iv) => r matches Ok(v) && (spec_file_names(base) matches Ok(bn)
                            && spec_packages_entries_post(manager@, bn, ln, iv.deep_view(), v@)),
                    },
                },
            },
    {
        let pairs = match read_packages_with_source(manager, base, local) {
            Ok(p) => p,
            Err(e) => {
                return Err(e);
            },
        };
        let empty: Vec<String> = Vec::new();
        let iset: &Vec<String> = match installed {
            Ok(v) => v,
            Err(e) => {
                if is_command_missing_error(e.as_str()) {
                    &empty
                } else {
                    let mut m = "Failed to check installed packages for ".to_owned();
                    m.append(manager);
                    m.append(": ");
                    m.append(e.as_str());
                    return Err(m);
                }
            },
        };
        let n = pairs.len();
        let mut out: Vec<Package> = Vec::new();
        let mut i: usize = 0;
        while i < n
            invariant
                n == pairs@.len(),
                i <= n,
                out@.len() == i,
                forall|k: int|
                    0 <= k < i ==> (#[trigger] out@[k]).name@ == pairs@[k].0@ && out@[k].manager@
                        == manager@ && out@[k].installed == iset.deep_view().contains(
                        pairs@[k].0@,
                    ) && out@[k].version is None && out@[k].is_local == pairs@[k].1,
            decreases n - i,
        {
            let installed_flag = vec_contains_str(iset, pairs[i].0.as_str());
            out.push(
                Package {
                    name: pairs[i].0.clone(),
                    manager: manager.to_owned(),
                    installed: installed_flag,
                    version: None,
                    is_local: pairs[i].1,
                },
            );
            i += 1;
        }
        proof {
            assert(out@.map_values(|p: Package| p.name@) =~= spec_pair_names(pairs@));
        }
        Ok(out)
    }

    /// The install/remove diff of every supported manager, one
    /// observation per manager in the closed set's order. Never fails
    /// as a whole; a failed probe leaves that manager's declared names
    /// as to-install.
    pub fn get_diff(inputs: &Vec<DiffInput>) -> (r: Result<Vec<DiffResult>, String>)
        requires
            inputs@.len() == spec_all_managers().len(),
            forall|i: int|
                0 <= i < inputs@.len() ==> (#[trigger] inputs@[i].manager)@ == spec_id(
                    spec_all_managers()[i],
                ),
        ensures
            r matches Ok(v) && spec_diffs_post(inputs@, v@),
    {
        let n = inputs.len();
        let mut out: Vec<DiffResult> = Vec::new();
        let mut i: usize = 0;
        while i < n
            invariant
                n == inputs@.len(),
                i <= n,
                forall|k: int|
                    0 <= k < n ==> (#[trigger] inputs@[k].manager)@ == spec_id(
                        spec_all_managers()[k],
                    ),
                spec_diffs_post(inputs@.take(i as int), out@),
            decreases n - i,
        {
            proof {
                assert(inputs@.take(i + 1).drop_last() =~= inputs@.take(i as int));
                assert(inputs@.take(i + 1).last() == inputs@[i as int]);
            }
            let input = &inputs[i];
            if !package_file_exists(&input.base) {
                i += 1;
                continue ;
            }
            let names = match read_package_list(&input.base, &input.local) {
                Ok(v) => v,
                Err(_) => {
                    i += 1;
                    continue ;
                },
            };
            let empty: Vec<String> = Vec::new();
            let iset: &Vec<String> = match &input.installed {
                Some(Ok(v)) => v,
                _ => &empty,
            };
            proof {
                assert(iset.deep_view() =~= spec_diff_installed(&input.installed));
            }
            let display = match PackageManagerType::from_str(input.manager.as_str()) {
                Some(t) => t.display_name(),
                None => {
                    proof {
                        lemma_from_str_id(spec_all_managers()[i as int]);
                        assert(false);
                    }
                    ""
                },
            };
            let to_install = diff_names(&names, iset);
            let to_remove = diff_names(iset, &names);
            let d = DiffResult {
                name: input.manager.clone(),
                display_name: display.to_owned(),
                to_install,
                to_remove,
            };
            let ghost old_out = out@;
            out.push(d);
            proof {
                lemma_from_str_id(spec_all_managers()[i as int]);
                assert(out@.drop_last() =~= old_out);
                assert(spec_declared_names_ok(&input.base, &input.local, names.deep_view()));
            }
            i += 1;
        }
        proof {
            assert(inputs@.take(n as int) =~= inputs@);
        }
        Ok(out)
    }
}

/// What the declared list with installed marks must be, entry by entry.
pub open spec fn spec_packages_entries_post(
    manager: Seq<char>,
    bn: Seq<Seq<char>>,
    ln: Seq<Seq<char>>,
    iset: Seq<Seq<char>>,
    v: Seq<Package>,
) -> bool {
    &&& spec_union_post(bn, ln, v.map_values(|p: Package| p.name@))
    &&& forall|i: int|
        0 <= i < v.len() ==> {
            &&& (#[trigger] v[i]).manager@ == manager
            &&& v[i].installed == iset.contains(v[i].name@)
            &&& v[i].version is None
            &&& v[i].is_local == ln.contains(v[i].name@)
        }
}

/// What running a maintenance script must yield: an error when the
/// script is absent or could not be started, its stdout when it
/// succeeded, and its stderr as the error otherwise.
pub open spec fn spec_script_result(
    script: &PathCandidate,
    run: &Option<RunOutcome>,
    r: &Result<String, String>,
) -> bool {
    if !script.exists {
        r matches Err(m) && m@ == "Script not found: "@ + script.path@
    } else {
        match run {
            Some(RunOutcome::SpawnFailed(e)) => r matches Err(m) && m@
                == "Failed to execute script: "@ + e@,
            Some(RunOutcome::Ran(c)) => if c.success {
                r matches Ok(o) && o@ == c.stdout@
            } else {
                r matches Err(m) && m@ == c.stderr@
            },
            None => false,
        }
    }
}

fn run_script(script: &PathCandidate, run: &Option<RunOutcome>) -> (r: Result<String, String>)
    requires
        script.exists ==> run is Some,
    ensures
        spec_script_result(script, run, &r),
{
    if !script.exists {
        let mut m = "Script not found: ".to_owned();
        m.append(script.path.as_str());
        return Err(m);
    }
    match run {
        Some(RunOutcome::SpawnFailed(e)) => {
            let mut m = "Failed to execute script: ".to_owned();
            m.append(e.as_str());
            Err(m)
        },
        Some(RunOutcome::Ran(c)) => {
            if c.success {
                Ok(c.stdout.clone())
            } else {
                Err(c.stderr.clone())
            }
        },
        None => {
            proof {
                assert(false);
            }
            Err(String::new())
        },
    }
}

/// Decides the outcomes of the export and init flows from how their
/// scripts ran; launching the scripts is the application's work.
pub struct ExportService;

impl ExportService {
    /// The outcome of the export script's run.
    pub fn export_packages(script: &PathCandidate, run: &Option<RunOutcome>) -> (r: Result<
        String,
        String,
    >)
        requires
            script.exists ==> run is Some,
        ensures
            spec_script_result(script, run, &r),
    {
        run_script(script, run)
    }

    /// The outcome of the local-initialisation script's run.
    pub fn init_local(script: &PathCandidate, run: &Option<RunOutcome>) -> (r: Result<
        String,
        String,
    >)
        requires
            script.exists ==> run is Some,
        ensures
            spec_script_result(script, run, &r),
    {
        run_script(script, run)
    }

    /// Whether the scripts directory and both maintenance scripts exist;
    /// the first missing one is reported.
    pub fn verify_environment(
        scripts_dir: &PathCandidate,
        package_sync: &PathCandidate,
        export_script: &PathCandidate,
    ) -> (r: Result<(), String>)
        ensures
            match r {
                Ok(_) => scripts_dir.exists && package_sync.exists && export_script.exists,
                Err(m) => if !scripts_dir.exists {
                    m@ == "Scripts directory not found: "@ + scripts_dir.path@
                } else if !package_sync.exists {
                    m@ == "package-sync.sh not found: "@ + package_sync.path@
                } else {
                    !export_script.exists && m@ == "export-packages.sh not found: "@
                        + export_script.path@
                },
            },
    {
        if !scripts_dir.exists {
            let mut m = "Scripts directory not found: ".to_owned();
            m.append(scripts_dir.path.as_str());
            return Err(m);
        }
        if !package_sync.exists {
            let mut m = "package-sync.sh not found: ".to_owned();
            m.append(package_sync.path.as_str());
            return Err(m);
        }
        if !export_script.exists {
            let mut m = "export-packages.sh not found: ".to_owned();
            m.append(export_script.path.as_str());
            return Err(m);
        }
        Ok(())
    }
}

} // verus!
