//! Reading declared package lists: parse a manifest's lines, merge the
//! base file with its local-override companion, and produce a sorted,
//! duplicate-free declared list.

use vstd::prelude::*;
use vstd::string::StringExecFns;
use crate::models::FileRead;
use crate::text::{
    spec_lines, spec_trim, spec_dedup, spec_lex_le, split_lines, trim, dedup_keep_first,
    vec_contains_str, str_le, str_eq, lemma_lex_refl, lemma_lex_total, lemma_lex_trans,
};

verus! {

/// The package names a manifest's lines declare: each line trimmed,
/// dropping empty lines and comment lines (first character `#`).
pub open spec fn spec_manifest_entries(lines: Seq<Seq<char>>) -> Seq<Seq<char>>
    decreases lines.len(),
{
    if lines.len() == 0 {
        Seq::empty()
    } else {
        let front = spec_manifest_entries(lines.drop_last());
        let t = spec_trim(lines.last());
        if t.len() > 0 && t[0] != '#' {
            front.push(t)
        } else {
            front
        }
    }
}

/// The distinct package names a manifest's content declares, in first
/// appearance order.
pub open spec fn spec_manifest_names(content: Seq<char>) -> Seq<Seq<char>> {
    spec_dedup(spec_manifest_entries(spec_lines(content)))
}

/// The names one manifest file contributes: an absent file contributes
/// nothing, an unreadable one is an error carrying its message.
pub open spec fn spec_file_names(f: &FileRead) -> Result<Seq<Seq<char>>, Seq<char>> {
    match f {
        FileRead::Missing => Ok(Seq::empty()),
        FileRead::Content(c) => Ok(spec_manifest_names(c@)),
        FileRead::Unreadable(e) => Err(e@),
    }
}

/// Strictly ascending in lexicographic order: sorted, with no element
/// repeated.
pub open spec fn spec_strict_sorted(s: Seq<Seq<char>>) -> bool {
    forall|i: int, j: int|
        0 <= i < j < s.len() ==> spec_lex_le(#[trigger] s[i], #[trigger] s[j]) && s[i] != s[j]
}

/// What the merged declared list of a base and a local manifest must be:
/// strictly sorted, holding exactly the union of both names.
pub open spec fn spec_union_post(
    bn: Seq<Seq<char>>,
    ln: Seq<Seq<char>>,
    r: Seq<Seq<char>>,
) -> bool {
    &&& spec_strict_sorted(r)
    &&& forall|n: Seq<char>| #[trigger] r.contains(n) <==> bn.contains(n) || ln.contains(n)
}

/// Parse one manifest's content into its distinct declared names, in
/// first appearance order.
pub fn parse_package_lines(content: &str) -> (r: Vec<String>)
    ensures
        r.deep_view() =~= spec_manifest_names(content@),
{
    let lines = split_lines(content);
    let n = lines.len();
    let mut raw: Vec<String> = Vec::new();
    let mut i: usize = 0;
    proof {
        assert(lines.deep_view().take(0) =~= Seq::<Seq<char>>::empty());
    }
    while i < n
        invariant
            n == lines.len(),
            i <= n,
            lines.deep_view() =~= spec_lines(content@),
            raw.deep_view() =~= spec_manifest_entries(lines.deep_view().take(i as int)),
        decreases n - i,
    {
        proof {
            assert(lines.deep_view()[i as int] == lines@[i as int]@);
            assert(lines.deep_view().take(i + 1).drop_last() =~= lines.deep_view().take(i as int));
            assert(lines.deep_view().take(i + 1).last() == lines.deep_view()[i as int]);
        }
        let t = trim(lines[i].as_str());
        let tn = t.as_str().unicode_len();
        if tn > 0 && t.as_str().get_char(0) != '#' {
            let ghost old_raw = raw.deep_view();
            raw.push(t);
            proof {
                assert(raw.deep_view() =~= old_raw.push(
                    spec_trim(lines.deep_view()[i as int]),
                ));
            }
        }
        i += 1;
    }
    proof {
        assert(lines.deep_view().take(n as int) =~= lines.deep_view());
    }
    dedup_keep_first(&raw)
}

/// The names one manifest file contributes; see [`spec_file_names`].
pub fn file_names(f: &FileRead) -> (r: Result<Vec<String>, String>)
    ensures
        match r {
            Ok(v) => spec_file_names(f) matches Ok(s) && v.deep_view() =~= s,
            Err(e) => spec_file_names(f) matches Err(m) && e@ == m,
        },
{
    match f {
        FileRead::Missing => {
            let v: Vec<String> = Vec::new();
            assert(v.deep_view() =~= Seq::<Seq<char>>::empty());
            Ok(v)
        },
        FileRead::Content(c) => Ok(parse_package_lines(c.as_str())),
        FileRead::Unreadable(e) => Err(e.clone()),
    }
}

/// Insert `x` into the strictly sorted `v`, keeping it strictly sorted;
/// a name already present is left alone.
fn insert_sorted_unique(v: &mut Vec<String>, x: &str)
    requires
        spec_strict_sorted(old(v).deep_view()),
    ensures
        spec_strict_sorted(final(v).deep_view()),
        forall|n: Seq<char>| #[trigger]
            final(v).deep_view().contains(n) <==> old(v).deep_view().contains(n) || n == x@,
{
    let n = v.len();
    let mut j: usize = 0;
    while j < n && str_le(v[j].as_str(), x) && !str_eq(v[j].as_str(), x)
        invariant
            n == v.len(),
            j <= n,
            spec_strict_sorted(v.deep_view()),
            forall|k: int|
                0 <= k < j ==> spec_lex_le(#[trigger] v.deep_view()[k], x@) && v.deep_view()[k]
                    != x@,
        decreases n - j,
    {
        proof {
            assert(v.deep_view()[j as int] == v@[j as int]@);
        }
        j += 1;
    }
    proof {
        assert(forall|k: int| 0 <= k < v.deep_view().len() ==> v.deep_view()[k] == v@[k]@);
    }
    if j < n {
        if str_eq(v[j].as_str(), x) {
            assert(v.deep_view().contains(x@)) by {
                assert(v.deep_view()[j as int] == x@);
            }
            return ;
        }
    }
    let ghost old_view = v.deep_view();
    // Here everything before j is strictly below x, and if j < n then
    // v[j] is not below x and differs from it, so x goes exactly at j.
    proof {
        if j < n {
            assert(!(spec_lex_le(old_view[j as int], x@) && old_view[j as int] != x@));
            assert(old_view[j as int] != x@);
            lemma_lex_total(old_view[j as int], x@);
            assert(spec_lex_le(x@, old_view[j as int]));
        }
    }
    v.insert(j, x.to_owned());
    proof {
        let new_view = v.deep_view();
        assert(new_view.len() == old_view.len() + 1);
        assert(new_view[j as int] == x@);
        assert(forall|k: int| 0 <= k < j ==> new_view[k] == old_view[k]);
        assert(forall|k: int| j < k < new_view.len() ==> new_view[k] == old_view[k - 1]);
        assert forall|a: int, b: int|
            0 <= a < b < new_view.len() implies spec_lex_le(new_view[a], new_view[b])
            && new_view[a] != new_view[b] by {
            if a < j && b == j {
                // below x, and distinct from it
            } else if a == j && b > j {
                // x is below the old element at j, which is below all later ones
                if b > j + 1 {
                    assert(spec_lex_le(old_view[j as int], old_view[b - 1]));
                    lemma_lex_trans(x@, old_view[j as int], old_view[b - 1]);
                    if x@ == old_view[b - 1] {
                        lemma_lex_refl(x@);
                        assert(spec_lex_le(old_view[b - 1], x@));
                        assert(spec_lex_le(old_view[j as int], x@));
                    }
                }
            } else if a < j && b > j {
                assert(spec_lex_le(new_view[a], x@));
                if b - 1 > j {
                    assert(spec_lex_le(old_view[j as int], old_view[b - 1]));
                    lemma_lex_trans(x@, old_view[j as int], old_view[b - 1]);
                }
                assert(spec_lex_le(x@, old_view[b - 1]));
                lemma_lex_trans(new_view[a], x@, old_view[b - 1]);
                if new_view[a] == old_view[b - 1] {
                    lemma_lex_refl(x@);
                    assert(spec_lex_le(old_view[b - 1], x@));
                    lemma_lex_trans(old_view[b - 1], x@, old_view[b - 1]);
                    assert(spec_lex_le(new_view[a], x@) && new_view[a] != x@);
                    lemma_lex_total(x@, new_view[a]);
                }
            }
        }
        assert forall|m: Seq<char>| #[trigger]
            new_view.contains(m) <==> old_view.contains(m) || m == x@ by {
            if new_view.contains(m) {
                let k = choose|k: int| 0 <= k < new_view.len() && new_view[k] == m;
                if k < j {
                    assert(old_view[k] == m);
                } else if k > j {
                    assert(old_view[k - 1] == m);
                }
            }
            if old_view.contains(m) {
                let k = choose|k: int| 0 <= k < old_view.len() && old_view[k] == m;
                if k < j {
                    assert(new_view[k] == m);
                } else {
                    assert(new_view[k + 1] == m);
                }
            }
            if m == x@ {
                assert(new_view[j as int] == m);
            }
        }
    }
}

/// The strictly sorted union of two name lists.
pub fn union_sorted(a: &Vec<String>, b: &Vec<String>) -> (r: Vec<String>)
    ensures
        spec_union_post(a.deep_view(), b.deep_view(), r.deep_view()),
{
    let mut out: Vec<String> = Vec::new();
    let mut i: usize = 0;
    while i < a.len()
        invariant
            i <= a.len(),
            spec_strict_sorted(out.deep_view()),
            forall|n: Seq<char>| #[trigger]
                out.deep_view().contains(n) <==> a.deep_view().take(i as int).contains(n),
        decreases a.len() - i,
    {
        insert_sorted_unique(&mut out, a[i].as_str());
        proof {
            broadcast use vstd::seq_lib::lemma_seq_contains_after_push;

            assert(a.deep_view()[i as int] == a@[i as int]@);
            assert(a.deep_view().take(i + 1) =~= a.deep_view().take(i as int).push(
                a.deep_view()[i as int],
            ));
        }
        i += 1;
    }
    proof {
        assert(a.deep_view().take(a.len() as int) =~= a.deep_view());
    }
    let mut i: usize = 0;
    while i < b.len()
        invariant
            i <= b.len(),
            spec_strict_sorted(out.deep_view()),
            forall|n: Seq<char>| #[trigger]
                out.deep_view().contains(n) <==> a.deep_view().contains(n) || b.deep_view().take(
                    i as int,
                ).contains(n),
        decreases b.len() - i,
    {
        insert_sorted_unique(&mut out, b[i].as_str());
        proof {
            broadcast use vstd::seq_lib::lemma_seq_contains_after_push;

            assert(b.deep_view()[i as int] == b@[i as int]@);
            assert(b.deep_view().take(i + 1) =~= b.deep_view().take(i as int).push(
                b.deep_view()[i as int],
            ));
        }
        i += 1;
    }
    proof {
        assert(b.deep_view().take(b.len() as int) =~= b.deep_view());
    }
    out
}

/// Read a declared package list: the union of the base manifest and its
/// local override, sorted, names only.
pub fn read_package_list(base: &FileRead, local: &FileRead) -> (r: Result<Vec<String>, String>)
    ensures
        match r {
            Ok(v) => {
                &&& spec_file_names(base) matches Ok(bn) && spec_file_names(local) matches Ok(ln)
                    && spec_union_post(bn, ln, v.deep_view())
            },
            Err(e) => match spec_file_names(base) {
                Err(m) => e@ == m,
                Ok(_) => spec_file_names(local) matches Err(m) && e@ == m,
            },
        },
        (r matches Err(_)) <==> (spec_file_names(base) matches Err(_) || spec_file_names(local)
            matches Err(_)),
{
    let bn = match file_names(base) {
        Ok(v) => v,
        Err(e) => {
            return Err(e);
        },
    };
    let ln = match file_names(local) {
        Ok(v) => v,
        Err(e) => {
            return Err(e);
        },
    };
    Ok(union_sorted(&bn, &ln))
}

/// The name components of a declared pair list.
pub open spec fn spec_pair_names(v: Seq<(String, bool)>) -> Seq<Seq<char>> {
    v.map_values(|p: (String, bool)| p.0@)
}

/// What the declared list with provenance must be: its names are the
/// sorted union, and each entry is flagged local exactly when the local
/// manifest declares its name.
pub open spec fn spec_declared_post(
    bn: Seq<Seq<char>>,
    ln: Seq<Seq<char>>,
    r: Seq<(String, bool)>,
) -> bool {
    &&& spec_union_post(bn, ln, spec_pair_names(r))
    &&& forall|i: int| 0 <= i < r.len() ==> r[i].1 == ln.contains(#[trigger] r[i].0@)
}

/// Read a declared package list with provenance: each name is paired
/// with whether the local-override manifest declares it.
pub fn read_package_list_with_source(base: &FileRead, local: &FileRead) -> (r: Result<
    Vec<(String, bool)>,
    String,
>)
    ensures
        match r {
            Ok(v) => {
                &&& spec_file_names(base) matches Ok(bn) && spec_file_names(local) matches Ok(ln)
                    && spec_declared_post(bn, ln, v@)
            },
            Err(e) => match spec_file_names(base) {
                Err(m) => e@ == m,
                Ok(_) => spec_file_names(local) matches Err(m) && e@ == m,
            },
        },
        (r matches Err(_)) <==> (spec_file_names(base) matches Err(_) || spec_file_names(local)
            matches Err(_)),
{
    let bn = match file_names(base) {
        Ok(v) => v,
        Err(e) => {
            return Err(e);
        },
    };
    let ln = match file_names(local) {
        Ok(v) => v,
        Err(e) => {
            return Err(e);
        },
    };
    let names = union_sorted(&bn, &ln);
    let mut out: Vec<(String, bool)> = Vec::new();
    let mut i: usize = 0;
    while i < names.len()
        invariant
            i <= names.len(),
            out@.len() == i,
            forall|k: int| 0 <= k < i ==> (#[trigger] out@[k]).0@ == names.deep_view()[k],
            forall|k: int|
                0 <= k < i ==> (#[trigger] out@[k]).1 == ln.deep_view().contains(out@[k].0@),
        decreases names.len() - i,
    {
        let is_local = vec_contains_str(&ln, names[i].as_str());
        proof {
            assert(names.deep_view()[i as int] == names@[i as int]@);
        }
        out.push((names[i].clone(), is_local));
        i += 1;
    }
    proof {
        assert(spec_pair_names(out@) =~= names.deep_view());
    }
    Ok(out)
}

/// Read the declared list for one manager. A missing base manifest is
/// the "manager not configured" signal, distinct from a read failure on
/// an existing file.
pub fn read_packages_with_source(manager: &str, base: &FileRead, local: &FileRead) -> (r: Result<
    Vec<(String, bool)>,
    String,
>)
    ensures
        match base {
            FileRead::Missing => r matches Err(e) && e@ == "Package file not found for manager: "@
                + manager@,
            FileRead::Unreadable(m) => r matches Err(e) && e@ == m@,
            FileRead::Content(_) => match spec_file_names(local) {
                Err(m) => r matches Err(e) && e@ == m,
                Ok(ln) => r matches Ok(v) && (spec_file_names(base) matches Ok(bn)
                    && spec_declared_post(bn, ln, v@)),
            },
        },
{
    match base {
        FileRead::Missing => {
            let mut m = "Package file not found for manager: ".to_owned();
            m.append(manager);
            Err(m)
        },
        _ => read_package_list_with_source(base, local),
    }
}

/// Read the declared list for one manager, names only.
pub fn read_packages(manager: &str, base: &FileRead, local: &FileRead) -> (r: Result<
    Vec<String>,
    String,
>)
    ensures
        match base {
            FileRead::Missing => r matches Err(e) && e@ == "Package file not found for manager: "@
                + manager@,
            FileRead::Unreadable(m) => r matches Err(e) && e@ == m@,
            FileRead::Content(_) => match spec_file_names(local) {
                Err(m) => r matches Err(e) && e@ == m,
                Ok(ln) => r matches Ok(v) && (spec_file_names(base) matches Ok(bn)
                    && spec_union_post(bn, ln, v.deep_view())),
            },
        },
{
    let pairs = match read_packages_with_source(manager, base, local) {
        Ok(p) => p,
        Err(e) => {
            return Err(e);
        },
    };
    let n = pairs.len();
    let mut out: Vec<String> = Vec::new();
    let mut i: usize = 0;
    while i < n
        invariant
            n == pairs@.len(),
            i <= n,
            out.deep_view() =~= spec_pair_names(pairs@).take(i as int),
        decreases n - i,
    {
        let ghost old_out = out.deep_view();
        out.push(pairs[i].0.clone());
        proof {
            assert(out.deep_view() =~= old_out.push(pairs@[i as int].0@));
            assert(spec_pair_names(pairs@).take(i + 1) =~= spec_pair_names(pairs@).take(
                i as int,
            ).push(pairs@[i as int].0@));
        }
        i += 1;
    }
    proof {
        assert(out.deep_view() =~= spec_pair_names(pairs@));
    }
    Ok(out)
}

/// Whether the manager's base manifest exists: its absence means the
/// user opted out of tracking that manager.
pub fn package_file_exists(base: &FileRead) -> (r: bool)
    ensures
        r == !(base matches FileRead::Missing),
{
    match base {
        FileRead::Missing => false,
        _ => true,
    }
}

} // verus!
