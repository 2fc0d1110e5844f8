//! The engine's guarantees, stated and proved once over the spec
//! functions its contracts use: determinism of manifest reading, the
//! union/override rule, the set algebra of diffs, cache expiry, and the
//! degradation of a missing probe command.

use vstd::prelude::*;
use crate::cache::spec_cache_lookup;
use crate::manifest::{spec_declared_post, spec_pair_names, spec_strict_sorted, spec_union_post};
use crate::models::PackageManager;
use crate::services::{
    spec_count_in, spec_installed_or_empty, spec_read_fails, spec_seq_diff, spec_status_some_post,
    StatusInput,
};
use crate::text::{lemma_lex_antisym, spec_lex_le};

verus! {

/// Two strictly sorted sequences holding the same elements are the same
/// sequence.
pub proof fn lemma_strict_sorted_same_elements(s1: Seq<Seq<char>>, s2: Seq<Seq<char>>)
    requires
        spec_strict_sorted(s1),
        spec_strict_sorted(s2),
        forall|n: Seq<char>| #[trigger] s1.contains(n) <==> s2.contains(n),
    ensures
        s1 =~= s2,
    decreases s1.len(),
{
    if s1.len() == 0 {
        if s2.len() > 0 {
            assert(s2.contains(s2[0]));
            assert(s1.contains(s2[0]));
        }
    } else {
        assert(s1.contains(s1[0]));
        assert(s2.contains(s1[0]));
        if s2.len() == 0 {
            assert(false);
        }
        // The heads agree: each is the least element of the same set.
        let j = choose|j: int| 0 <= j < s2.len() && s2[j] == s1[0];
        if j > 0 {
            assert(spec_lex_le(s2[0], s2[j]));
        }
        assert(s2.contains(s2[0]));
        assert(s1.contains(s2[0]));
        let k = choose|k: int| 0 <= k < s1.len() && s1[k] == s2[0];
        if k > 0 {
            assert(spec_lex_le(s1[0], s1[k]));
        }
        if j > 0 && k > 0 {
            lemma_lex_antisym(s1[0], s2[0]);
        }
        assert(s1[0] == s2[0]);
        // The tails hold the same elements: the head is unique in each.
        let t1 = s1.drop_first();
        let t2 = s2.drop_first();
        assert forall|n: Seq<char>| #[trigger] t1.contains(n) <==> t2.contains(n) by {
            if t1.contains(n) {
                let a = choose|a: int| 0 <= a < t1.len() && t1[a] == n;
                assert(s1[a + 1] == n);
                assert(s1.contains(n));
                assert(n != s1[0]);
                assert(s2.contains(n));
                let b = choose|b: int| 0 <= b < s2.len() && s2[b] == n;
                assert(b != 0);
                assert(t2[b - 1] == n);
            }
            if t2.contains(n) {
                let a = choose|a: int| 0 <= a < t2.len() && t2[a] == n;
                assert(s2[a + 1] == n);
                assert(s2.contains(n));
                assert(n != s2[0]);
                assert(s1.contains(n));
                let b = choose|b: int| 0 <= b < s1.len() && s1[b] == n;
                assert(b != 0);
                assert(t1[b - 1] == n);
            }
        }
        assert(spec_strict_sorted(t1)) by {
            assert(forall|a: int, b: int|
                0 <= a < b < t1.len() ==> spec_lex_le(#[trigger] t1[a], #[trigger] t1[b]) && t1[a]
                    != t1[b]) by {
                assert(forall|a: int, b: int|
                    0 <= a < b < t1.len() ==> t1[a] == s1[a + 1] && t1[b] == s1[b + 1]);
            }
        }
        assert(spec_strict_sorted(t2)) by {
            assert(forall|a: int, b: int|
                0 <= a < b < t2.len() ==> t2[a] == s2[a + 1] && t2[b] == s2[b + 1]);
        }
        lemma_strict_sorted_same_elements(t1, t2);
        assert(s1.len() == s2.len());
        assert forall|m: int| 0 <= m < s1.len() implies s1[m] == s2[m] by {
            if m > 0 {
                assert(t1[m - 1] == t2[m - 1]);
            }
        }
    }
}

/// Reading a manifest pair is deterministic: any two declared lists the
/// reader's contract admits for the same file contents are identical,
/// name for name, flag for flag, in the same order.
pub proof fn lemma_read_declared_deterministic(
    bn: Seq<Seq<char>>,
    ln: Seq<Seq<char>>,
    r1: Seq<(String, bool)>,
    r2: Seq<(String, bool)>,
)
    requires
        spec_declared_post(bn, ln, r1),
        spec_declared_post(bn, ln, r2),
    ensures
        r1.len() == r2.len(),
        forall|i: int|
            0 <= i < r1.len() ==> (#[trigger] r1[i]).0@ == r2[i].0@ && r1[i].1 == r2[i].1,
{
    lemma_strict_sorted_same_elements(spec_pair_names(r1), spec_pair_names(r2));
    assert(spec_pair_names(r1).len() == r1.len());
    assert(spec_pair_names(r2).len() == r2.len());
    assert forall|i: int|
        0 <= i < r1.len() implies (#[trigger] r1[i]).0@ == r2[i].0@ && r1[i].1 == r2[i].1 by {
        assert(spec_pair_names(r1)[i] == r1[i].0@);
        assert(spec_pair_names(r2)[i] == r2[i].0@);
    }
}

/// A name declared in both the base and the local manifest appears in
/// the declared list exactly once, flagged as a local override.
pub proof fn lemma_local_override_once(
    bn: Seq<Seq<char>>,
    ln: Seq<Seq<char>>,
    r: Seq<(String, bool)>,
    name: Seq<char>,
)
    requires
        spec_declared_post(bn, ln, r),
        bn.contains(name),
        ln.contains(name),
    ensures
        exists|i: int| 0 <= i < r.len() && (#[trigger] r[i]).0@ == name && r[i].1,
        forall|i: int, j: int|
            0 <= i < j < r.len() ==> (#[trigger] r[i]).0@ != (#[trigger] r[j]).0@,
{
    let names = spec_pair_names(r);
    assert(names.contains(name));
    let i = choose|i: int| 0 <= i < names.len() && names[i] == name;
    assert(r[i].0@ == name);
    assert(r[i].1 == ln.contains(name));
    assert forall|a: int, b: int|
        0 <= a < b < r.len() implies (#[trigger] r[a]).0@ != (#[trigger] r[b]).0@ by {
        assert(names[a] == r[a].0@);
        assert(names[b] == r[b].0@);
    }
}

/// Which elements the diff of two name sequences holds: exactly those
/// of the first that the second lacks.
pub proof fn lemma_seq_diff_membership(a: Seq<Seq<char>>, b: Seq<Seq<char>>, x: Seq<char>)
    ensures
        spec_seq_diff(a, b).contains(x) <==> a.contains(x) && !b.contains(x),
    decreases a.len(),
{
    if a.len() > 0 {
        lemma_seq_diff_membership(a.drop_last(), b, x);
        let front = spec_seq_diff(a.drop_last(), b);
        if a.contains(x) && !b.contains(x) {
            let i = choose|i: int| 0 <= i < a.len() && a[i] == x;
            if i < a.len() - 1 {
                assert(a.drop_last()[i] == x);
                assert(front.contains(x));
                if !b.contains(a.last()) {
                    let j = choose|j: int| 0 <= j < front.len() && front[j] == x;
                    assert(front.push(a.last())[j] == x);
                }
            } else {
                if !b.contains(a.last()) {
                    assert(front.push(a.last()).last() == x);
                }
            }
        } else {
            if !a.drop_last().contains(x) {
                assert(forall|j: int| 0 <= j < a.drop_last().len() ==> a.drop_last()[j] != x);
            }
            if !b.contains(a.last()) && spec_seq_diff(a, b).contains(x) {
                let j = choose|j: int|
                    0 <= j < front.push(a.last()).len() && front.push(a.last())[j] == x;
                if j < front.len() {
                    assert(front.contains(x));
                } else {
                    assert(a.contains(a.last()));
                }
            }
            if a.contains(x) {
                assert(b.contains(x));
            }
        }
    }
}

/// The set algebra of a diff: nothing to install is already installed,
/// nothing to remove is declared, and each side is partitioned by the
/// shared part and its diff.
pub proof fn lemma_diff_partition(d: Seq<Seq<char>>, i: Seq<Seq<char>>)
    ensures
        spec_seq_diff(d, i).to_set().intersect(i.to_set()) =~= Set::<Seq<char>>::empty(),
        spec_seq_diff(i, d).to_set().intersect(d.to_set()) =~= Set::<Seq<char>>::empty(),
        d.to_set().intersect(i.to_set()).union(spec_seq_diff(d, i).to_set()) =~= d.to_set(),
        i.to_set().intersect(d.to_set()).union(spec_seq_diff(i, d).to_set()) =~= i.to_set(),
{
    assert forall|x: Seq<char>| true implies #[trigger] spec_seq_diff(d, i).to_set().contains(x)
        == (d.contains(x) && !i.contains(x)) by {
        lemma_seq_diff_membership(d, i, x);
    }
    assert forall|x: Seq<char>| true implies #[trigger] spec_seq_diff(i, d).to_set().contains(x)
        == (i.contains(x) && !d.contains(x)) by {
        lemma_seq_diff_membership(i, d, x);
    }
}

/// Cache expiry: a value set at time `t` is served for any read not
/// more than the TTL later, and not served for any read past that.
pub proof fn lemma_cache_expiry<T>(
    entries: Map<Seq<char>, (T, u64)>,
    key: Seq<char>,
    v: T,
    t: u64,
    now: u64,
    ttl: u64,
)
    ensures
        now - t <= ttl ==> spec_cache_lookup(entries.insert(key, (v, t)), key, now, ttl) == Some(
            v,
        ),
        now - t > ttl ==> spec_cache_lookup(entries.insert(key, (v, t)), key, now, ttl) is None,
{
}

/// Counting against an empty installed set finds nothing.
pub proof fn lemma_count_in_empty(decl: Seq<Seq<char>>)
    ensures
        spec_count_in(decl, Seq::empty()) == 0,
    decreases decl.len(),
{
    if decl.len() > 0 {
        lemma_count_in_empty(decl.drop_last());
    }
}

/// A manager whose installed-set check failed — a missing command
/// included — still gets a status, with zero packages counted as
/// installed: one broken tool never aborts the aggregate view.
pub proof fn lemma_missing_command_degrades(input: StatusInput, pm: PackageManager)
    requires
        !spec_read_fails(&input.base, &input.local),
        input.installed is Err,
        spec_status_some_post(&input, &pm),
    ensures
        pm.installed == 0,
{
    assert(spec_installed_or_empty(&input.installed) =~= Seq::<Seq<char>>::empty());
    let decl = choose|decl: Seq<Seq<char>>|
        {
            &&& #[trigger] crate::services::spec_declared_names_ok(&input.base, &input.local, decl)
            &&& pm.total == decl.len()
            &&& pm.installed == spec_count_in(decl, spec_installed_or_empty(&input.installed))
        };
    lemma_count_in_empty(decl);
}

} // verus!
