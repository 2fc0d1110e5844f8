//! The user's configuration: a mapping from command name to a
//! user-chosen executable path, which path resolution treats as
//! authoritative. Loading and saving the configuration file is the
//! application's work.

use vstd::prelude::*;

verus! {

/// The user's command-path configuration.
pub struct AppConfig {
    command_paths: Vec<(String, String)>,
}

impl AppConfig {
    spec fn pairs_map(s: Seq<(String, String)>) -> Map<Seq<char>, Seq<char>>
        decreases s.len(),
    {
        if s.len() == 0 {
            Map::empty()
        } else {
            Self::pairs_map(s.drop_last()).insert(s.last().0@, s.last().1@)
        }
    }

    /// The configured paths: command name to path.
    pub closed spec fn paths(self) -> Map<Seq<char>, Seq<char>> {
        Self::pairs_map(self.command_paths@)
    }

    /// Internal invariant: no command is configured twice.
    pub closed spec fn wf(self) -> bool {
        forall|i: int, j: int|
            0 <= i < j < self.command_paths@.len() ==> (#[trigger] self.command_paths@[i]).0@ != (
            #[trigger] self.command_paths@[j]).0@
    }

    proof fn lemma_pairs_domain(s: Seq<(String, String)>, k: Seq<char>)
        ensures
            Self::pairs_map(s).contains_key(k) <==> exists|i: int|
                0 <= i < s.len() && (#[trigger] s[i]).0@ == k,
        decreases s.len(),
    {
        if s.len() > 0 {
            Self::lemma_pairs_domain(s.drop_last(), k);
            if Self::pairs_map(s).contains_key(k) {
                if s.last().0@ != k {
                    let i = choose|i: int|
                        0 <= i < s.drop_last().len() && (#[trigger] s.drop_last()[i]).0@ == k;
                    assert(s[i].0@ == k);
                }
            }
            if exists|i: int| 0 <= i < s.len() && (#[trigger] s[i]).0@ == k {
                let i = choose|i: int| 0 <= i < s.len() && (#[trigger] s[i]).0@ == k;
                if i < s.len() - 1 {
                    assert(s.drop_last()[i].0@ == k);
                }
            }
        }
    }

    proof fn lemma_pairs_lookup(s: Seq<(String, String)>, i: int)
        requires
            0 <= i < s.len(),
            forall|a: int, b: int|
                0 <= a < b < s.len() ==> (#[trigger] s[a]).0@ != (#[trigger] s[b]).0@,
        ensures
            Self::pairs_map(s).contains_key(s[i].0@),
            Self::pairs_map(s)[s[i].0@] == s[i].1@,
        decreases s.len(),
    {
        if i == s.len() - 1 {
        } else {
            Self::lemma_pairs_lookup(s.drop_last(), i);
            assert(s.drop_last()[i] == s[i]);
            assert(s.last().0@ != s[i].0@);
        }
    }

    proof fn lemma_pairs_remove(s: Seq<(String, String)>, i: int)
        requires
            0 <= i < s.len(),
            forall|a: int, b: int|
                0 <= a < b < s.len() ==> (#[trigger] s[a]).0@ != (#[trigger] s[b]).0@,
        ensures
            Self::pairs_map(s.remove(i)) =~= Self::pairs_map(s).remove(s[i].0@),
        decreases s.len(),
    {
        let k = s[i].0@;
        if i == s.len() - 1 {
            assert(s.remove(i) =~= s.drop_last());
            Self::lemma_pairs_domain(s.drop_last(), k);
            assert(!Self::pairs_map(s.drop_last()).contains_key(k)) by {
                if exists|a: int|
                    0 <= a < s.drop_last().len() && (#[trigger] s.drop_last()[a]).0@ == k {
                    let a = choose|a: int|
                        0 <= a < s.drop_last().len() && (#[trigger] s.drop_last()[a]).0@ == k;
                    assert(s[a].0@ == s[i].0@);
                }
            }
            assert(Self::pairs_map(s).remove(k) =~= Self::pairs_map(s.drop_last()));
        } else {
            assert(s.remove(i).last() == s.last());
            assert(s.remove(i).drop_last() =~= s.drop_last().remove(i));
            assert(forall|a: int, b: int|
                0 <= a < b < s.drop_last().len() ==> (#[trigger] s.drop_last()[a]).0@ != (
                #[trigger] s.drop_last()[b]).0@);
            Self::lemma_pairs_remove(s.drop_last(), i);
            assert(s.drop_last()[i] == s[i]);
            assert(s.last().0@ != k);
        }
    }

    /// An empty configuration.
    pub fn new() -> (r: Self)
        ensures
            r.wf(),
            r.paths() == Map::<Seq<char>, Seq<char>>::empty(),
    {
        AppConfig { command_paths: Vec::new() }
    }

    /// The configured path for `command`, if any.
    pub fn get_command_path(&self, command: &str) -> (r: Option<String>)
        requires
            self.wf(),
        ensures
            match r {
                Some(p) => self.paths().contains_key(command@) && self.paths()[command@] == p@,
                None => !self.paths().contains_key(command@),
            },
    {
        let n = self.command_paths.len();
        let mut i: usize = 0;
        while i < n
            invariant
                self.wf(),
                n == self.command_paths@.len(),
                i <= n,
                forall|j: int| 0 <= j < i ==> (#[trigger] self.command_paths@[j]).0@ != command@,
            decreases n - i,
        {
            if crate::text::str_eq(self.command_paths[i].0.as_str(), command) {
                proof {
                    Self::lemma_pairs_lookup(self.command_paths@, i as int);
                }
                return Some(self.command_paths[i].1.clone());
            }
            i += 1;
        }
        proof {
            Self::lemma_pairs_domain(self.command_paths@, command@);
        }
        None
    }

    /// Configure the path for `command`, replacing any earlier choice.
    pub fn set_command_path(&mut self, command: String, path: String)
        requires
            old(self).wf(),
        ensures
            final(self).wf(),
            final(self).paths() =~= old(self).paths().insert(command@, path@),
    {
        let n = self.command_paths.len();
        let mut i: usize = 0;
        while i < n
            invariant
                self.wf(),
                *self == *old(self),
                n == self.command_paths@.len(),
                i <= n,
                forall|j: int| 0 <= j < i ==> (#[trigger] self.command_paths@[j]).0@ != command@,
            decreases n - i,
        {
            if crate::text::str_eq(self.command_paths[i].0.as_str(), command.as_str()) {
                proof {
                    Self::lemma_pairs_remove(self.command_paths@, i as int);
                }
                let ghost removed = self.command_paths@.remove(i as int);
                self.command_paths.remove(i);
                proof {
                    assert(self.command_paths@ =~= removed);
                    assert forall|a: int| 0 <= a < self.command_paths@.len() implies (
                    #[trigger] self.command_paths@[a]).0@ != command@ by {
                        if a < i {
                            assert(self.command_paths@[a] == old(self).command_paths@[a]);
                        } else {
                            assert(self.command_paths@[a] == old(self).command_paths@[a + 1]);
                        }
                    }
                }
                self.command_paths.push((command, path));
                proof {
                    assert(self.command_paths@.drop_last() =~= removed);
                    assert(self.paths() =~= old(self).paths().insert(
                        self.command_paths@.last().0@,
                        self.command_paths@.last().1@,
                    ));
                    assert forall|a: int, b: int|
                        0 <= a < b < self.command_paths@.len() implies (
                    #[trigger] self.command_paths@[a]).0@ != (
                    #[trigger] self.command_paths@[b]).0@ by {
                        if b < self.command_paths@.len() - 1 {
                            assert(self.command_paths@[a] == removed[a]);
                            assert(self.command_paths@[b] == removed[b]);
                        } else {
                            assert(self.command_paths@[a] == removed[a]);
                        }
                    }
                }
                return ;
            }
            i += 1;
        }
        proof {
            Self::lemma_pairs_domain(self.command_paths@, command@);
            assert(!self.paths().contains_key(command@));
        }
        self.command_paths.push((command, path));
        proof {
            assert(self.command_paths@.drop_last() =~= old(self).command_paths@);
            assert(self.paths() =~= old(self).paths().insert(
                self.command_paths@.last().0@,
                self.command_paths@.last().1@,
            ));
            assert forall|a: int, b: int|
                0 <= a < b < self.command_paths@.len() implies (
            #[trigger] self.command_paths@[a]).0@ != (#[trigger] self.command_paths@[b]).0@ by {
                if b == self.command_paths@.len() - 1 {
                    assert(self.command_paths@[a] == old(self).command_paths@[a]);
                }
            }
        }
    }

    /// The configured pairs, for persisting: each pair is one
    /// configured command, each command once.
    pub fn entries(&self) -> (r: &Vec<(String, String)>)
        requires
            self.wf(),
        ensures
            forall|i: int, j: int|
                0 <= i < j < r@.len() ==> (#[trigger] r@[i]).0@ != (#[trigger] r@[j]).0@,
            forall|i: int|
                0 <= i < r@.len() ==> self.paths().contains_key((#[trigger] r@[i]).0@)
                    && self.paths()[r@[i].0@] == r@[i].1@,
            forall|k: Seq<char>|
                self.paths().contains_key(k) ==> exists|i: int|
                    0 <= i < r@.len() && (#[trigger] r@[i]).0@ == k,
    {
        proof {
            assert forall|i: int|
                0 <= i < self.command_paths@.len() implies self.paths().contains_key(
                (#[trigger] self.command_paths@[i]).0@,
            ) && self.paths()[self.command_paths@[i].0@] == self.command_paths@[i].1@ by {
                Self::lemma_pairs_lookup(self.command_paths@, i);
            }
            assert forall|k: Seq<char>| self.paths().contains_key(k) implies exists|i: int|
                0 <= i < self.command_paths@.len() && (#[trigger] self.command_paths@[i]).0@
                    == k by {
                Self::lemma_pairs_domain(self.command_paths@, k);
            }
        }
        &self.command_paths
    }
}

impl Default for AppConfig {
    /// An empty configuration.
    fn default() -> (r: Self)
        ensures
            r.wf(),
            r.paths() == Map::<Seq<char>, Seq<char>>::empty(),
    {
        AppConfig::new()
    }
}

} // verus!
