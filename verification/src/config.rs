//! The list of repositories that a user follows, each with the pattern by
//! which its asset is chosen.

use crate::domain::repo::{is_parse_of, parse_error, Repository, RepositoryError};
use vstd::prelude::*;

verus! {

/// One repository that is followed.
#[derive(Clone, Debug, PartialEq, Eq)]
pub struct RepoConfig {
    /// The repository, as `user/repository`.
    pub repo: String,
    /// The pattern that the name of the asset to download holds.
    pub pat: String,
}

/// The repositories that are followed.
#[derive(Clone, Debug, PartialEq, Eq)]
pub struct Configuration {
    pub repos: Vec<RepoConfig>,
}

/// Why a configuration is refused.
#[derive(Clone, Debug, PartialEq, Eq)]
pub enum ConfigError {
    /// Some repositories are listed more than once: each of them, once, in
    /// the order in which they first appear.
    DuplicatedRepos(Vec<String>),
}

/// The names of the repositories of a configuration, in order.
pub open spec fn names_of(repos: Seq<RepoConfig>) -> Seq<Seq<char>> {
    repos.map_values(|c: RepoConfig| c.repo@)
}

/// No name stands twice in `names`.
pub open spec fn all_distinct(names: Seq<Seq<char>>) -> bool {
    forall|i: int, j: int| 0 <= i < j < names.len() ==> names[i] != names[j]
}

/// The name at `i` stands there for the first time, and stands again later.
pub open spec fn is_first_of_several(names: Seq<Seq<char>>, i: int) -> bool {
    &&& 0 <= i < names.len()
    &&& forall|j: int| 0 <= j < i ==> names[j] != names[i]
    &&& exists|j: int| i < j < names.len() && names[j] == names[i]
}

/// The names that stand more than once among the first `n`, or among them
/// and again later: each once, in the order in which they first appear.
pub open spec fn duplicated_among(names: Seq<Seq<char>>, n: int) -> Seq<Seq<char>>
    decreases n,
{
    if n <= 0 {
        Seq::empty()
    } else if is_first_of_several(names, n - 1) {
        duplicated_among(names, n - 1).push(names[n - 1])
    } else {
        duplicated_among(names, n - 1)
    }
}

/// The names that stand more than once in `names`.
pub open spec fn duplicated(names: Seq<Seq<char>>) -> Seq<Seq<char>> {
    duplicated_among(names, names.len() as int)
}

/// The texts of a list of strings.
pub open spec fn texts_of(strings: Seq<String>) -> Seq<Seq<char>> {
    strings.map_values(|s: String| s@)
}

impl Configuration {
    /// Reads each entry as a repository and pairs it with its pattern. The
    /// first entry that names no repository stops the reading with its error.
    pub fn read_repositories(self) -> (r: Result<Vec<(Repository, String)>, RepositoryError>)
        ensures
            match r {
                Ok(pairs) => {
                    &&& pairs@.len() == self.repos@.len()
                    &&& forall|i: int|
                        0 <= i < pairs@.len() ==> is_parse_of(
                            Ok((#[trigger] pairs@[i]).0),
                            self.repos@[i].repo@,
                        ) && pairs@[i].1@ == self.repos@[i].pat@
                },
                Err(e) => exists|i: int|
                    0 <= i < self.repos@.len() && parse_error(
                        #[trigger] self.repos@[i].repo@,
                    ) == Some(e) && forall|j: int|
                        0 <= j < i ==> parse_error(#[trigger] self.repos@[j].repo@) is None,
            },
    {
        let mut pairs: Vec<(Repository, String)> = Vec::new();
        let mut i: usize = 0;
        while i < self.repos.len()
            invariant
                i <= self.repos.len(),
                pairs@.len() == i,
                forall|k: int|
                    0 <= k < i ==> is_parse_of(Ok((#[trigger] pairs@[k]).0), self.repos@[k].repo@)
                        && pairs@[k].1@ == self.repos@[k].pat@,
                forall|k: int| 0 <= k < i ==> parse_error(#[trigger] self.repos@[k].repo@) is None,
            decreases self.repos.len() - i,
        {
            match Repository::from_str(self.repos[i].repo.as_str()) {
                Ok(repo) => {
                    pairs.push((repo, self.repos[i].pat.clone()));
                },
                Err(e) => {
                    assert(parse_error(self.repos@[i as int].repo@) == Some(e));
                    return Err(e);
                },
            }
            i = i + 1;
        }
        Ok(pairs)
    }

    /// Tells whether the name at `i` stands there for the first time and
    /// stands again later.
    fn repeats_first_at(&self, i: usize) -> (r: bool)
        requires
            i < self.repos.len(),
        ensures
            r == is_first_of_several(names_of(self.repos@), i as int),
    {
        let ghost names = names_of(self.repos@);
        let mut j: usize = 0;
        while j < i
            invariant
                j <= i < self.repos.len(),
                names == names_of(self.repos@),
                forall|k: int| 0 <= k < j ==> names[k] != names[i as int],
            decreases i - j,
        {
            if self.repos[j].repo == self.repos[i].repo {
                assert(names[j as int] == names[i as int]);
                return false;
            }
            j = j + 1;
        }
        let mut j: usize = i + 1;
        while j < self.repos.len()
            invariant
                i < j <= self.repos.len(),
                names == names_of(self.repos@),
                forall|k: int| 0 <= k < i ==> names[k] != names[i as int],
                forall|k: int| i < k < j ==> names[k] != names[i as int],
            decreases self.repos.len() - j,
        {
            if self.repos[j].repo == self.repos[i].repo {
                assert(names[j as int] == names[i as int]);
                return true;
            }
            j = j + 1;
        }
        false
    }

    /// Accepts a configuration in which no repository is listed twice, and
    /// hands it back unchanged. Otherwise names each repository that is
    /// listed more than once.
    pub fn validate(self) -> (r: Result<Configuration, ConfigError>)
        ensures
            match r {
                Ok(config) => config == self && all_distinct(names_of(self.repos@)),
                Err(ConfigError::DuplicatedRepos(names)) => !all_distinct(names_of(self.repos@))
                    && texts_of(names@) == duplicated(names_of(self.repos@)),
            },
    {
        let mut found: Vec<String> = Vec::new();
        let mut i: usize = 0;
        while i < self.repos.len()
            invariant
                i <= self.repos.len(),
                texts_of(found@) == duplicated_among(names_of(self.repos@), i as int),
            decreases self.repos.len() - i,
        {
            if self.repeats_first_at(i) {
                let name = self.repos[i].repo.clone();
                assert(texts_of(found@.push(name)) =~= texts_of(found@).push(name@));
                found.push(name);
            }
            i = i + 1;
        }
        proof {
            law_valid_iff_distinct(names_of(self.repos@));
            assert(texts_of(found@).len() == found@.len());
        }
        if found.len() > 0 {
            Err(ConfigError::DuplicatedRepos(found))
        } else {
            Ok(self)
        }
    }

    /// Tells whether the repository `repo`, written as `user/repository`, is
    /// listed.
    pub fn contains_repo(&self, repo: &str) -> (r: bool)
        ensures
            r == names_of(self.repos@).contains(repo@),
    {
        let wanted = repo.to_owned();
        let ghost names = names_of(self.repos@);
        let mut i: usize = 0;
        while i < self.repos.len()
            invariant
                i <= self.repos.len(),
                wanted@ == repo@,
                names == names_of(self.repos@),
                forall|k: int| 0 <= k < i ==> names[k] != repo@,
            decreases self.repos.len() - i,
        {
            if self.repos[i].repo == wanted {
                assert(names[i as int] == repo@);
                return true;
            }
            i = i + 1;
        }
        false
    }

    /// Lists one more repository, after those that are listed.
    pub fn add_repo(&mut self, repo: String, pat: String)
        ensures
            final(self).repos@ == old(self).repos@.push(RepoConfig { repo, pat }),
    {
        self.repos.push(RepoConfig { repo, pat });
    }
}

/// A configuration is accepted exactly if no repository stands twice in it.
pub proof fn law_valid_iff_distinct(names: Seq<Seq<char>>)
    ensures
        duplicated(names).len() == 0 <==> all_distinct(names),
{
    lemma_duplicated_among(names, names.len() as int);
    if !all_distinct(names) {
        let (i, j) = choose|i: int, j: int| 0 <= i < j < names.len() && names[i] == names[j];
        lemma_first_occurrence(names, i);
        let k = choose|k: int| 0 <= k <= i && names[k] == names[i] && forall|l: int|
            0 <= l < k ==> names[l] != names[k];
        assert(names[j] == names[k]);
        assert(is_first_of_several(names, k));
        assert(duplicated(names).contains(names[k]));
    }
    if duplicated(names).len() > 0 {
        let name = duplicated(names)[0];
        assert(duplicated(names).contains(name));
        let k = choose|k: int|
            0 <= k < names.len() && is_first_of_several(names, k) && names[k] == name;
        let j = choose|j: int| k < j < names.len() && names[j] == names[k];
        assert(!all_distinct(names));
    }
}

/// Every name that is reported stands more than once, and every name that
/// stands more than once is reported.
pub proof fn law_duplicated_are_those_repeated(names: Seq<Seq<char>>, name: Seq<char>)
    ensures
        duplicated(names).contains(name) <==> exists|i: int, j: int|
            0 <= i < j < names.len() && names[i] == name && names[j] == name,
{
    lemma_duplicated_among(names, names.len() as int);
    if duplicated(names).contains(name) {
        let k = choose|k: int|
            0 <= k < names.len() && is_first_of_several(names, k) && names[k] == name;
        let j = choose|j: int| k < j < names.len() && names[j] == names[k];
        assert(0 <= k < j < names.len() && names[k] == name && names[j] == name);
    }
    if exists|i: int, j: int| 0 <= i < j < names.len() && names[i] == name && names[j] == name {
        let (i, j) = choose|i: int, j: int|
            0 <= i < j < names.len() && names[i] == name && names[j] == name;
        lemma_first_occurrence(names, i);
        let k = choose|k: int| 0 <= k <= i && names[k] == names[i] && forall|l: int|
            0 <= l < k ==> names[l] != names[k];
        assert(names[j] == names[k]);
        assert(is_first_of_several(names, k));
    }
}

proof fn lemma_first_occurrence(names: Seq<Seq<char>>, i: int)
    requires
        0 <= i < names.len(),
    ensures
        exists|k: int|
            0 <= k <= i && names[k] == names[i] && forall|l: int|
                0 <= l < k ==> names[l] != names[k],
    decreases i,
{
    if exists|l: int| 0 <= l < i && names[l] == names[i] {
        let l = choose|l: int| 0 <= l < i && names[l] == names[i];
        lemma_first_occurrence(names, l);
        let k = choose|k: int| 0 <= k <= l && names[k] == names[l] && forall|m: int|
            0 <= m < k ==> names[m] != names[k];
        assert(0 <= k <= i && names[k] == names[i] && forall|m: int|
            0 <= m < k ==> names[m] != names[k]);
    } else {
        assert(0 <= i <= i && names[i] == names[i] && forall|l: int|
            0 <= l < i ==> names[l] != names[i]);
    }
}

proof fn lemma_duplicated_among(names: Seq<Seq<char>>, n: int)
    requires
        0 <= n <= names.len(),
    ensures
        forall|name: Seq<char>|
            duplicated_among(names, n).contains(name) <==> exists|k: int|
                0 <= k < n && is_first_of_several(names, k) && names[k] == name,
    decreases n,
{
    if n > 0 {
        lemma_duplicated_among(names, n - 1);
        let rest = duplicated_among(names, n - 1);
        assert forall|name: Seq<char>|
            duplicated_among(names, n).contains(name) <==> exists|k: int|
                0 <= k < n && is_first_of_several(names, k) && names[k] == name by {
            if is_first_of_several(names, n - 1) {
                let all = rest.push(names[n - 1]);
                assert(all[all.len() - 1] == names[n - 1]);
                if all.contains(name) {
                    let x = choose|x: int| 0 <= x < all.len() && all[x] == name;
                    if x < rest.len() {
                        assert(rest[x] == name);
                        assert(rest.contains(name));
                    }
                }
                if rest.contains(name) {
                    let x = choose|x: int| 0 <= x < rest.len() && rest[x] == name;
                    assert(all[x] == name);
                }
            }
        }
    }
}

} // verus!
