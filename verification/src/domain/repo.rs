//! A repository, named as `user/repository`.

use crate::text::chars_of;
use vstd::prelude::*;
use vstd::string::{StrSliceExecFns, StringExecFns};

verus! {

/// A repository on GitHub.
#[derive(Clone, Debug, PartialEq, Eq)]
pub struct Repository {
    pub user: String,
    pub repository: String,
}

/// Why a text names no repository.
#[derive(Clone, Copy, Debug, PartialEq, Eq, Structural)]
pub enum RepositoryError {
    /// The text holds no `/`.
    NoDelimiter,
    /// The text holds more than one `/`.
    Invalid,
}

/// `user`, a slash and `repository`.
pub open spec fn joined(user: Seq<char>, repository: Seq<char>) -> Seq<char> {
    user + seq!['/'] + repository
}

/// Why `s` names no repository, if it names none: it holds no slash, or
/// more than one.
pub open spec fn parse_error(s: Seq<char>) -> Option<RepositoryError> {
    if !s.contains('/') {
        Some(RepositoryError::NoDelimiter)
    } else if exists|i: int, j: int| 0 <= i < j < s.len() && s[i] == '/' && s[j] == '/' {
        Some(RepositoryError::Invalid)
    } else {
        None
    }
}

/// `r` is what reading `s` as `user/repository` gives: the two names on
/// either side of the one slash; or why there are none.
pub open spec fn is_parse_of(r: Result<Repository, RepositoryError>, s: Seq<char>) -> bool {
    match r {
        Ok(repo) => {
            &&& parse_error(s) is None
            &&& s == joined(repo.user@, repo.repository@)
            &&& !repo.user@.contains('/')
            &&& !repo.repository@.contains('/')
        },
        Err(e) => parse_error(s) == Some(e),
    }
}

impl Repository {
    /// The repository as a text, `user/repository`.
    pub open spec fn text(self) -> Seq<char> {
        joined(self.user@, self.repository@)
    }

    /// Reads a repository from `user/repository`. Either name may be empty;
    /// neither can hold a slash.
    pub fn from_str(s: &str) -> (r: Result<Repository, RepositoryError>)
        ensures
            is_parse_of(r, s@),
    {
        let chars = chars_of(s);
        let n: usize = chars.len();
        let mut i: usize = 0;
        while i < n && chars[i] != '/'
            invariant
                n == chars.len(),
                i <= n,
                forall|k: int| 0 <= k < i ==> chars@[k] != '/',
            decreases n - i,
        {
            i = i + 1;
        }
        if i == n {
            return Err(RepositoryError::NoDelimiter);
        }
        assert(chars@[i as int] == '/');
        let mut j: usize = i + 1;
        while j < n && chars[j] != '/'
            invariant
                n == chars.len(),
                i < j <= n,
                forall|k: int| i < k < j ==> chars@[k] != '/',
            decreases n - j,
        {
            j = j + 1;
        }
        if j < n {
            assert(chars@[j as int] == '/');
            return Err(RepositoryError::Invalid);
        }
        let user = s.substring_char(0, i).to_owned();
        let repository = s.substring_char(i + 1, n).to_owned();
        proof {
            assert forall|a: int, b: int| 0 <= a < b < s@.len() && s@[a] == '/' implies s@[b]
                != '/' by {
                assert(a == i);
            }
            assert(s@ =~= joined(user@, repository@));
            assert forall|k: int| 0 <= k < user@.len() implies user@[k] != '/' by {
                assert(user@[k] == chars@[k]);
            }
            assert forall|k: int| 0 <= k < repository@.len() implies repository@[k] != '/' by {
                assert(repository@[k] == chars@[i + 1 + k]);
            }
        }
        Ok(Repository { user, repository })
    }

    /// Writes the repository as `user/repository`.
    pub fn to_string(&self) -> (r: String)
        ensures
            r@ == self.text(),
    {
        proof {
            reveal_strlit("/");
        }
        let r = self.user.clone().concat("/").concat(self.repository.as_str());
        assert(r@ =~= self.text());
        r
    }

    /// The address at which GitHub describes the latest release of the
    /// repository.
    pub fn latest_release_url(&self) -> (r: String)
        ensures
            r@ == "https://api.github.com/repos/"@ + self.text() + "/releases/latest"@,
    {
        let r = String::from_str("https://api.github.com/repos/").concat(
            self.to_string().as_str(),
        ).concat("/releases/latest");
        r
    }
}

/// A text names at most one repository: two readings of it agree.
pub proof fn law_parse_is_unique(s: Seq<char>, a: Repository, b: Repository)
    requires
        is_parse_of(Ok(a), s),
        is_parse_of(Ok(b), s),
    ensures
        a.user@ == b.user@,
        a.repository@ == b.repository@,
{
    let i = a.user@.len() as int;
    let j = b.user@.len() as int;
    assert(s[i] == '/');
    assert(s[j] == '/');
    if i < j {
        assert(b.user@[i] == s[i]);
    }
    if j < i {
        assert(a.user@[j] == s[j]);
    }
    assert(a.user@ =~= s.subrange(0, i));
    assert(b.user@ =~= s.subrange(0, j));
    assert(a.repository@ =~= s.subrange(i + 1, s.len() as int));
    assert(b.repository@ =~= s.subrange(j + 1, s.len() as int));
}

/// A repository whose names hold no slash is read back from what it is
/// written as.
pub proof fn law_written_is_read_back(repo: Repository)
    requires
        !repo.user@.contains('/'),
        !repo.repository@.contains('/'),
    ensures
        is_parse_of(Ok(repo), repo.text()),
{
    let s = repo.text();
    let n = repo.user@.len() as int;
    assert(s[n] == '/');
    assert forall|i: int, j: int| 0 <= i < j < s.len() && s[i] == '/' implies s[j] != '/' by {
        if i < n {
            assert(repo.user@[i] == s[i]);
        } else {
            assert(repo.repository@[j - n - 1] == s[j]);
        }
    }
}

} // verus!
