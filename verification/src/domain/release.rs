//! A release and its assets, and the choice of one asset by a pattern.

use crate::text::{chars_of, contains, is_substring, lowercase, to_lowercase};
use crate::utils::{extract_version, is_reading_of, VersionError};
use crate::version::{first_triple, version_in, Version};
use vstd::prelude::*;

verus! {

/// One file that can be downloaded from a release.
#[derive(Clone, Debug, PartialEq, Eq)]
pub struct Asset {
    pub name: String,
    pub browser_download_url: String,
    /// The size of the file in bytes.
    pub size: u64,
}

/// A release as GitHub describes it.
#[derive(Clone, Debug, PartialEq, Eq)]
pub struct Release {
    pub tag_name: String,
    pub body: String,
    /// When the release was made, in seconds since the Unix epoch.
    pub created_at: i64,
    pub assets: Vec<Asset>,
}

/// Why no asset was chosen.
#[derive(Clone, Debug, PartialEq, Eq)]
pub enum FindAssetError {
    /// No asset has the pattern, given here, in its name.
    NoAsset(String),
    /// More than one asset has the pattern in its name: their names, in the
    /// order of the release.
    ManyAssets { pat: String, assets: Vec<String> },
}

/// An asset of the name `name` answers to the pattern `pat`: the pattern
/// stands in the name, letter case set aside on both sides.
pub open spec fn name_matches(name: Seq<char>, pat: Seq<char>) -> bool {
    is_substring(lowercase(pat), lowercase(name))
}

/// For each asset, whether it answers to the pattern `pat`.
pub open spec fn answers_of(assets: Seq<Asset>, pat: Seq<char>) -> Seq<bool> {
    Seq::new(assets.len(), |i: int| name_matches(assets[i].name@, pat))
}

/// For each of the texts in `lowered`, whether `needle` stands in it.
pub open spec fn stands_in(needle: Seq<char>, lowered: Seq<Vec<char>>) -> Seq<bool> {
    Seq::new(lowered.len(), |i: int| is_substring(needle, lowered[i]@))
}

/// Those of the first `n` assets of which `answers` says that they answer,
/// in the order of the release.
pub open spec fn picked(assets: Seq<Asset>, answers: Seq<bool>, n: int) -> Seq<Asset>
    decreases n,
{
    if n <= 0 {
        Seq::empty()
    } else if answers[n - 1] {
        picked(assets, answers, n - 1).push(assets[n - 1])
    } else {
        picked(assets, answers, n - 1)
    }
}

/// `r` is the choice among `assets`, where `answers` says of each whether it
/// answers to the pattern `pat`: the one asset that answers; or that none
/// does; or, where several do, their names.
pub open spec fn is_choice_among(
    r: Result<&Asset, FindAssetError>,
    assets: Seq<Asset>,
    answers: Seq<bool>,
    pat: Seq<char>,
) -> bool {
    let matching = picked(assets, answers, assets.len() as int);
    match r {
        Ok(a) => matching == seq![*a],
        Err(FindAssetError::NoAsset(p)) => matching.len() == 0 && p@ == pat,
        Err(FindAssetError::ManyAssets { pat: p, assets: names }) => {
            &&& matching.len() >= 2
            &&& p@ == pat
            &&& names@.len() == matching.len()
            &&& forall|i: int|
                0 <= i < matching.len() ==> (#[trigger] names@[i])@ == matching[i].name@
        },
    }
}

/// `r` is the choice among `assets` by `pat`: the one asset that answers to
/// the pattern; or that none does; or, where several do, their names.
pub open spec fn is_choice_of(
    r: Result<&Asset, FindAssetError>,
    assets: Seq<Asset>,
    pat: Seq<char>,
) -> bool {
    is_choice_among(r, assets, answers_of(assets, pat), pat)
}

/// The version that a release with this tag and this description reports,
/// if it reports one: the tag is read first.
pub open spec fn release_version(tag_name: Seq<char>, body: Seq<char>) -> Option<Version> {
    if first_triple(tag_name) is Some {
        version_in(tag_name)
    } else {
        version_in(body)
    }
}

/// `r` is the version that a release reports: what reading its tag gives
/// or, where the tag holds no numeric triple at all, what reading its
/// description gives. A tag whose triple is no version is an error, and the
/// description is not looked at.
pub open spec fn is_version_of(
    r: Result<Version, VersionError>,
    tag_name: Seq<char>,
    body: Seq<char>,
) -> bool {
    match first_triple(tag_name) {
        Some(_) => is_reading_of(r, tag_name),
        None => is_reading_of(r, body),
    }
}

/// Chooses among `assets` the one in whose lowered name `needle` stands.
/// `lowered` holds for each asset its name in lower case, and `pat` is the
/// pattern as it was given, for the error to hold.
pub fn choose_asset<'a>(
    assets: &'a Vec<Asset>,
    lowered: &Vec<Vec<char>>,
    needle: &Vec<char>,
    pat: &str,
) -> (r: Result<&'a Asset, FindAssetError>)
    requires
        lowered@.len() == assets@.len(),
    ensures
        is_choice_among(r, assets@, stands_in(needle@, lowered@), pat@),
{
    let ghost answers = stands_in(needle@, lowered@);
    let n: usize = assets.len();
    let mut found: Vec<usize> = Vec::new();
    let mut i: usize = 0;
    while i < n
        invariant
            n == assets.len(),
            n == lowered.len(),
            i <= n,
            answers == stands_in(needle@, lowered@),
            found@.len() == picked(assets@, answers, i as int).len(),
            forall|k: int|
                0 <= k < found@.len() ==> 0 <= #[trigger] found@[k] < i && assets@[found@[k] as int]
                    == picked(assets@, answers, i as int)[k],
        decreases n - i,
    {
        if contains(&lowered[i], needle) {
            found.push(i);
        }
        i = i + 1;
    }
    let ghost matching = picked(assets@, answers, n as int);
    if found.len() == 0 {
        return Err(FindAssetError::NoAsset(pat.to_owned()));
    }
    if found.len() > 1 {
        let mut names: Vec<String> = Vec::new();
        let mut k: usize = 0;
        while k < found.len()
            invariant
                k <= found.len(),
                names@.len() == k,
                found@.len() == matching.len(),
                forall|j: int|
                    0 <= j < found@.len() ==> 0 <= #[trigger] found@[j] < assets.len()
                        && assets@[found@[j] as int] == matching[j],
                forall|j: int| 0 <= j < k ==> (#[trigger] names@[j])@ == matching[j].name@,
            decreases found.len() - k,
        {
            names.push(assets[found[k]].name.clone());
            k = k + 1;
        }
        return Err(FindAssetError::ManyAssets { pat: pat.to_owned(), assets: names });
    }
    let a = &assets[found[0]];
    assert(matching =~= seq![*a]);
    Ok(a)
}

impl Release {
    /// Finds the one asset whose name holds `pat`, whatever the case of the
    /// letters in either. The choice is never a guess: where several assets
    /// answer, all of them are named and none is returned.
    pub fn find_asset(&self, pat: &str) -> (r: Result<&Asset, FindAssetError>)
        ensures
            is_choice_of(r, self.assets@, pat@),
    {
        let lowered_pat = to_lowercase(pat);
        let needle = chars_of(lowered_pat.as_str());
        let mut lowered: Vec<Vec<char>> = Vec::new();
        let mut i: usize = 0;
        while i < self.assets.len()
            invariant
                i <= self.assets.len(),
                lowered@.len() == i,
                forall|k: int|
                    0 <= k < i ==> (#[trigger] lowered@[k])@ == lowercase(self.assets@[k].name@),
            decreases self.assets.len() - i,
        {
            let name = to_lowercase(self.assets[i].name.as_str());
            lowered.push(chars_of(name.as_str()));
            i = i + 1;
        }
        assert(stands_in(needle@, lowered@) =~= answers_of(self.assets@, pat@));
        choose_asset(&self.assets, &lowered, &needle, pat)
    }

    /// The version of the release: the one that its tag reports. The
    /// description is read only where the tag holds no numeric triple.
    pub fn version(&self) -> (r: Result<Version, VersionError>)
        ensures
            is_version_of(r, self.tag_name@, self.body@),
    {
        match extract_version(self.tag_name.as_str()) {
            Err(VersionError::NoVersionFound(_)) => extract_version(self.body.as_str()),
            read => read,
        }
    }
}

/// Where exactly one asset answers to the pattern, choosing gives that
/// asset and nothing else.
pub proof fn law_one_match_is_chosen(
    r: Result<&Asset, FindAssetError>,
    assets: Seq<Asset>,
    pat: Seq<char>,
    i: int,
)
    requires
        is_choice_of(r, assets, pat),
        0 <= i < assets.len(),
        name_matches(assets[i].name@, pat),
        forall|j: int| 0 <= j < assets.len() && j != i ==> !name_matches(assets[j].name@, pat),
    ensures
        r matches Ok(a) && *a == assets[i],
{
    let answers = answers_of(assets, pat);
    lemma_picked(assets, answers, assets.len() as int);
    lemma_count_of_one(answers, i, assets.len() as int);
    let matching = picked(assets, answers, assets.len() as int);
    assert(matching == seq![assets[i]]);
    assert(matching.len() == 1);
    assert(matching[0] == assets[i]);
}

/// Where no asset answers to the pattern, choosing fails and says that none
/// was found for the pattern.
pub proof fn law_no_match_is_none(
    r: Result<&Asset, FindAssetError>,
    assets: Seq<Asset>,
    pat: Seq<char>,
)
    requires
        is_choice_of(r, assets, pat),
        forall|j: int| 0 <= j < assets.len() ==> !name_matches(assets[j].name@, pat),
    ensures
        r matches Err(FindAssetError::NoAsset(p)) && p@ == pat,
{
    let answers = answers_of(assets, pat);
    lemma_picked(assets, answers, assets.len() as int);
    let matching = picked(assets, answers, assets.len() as int);
    if r is Ok {
        assert(matching.len() == 1);
    }
}

/// Where two assets answer to the pattern, choosing fails and names all the
/// assets that answer: the name of each asset that answers is among those
/// named, and as many are named as answer.
pub proof fn law_two_matches_are_several(
    r: Result<&Asset, FindAssetError>,
    assets: Seq<Asset>,
    pat: Seq<char>,
    i: int,
    j: int,
)
    requires
        is_choice_of(r, assets, pat),
        0 <= i < j < assets.len(),
        name_matches(assets[i].name@, pat),
        name_matches(assets[j].name@, pat),
    ensures
        r matches Err(FindAssetError::ManyAssets { pat: p, assets: names }) && p@ == pat
            && names@.len() == count_set(answers_of(assets, pat), assets.len() as int)
            && forall|k: int|
            0 <= k < assets.len() && name_matches(#[trigger] assets[k].name@, pat) ==> exists|
                x: int,
            | 0 <= x < names@.len() && (#[trigger] names@[x])@ == assets[k].name@,
{
    let answers = answers_of(assets, pat);
    let n = assets.len() as int;
    lemma_picked(assets, answers, n);
    let matching = picked(assets, answers, n);
    assert(answers[i] && answers[j]);
    assert(matching.len() >= 2);
    match r {
        Ok(_) => {
            assert(matching.len() == 1);
        },
        Err(FindAssetError::NoAsset(_)) => {},
        Err(FindAssetError::ManyAssets { pat: p, assets: names }) => {
            assert forall|k: int|
                0 <= k < assets.len() && name_matches(
                    #[trigger] assets[k].name@,
                    pat,
                ) implies exists|x: int|
                0 <= x < names@.len() && (#[trigger] names@[x])@ == assets[k].name@ by {
                assert(answers[k]);
                let x = choose|x: int| 0 <= x < matching.len() && matching[x] == assets[k];
                assert(names@[x]@ == assets[k].name@);
            }
        },
    }
}

/// How many of the first `n` answers are set.
pub open spec fn count_set(answers: Seq<bool>, n: int) -> int
    decreases n,
{
    if n <= 0 {
        0
    } else {
        count_set(answers, n - 1) + if answers[n - 1] {
            1int
        } else {
            0int
        }
    }
}

proof fn lemma_count_of_one(answers: Seq<bool>, i: int, n: int)
    requires
        0 <= i < answers.len(),
        0 <= n <= answers.len(),
        answers[i],
        forall|j: int| 0 <= j < answers.len() && j != i ==> !answers[j],
    ensures
        count_set(answers, n) == if i < n {
            1int
        } else {
            0int
        },
    decreases n,
{
    if n > 0 {
        lemma_count_of_one(answers, i, n - 1);
    }
}

proof fn lemma_picked(assets: Seq<Asset>, answers: Seq<bool>, n: int)
    requires
        0 <= n <= assets.len(),
        answers.len() == assets.len(),
    ensures
        picked(assets, answers, n).len() == count_set(answers, n),
        count_set(answers, n) >= 0,
        forall|i: int| 0 <= i < n && answers[i] ==> count_set(answers, n) >= 1,
        forall|i: int, j: int|
            0 <= i < j < n && answers[i] && answers[j] ==> count_set(answers, n) >= 2,
        forall|i: int|
            0 <= i < n && answers[i] && count_set(answers, n) == 1 ==> picked(assets, answers, n)
                == seq![assets[i]],
        (forall|i: int| 0 <= i < n ==> !answers[i]) ==> count_set(answers, n) == 0,
        forall|i: int|
            0 <= i < n && answers[i] ==> exists|x: int|
                0 <= x < picked(assets, answers, n).len() && picked(assets, answers, n)[x]
                    == assets[i],
    decreases n,
{
    if n > 0 {
        lemma_picked(assets, answers, n - 1);
        let before = picked(assets, answers, n - 1);
        let now = picked(assets, answers, n);
        assert forall|i: int| 0 <= i < n && answers[i] implies exists|x: int|
            0 <= x < now.len() && now[x] == assets[i] by {
            if i == n - 1 {
                assert(now[now.len() - 1] == assets[i]);
            } else {
                let x = choose|x: int| 0 <= x < before.len() && before[x] == assets[i];
                assert(now[x] == assets[i]);
            }
        }
    }
}

} // verus!
