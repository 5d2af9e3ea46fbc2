//! The decisions of an update: whether a release is newer than what is
//! installed, which asset to fetch, and whether what was installed is what
//! the release promised.

use crate::domain::release::{
    is_choice_of, is_version_of, release_version, Asset, FindAssetError, Release,
};
use crate::utils::VersionError;
use crate::version::Version;
use vstd::prelude::*;

verus! {

/// What is to be done for a repository.
#[derive(Clone, Copy, Debug)]
pub enum UpdatePlan<'a> {
    /// The installed version is the release, or is newer.
    UpToDate,
    /// The release is newer: its version, and the asset to fetch.
    Install { version: Version, asset: &'a Asset },
}

/// Why an update was given up.
#[derive(Clone, Debug, PartialEq, Eq)]
pub enum UpdateError {
    /// The release reports no version.
    Version(VersionError),
    /// No asset, or more than one, answers to the pattern.
    Asset(FindAssetError),
    /// The program that was installed reports the version `found`, and the
    /// release is `expected`.
    VersionMismatch { expected: Version, found: Version },
}

/// `r` is the plan for a release, for someone who has the version `current`
/// and chooses assets by `pat`. A release that is not newer asks for
/// nothing, whatever its assets are.
pub open spec fn is_plan_of(
    r: Result<UpdatePlan, UpdateError>,
    current: Version,
    release: Release,
    pat: Seq<char>,
) -> bool {
    let latest = release_version(release.tag_name@, release.body@);
    match r {
        Ok(UpdatePlan::UpToDate) => latest matches Some(v) && !v.newer(current),
        Ok(UpdatePlan::Install { version, asset }) => {
            &&& latest == Some(version)
            &&& version.newer(current)
            &&& is_choice_of(Ok(asset), release.assets@, pat)
        },
        Err(UpdateError::Version(e)) => is_version_of(Err(e), release.tag_name@, release.body@),
        Err(UpdateError::Asset(e)) => {
            &&& latest matches Some(v) && v.newer(current)
            &&& is_choice_of(Err(e), release.assets@, pat)
        },
        Err(UpdateError::VersionMismatch { .. }) => false,
    }
}

/// Decides what to do about the latest release of a repository, given the
/// version that is installed.
pub fn plan_update<'a>(current: &Version, release: &'a Release, pat: &str) -> (r: Result<
    UpdatePlan<'a>,
    UpdateError,
>)
    ensures
        is_plan_of(r, *current, *release, pat@),
{
    let version = match release.version() {
        Ok(version) => version,
        Err(e) => {
            return Err(UpdateError::Version(e));
        },
    };
    if !version.is_newer_than(current) {
        return Ok(UpdatePlan::UpToDate);
    }
    match release.find_asset(pat) {
        Ok(asset) => Ok(UpdatePlan::Install { version, asset }),
        Err(e) => Err(UpdateError::Asset(e)),
    }
}

/// Confirms that the program that was installed is the release: it must
/// report the very version of the release.
pub fn check_installed(installed: &Version, release: &Version) -> (r: Result<(), UpdateError>)
    ensures
        match r {
            Ok(_) => *installed == *release,
            Err(e) => *installed != *release && e == (UpdateError::VersionMismatch {
                expected: *release,
                found: *installed,
            }),
        },
{
    if installed.major == release.major && installed.minor == release.minor && installed.patch
        == release.patch {
        Ok(())
    } else {
        Err(UpdateError::VersionMismatch { expected: *release, found: *installed })
    }
}

} // verus!
