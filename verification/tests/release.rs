use dl_releases::domain::release::choose_asset;
use dl_releases::domain::{Asset, FindAssetError, Release};
use dl_releases::update::{check_installed, plan_update, UpdateError, UpdatePlan};
use dl_releases::utils::{extract_version, VersionError};
use dl_releases::version::Version;

fn asset(name: &str) -> Asset {
    Asset {
        name: name.to_string(),
        browser_download_url: format!("https://example.org/download/{name}"),
        size: name.len() as u64,
    }
}

fn release(tag: &str, body: &str, names: &[&str]) -> Release {
    Release {
        tag_name: tag.to_string(),
        body: body.to_string(),
        created_at: 1_754_000_000,
        assets: names.iter().map(|n| asset(n)).collect(),
    }
}

fn lazygit() -> Release {
    release(
        "v0.54.1",
        "## What's Changed\n* fixes",
        &[
            "checksums.txt",
            "lazygit_0.54.1_darwin_arm64.tar.gz",
            "lazygit_0.54.1_darwin_x86_64.tar.gz",
            "lazygit_0.54.1_linux_arm64.tar.gz",
            "lazygit_0.54.1_linux_x86_64.tar.gz",
            "lazygit_0.54.1_windows_x86_64.zip",
        ],
    )
}

fn lazydocker() -> Release {
    release(
        "v0.24.1",
        "",
        &[
            "checksums.txt",
            "lazydocker_0.24.1_Darwin_arm64.tar.gz",
            "lazydocker_0.24.1_Linux_arm64.tar.gz",
            "lazydocker_0.24.1_Linux_x86_64.tar.gz",
            "lazydocker_0.24.1_Windows_x86_64.zip",
        ],
    )
}

fn rust_analyzer() -> Release {
    release(
        "2025-08-11",
        "Commit: 0e6a6b6\nRelease: 2025-08-11 (v0.3.2563)\nSee the changelog",
        &[
            "rust-analyzer-aarch64-unknown-linux-gnu.gz",
            "rust-analyzer-x86_64-apple-darwin.gz",
            "rust-analyzer-x86_64-unknown-linux-gnu.gz",
            "rust-analyzer-x86_64-unknown-linux-musl.gz",
        ],
    )
}

#[test]
fn find_linux_asset_works() {
    let cases = [
        (lazydocker(), "linux_x86_64", "lazydocker_0.24.1_Linux_x86_64.tar.gz"),
        (lazygit(), "linux_x86_64", "lazygit_0.54.1_linux_x86_64.tar.gz"),
        (rust_analyzer(), "x86_64-unknown-linux-gnu", "rust-analyzer-x86_64-unknown-linux-gnu.gz"),
    ];
    for (release, pat, expected) in cases {
        let found = release.find_asset(pat).unwrap();
        assert_eq!(found.name, expected);
    }
}

#[test]
fn get_version_works() {
    let cases = [(lazydocker(), (0, 24, 1)), (lazygit(), (0, 54, 1)), (rust_analyzer(), (0, 3, 2563))];
    for (release, (major, minor, patch)) in cases {
        assert_eq!(release.version(), Ok(Version { major, minor, patch }));
    }
}

#[test]
fn one_of_two_assets_is_chosen() {
    let r = release(
        "v0.54.1",
        "",
        &["lazygit_0.54.1_linux_x86_64.tar.gz", "lazygit_0.54.1_darwin_arm64.tar.gz"],
    );
    let found = r.find_asset("linux_x86_64").unwrap();
    assert_eq!(found, &r.assets[0]);
    assert_eq!(found.browser_download_url, "https://example.org/download/lazygit_0.54.1_linux_x86_64.tar.gz");
}

#[test]
fn no_asset_is_reported_with_the_pattern() {
    let r = lazygit();
    assert_eq!(r.find_asset("freebsd"), Err(FindAssetError::NoAsset("freebsd".to_string())));
    let empty = release("v1.0.0", "", &[]);
    assert_eq!(empty.find_asset("linux"), Err(FindAssetError::NoAsset("linux".to_string())));
    assert_eq!(empty.find_asset(""), Err(FindAssetError::NoAsset("".to_string())));
}

#[test]
fn several_assets_are_all_named() {
    let r = lazygit();
    assert_eq!(
        r.find_asset("linux"),
        Err(FindAssetError::ManyAssets {
            pat: "linux".to_string(),
            assets: vec![
                "lazygit_0.54.1_linux_arm64.tar.gz".to_string(),
                "lazygit_0.54.1_linux_x86_64.tar.gz".to_string(),
            ],
        })
    );
    assert_eq!(
        r.find_asset("x86_64"),
        Err(FindAssetError::ManyAssets {
            pat: "x86_64".to_string(),
            assets: vec![
                "lazygit_0.54.1_darwin_x86_64.tar.gz".to_string(),
                "lazygit_0.54.1_linux_x86_64.tar.gz".to_string(),
                "lazygit_0.54.1_windows_x86_64.zip".to_string(),
            ],
        })
    );
}

#[test]
fn empty_pattern_answers_to_every_asset() {
    let one = release("v1.0.0", "", &["only.gz"]);
    assert_eq!(one.find_asset("").unwrap().name, "only.gz");
    let two = release("v1.0.0", "", &["a.gz", "b.gz"]);
    assert_eq!(
        two.find_asset(""),
        Err(FindAssetError::ManyAssets {
            pat: "".to_string(),
            assets: vec!["a.gz".to_string(), "b.gz".to_string()],
        })
    );
}

#[test]
fn letter_case_is_set_aside_on_both_sides() {
    let r = lazydocker();
    assert_eq!(r.find_asset("linux_x86_64").unwrap().name, "lazydocker_0.24.1_Linux_x86_64.tar.gz");
    assert_eq!(r.find_asset("Linux_X86_64").unwrap().name, "lazydocker_0.24.1_Linux_x86_64.tar.gz");
    assert_eq!(r.find_asset("DARWIN").unwrap().name, "lazydocker_0.24.1_Darwin_arm64.tar.gz");
    let accents = release("v1.0.0", "", &["ÉCLAIR-Linux.gz", "other.gz"]);
    assert_eq!(accents.find_asset("éclair").unwrap().name, "ÉCLAIR-Linux.gz");
}

#[test]
fn pattern_must_stand_in_the_name_unbroken() {
    let r = lazygit();
    assert_eq!(r.find_asset("linux-x86_64"), Err(FindAssetError::NoAsset("linux-x86_64".to_string())));
    assert_eq!(r.find_asset("lazygit_0.54.1_linux_x86_64.tar.gz.sig"), Err(FindAssetError::NoAsset(
        "lazygit_0.54.1_linux_x86_64.tar.gz.sig".to_string()
    )));
    assert_eq!(r.find_asset("checksums.txt").unwrap().name, "checksums.txt");
    assert_eq!(r.find_asset(".zip").unwrap().name, "lazygit_0.54.1_windows_x86_64.zip");
}

#[test]
fn equal_names_are_several_assets() {
    let r = release("v1.0.0", "", &["tool.gz", "tool.gz"]);
    assert_eq!(
        r.find_asset("tool"),
        Err(FindAssetError::ManyAssets {
            pat: "tool".to_string(),
            assets: vec!["tool.gz".to_string(), "tool.gz".to_string()],
        })
    );
}

#[test]
fn tag_is_read_before_the_description() {
    let both = release("v1.2.3", "this is 4.5.6", &[]);
    assert_eq!(both.version(), Ok(Version { major: 1, minor: 2, patch: 3 }));
    let body_only = release("nightly", "this is 4.5.6", &[]);
    assert_eq!(body_only.version(), Ok(Version { major: 4, minor: 5, patch: 6 }));
    let neither = release("nightly", "no numbers", &[]);
    assert_eq!(neither.version(), Err(VersionError::NoVersionFound("no numbers".to_string())));
    let bad_body = release("nightly", "this is 4.05.6", &[]);
    assert_eq!(bad_body.version(), Err(VersionError::VersionParseError("4.05.6".to_string())));
}

#[test]
fn tag_that_is_no_version_is_an_error() {
    let bad_tag = release("01.2.3", "1.2.3", &[]);
    assert_eq!(bad_tag.version(), Err(VersionError::VersionParseError("01.2.3".to_string())));
    let bad_tag = release("v01.2.3", "this is 4.5.6", &[]);
    assert_eq!(bad_tag.version(), Err(VersionError::VersionParseError("01.2.3".to_string())));
    let bad_both = release("v01.2.3", "this is 4.05.6", &[]);
    assert_eq!(bad_both.version(), Err(VersionError::VersionParseError("01.2.3".to_string())));
    let too_large = release("v1.18446744073709551616.0", "1.2.3", &[]);
    assert_eq!(
        too_large.version(),
        Err(VersionError::VersionParseError("1.18446744073709551616.0".to_string()))
    );
    let old = Version { major: 0, minor: 1, patch: 0 };
    assert_eq!(
        plan_update(&old, &release("01.2.3", "1.2.3", &["tool_linux.gz"]), "linux").unwrap_err(),
        UpdateError::Version(VersionError::VersionParseError("01.2.3".to_string()))
    );
}

#[test]
fn asset_is_chosen_among_lowered_names() {
    let assets = vec![asset("Tool_Linux.gz"), asset("Tool_Darwin.gz"), asset("Tool_Linux_arm.gz")];
    let lowered: Vec<Vec<char>> =
        assets.iter().map(|a| a.name.to_lowercase().chars().collect()).collect();
    let needle = |s: &str| -> Vec<char> { s.chars().collect() };
    assert_eq!(choose_asset(&assets, &lowered, &needle("darwin"), "Darwin"), Ok(&assets[1]));
    assert_eq!(
        choose_asset(&assets, &lowered, &needle("windows"), "Windows"),
        Err(FindAssetError::NoAsset("Windows".to_string()))
    );
    assert_eq!(
        choose_asset(&assets, &lowered, &needle("linux"), "LINUX"),
        Err(FindAssetError::ManyAssets {
            pat: "LINUX".to_string(),
            assets: vec!["Tool_Linux.gz".to_string(), "Tool_Linux_arm.gz".to_string()],
        })
    );
    assert_eq!(
        choose_asset(&assets, &lowered, &needle("Darwin"), "Darwin"),
        Err(FindAssetError::NoAsset("Darwin".to_string()))
    );
    let none: Vec<Asset> = Vec::new();
    assert_eq!(
        choose_asset(&none, &Vec::new(), &needle(""), ""),
        Err(FindAssetError::NoAsset("".to_string()))
    );
}

#[test]
fn newer_release_triggers_the_update() {
    let installed = extract_version("lazygit version 0.50.0").unwrap();
    assert_eq!(installed, Version { major: 0, minor: 50, patch: 0 });
    let r = lazygit();
    assert_eq!(r.version(), Ok(Version { major: 0, minor: 54, patch: 1 }));
    assert!(r.version().unwrap().is_newer_than(&installed));
    match plan_update(&installed, &r, "linux_x86_64") {
        Ok(UpdatePlan::Install { version, asset }) => {
            assert_eq!(version, Version { major: 0, minor: 54, patch: 1 });
            assert_eq!(asset.name, "lazygit_0.54.1_linux_x86_64.tar.gz");
        }
        other => panic!("{other:?}"),
    }
}

#[test]
fn release_that_is_not_newer_asks_for_nothing() {
    let r = lazygit();
    let same = Version { major: 0, minor: 54, patch: 1 };
    assert!(matches!(plan_update(&same, &r, "linux_x86_64"), Ok(UpdatePlan::UpToDate)));
    let later = Version { major: 1, minor: 0, patch: 0 };
    assert!(matches!(plan_update(&later, &r, "linux_x86_64"), Ok(UpdatePlan::UpToDate)));
    assert!(matches!(plan_update(&later, &r, "no such asset"), Ok(UpdatePlan::UpToDate)));
}

#[test]
fn update_is_given_up_with_the_reason() {
    let old = Version { major: 0, minor: 1, patch: 0 };
    let r = lazygit();
    assert_eq!(
        plan_update(&old, &r, "freebsd").unwrap_err(),
        UpdateError::Asset(FindAssetError::NoAsset("freebsd".to_string()))
    );
    assert!(matches!(
        plan_update(&old, &r, "linux"),
        Err(UpdateError::Asset(FindAssetError::ManyAssets { .. }))
    ));
    let unnamed = release("latest", "nothing", &["tool_linux.gz"]);
    assert_eq!(
        plan_update(&old, &unnamed, "linux").unwrap_err(),
        UpdateError::Version(VersionError::NoVersionFound("nothing".to_string()))
    );
}

#[test]
fn installed_version_must_be_the_release() {
    let release = Version { major: 0, minor: 54, patch: 1 };
    assert_eq!(check_installed(&release, &release), Ok(()));
    let other = Version { major: 0, minor: 54, patch: 0 };
    assert_eq!(
        check_installed(&other, &release),
        Err(UpdateError::VersionMismatch { expected: release, found: other })
    );
    let newer = Version { major: 0, minor: 55, patch: 0 };
    assert_eq!(
        check_installed(&newer, &release),
        Err(UpdateError::VersionMismatch { expected: release, found: newer })
    );
}
