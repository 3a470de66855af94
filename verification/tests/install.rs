//! Finding, fetching, unpacking and installing plugins.

use std::cell::RefCell;

use stanchion::archive::{pack_archive, unpack_archive};
use stanchion::fetch::{
    bare_reference, judge_answer, judge_reference, parse_reference, select_layer, translate,
    HttpIndex, HttpSource, OciFailure, DEFAULT_PACKAGE_LIMIT, LAYER_MEDIA_TYPE,
};
use stanchion::index::{
    accept_releases, believe_releases, keep_newer, no_catalog, releases_path, resolve, resolve_in, validate_name, Catalog,
    Freshness, IndexError, PluginIndex, PluginReleases, Release,
};
use stanchion::install::{
    check_manifest, choose_release, commit_next, release_reference, CommitStep, InstallError,
    Installer, PluginSource, SourceError, StepOutcome,
};
use stanchion::lock::{LockError, LockedPlugin, Lockfile};
use stanchion::manifest::{
    DependencySpec, DetailedDependency, Manifest, Param, PluginType,
};
use stanchion::names::NameMap;
use stanchion::package::{
    check_packable, entry_kind, pack_order, safe_relative, verify_directory, EntryKind, Limits,
    PackageError, Unpacking,
};
use stanchion::path::{components, is_absolute, join, Component};
use stanchion::signature::DirectoryDigest;
use stanchion::staging::Refused;
use stanchion::upgrade::{judge_version, narrows, Change, UpgradeReview};
use stanchion::value::Toml;
use stanchion::version::{Order, Version, VersionReq};

#[test]
fn traversal_and_absolute_paths_are_refused() {
    assert_eq!(safe_relative("init.lua").as_deref(), Some("init.lua"));
    assert_eq!(safe_relative("./lib/./util.lua").as_deref(), Some("lib/util.lua"));
    assert_eq!(safe_relative("../outside"), None);
    assert_eq!(safe_relative("lib/../../outside"), None);
    assert_eq!(safe_relative("/etc/passwd"), None);
    assert_eq!(safe_relative(""), None);
    assert_eq!(safe_relative("."), None);
}

#[test]
fn a_foreign_scheme_is_unsupported_rather_than_an_error() {
    let source = HttpSource::new();
    for reference in ["oci://ghcr.io/acme/p:1", "ftp://host/p.tar.gz", "p.tar.gz", ""] {
        match source.check_reference(reference) {
            Err(SourceError::Unsupported(named)) => assert_eq!(named, reference),
            other => panic!("expected Unsupported for `{reference}`, got {other:?}"),
        }
    }
    assert!(source.check_reference("https://host/p.tar.gz").is_ok());
}

#[test]
fn the_package_limit_is_configurable_and_defaulted() {
    assert_eq!(HttpSource::new().configured_limit(), DEFAULT_PACKAGE_LIMIT);
    assert_eq!(HttpSource::new().limit(1024).configured_limit(), 1024);
}

#[test]
fn paths_are_taken_apart_and_joined() {
    assert!(is_absolute("/a") && !is_absolute("a"));
    assert_eq!(
        components("/a/./b//../c"),
        vec![
            Component::Root,
            Component::Name("a".to_string()),
            Component::Name("b".to_string()),
            Component::Up,
            Component::Name("c".to_string()),
        ]
    );
    assert_eq!(join("/a", "b"), "/a/b");
    assert_eq!(join("/a/", "b"), "/a/b");
    assert_eq!(join("/a", "/b"), "/b");
}

#[test]
fn an_archive_is_unpacked_within_its_limits() {
    let mut unpacking =
        Unpacking::new(Limits { entries: 3, total_bytes: 100, file_bytes: 60 });
    let file = EntryKind::File;
    assert_eq!(
        unpacking.judge_entry(Some("lib/a.lua"), "lib/a.lua", &file, 50),
        Ok(Some("lib/a.lua".to_string()))
    );
    assert_eq!(
        unpacking.judge_entry(Some("lib"), "lib", &EntryKind::Directory, 0),
        Ok(None)
    );
    assert_eq!(
        unpacking.judge_entry(Some("./lib/a.lua"), "./lib/a.lua", &file, 1),
        Err(PackageError::DuplicateEntry("lib/a.lua".to_string()))
    );
    assert!(matches!(
        unpacking.judge_entry(Some("../b"), "../b", &file, 1),
        Err(PackageError::UnsafePath(_))
    ));
    assert!(matches!(
        unpacking.judge_entry(None, "\u{fffd}", &file, 1),
        Err(PackageError::UnsafePath(_))
    ));
    assert!(matches!(
        unpacking.judge_entry(Some("link"), "link", &EntryKind::Symlink, 0),
        Err(PackageError::UnsafeEntry { .. })
    ));
    let mut unpacking =
        Unpacking::new(Limits { entries: 3, total_bytes: 100, file_bytes: 60 });
    assert!(matches!(
        unpacking.judge_entry(Some("big"), "big", &file, 61),
        Err(PackageError::TooLarge(_))
    ));
    let mut unpacking =
        Unpacking::new(Limits { entries: 3, total_bytes: 100, file_bytes: 60 });
    assert!(unpacking.judge_entry(Some("a"), "a", &file, 60).is_ok());
    assert!(matches!(
        unpacking.judge_entry(Some("b"), "b", &file, 60),
        Err(PackageError::TooLarge(_))
    ));
    assert_eq!(Limits::default().entries, 4096);
}

#[test]
fn a_file_may_not_outgrow_its_declaration() {
    let mut unpacking =
        Unpacking::new(Limits { entries: 3, total_bytes: 100, file_bytes: 60 });
    assert!(unpacking.judge_entry(Some("a"), "a", &EntryKind::File, 10).is_ok());
    assert!(unpacking.check_written("a", 60).is_ok());
    assert!(unpacking.check_written("a", 61).is_err());
    assert_eq!(unpacking.read_budget(), 61);
}

#[test]
fn only_files_are_packed_in_the_order_of_their_paths() {
    assert!(check_packable("a", true, false, "file").is_ok());
    assert!(matches!(
        check_packable("a", false, true, "file"),
        Err(PackageError::UnsafeEntry { .. })
    ));
    let packed = pack_order(vec![
        ("b".to_string(), b"2".to_vec()),
        ("a".to_string(), b"1".to_vec()),
    ]);
    let names: Vec<&str> = packed.entries.iter().map(|e| e.0.as_str()).collect();
    assert_eq!(names, vec!["a", "b"]);
    assert_eq!(entry_kind(&EntryKind::Symlink), "symlink");
}

fn files() -> Vec<(String, Vec<u8>)> {
    vec![
        ("plugin.toml".to_string(), b"name = \"p\"\n".to_vec()),
        ("init.lua".to_string(), b"return {}\n".to_vec()),
    ]
}

#[test]
fn a_directory_is_what_its_digest_names() {
    let hex = DirectoryDigest::compute(&files()).hex();
    assert!(verify_directory(&files(), &hex).is_ok());
    assert!(verify_directory(&files(), &format!("sha256:{}", hex.to_uppercase())).is_ok());
    assert_eq!(
        verify_directory(&files(), &"00".repeat(32)).unwrap_err(),
        PackageError::DigestMismatch {
            expected: format!("sha256:{}", "00".repeat(32)),
            found: format!("sha256:{hex}"),
        }
    );
}

fn release(version: &str) -> Release {
    let hex = DirectoryDigest::compute(&files()).hex();
    Release::new(Version::parse(version).unwrap(), &format!("sha256:{hex}"))
}

fn document(releases: Vec<Release>) -> PluginReleases {
    PluginReleases {
        schema: 1,
        name: "p".to_string(),
        updated: None,
        expires: None,
        releases,
    }
}

fn requirement(text: &str) -> VersionReq {
    VersionReq::parse(text).unwrap()
}

#[test]
fn the_newest_release_that_is_not_withdrawn_is_chosen() {
    let mut yanked = release("1.9.0");
    yanked.yanked = true;
    let document = document(vec![
        release("1.0.0"),
        release("1.10.0"),
        yanked,
        release("2.0.0"),
    ]);
    assert_eq!(
        document.best_match(&requirement("^1")).unwrap().version.to_string(),
        "1.10.0"
    );
    assert_eq!(
        document.exact(&Version::new(1, 9, 0)).unwrap().version.to_string(),
        "1.9.0"
    );
    assert!(document.best_match(&requirement("^3")).is_none());
    assert!(matches!(
        resolve_in(&document, "p", &requirement("=1.9.0")),
        Err(IndexError::NoMatch { .. })
    ));
    assert!(document.validate("p").is_ok());
    assert!(document.validate("q").is_err());
}

#[test]
fn a_pinned_version_is_installed_even_when_withdrawn() {
    let mut old = release("1.0.0");
    old.yanked = true;
    let document = document(vec![old, release("1.1.0")]);
    let mut lock = Lockfile::new();
    let chosen = choose_release(&document, "p", &requirement("*"), &lock).unwrap();
    assert_eq!(chosen.version.to_string(), "1.1.0");
    lock.pin("p", chosen.to_pin().at_version(Version::new(1, 0, 0)));
    let chosen = choose_release(&document, "p", &requirement("*"), &lock).unwrap();
    assert_eq!(chosen.version.to_string(), "1.0.0");
    lock.pin("p", LockedPlugin::new(&chosen.hex()).at_version(Version::new(3, 0, 0)));
    assert!(choose_release(&document, "p", &requirement("*"), &lock).is_err());
}

#[test]
fn nothing_is_fetched_that_the_lockfile_does_not_allow() {
    let mut lock = Lockfile::new();
    let bare = release("1.0.0");
    assert_eq!(
        release_reference("p", &bare, &lock).unwrap_err(),
        InstallError::NoSource("p".to_string())
    );
    let sourced = release("1.0.0").from_source("https://host/p.tar.gz");
    assert_eq!(release_reference("p", &sourced, &lock).unwrap(), "https://host/p.tar.gz");
    lock.pin("p", LockedPlugin::new(&"00".repeat(32)));
    assert!(matches!(
        release_reference("p", &sourced, &lock),
        Err(InstallError::Lock(LockError::DigestMismatch { .. }))
    ));
}

fn manifest(name: &str, version: &str) -> Manifest {
    Manifest {
        name: name.to_string(),
        version: Some(Version::parse(version).unwrap()),
        plugin_type: PluginType::Lua,
        entry: "init.lua".to_string(),
        dependencies: NameMap::new(),
        capabilities: NameMap::new(),
        rocks: NameMap::new(),
        config: NameMap::new(),
        budget: None,
        dir: "/staging".to_string(),
    }
}

/// An index of one document.
struct Shelf(fn() -> Result<PluginReleases, IndexError>);

impl PluginIndex for Shelf {
    fn releases(&self, _name: &str) -> Result<PluginReleases, IndexError> {
        (self.0)()
    }
}

/// A source that notes what it is asked for.
struct Store {
    asked: RefCell<Vec<String>>,
}

impl PluginSource for Store {
    fn fetch(&self, reference: &str) -> Result<Vec<u8>, SourceError> {
        self.asked.borrow_mut().push(reference.to_string());
        if reference.contains("missing") {
            return Err(SourceError::NotFound(reference.to_string()));
        }
        if reference.contains("broken") {
            return Ok(b"archive".to_vec());
        }
        Ok(pack_archive(&pack_order(files())).unwrap())
    }
}

fn shelf() -> Result<PluginReleases, IndexError> {
    Ok(document(vec![
        release("1.0.0").from_source("https://host/one.tar.gz"),
        release("1.1.0").from_source("https://host/two.tar.gz"),
        release("1.2.0").from_source("https://host/missing.tar.gz"),
    ]))
}

fn installer() -> Installer<Shelf, Store> {
    Installer::new(Shelf(shelf), Store { asked: RefCell::new(Vec::new()) }, "/plugins")
}

#[test]
fn a_plugin_is_staged_and_checked() {
    let installer = installer();
    let staging = Some("/plugins/.p.staging".to_string());
    let make = |dir: &str| {
        assert_eq!(dir, "/plugins/.p.staging");
        None
    };
    let write = |dir: &str, unpacked: &Vec<(String, Vec<u8>)>| {
        assert_eq!(dir, "/plugins/.p.staging");
        Ok(unpacked.clone())
    };
    let read = |_dir: &str| Ok(manifest("p", "1.0.0"));
    let installed = |dir: &str| {
        assert_eq!(dir, "/plugins/p");
        None
    };
    let lock = Lockfile::new();
    let staged = installer
        .stage("p", &requirement("=1.0.0"), &lock, &make, &write, &read, &installed)
        .unwrap();
    assert_eq!(staged.name(), "p");
    assert_eq!(staged.staging_dir(), "/plugins/.p.staging");
    assert_eq!(staged.target_dir(), "/plugins/p");
    assert_eq!(staged.digest().hex(), DirectoryDigest::compute(&files()).hex());
    assert!(staged.review().is_none() && staged.widens());
    assert_eq!(staged.pin().hex(), staged.release().hex());
    assert_eq!(staged.manifest().name, "p");

    // The package says it is another version than the release it was fetched as.
    let result = installer.stage_upgrade(
        "p",
        &requirement("~1.1"),
        &lock,
        &make,
        &write,
        &read,
        &installed,
    );
    let refused = result.unwrap_err();
    assert!(matches!(refused.error, InstallError::Mismatch(_)));
    assert_eq!(refused.discard, staging);

    // Bytes other than those the release names.
    let wrong = |_dir: &str, _files: &Vec<(String, Vec<u8>)>| Ok(Vec::new());
    let result = installer
        .stage("p", &requirement("=1.0.0"), &lock, &make, &wrong, &read, &installed);
    let refused = result.unwrap_err();
    assert!(matches!(
        refused.error,
        InstallError::Package(PackageError::DigestMismatch { .. })
    ));
    assert_eq!(refused.discard, staging);

    let result =
        installer.stage("p", &requirement("*"), &lock, &make, &write, &read, &installed);
    let refused = result.unwrap_err();
    assert!(matches!(refused.error, InstallError::Source(SourceError::NotFound(_))));
    assert_eq!(refused.discard, None);
    let result =
        installer.stage("p", &requirement("^9"), &lock, &make, &write, &read, &installed);
    let refused = result.unwrap_err();
    assert!(matches!(refused.error, InstallError::Index(IndexError::NoMatch { .. })));
    assert_eq!(refused.discard, None);

    // No directory can be had.
    let full = |_dir: &str| Some(InstallError::Io("no space".to_string()));
    let result = installer
        .stage("p", &requirement("=1.0.0"), &lock, &full, &write, &read, &installed);
    assert_eq!(
        result.unwrap_err(),
        Refused { error: InstallError::Io("no space".to_string()), discard: staging.clone() }
    );

    // Bytes that are no archive.
    let broken = release("1.0.0").from_source("https://host/broken.tar.gz");
    let result = installer
        .stage_release("p", broken, &lock, &make, &write, &read, &installed);
    let refused = result.unwrap_err();
    assert!(matches!(refused.error, InstallError::Package(PackageError::Io(_))));
    assert_eq!(refused.discard, staging);
}

#[test]
fn an_upgrade_is_not_held_to_the_pin_of_what_is_installed() {
    let installer = installer();
    let make = |_dir: &str| None;
    let write = |_dir: &str, unpacked: &Vec<(String, Vec<u8>)>| Ok(unpacked.clone());
    let read = |_dir: &str| Ok(manifest("p", "1.1.0"));
    let installed = |_dir: &str| Some(manifest("p", "1.0.0"));
    let mut lock = Lockfile::new();
    lock.pin(
        "p",
        LockedPlugin::new(&"00".repeat(32)).at_version(Version::parse("1.0.0").unwrap()),
    );
    let staged = installer
        .stage_upgrade("p", &requirement("~1.1"), &lock, &make, &write, &read, &installed)
        .unwrap();
    assert_eq!(staged.release().version.to_string(), "1.1.0");
    let review = staged.review().unwrap();
    assert_eq!(review.name, "p");
    assert_eq!(review.from.to_string(), "1.0.0");
    assert_eq!(review.to.to_string(), "1.1.0");
    assert!(review.is_empty() && !staged.widens());
    let held = installer
        .stage("p", &requirement("*"), &lock, &make, &write, &read, &installed);
    assert!(matches!(
        held.unwrap_err().error,
        InstallError::Lock(LockError::DigestMismatch { .. })
    ));
}

#[test]
fn what_is_packed_is_what_is_unpacked() {
    let long = format!("{}/deep.lua", "d".repeat(150));
    let mut listed = files();
    listed.push((long.clone(), vec![7; 3000]));
    listed.push(("empty".to_string(), Vec::new()));
    let archive = pack_archive(&pack_order(listed.clone())).unwrap();
    assert_eq!(archive, pack_archive(&pack_order(listed.clone())).unwrap());
    let unpacked = unpack_archive(&archive, Limits::default()).unwrap();
    let names: Vec<&str> = unpacked.iter().map(|file| file.0.as_str()).collect();
    assert_eq!(names, vec![long.as_str(), "empty", "init.lua", "plugin.toml"]);
    listed.sort();
    assert_eq!(unpacked, listed);
    assert_eq!(
        DirectoryDigest::compute(&unpacked).hex(),
        DirectoryDigest::compute(&listed).hex()
    );
    let mut header = tar::Archive::new(flate2::read::GzDecoder::new(archive.as_slice()));
    let first = header.entries().unwrap().next().unwrap().unwrap();
    assert_eq!(first.header().mode().unwrap(), 0o644);
    assert_eq!(first.header().uid().unwrap(), 0);
    assert_eq!(first.header().mtime().unwrap(), 0);
    assert!(matches!(
        pack_archive(&pack_order(vec![("../x".to_string(), Vec::new())])),
        Err(PackageError::Io(_))
    ));
}

fn archive_with(entry: tar::EntryType, path: &str, contents: &[u8]) -> Vec<u8> {
    let encoder = flate2::write::GzEncoder::new(Vec::new(), flate2::Compression::default());
    let mut builder = tar::Builder::new(encoder);
    for _ in 0..2 {
        let mut header = tar::Header::new_gnu();
        header.set_size(contents.len() as u64);
        header.set_entry_type(entry);
        header.as_gnu_mut().unwrap().name[..path.len()].copy_from_slice(path.as_bytes());
        header.set_cksum();
        builder.append(&header, contents).unwrap();
    }
    builder.into_inner().unwrap().finish().unwrap()
}

#[test]
fn an_unsafe_archive_is_refused() {
    let limits = Limits::default();
    let refused = |archive: &[u8], limits: Limits| unpack_archive(archive, limits).unwrap_err();
    let regular = tar::EntryType::Regular;
    assert_eq!(
        refused(&archive_with(tar::EntryType::Symlink, "l", b""), limits),
        PackageError::UnsafeEntry { path: "l".to_string(), kind: "symlink".to_string() }
    );
    assert_eq!(
        refused(&archive_with(tar::EntryType::Continuous, "c", b""), limits),
        PackageError::UnsafeEntry { path: "c".to_string(), kind: "Continuous entry".to_string() }
    );
    assert_eq!(
        refused(&archive_with(regular, "../x", b"1"), limits),
        PackageError::UnsafePath("../x".to_string())
    );
    assert_eq!(
        refused(&archive_with(regular, "x", b"1"), limits),
        PackageError::DuplicateEntry("x".to_string())
    );
    assert_eq!(
        refused(&archive_with(regular, "x", b"12"), Limits { file_bytes: 1, ..limits }),
        PackageError::TooLarge("`x` declares 2 bytes, over the 1 byte limit".to_string())
    );
    assert_eq!(
        refused(&archive_with(regular, "x", b"12"), Limits { total_bytes: 1, ..limits }),
        PackageError::TooLarge("archive expands past the 1 byte limit".to_string())
    );
    assert!(unpack_archive(&archive_with(tar::EntryType::Directory, "d/", b""), limits)
        .unwrap()
        .is_empty());
    assert!(matches!(refused(b"archive", limits), PackageError::Io(_)));
}

fn understated() -> Vec<u8> {
    // A size record before an entry overrides the size in the entry's own header.
    let encoder = flate2::write::GzEncoder::new(Vec::new(), flate2::Compression::default());
    let mut builder = tar::Builder::new(encoder);
    builder.append_pax_extensions([("size", b"6".as_slice())]).unwrap();
    let mut header = tar::Header::new_gnu();
    header.set_size(0);
    header.set_entry_type(tar::EntryType::Regular);
    header.as_gnu_mut().unwrap().name[..1].copy_from_slice(b"x");
    header.set_cksum();
    builder.append(&header, b"abcdef".as_slice()).unwrap();
    builder.into_inner().unwrap().finish().unwrap()
}

#[test]
fn an_archive_is_held_to_what_it_holds() {
    let limits = Limits::default();
    let archive = understated();
    assert_eq!(
        unpack_archive(&archive, limits),
        Ok(vec![("x".to_string(), b"abcdef".to_vec())])
    );
    assert_eq!(
        unpack_archive(&archive, Limits { file_bytes: 5, ..limits }),
        Err(PackageError::TooLarge("`x` is larger than its header declared".to_string()))
    );
    assert_eq!(
        unpack_archive(&archive, Limits { total_bytes: 5, ..limits }),
        Err(PackageError::TooLarge("archive expands past the 5 byte limit".to_string()))
    );
}

#[test]
fn the_order_of_a_list_does_not_choose() {
    let listed = |versions: [&str; 3]| document(versions.iter().map(|v| release(v)).collect());
    for versions in [
        ["1.0.0", "1.2.0", "1.2.0+a"],
        ["1.2.0+a", "1.0.0", "1.2.0"],
        ["1.2.0", "1.2.0+a", "1.0.0"],
    ] {
        let found = listed(versions).best_match(&requirement("^1")).unwrap().version.to_string();
        assert_eq!(found, "1.2.0+a");
    }
}

#[test]
fn a_changed_requirement_is_a_difference() {
    let with = |version: &str, formatter: &str, rock: &str| {
        let mut manifest = manifest("p", version);
        manifest
            .dependencies
            .insert("formatter".to_string(), DependencySpec::Requirement(requirement(formatter)));
        manifest.rocks.insert("lpeg".to_string(), rock.to_string());
        manifest
    };
    let same = UpgradeReview::between(&with("1.0.0", "^1.0", "1.1"), &with("1.1.0", "^1.0", "1.1"));
    assert!(same.is_empty());
    let moved =
        UpgradeReview::between(&with("1.0.0", "^1.0", "1.1"), &with("1.1.0", "^2.0", "1.2"));
    assert!(!moved.is_empty() && !moved.widens());
    let lines: Vec<String> = moved.changes.iter().map(|change| change.to_string()).collect();
    assert_eq!(
        lines,
        vec![
            "~ dependency `formatter`: ^1.0 -> ^2.0".to_string(),
            "~ rock `lpeg`: 1.1 -> 1.2 (unsigned, outside the sandbox)".to_string(),
        ]
    );
    let mut optional = with("1.1.0", "^1.0", "1.1");
    optional.dependencies.insert(
        "formatter".to_string(),
        DependencySpec::Detailed(DetailedDependency {
            version: requirement("^1.0"),
            optional: true,
        }),
    );
    let review = UpgradeReview::between(&with("1.0.0", "^1.0", "1.1"), &optional);
    assert!(!review.is_empty() && !review.widens());
    assert_eq!(
        review.changes[0].to_string(),
        "~ dependency `formatter`: ^1.0 -> ^1.0 (optional)"
    );
    let mut other = manifest("p", "1.1.0");
    other.plugin_type = PluginType::Wasm;
    other.budget = Some(stanchion::manifest::Budget { max_instructions: 5 });
    other.config.insert("greeting".to_string(), Toml::Boolean(true));
    let review = UpgradeReview::between(&manifest("p", "1.0.0"), &other);
    let lines: Vec<String> = review.changes.iter().map(|change| change.to_string()).collect();
    assert_eq!(
        lines,
        vec![
            "~ type: lua -> wasm".to_string(),
            "~ budget: none -> 5".to_string(),
            "~ config".to_string(),
        ]
    );
    assert!(!review.widens());
}

#[test]
fn a_package_is_the_plugin_it_is_fetched_as() {
    let release = release("1.0.0");
    assert!(check_manifest("p", &release, &manifest("p", "1.0.0")).is_ok());
    assert_eq!(
        check_manifest("p", &release, &manifest("q", "1.0.0")).unwrap_err(),
        InstallError::Mismatch(
            "the package for `p` contains a plugin named `q`".to_string()
        )
    );
    assert!(check_manifest("p", &release, &manifest("p", "1.0.1")).is_err());
}

#[test]
fn a_first_install_moves_straight_in() {
    let run = |outcomes: &[StepOutcome]| {
        outcomes.iter().fold(CommitStep::LookForPrevious, |step, outcome| {
            commit_next(step, *outcome)
        })
    };
    let (yes, no) = (StepOutcome::Yes, StepOutcome::No);
    assert_eq!(run(&[no, no]), CommitStep::MoveIn { had: false });
    assert_eq!(run(&[no, no, yes]), CommitStep::Done);
    assert_eq!(run(&[no, no, no, yes]), CommitStep::Failed);
}

#[test]
fn a_commit_moves_aside_before_it_moves_in() {
    let mut step = CommitStep::LookForPrevious;
    let mut seen = Vec::new();
    for outcome in [
        StepOutcome::No,
        StepOutcome::Yes,
        StepOutcome::Yes,
        StepOutcome::No,
        StepOutcome::Yes,
        StepOutcome::Yes,
    ] {
        step = commit_next(step, outcome);
        seen.push(step);
    }
    assert_eq!(
        seen,
        vec![
            CommitStep::LookForTarget,
            CommitStep::MoveAside,
            CommitStep::MoveIn { had: true },
            CommitStep::PutBack,
            CommitStep::DropStaged,
            CommitStep::Failed,
        ]
    );
    assert_eq!(
        commit_next(CommitStep::MoveIn { had: false }, StepOutcome::Yes),
        CommitStep::Done
    );
}

#[test]
fn a_name_is_one_segment_of_a_path() {
    assert_eq!(releases_path("p"), "v1/plugins/p.json");
    for name in ["p", "a-b_c.d", "x1"] {
        assert!(validate_name(name).is_ok());
    }
    for name in ["", ".", "..", "a/b", "a b", "\u{e9}"] {
        assert!(validate_name(name).is_err(), "{name}");
    }
    assert!(validate_name(&"x".repeat(129)).is_err());
}

#[test]
fn a_document_past_its_expiry_is_not_believed() {
    let mut dated = document(vec![release("1.0.0")]);
    dated.expires = Some("2027-01-15T09:00:00Z".to_string());
    let second: i128 = 1_000_000_000;
    let before = 1_800_003_599 * second;
    let after = 1_800_003_601 * second;
    assert!(Freshness::Required.check_at(&dated, "p", before).is_ok());
    assert!(matches!(
        Freshness::Required.check_at(&dated, "p", after),
        Err(IndexError::Stale { .. })
    ));
    assert!(Freshness::Ignored.check_at(&dated, "p", after).is_ok());
    let undated = document(vec![release("1.0.0")]);
    assert!(Freshness::Required.check_at(&undated, "p", before).is_err());
    assert!(Freshness::Lenient.check_at(&undated, "p", before).is_ok());
    assert!(believe_releases(undated, "p", Freshness::Ignored, after).is_ok());
    dated.expires = Some("soon".to_string());
    assert!(matches!(
        Freshness::Lenient.check_at(&dated, "p", before),
        Err(IndexError::Malformed(_))
    ));
}

#[test]
fn an_index_error_is_handed_on() {
    let down = Shelf(|| Err(IndexError::Transport("down".to_string())));
    assert_eq!(
        resolve(&down, "p", &requirement("*")).unwrap_err(),
        IndexError::Transport("down".to_string())
    );
    assert_eq!(
        resolve(&Shelf(shelf), "p", &requirement("~1.0")).unwrap().version.to_string(),
        "1.0.0"
    );
    assert_eq!(down.catalog().unwrap_err(), no_catalog());
    let catalog = Catalog {
        schema: 1,
        name: None,
        updated: None,
        expires: None,
        plugins: Vec::new(),
    };
    assert!(catalog.plugins.is_empty());
}

#[test]
fn urls_are_joined_with_one_slash() {
    let index = HttpIndex::new("https://host/index//").freshness(Freshness::Lenient);
    assert_eq!(index.url("v1/index.json"), "https://host/index/v1/index.json");
    assert_eq!(
        index.releases_url("p").unwrap(),
        "https://host/index/v1/plugins/p.json"
    );
    assert!(index.releases_url("../x").is_err());
    assert!(judge_answer("https://host/x", "p", 200, "200 OK").is_ok());
    assert_eq!(
        judge_answer("https://host/x", "p", 404, "404 Not Found").unwrap_err(),
        IndexError::UnknownPlugin("p".to_string())
    );
    assert!(matches!(
        judge_answer("https://host/x", "p", 500, "500 Internal Server Error"),
        Err(IndexError::Transport(_))
    ));
}

#[test]
fn a_package_response_is_bounded() {
    let source = HttpSource::new().limit(10);
    let url = "https://host/p.tar.gz";
    assert!(source.judge_response(url, 200, "200 OK", Some(10)).is_ok());
    assert!(source.judge_response(url, 200, "200 OK", Some(11)).is_err());
    assert!(matches!(
        source.judge_response(url, 404, "404 Not Found", None),
        Err(SourceError::NotFound(_))
    ));
    assert!(source.judge_body(url, vec![0; 10]).is_ok());
    assert!(source.judge_body(url, vec![0; 11]).is_err());
    assert_eq!(source.read_budget(), 11);
}

#[test]
fn a_registry_reference_is_written_out() {
    assert_eq!(
        parse_reference("oci://ghcr.io/acme/p:1").unwrap(),
        "ghcr.io/acme/p:1"
    );
    assert_eq!(parse_reference("busybox").unwrap(), "docker.io/library/busybox:latest");
    assert_eq!(
        parse_reference("oci://").unwrap_err(),
        SourceError::Unsupported("oci://".to_string())
    );
    match parse_reference("oci://:::").unwrap_err() {
        SourceError::Unsupported(said) => {
            assert_eq!(said, "`oci://:::` is not an OCI reference: invalid reference format")
        }
        other => panic!("expected Unsupported, got {other:?}"),
    }
    assert_eq!(bare_reference("oci://x").unwrap(), "x");
    assert_eq!(judge_reference("r", Ok("whole".to_string())).unwrap(), "whole");
}

#[test]
fn a_registry_failure_says_what_to_do() {
    assert_eq!(
        translate(OciFailure::NoManifest("r".to_string())),
        SourceError::NotFound("r".to_string())
    );
    assert_eq!(
        translate(OciFailure::BadManifest("r".to_string())),
        SourceError::NotFound("r".to_string())
    );
    assert_eq!(
        translate(OciFailure::Refused("who".to_string())),
        SourceError::Transport("authentication failed: who".to_string())
    );
    assert_eq!(
        translate(OciFailure::Other("down".to_string())),
        SourceError::Transport("down".to_string())
    );
}

#[test]
fn an_artifact_has_one_plugin_layer() {
    let layer = LAYER_MEDIA_TYPE.to_string();
    let other = "text/plain".to_string();
    assert_eq!(select_layer("r", &vec![other.clone(), layer.clone()]), Ok(1));
    assert!(select_layer("r", &vec![other]).is_err());
    assert_eq!(
        select_layer("r", &vec![layer.clone(), layer]),
        Err(SourceError::Malformed("`r` carries more than one plugin layer".to_string()))
    );
}

fn asks(mut manifest: Manifest, name: &str, params: Vec<(&str, Toml, &str)>) -> Manifest {
    let mut map = NameMap::new();
    for (key, value, text) in params {
        map.insert(key.to_string(), Param { value, text: text.to_string() });
    }
    manifest.capabilities.insert(name.to_string(), map);
    manifest
}

#[test]
fn an_upgrade_that_asks_for_more_is_a_concern() {
    let old = asks(manifest("p", "1.0.0"), "log", vec![]);
    let new = asks(asks(manifest("p", "1.1.0"), "log", vec![]), "net", vec![]);
    let review = UpgradeReview::between(&old, &new);
    assert!(review.widens() && !review.is_empty());
    assert_eq!(
        review.changes,
        vec![Change::CapabilityAdded { name: "net".to_string() }]
    );
    assert_eq!(review.concerns().len(), 1);
    let back = UpgradeReview::between(&new, &old);
    assert!(back.changes.iter().any(|c| matches!(c, Change::NotNewer { .. })));
    let same = UpgradeReview::between(&old, &asks(manifest("p", "1.0.1"), "log", vec![]));
    assert!(same.is_empty() && !same.widens() && same.concerns().is_empty());
    let signed = UpgradeReview::between(&old, &asks(manifest("p", "1.0.1"), "log", vec![]))
        .with_signers("me", "you");
    assert!(matches!(signed.changes[0], Change::SignerChanged { .. }));
    assert!(signed.to_string().contains("you"));
}

#[test]
fn fewer_parameters_narrow_and_others_widen() {
    let one = |text: &str| Toml::Text(text.to_string());
    let list = |items: &[&str]| Toml::Array(items.iter().map(|i| one(i)).collect());
    let narrow = asks(
        manifest("p", "1.1.0"),
        "net",
        vec![("hosts", list(&["a"]), "[\"a\"]")],
    );
    let wide = asks(
        manifest("p", "1.0.0"),
        "net",
        vec![("hosts", list(&["a", "b"]), "[\"a\", \"b\"]")],
    );
    let params = |m: &Manifest| {
        let mut out = NameMap::new();
        for (key, param) in &m.capabilities.get("net").unwrap().entries {
            out.insert(
                key.clone(),
                Param { value: param.value.clone(), text: param.text.clone() },
            );
        }
        out
    };
    assert!(narrows(&params(&wide), &params(&narrow)));
    assert!(!narrows(&params(&narrow), &params(&wide)));
    let review = UpgradeReview::between(&wide, &narrow);
    assert!(!review.widens());
    assert!(matches!(
        review.changes[0],
        Change::CapabilityParams { narrowed: true, .. }
    ));
}

#[test]
fn every_other_difference_is_listed() {
    let mut old = manifest("p", "1.0.0");
    old.rocks.insert("lpeg".to_string(), ">= 1".to_string());
    let mut new = manifest("p", "1.1.0");
    new.entry = "main.lua".to_string();
    new.dependencies.insert(
        "store".to_string(),
        DependencySpec::Requirement(requirement("^1")),
    );
    let review = UpgradeReview::between(&old, &new);
    let mut kinds: Vec<&str> = review
        .changes
        .iter()
        .map(|c| match c {
            Change::DependencyAdded { .. } => "dependency",
            Change::RockRemoved { .. } => "rock",
            Change::EntryChanged { .. } => "entry",
            _ => "other",
        })
        .collect();
    kinds.sort();
    assert_eq!(kinds, vec!["dependency", "entry", "rock"]);
    for change in &review.changes {
        assert!(!change.to_string().is_empty());
    }
}

#[test]
fn a_comparison_decides_what_is_kept() {
    assert_eq!(keep_newer(3, 7, Order::Greater), 3);
    assert_eq!(keep_newer(3, 7, Order::Less), 7);
    assert_eq!(keep_newer(3, 7, Order::Equal), 7);
    let (old, new) = (Version::new(1, 0, 0), Version::new(2, 0, 0));
    assert!(judge_version(&old, &new, Order::Greater).is_none());
    assert!(matches!(
        judge_version(&old, &new, Order::Equal),
        Some(Change::NotNewer { .. })
    ));
}

#[test]
fn a_document_is_accepted_while_it_lasts() {
    let mut dated = document(vec![release("1.0.0")]);
    dated.expires = Some("2901-01-01T00:00:00Z".to_string());
    assert!(accept_releases(dated, "p", Freshness::Required).is_ok());
    let mut dated = document(vec![release("1.0.0")]);
    dated.expires = Some("2001-01-01T00:00:00Z".to_string());
    assert!(matches!(
        accept_releases(dated, "p", Freshness::Lenient),
        Err(IndexError::Stale { .. })
    ));
}
