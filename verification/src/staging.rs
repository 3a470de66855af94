//! Staging a plugin: fetched, unpacked beside the plugin root and checked, but not installed.
//!
//! What only a disk can do is handed in: making a directory, writing files into it, and reading
//! manifests. A refusal names the directory to remove, and an acceptance names none.

use crate::archive::{file_models, unpack_archive, unpacked, FileModel};
use crate::index::{IndexError, PluginIndex, PluginReleases, Release, ReleaseModel};
use crate::install;
use crate::install::{
    fetched, settled_on, upgraded_to, InstallError, InstallFault, Installer, PluginSource, Staged,
};
use crate::lock::{Lockfile, Pin};
use crate::manifest::Manifest;
use crate::package::{confirmed, verify_directory, PackageError};
use crate::path;
use crate::signature::DirectoryDigest;
use crate::text;
use crate::version::VersionReq;
use vstd::prelude::*;

verus! {

/// What a disk does for an install.
pub struct DiskWorks<M, W, R, O> {
    /// Makes an empty staging directory, or says why it cannot.
    pub make: M,
    /// Writes files into a staging directory, and lists what it holds then.
    pub write: W,
    /// Reads the manifest of a directory.
    pub read: R,
    /// Reads the manifest of an installed plugin, if there is one.
    pub installed: O,
}

/// The files of a directory, by path and contents, or why they could not be written or read.
pub type Written = Result<Vec<(String, Vec<u8>)>, InstallError>;

/// Why a plugin was not staged, and what is to be removed: a failed install leaves nothing beside
/// the plugin root.
#[derive(Debug, PartialEq, Eq)]
pub struct Refused {
    pub error: InstallError,
    /// The staging directory, where one was begun.
    pub discard: Option<String>,
}

/// What staging came to, apart from what is to be removed.
pub open spec fn verdict(r: Result<Staged, Refused>) -> Result<Staged, InstallError> {
    match r {
        Ok(staged) => Ok(staged),
        Err(refused) => Err(refused.error),
    }
}

/// Whether a refusal names this directory to be removed, or none.
pub open spec fn leaves(r: Result<Staged, Refused>, discard: Option<Seq<char>>) -> bool {
    r matches Err(refused) ==> text::opt(refused.discard) == discard
}

fn refuse(error: InstallError) -> (r: Refused)
    ensures
        r.error == error,
        r.discard is None,
{
    Refused { error, discard: None }
}

/// Whether an unpacked package, its bytes being confirmed or not, comes to this.
pub open spec fn checked<
    I,
    S,
    R: Fn(&str) -> Result<Manifest, String>,
    O: Fn(&str) -> Option<Manifest>,
>(
    installer: Installer<I, S>,
    reading: R,
    looking: O,
    name: Seq<char>,
    release: ReleaseModel,
    bytes: Result<DirectoryDigest, PackageError>,
    r: Result<Staged, InstallError>,
) -> bool {
    match bytes {
        Err(error) => r == Err::<Staged, InstallError>(InstallError::Package(error)),
        Ok(digest) => exists|
            staged: &str,
            target: &str,
            read: Result<Manifest, String>,
            installed: Option<Manifest>,
        |
            {
                &&& staged@ == path::under(installer.dir(), install::staging_name(name))
                &&& target@ == path::under(installer.dir(), name)
                &&& #[trigger] call_ensures(reading, (staged,), read)
                &&& #[trigger] call_ensures(looking, (target,), installed)
                &&& installer.contents_come_to(name, release, digest, read, installed, r)
            },
    }
}

/// Whether a fetched archive comes to this: unpacked, confirmed and checked, or
/// refused, with the staging directory to be removed.
pub open spec fn unpacked_as<
    I,
    S,
    M: Fn(&str) -> Option<InstallError>,
    W: Fn(&str, &Vec<(String, Vec<u8>)>) -> Written,
    R: Fn(&str) -> Result<Manifest, String>,
    O: Fn(&str) -> Option<Manifest>,
>(
    installer: Installer<I, S>,
    works: DiskWorks<M, W, R, O>,
    name: Seq<char>,
    release: ReleaseModel,
    archive: Vec<u8>,
    r: Result<Staged, Refused>,
) -> bool {
    let staging = path::under(installer.dir(), install::staging_name(name));
    &&& leaves(r, Some(staging))
    &&& exists|at: &str, made: Option<InstallError>|
        {
            &&& at@ == staging
            &&& #[trigger] call_ensures(works.make, (at,), made)
            &&& match made {
                Some(error) => verdict(r) == Err::<Staged, InstallError>(error),
                None => match unpacked(archive@, installer.bounds()) {
                    Err(fault) => verdict(r) matches Err(InstallError::Package(error)) && error@
                        == fault,
                    Ok(files) => written_as(installer, works, name, release, files, verdict(r)),
                },
            }
        }
}

/// Whether the files of an archive, written into the staging directory, come to this.
pub open spec fn written_as<
    I,
    S,
    M: Fn(&str) -> Option<InstallError>,
    W: Fn(&str, &Vec<(String, Vec<u8>)>) -> Written,
    R: Fn(&str) -> Result<Manifest, String>,
    O: Fn(&str) -> Option<Manifest>,
>(
    installer: Installer<I, S>,
    works: DiskWorks<M, W, R, O>,
    name: Seq<char>,
    release: ReleaseModel,
    files: Seq<FileModel>,
    r: Result<Staged, InstallError>,
) -> bool {
    exists|at: &str, held: Vec<(String, Vec<u8>)>, listed: Written|
        {
            &&& at@ == path::under(installer.dir(), install::staging_name(name))
            &&& file_models(held@) == files
            &&& #[trigger] call_ensures(works.write, (at, &held), listed)
            &&& match listed {
                Err(error) => r == Err::<Staged, InstallError>(error),
                Ok(listed) => exists|bytes: Result<DirectoryDigest, PackageError>| #[trigger]
                    confirmed(listed@, release.digest, bytes) && checked(
                        installer,
                        works.read,
                        works.installed,
                        name,
                        release,
                        bytes,
                        r,
                    ),
            }
        }
}

/// Whether staging one release comes to this.
pub open spec fn staged_as<
    I,
    S: PluginSource,
    M: Fn(&str) -> Option<InstallError>,
    W: Fn(&str, &Vec<(String, Vec<u8>)>) -> Written,
    R: Fn(&str) -> Result<Manifest, String>,
    O: Fn(&str) -> Option<Manifest>,
>(
    installer: Installer<I, S>,
    works: DiskWorks<M, W, R, O>,
    name: Seq<char>,
    release: ReleaseModel,
    pin: Option<Pin>,
    r: Result<Staged, Refused>,
) -> bool {
    exists|got: Result<Vec<u8>, InstallError>| #[trigger]
        fetched(installer.packages(), name, release, pin, got) && match got {
            Err(error) => verdict(r) == Err::<Staged, InstallError>(error) && leaves(r, None),
            Ok(archive) => unpacked_as(installer, works, name, release, archive, r),
        }
}

/// Whether staging comes to this, given which release was settled on.
pub open spec fn settled_as<
    I,
    S: PluginSource,
    M: Fn(&str) -> Option<InstallError>,
    W: Fn(&str, &Vec<(String, Vec<u8>)>) -> Written,
    R: Fn(&str) -> Result<Manifest, String>,
    O: Fn(&str) -> Option<Manifest>,
>(
    installer: Installer<I, S>,
    works: DiskWorks<M, W, R, O>,
    name: Seq<char>,
    settled: Result<ReleaseModel, InstallFault>,
    pin: Option<Pin>,
    r: Result<Staged, Refused>,
) -> bool {
    match settled {
        Err(fault) => (verdict(r) matches Err(error) && error@ == fault) && leaves(r, None),
        Ok(release) => staged_as(installer, works, name, release, pin, r),
    }
}

impl<I: PluginIndex, S: PluginSource> Installer<I, S> {
    /// Confirms what a staging directory holds, and reads and checks its manifest.
    fn check_listing<R: Fn(&str) -> Result<Manifest, String>, O: Fn(&str) -> Option<Manifest>>(
        &self,
        name: &str,
        release: Release,
        listed: &Vec<(String, Vec<u8>)>,
        at: &str,
        read: &R,
        installed: &O,
    ) -> (r: Result<Staged, InstallError>)
        requires
            at@ == path::under(self.dir(), install::staging_name(name@)),
            forall|at: &str| call_requires(*read, (at,)),
            forall|at: &str, found: Result<Manifest, String>| #[trigger]
                call_ensures(*read, (at,), found) ==> (found matches Ok(m) ==> m.wf()),
            forall|at: &str| call_requires(*installed, (at,)),
            forall|at: &str, found: Option<Manifest>| #[trigger]
                call_ensures(*installed, (at,), found) ==> (found matches Some(m) ==> m.wf()),
        ensures
            exists|bytes: Result<DirectoryDigest, PackageError>| #[trigger]
                confirmed(listed@, release@.digest, bytes) && checked(
                    *self,
                    *read,
                    *installed,
                    name@,
                    release@,
                    bytes,
                    r,
                ),
    {
        let ghost model = release@;
        let bytes = verify_directory(listed, release.digest.as_str());
        let ghost seen = bytes;
        proof {
            assert(confirmed(listed@, model.digest, seen));
        }
        let r = match bytes {
            Err(error) => Err(InstallError::Package(error)),
            Ok(digest) => {
                let found = read(at);
                let target = self.target(name);
                let there = target.as_str();
                let current = installed(there);
                let ghost found_ = found;
                let ghost current_ = current;
                proof {
                    assert(call_ensures(*read, (at,), found_));
                    assert(call_ensures(*installed, (there,), current_));
                }
                self.check_contents(name, release, digest, found, current)
            },
        };
        proof {
            assert(checked(*self, *read, *installed, name@, model, seen, r));
        }
        r
    }

    /// Fetches, unpacks and checks one specific release, if the lockfile allows it. What does
    /// not pass is to be removed again, and only that.
    pub fn stage_release<
        M: Fn(&str) -> Option<InstallError>,
        W: Fn(&str, &Vec<(String, Vec<u8>)>) -> Written,
        R: Fn(&str) -> Result<Manifest, String>,
        O: Fn(&str) -> Option<Manifest>,
        >(
        &self,
        name: &str,
        release: Release,
        lockfile: &Lockfile,
        make: &M,
        write: &W,
        read: &R,
        installed: &O,
    ) -> (r: Result<Staged, Refused>)
        requires
            lockfile.wf(),
            forall|at: &str| call_requires(*make, (at,)),
            forall|at: &str, files: Vec<(String, Vec<u8>)>| call_requires(*write, (at, &files)),
            forall|at: &str| call_requires(*read, (at,)),
            forall|at: &str, found: Result<Manifest, String>| #[trigger]
                call_ensures(*read, (at,), found) ==> (found matches Ok(m) ==> m.wf()),
            forall|at: &str| call_requires(*installed, (at,)),
            forall|at: &str, found: Option<Manifest>| #[trigger]
                call_ensures(*installed, (at,), found) ==> (found matches Some(m) ==> m.wf()),
        ensures
            staged_as(
                *self,
                (DiskWorks {
                    make: *make,
                    write: *write,
                    read: *read,
                    installed: *installed,
                }),
                name@,
                release@,
                lockfile.pinned(name@),
                r,
            ),
    {
        let ghost works = DiskWorks {
            make: *make,
            write: *write,
            read: *read,
            installed: *installed,
        };
        let ghost model = release@;
        let got = self.fetch_release(name, &release, lockfile);
        let ghost came = got;
        proof {
            assert(fetched(self.packages(), name@, model, lockfile.pinned(name@), came));
        }
        let archive = match got {
            Err(error) => {
                return Err(refuse(error));
            },
            Ok(archive) => archive,
        };
        let staging = self.staging(name);
        let at = staging.as_str();
        let made = make(at);
        let ghost made_ = made;
        proof {
            assert(call_ensures(works.make, (at,), made_));
        }
        let r = match made {
            Some(error) => Err(error),
            None => match unpack_archive(archive.as_slice(), self.configured_limits()) {
                Err(error) => Err(InstallError::Package(error)),
                Ok(files) => {
                    let listed = write(at, &files);
                    let ghost listed_ = listed;
                    proof {
                        assert(call_ensures(works.write, (at, &files), listed_));
                    }
                    let r = match listed {
                        Err(error) => Err(error),
                        Ok(listed) => self.check_listing(name, release, &listed, at, read, installed),
                    };
                    proof {
                        assert(written_as(*self, works, name@, model, file_models(files@), r));
                    }
                    r
                },
            },
        };
        let ghost said = r;
        let told = match r {
            Ok(staged) => Ok(staged),
            Err(error) => Err(Refused { error, discard: Some(staging.clone()) }),
        };
        proof {
            assert(verdict(told) == said);
            assert(unpacked_as(*self, works, name@, model, archive, told));
        }
        told
    }

    /// Resolves and stages a plugin: the pinned version, if one is pinned.
    pub fn stage<
        M: Fn(&str) -> Option<InstallError>,
        W: Fn(&str, &Vec<(String, Vec<u8>)>) -> Written,
        R: Fn(&str) -> Result<Manifest, String>,
        O: Fn(&str) -> Option<Manifest>,
        >(
        &self,
        name: &str,
        requirement: &VersionReq,
        lockfile: &Lockfile,
        make: &M,
        write: &W,
        read: &R,
        installed: &O,
    ) -> (r: Result<Staged, Refused>)
        requires
            lockfile.wf(),
            forall|at: &str| call_requires(*make, (at,)),
            forall|at: &str, files: Vec<(String, Vec<u8>)>| call_requires(*write, (at, &files)),
            forall|at: &str| call_requires(*read, (at,)),
            forall|at: &str, found: Result<Manifest, String>| #[trigger]
                call_ensures(*read, (at,), found) ==> (found matches Ok(m) ==> m.wf()),
            forall|at: &str| call_requires(*installed, (at,)),
            forall|at: &str, found: Option<Manifest>| #[trigger]
                call_ensures(*installed, (at,), found) ==> (found matches Some(m) ==> m.wf()),
        ensures
            exists|answer: Result<PluginReleases, IndexError>| #[trigger]
                self.catalogue().publishes(name, answer) && settled_as(
                    *self,
                    (DiskWorks {
                        make: *make,
                    write: *write,
                        read: *read,
                        installed: *installed,
                    }),
                    name@,
                    settled_on(answer, name@, requirement@, lockfile.pinned(name@)),
                    lockfile.pinned(name@),
                    r,
                ),
    {
        let (settled, answer) = self.settle(name, requirement, lockfile);
        match settled {
            Err(error) => Err(refuse(error)),
            Ok(release) => self.stage_release(
                name,
                release,
                lockfile,
                make,
                write,
                read,
                installed,
            ),
        }
    }

    /// Resolves the newest release satisfying `requirement`, ignoring any pinned version, and
    /// stages it. This is how an upgrade is proposed: what the lockfile pins is what is installed,
    /// and an upgrade is something else.
    pub fn stage_upgrade<
        M: Fn(&str) -> Option<InstallError>,
        W: Fn(&str, &Vec<(String, Vec<u8>)>) -> Written,
        R: Fn(&str) -> Result<Manifest, String>,
        O: Fn(&str) -> Option<Manifest>,
        >(
        &self,
        name: &str,
        requirement: &VersionReq,
        _lockfile: &Lockfile,
        make: &M,
        write: &W,
        read: &R,
        installed: &O,
    ) -> (r: Result<Staged, Refused>)
        requires
            forall|at: &str| call_requires(*make, (at,)),
            forall|at: &str, files: Vec<(String, Vec<u8>)>| call_requires(*write, (at, &files)),
            forall|at: &str| call_requires(*read, (at,)),
            forall|at: &str, found: Result<Manifest, String>| #[trigger]
                call_ensures(*read, (at,), found) ==> (found matches Ok(m) ==> m.wf()),
            forall|at: &str| call_requires(*installed, (at,)),
            forall|at: &str, found: Option<Manifest>| #[trigger]
                call_ensures(*installed, (at,), found) ==> (found matches Some(m) ==> m.wf()),
        ensures
            exists|answer: Result<PluginReleases, IndexError>| #[trigger]
                self.catalogue().publishes(name, answer) && settled_as(
                    *self,
                    (DiskWorks {
                        make: *make,
                    write: *write,
                        read: *read,
                        installed: *installed,
                    }),
                    name@,
                    upgraded_to(answer, name@, requirement@),
                    None,
                    r,
                ),
    {
        let (settled, answer) = self.settle_upgrade(name, requirement);
        let unpinned = Lockfile::new();
        proof {
            assert(unpinned.pinned(name@) is None);
        }
        match settled {
            Err(error) => Err(refuse(error)),
            Ok(release) => self.stage_release(
                name,
                release,
                &unpinned,
                make,
                write,
                read,
                installed,
            ),
        }
    }
}

} // verus!
