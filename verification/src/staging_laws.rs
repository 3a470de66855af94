//! What holds of what an installer stages.

use crate::archive::{file_models, unpacked};
use crate::index::ReleaseModel;
use crate::install::{
    fetched, staging_name, InstallError, InstallFault, Installer, PluginSource, SourceError, Staged,
};
use crate::lock::{bare_hex, Pin};
use crate::manifest::Manifest;
use crate::package::{confirmed, PackageError};
use crate::path::under;
use crate::release_laws::{a_package_is_what_was_asked_for, nothing_is_fetched_against_its_pin};
use crate::signature::DirectoryDigest;
use crate::staging::{
    checked, settled_as, staged_as, unpacked_as, verdict, written_as, DiskWorks, Refused, Written,
};
use crate::text;
use crate::upgrade::reviewed;
use vstd::prelude::*;
use vstd::string::*;

verus! {

/// Whether what is staged is a release of a plugin: the plugin and the version that were chosen,
/// the bytes that the index gives the digest of, and for its pin those that were pinned.
pub open spec fn is_staged_from(
    staged: Staged,
    name: Seq<char>,
    release: ReleaseModel,
    pin: Option<Pin>,
) -> bool {
    &&& staged@.name == name
    &&& staged@.release == release
    &&& staged@.manifest.name@ == name
    &&& staged@.manifest.published() == release.version
    &&& text::lower(bare_hex(release.digest)) == text::lower(staged@.digest.fingerprint())
    &&& pin matches Some(held) ==> text::lower(bare_hex(held.digest)) == text::lower(
        staged@.digest.fingerprint(),
    )
}

/// Whether what is staged stands beside where it goes, and was read there.
pub open spec fn stands_beside<I, S, M, W, R: Fn(&str) -> Result<Manifest, String>, O>(
    staged: Staged,
    installer: Installer<I, S>,
    works: DiskWorks<M, W, R, O>,
    name: Seq<char>,
) -> bool {
    &&& staged@.staging == under(installer.dir(), "."@ + name + ".staging"@)
    &&& staged@.target == under(installer.dir(), name)
    &&& exists|at: &str| #[trigger]
        call_ensures(works.read, (at,), Ok::<Manifest, String>(staged@.manifest)) && at@
            == staged@.staging
}

/// Whether what is staged was compared with what is installed, where something is.
pub open spec fn was_compared<M, W, R, O: Fn(&str) -> Option<Manifest>>(
    staged: Staged,
    works: DiskWorks<M, W, R, O>,
) -> bool {
    exists|at: &str, installed: Option<Manifest>|
        {
            &&& #[trigger] call_ensures(works.installed, (at,), installed)
            &&& at@ == staged@.target
            &&& match installed {
                Some(installed) => staged@.review == Some(reviewed(installed, staged@.manifest)),
                None => staged@.review is None,
            }
        }
}

/// Whether a digest is that of the files that an archive holds, as they were written.
pub open spec fn was_unpacked_and_written<
    I,
    S,
    M,
    W: Fn(&str, &Vec<(String, Vec<u8>)>) -> Written,
    R,
    O,
>(
    staged: Staged,
    installer: Installer<I, S>,
    works: DiskWorks<M, W, R, O>,
    archive: Seq<u8>,
) -> bool {
    exists|at: &str, held: Vec<(String, Vec<u8>)>, listed: Vec<(String, Vec<u8>)>|
        {
            &&& #[trigger] call_ensures(works.write, (at, &held), Ok::<_, InstallError>(listed))
            &&& at@ == staged@.staging
            &&& unpacked(archive, installer.bounds()) matches Ok(files)
            &&& file_models(held@) == files
            &&& crate::signature::covers_listing(staged@.digest.covered(), listed@)
        }
}

/// What an installer stages is what was chosen: fetched from where the index says, unpacked within
/// the limits, confirmed by the digest, and the plugin and version that were asked for. Where it
/// refuses, the staging directory is left to be removed exactly where it was begun.
pub proof fn what_is_staged_was_chosen<
    I,
    S: PluginSource,
    M: Fn(&str) -> Option<InstallError>,
    W: Fn(&str, &Vec<(String, Vec<u8>)>) -> Written,
    R: Fn(&str) -> Result<Manifest, String>,
    O: Fn(&str) -> Option<Manifest>,
>(
    installer: Installer<I, S>,
    works: DiskWorks<M, W, R, O>,
    name: Seq<char>,
    release: ReleaseModel,
    pin: Option<Pin>,
    r: Result<Staged, Refused>,
)
    requires
        staged_as(installer, works, name, release, pin, r),
    ensures
        r matches Ok(staged) ==> {
            &&& is_staged_from(staged, name, release, pin)
            &&& stands_beside(staged, installer, works, name)
            &&& was_compared(staged, works)
            &&& exists|at: &str, archive: Vec<u8>|
                {
                    &&& #[trigger] installer.packages().sends(
                        at,
                        Ok::<Vec<u8>, SourceError>(archive),
                    )
                    &&& Some(at@) == release.source
                    &&& was_unpacked_and_written(staged, installer, works, archive@)
                }
        },
        r matches Err(refused) ==> refused.discard is None || (refused.discard matches Some(dir)
            && dir@ == under(installer.dir(), "."@ + name + ".staging"@)),
        r matches Err(refused) ==> exists|got: Result<Vec<u8>, InstallError>| #[trigger]
            fetched(installer.packages(), name, release, pin, got) && (refused.discard is Some
                <==> got is Ok) && (got matches Err(error) ==> refused.error == error),
{
    let got = choose|got: Result<Vec<u8>, InstallError>| #[trigger]
        fetched(installer.packages(), name, release, pin, got) && match got {
            Err(error) => verdict(r) == Err::<Staged, InstallError>(error)
                && crate::staging::leaves(r, None),
            Ok(archive) => unpacked_as(installer, works, name, release, archive, r),
        };
    nothing_is_fetched_against_its_pin(name, release, pin);
    if r is Ok {
        let staged = r->Ok_0;
        let archive = got->Ok_0;
        let reference = crate::install::reference_of(name, release, pin)->Ok_0;
        let (from, answer) = choose|at: &str, answer: Result<Vec<u8>, SourceError>|
            {
                &&& at@ == reference
                &&& #[trigger] installer.packages().sends(at, answer)
                &&& match answer {
                    Ok(archive) => got == Ok::<Vec<u8>, InstallError>(archive),
                    Err(error) => got == Err::<Vec<u8>, InstallError>(InstallError::Source(error)),
                }
            };
        assert(installer.packages().sends(from, Ok::<Vec<u8>, SourceError>(archive)));
        let files = unpacked(archive@, installer.bounds())->Ok_0;
        assert(written_as(installer, works, name, release, files, Ok(staged)));
        let (at, held, listed) = choose|at: &str, held: Vec<(String, Vec<u8>)>, listed: Written|
            {
                &&& at@ == under(installer.dir(), staging_name(name))
                &&& file_models(held@) == files
                &&& #[trigger] call_ensures(works.write, (at, &held), listed)
                &&& match listed {
                    Err(error) => Ok::<Staged, InstallError>(staged) == Err::<Staged, InstallError>(
                        error,
                    ),
                    Ok(listed) => exists|bytes: Result<DirectoryDigest, PackageError>| #[trigger]
                        confirmed(listed@, release.digest, bytes) && checked(
                            installer,
                            works.read,
                            works.installed,
                            name,
                            release,
                            bytes,
                            Ok(staged),
                        ),
                }
            };
        let listing = listed->Ok_0;
        let bytes = choose|bytes: Result<DirectoryDigest, PackageError>| #[trigger]
            confirmed(listing@, release.digest, bytes) && checked(
                installer,
                works.read,
                works.installed,
                name,
                release,
                bytes,
                Ok(staged),
            );
        crate::package_laws::only_the_expected_bytes_are_confirmed(
            listing@,
            release.digest,
            bytes,
        );
        let digest = bytes->Ok_0;
        let (here, target, read, installed) = choose|
            here: &str,
            target: &str,
            read: Result<Manifest, String>,
            installed: Option<Manifest>,
        |
            {
                &&& here@ == under(installer.dir(), staging_name(name))
                &&& target@ == under(installer.dir(), name)
                &&& #[trigger] call_ensures(works.read, (here,), read)
                &&& #[trigger] call_ensures(works.installed, (target,), installed)
                &&& installer.contents_come_to(
                    name,
                    release,
                    digest,
                    read,
                    installed,
                    Ok(staged),
                )
            };
        a_package_is_what_was_asked_for(name, release, staged@.manifest);
        assert(call_ensures(works.read, (here,), Ok::<Manifest, String>(staged@.manifest)));
        assert(call_ensures(works.installed, (target,), installed));
        assert(call_ensures(works.write, (at, &held), Ok::<_, InstallError>(listing)));
        assert(was_unpacked_and_written(staged, installer, works, archive@));
    }
}

/// What cannot be settled on is refused before anything is written.
pub proof fn nothing_is_staged_unsettled<
    I,
    S: PluginSource,
    M: Fn(&str) -> Option<InstallError>,
    W: Fn(&str, &Vec<(String, Vec<u8>)>) -> Written,
    R: Fn(&str) -> Result<Manifest, String>,
    O: Fn(&str) -> Option<Manifest>,
>(
    installer: Installer<I, S>,
    works: DiskWorks<M, W, R, O>,
    name: Seq<char>,
    settled: Result<ReleaseModel, InstallFault>,
    pin: Option<Pin>,
    r: Result<Staged, Refused>,
)
    requires
        settled_as(installer, works, name, settled, pin, r),
    ensures
        settled matches Err(fault) ==> (r matches Err(refused) && refused.error@ == fault
            && refused.discard is None),
        settled matches Ok(release) ==> (r matches Ok(staged) ==> is_staged_from(
            staged,
            name,
            release,
            pin,
        )),
{
    if settled is Ok {
        what_is_staged_was_chosen(installer, works, name, settled->Ok_0, pin, r);
    }
}

} // verus!
