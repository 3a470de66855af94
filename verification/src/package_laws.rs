//! What holds of packages: where their files go, what of them is unpacked, and what is covered by
//! their digest.

use crate::archive::{
    archive_contents, archive_header, declared_size, header_admission, kind_named, unpacked,
    unpacked_from, FileModel, HeaderModel,
};
use crate::fetch::{answer_fault, bare_reference_of, is_http, plugin_layers, without_slashes};
use crate::index::IndexFault;
use crate::lock::bare_hex;
use crate::package::{
    admission, confined, confirmed, named_upto, stays_below, sum, Admission, KindModel, Limits,
    PackageError, PackageFault, Unpacked,
};
use crate::path::{absolute, path_steps, piece_steps, Step};
use crate::signature::{
    covers_listing, hash_at, hash_place, last_at, listed_hash, sha256_of, Covered, DirectoryDigest,
};
use crate::text;
use crate::text_laws::what_follows_a_prefix;
use vstd::prelude::*;
use vstd::string::*;

verus! {

/// Whether a piece of a path is a name, and neither empty nor a step in place or up.
pub open spec fn is_a_name(piece: Seq<char>) -> bool {
    piece.len() > 0 && piece != "."@ && piece != ".."@
}

/// What the first pieces of a path step through.
pub proof fn pieces_step(parts: Seq<Seq<char>>, n: int)
    requires
        0 <= n <= parts.len(),
    ensures
        ({
            let steps = piece_steps(parts, n);
            &&& stays_below(steps) <==> forall|i: int| 0 <= i < n ==> #[trigger] parts[i] != ".."@
            &&& named_upto(steps, steps.len() as int) == parts.take(n).filter(
                |piece: Seq<char>| is_a_name(piece),
            )
            &&& forall|i: int| 0 <= i < steps.len() ==> !(#[trigger] steps[i] is Root)
        }),
    decreases n,
{
    reveal(Seq::filter);
    reveal_strlit(".");
    reveal_strlit("..");
    assert("."@.len() == 1 && ".."@.len() == 2);
    let keep = |piece: Seq<char>| is_a_name(piece);
    let steps = piece_steps(parts, n);
    if n > 0 {
        pieces_step(parts, n - 1);
        let less = piece_steps(parts, n - 1);
        let piece = parts[n - 1];
        assert(parts.take(n).drop_last() =~= parts.take(n - 1));
        assert(parts.take(n).last() == piece);
        if steps.len() > less.len() {
            assert(steps =~= less.push(steps.last()));
            names_so_far(less, steps, less.len() as int);
            assert(stays_below(steps) <==> stays_below(less) && !(steps.last() is Up)) by {
                if stays_below(steps) {
                    assert forall|i: int| 0 <= i < less.len() implies #[trigger] less[i] != Step::Up
                        && less[i] != Step::Root by {
                        assert(steps[i] == less[i]);
                    }
                    assert(steps[less.len() as int] != Step::Up);
                }
                if stays_below(less) && !(steps.last() is Up) {
                    assert forall|i: int| 0 <= i < steps.len() implies #[trigger] steps[i]
                        != Step::Up && steps[i] != Step::Root by {
                        if i < less.len() {
                            assert(steps[i] == less[i]);
                        }
                    }
                }
            }
            assert forall|i: int| 0 <= i < steps.len() implies !(#[trigger] steps[i] is Root) by {
                if i < less.len() {
                    assert(steps[i] == less[i]);
                }
            }
        } else {
            assert(steps == less);
        }
        assert((forall|i: int| 0 <= i < n ==> #[trigger] parts[i] != ".."@) <==> (forall|i: int|
            0 <= i < n - 1 ==> #[trigger] parts[i] != ".."@) && piece != ".."@);
    } else {
        assert(parts.take(0) =~= Seq::<Seq<char>>::empty());
    }
}

proof fn names_so_far(less: Seq<Step>, steps: Seq<Step>, n: int)
    requires
        0 <= n <= less.len() <= steps.len(),
        forall|i: int| 0 <= i < less.len() ==> #[trigger] steps[i] == less[i],
    ensures
        named_upto(steps, n) == named_upto(less, n),
    decreases n,
{
    if n > 0 {
        names_so_far(less, steps, n - 1);
        assert(steps[n - 1] == less[n - 1]);
    }
}

/// A path of a package stays below where it is unpacked exactly when it does not begin at the root,
/// never steps up, and names something; and it becomes its names, in their order.
pub proof fn a_path_stays_below(path: Seq<char>)
    ensures
        ({
            let parts = text::pieces(path, '/');
            let kept = parts.filter(|piece: Seq<char>| is_a_name(piece));
            let below = {
                &&& !(path.len() > 0 && path[0] == '/')
                &&& forall|i: int| 0 <= i < parts.len() ==> #[trigger] parts[i] != ".."@
                &&& kept.len() > 0
            };
            &&& confined(path) is Some <==> below
            &&& below ==> confined(path) == Some(text::joined(kept, "/"@))
        }),
{
    let parts = text::pieces(path, '/');
    let rest = piece_steps(parts, parts.len() as int);
    pieces_step(parts, parts.len() as int);
    assert(parts.take(parts.len() as int) =~= parts);
    if absolute(path) {
        let steps = path_steps(path);
        assert(steps[0] == Step::Root);
        assert(!stays_below(steps));
    }
}

/// An entry of an archive is written exactly when it is a file whose path stays below, that is not
/// there yet, and that keeps within every limit; a directory whose path stays below is passed over;
/// everything else refuses the whole archive, with what is wrong with it.
pub proof fn what_is_written(
    state: Unpacked,
    path: Option<Seq<char>>,
    shown: Seq<char>,
    kind: KindModel,
    declared: u64,
)
    ensures
        ({
            let below = match path {
                Some(path) => confined(path),
                None => None,
            };
            let within = {
                &&& state.count < state.limits.entries
                &&& declared <= state.limits.file_bytes
                &&& state.total as int + declared as int <= state.limits.total_bytes
                    || state.limits.total_bytes == u64::MAX
            };
            let answer = admission(state, path, shown, kind, declared);
            &&& answer is Write <==> kind is File && below is Some && !state.seen.contains(below->0)
                && within
            &&& answer matches Admission::Write(relative) ==> below == Some(relative)
            &&& answer is Skip <==> kind is Directory && below is Some
            &&& answer matches Admission::Refuse(fault) ==> match fault {
                PackageFault::UnsafePath(said) => said == shown && below is None,
                PackageFault::UnsafeEntry { path: said, .. } => said == shown && !(kind is File)
                    && !(kind is Directory),
                PackageFault::DuplicateEntry(said) => below == Some(said) && state.seen.contains(said),
                PackageFault::TooLarge(_) => !within,
                _ => false,
            }
        }),
{
}

/// Only what an archive calls a regular file is written, and only what it calls a directory is
/// passed over: no link and no device ever is.
pub proof fn only_regular_files_are_written(state: Unpacked, header: HeaderModel)
    ensures
        header_admission(state, header) is Write ==> header.kind == "Regular"@,
        header_admission(state, header) is Skip ==> header.kind == "Directory"@,
        header.kind != "Regular"@ && header.kind != "Directory"@ ==> header_admission(state, header)
            is Refuse,
{
}

/// Whether an archive has an entry at a place, and at every place before it.
pub open spec fn has_entry(archive: Seq<u8>, from: int, at: int) -> bool {
    &&& from <= at < usize::MAX
    &&& forall|j: nat|
        from <= j <= at ==> (#[trigger] archive_header(archive, j) matches Ok(Some(_)))
}

/// Whether a file is what an archive holds at a place.
pub open spec fn is_entry_at(archive: Seq<u8>, at: int, limits: Limits, file: FileModel) -> bool {
    &&& archive_header(archive, at as nat) matches Ok(Some(header))
    &&& header.kind == "Regular"@
    &&& header.path is Some
    &&& confined(header.path->0) == Some(file.0)
    &&& archive_contents(archive, at as nat, sum(limits.file_bytes, 1)) == Ok::<
        Seq<u8>,
        Seq<char>,
    >(file.1)
}

/// Whether a file of a list is what an archive holds at a place.
pub open spec fn holds_entry(
    archive: Seq<u8>,
    at: int,
    limits: Limits,
    files: Seq<FileModel>,
) -> bool {
    exists|k: int| 0 <= k < files.len() && is_entry_at(archive, at, limits, #[trigger] files[k])
}

/// Whether a file is what an archive holds at one of its places.
pub open spec fn is_an_entry(archive: Seq<u8>, limits: Limits, file: FileModel) -> bool {
    exists|at: int| 0 <= at < usize::MAX && #[trigger] is_entry_at(archive, at, limits, file)
}

proof fn everything_from(archive: Seq<u8>, state: Unpacked, files: Seq<FileModel>, from: usize)
    requires
        unpacked_from(archive, state, files, from) is Ok,
    ensures
        ({
            let all = unpacked_from(archive, state, files, from)->Ok_0;
            &&& files.len() <= all.len()
            &&& forall|k: int| 0 <= k < files.len() ==> #[trigger] all[k] == files[k]
            &&& forall|k: int|
                files.len() <= k < all.len() ==> is_an_entry(archive, state.limits, #[trigger] all[k])
            &&& forall|at: int|
                #[trigger] has_entry(archive, from as int, at) ==> {
                    let header = archive_header(archive, at as nat)->Ok_0->0;
                    &&& header.kind == "Regular"@ || header.kind == "Directory"@
                    &&& header.kind == "Regular"@ ==> holds_entry(archive, at, state.limits, all)
                }
        }),
    decreases usize::MAX - from,
{
    let all = unpacked_from(archive, state, files, from)->Ok_0;
    match archive_header(archive, from as nat) {
        Ok(Some(header)) => {
            only_regular_files_are_written(state, header);
            match header_admission(state, header) {
                Admission::Write(path) => {
                    let contents = archive_contents(
                        archive,
                        from as nat,
                        sum(state.limits.file_bytes, 1),
                    )->Ok_0;
                    let after = crate::archive::with_contents(
                        state,
                        path,
                        declared_size(header),
                        contents.len(),
                    );
                    let longer = files.push((path, contents));
                    everything_from(archive, after, longer, (from + 1) as usize);
                    let k = files.len() as int;
                    what_is_written(
                        state,
                        header.path,
                        header.shown,
                        kind_named(header.kind),
                        declared_size(header),
                    );
                    assert(all[k] == longer[k]);
                    assert(is_entry_at(archive, from as int, state.limits, all[k]));
                    assert forall|i: int| 0 <= i < files.len() implies #[trigger] all[i] == files[i] by {
                        assert(all[i] == longer[i]);
                    }
                    assert forall|at: int| #[trigger] has_entry(archive, from as int, at) implies {
                        let header = archive_header(archive, at as nat)->Ok_0->0;
                        &&& header.kind == "Regular"@ || header.kind == "Directory"@
                        &&& header.kind == "Regular"@ ==> holds_entry(archive, at, state.limits, all)
                    } by {
                        if at > from {
                            assert(has_entry(archive, from + 1, at));
                        }
                    }
                },
                Admission::Skip => {
                    everything_from(archive, state, files, (from + 1) as usize);
                    assert forall|at: int| #[trigger] has_entry(archive, from as int, at) implies {
                        let header = archive_header(archive, at as nat)->Ok_0->0;
                        &&& header.kind == "Regular"@ || header.kind == "Directory"@
                        &&& header.kind == "Regular"@ ==> holds_entry(archive, at, state.limits, all)
                    } by {
                        if at > from {
                            assert(has_entry(archive, from + 1, at));
                        } else {
                            reveal_strlit("Regular");
                            reveal_strlit("Directory");
                            assert("Regular"@.len() == 7 && "Directory"@.len() == 9);
                        }
                    }
                },
                _ => {},
            }
        },
        _ => {
            assert forall|at: int| !(#[trigger] has_entry(archive, from as int, at)) by {
                if has_entry(archive, from as int, at) {
                    assert(archive_header(archive, from as nat) matches Ok(Some(_)));
                }
            }
        },
    }
}

/// Unpacking leaves nothing out and makes nothing up: every regular file of an archive is among the
/// files, under its path and with its contents, and every file is one of the archive's. An archive
/// with anything else in it but directories is refused.
pub proof fn everything_is_unpacked(archive: Seq<u8>, limits: Limits)
    requires
        unpacked(archive, limits) is Ok,
    ensures
        forall|k: int|
            0 <= k < unpacked(archive, limits)->Ok_0.len() ==> is_an_entry(
                archive,
                limits,
                #[trigger] unpacked(archive, limits)->Ok_0[k],
            ),
        forall|at: int|
            #[trigger] has_entry(archive, 0, at) ==> {
                let header = archive_header(archive, at as nat)->Ok_0->0;
                &&& header.kind == "Regular"@ || header.kind == "Directory"@
                &&& header.kind == "Regular"@ ==> holds_entry(
                    archive,
                    at,
                    limits,
                    unpacked(archive, limits)->Ok_0,
                )
            },
{
    everything_from(archive, crate::archive::not_begun(limits), Seq::empty(), 0);
}

/// What was fetched is confirmed only by its own digest: the digest covers the files that came, and
/// its digits are those expected. Anything else is refused, with both digests.
pub proof fn only_the_expected_bytes_are_confirmed(
    files: Seq<(String, Vec<u8>)>,
    expected: Seq<char>,
    r: Result<DirectoryDigest, PackageError>,
)
    requires
        confirmed(files, expected, r),
    ensures
        r matches Ok(found) ==> {
            &&& covers_listing(found.covered(), files)
            &&& text::lower(bare_hex(expected)) == text::lower(found.fingerprint())
        },
        r matches Err(error) ==> exists|digest: DirectoryDigest|
            {
                &&& #[trigger] covers_listing(digest.covered(), files)
                &&& text::lower(bare_hex(expected)) != text::lower(digest.fingerprint())
                &&& error@ == PackageFault::DigestMismatch {
                    expected: "sha256:"@ + text::lower(bare_hex(expected)),
                    found: "sha256:"@ + digest.fingerprint(),
                }
            },
{
}

/// Whether a path is that of a file that carries a signature.
pub open spec fn carries_a_signature(path: Seq<char>) -> bool {
    path == "plugin.sig"@ || path == "plugin.sigstore.json"@
}

/// Whether no two files of a listing have one path.
pub open spec fn is_listed_once(files: Seq<(String, Vec<u8>)>) -> bool {
    forall|i: int, j: int|
        0 <= i < j < files.len() ==> (#[trigger] files[i]).0@ != (#[trigger] files[j]).0@
}

proof fn found_in_listing(files: Seq<(String, Vec<u8>)>, path: Seq<char>)
    ensures
        last_at(files, path) is None <==> forall|i: int|
            0 <= i < files.len() ==> (#[trigger] files[i]).0@ != path,
        last_at(files, path) matches Some(contents) ==> exists|i: int|
            0 <= i < files.len() && (#[trigger] files[i]).0@ == path && files[i].1@ == contents
                && forall|j: int| i < j < files.len() ==> (#[trigger] files[j]).0@ != path,
    decreases files.len(),
{
    if files.len() > 0 {
        let less = files.drop_last();
        found_in_listing(less, path);
        let n = files.len() - 1;
        if files.last().0@ == path {
            assert(files[n].0@ == path);
        } else {
            match last_at(less, path) {
                Some(contents) => {
                    let i = choose|i: int|
                        0 <= i < less.len() && (#[trigger] less[i]).0@ == path && less[i].1@
                            == contents && forall|j: int|
                            i < j < less.len() ==> (#[trigger] less[j]).0@ != path;
                    assert(files[i] == less[i]);
                    assert forall|j: int| i < j < files.len() implies (#[trigger] files[j]).0@
                        != path by {
                        if j < n {
                            assert(files[j] == less[j]);
                        }
                    }
                },
                None => {
                    assert forall|i: int| 0 <= i < files.len() implies (#[trigger] files[i]).0@
                        != path by {
                        if i < n {
                            assert(files[i] == less[i]);
                        }
                    }
                },
            }
        }
    }
}

/// A digest covers every file of a directory by its contents, but those that carry the signature,
/// and nothing that is not in the directory.
pub proof fn a_digest_covers_every_file(
    covered: Seq<Covered>,
    files: Seq<(String, Vec<u8>)>,
    path: Seq<char>,
)
    requires
        covers_listing(covered, files),
        is_listed_once(files),
    ensures
        hash_at(covered, path) is Some <==> !carries_a_signature(path) && exists|i: int|
            0 <= i < files.len() && (#[trigger] files[i]).0@ == path,
        forall|i: int|
            0 <= i < files.len() && (#[trigger] files[i]).0@ == path && !carries_a_signature(path)
                ==> hash_at(covered, path) == Some(sha256_of(files[i].1@)),
        hash_at(covered, path) matches Some(hash) ==> exists|k: int|
            0 <= k < covered.len() && (#[trigger] covered[k]).0 == path && covered[k].1 == hash,
{
    found_in_listing(files, path);
    assert(hash_at(covered, path) == listed_hash(files, path));
    if hash_at(covered, path) is Some {
        let k = hash_place(covered, path);
        assert(covered[k].0 == path);
    }
}

/// An index's answer is taken exactly when it is a success; where there is nothing, the plugin is
/// not known, and any other answer is the transport's.
pub proof fn answers_are_told_apart(
    url: Seq<char>,
    what: Seq<char>,
    status: u16,
    status_text: Seq<char>,
)
    ensures
        answer_fault(url, what, status, status_text) is None <==> 200 <= status <= 299,
        status == 404 ==> answer_fault(url, what, status, status_text) == Some(
            IndexFault::UnknownPlugin(what),
        ),
        status != 404 && !(200 <= status <= 299) ==> answer_fault(url, what, status, status_text)
            == Some(IndexFault::Transport(url + ": the index answered "@ + status_text)),
{
}

/// The scheme of a registry reference may be written or left out, and what is left must name
/// something.
pub proof fn a_scheme_may_be_left_out(bare: Seq<char>)
    requires
        bare.len() > 0,
        !text::begins(bare, "oci://"@),
    ensures
        bare_reference_of(bare) == Some(bare),
        bare_reference_of("oci://"@ + bare) == Some(bare),
        bare_reference_of("oci://"@) is None,
        bare_reference_of(Seq::empty()) is None,
{
    what_follows_a_prefix("oci://"@ + bare, "oci://"@, bare);
    assert("oci://"@ =~= "oci://"@ + Seq::<char>::empty());
    what_follows_a_prefix("oci://"@, "oci://"@, Seq::empty());
    reveal_strlit("oci://");
}

/// A reference goes over HTTP exactly when it says so.
pub proof fn http_is_said(reference: Seq<char>)
    ensures
        is_http(reference) <==> exists|rest: Seq<char>|
            reference == #[trigger] ("https://"@ + rest) || reference == "http://"@ + rest,
{
    if text::begins(reference, "https://"@) {
        let rest = text::after(reference, "https://"@)->0;
        what_follows_a_prefix(reference, "https://"@, rest);
        assert(reference == "https://"@ + rest);
    }
    if text::begins(reference, "http://"@) {
        let rest = text::after(reference, "http://"@)->0;
        what_follows_a_prefix(reference, "http://"@, rest);
        let longer = "https://"@ + rest;
        assert(reference == "http://"@ + rest);
    }
    if exists|rest: Seq<char>|
        reference == #[trigger] ("https://"@ + rest) || reference == "http://"@ + rest {
        let rest = choose|rest: Seq<char>|
            reference == #[trigger] ("https://"@ + rest) || reference == "http://"@ + rest;
        what_follows_a_prefix(reference, "https://"@, rest);
        what_follows_a_prefix(reference, "http://"@, rest);
    }
}

/// The address of an index is kept without the slashes at its end, and nothing else is taken off.
pub proof fn slashes_at_the_end_do_not_count(base: Seq<char>)
    ensures
        without_slashes(base.push('/')) == without_slashes(base),
        base.len() == 0 || base.last() != '/' ==> without_slashes(base) == base,
{
    assert(base.push('/').drop_last() =~= base);
}

proof fn layers_upto(types: Seq<String>, n: int)
    requires
        0 <= n <= types.len(),
    ensures
        plugin_layers(types, n) == 0 <==> forall|i: int|
            0 <= i < n ==> (#[trigger] types[i])@
                != "application/vnd.stanchion.plugin.layer.v1.tar+gzip"@,
        forall|i: int, j: int|
            0 <= i < j < n && (#[trigger] types[i])@
                == "application/vnd.stanchion.plugin.layer.v1.tar+gzip"@ && (#[trigger] types[j])@
                == "application/vnd.stanchion.plugin.layer.v1.tar+gzip"@ ==> plugin_layers(types, n)
                >= 2,
        plugin_layers(types, n) >= 2 ==> exists|i: int, j: int|
            0 <= i < j < n && (#[trigger] types[i])@
                == "application/vnd.stanchion.plugin.layer.v1.tar+gzip"@ && (#[trigger] types[j])@
                == "application/vnd.stanchion.plugin.layer.v1.tar+gzip"@,
    decreases n,
{
    if n > 0 {
        layers_upto(types, n - 1);
        let wanted = "application/vnd.stanchion.plugin.layer.v1.tar+gzip"@;
        let here = types[n - 1];
        if here@ == wanted && plugin_layers(types, n - 1) > 0 {
            let i = choose|i: int| 0 <= i < n - 1 && (#[trigger] types[i])@ == wanted;
            assert(types[i]@ == wanted && types[n - 1]@ == wanted);
        }
    }
}

/// The layers of an artifact that hold a plugin are counted by their type: none where no layer has
/// it, and more than one exactly where two have.
pub proof fn plugin_layers_are_counted(types: Seq<String>)
    ensures
        plugin_layers(types, types.len() as int) == 0 <==> forall|i: int|
            0 <= i < types.len() ==> (#[trigger] types[i])@
                != "application/vnd.stanchion.plugin.layer.v1.tar+gzip"@,
        plugin_layers(types, types.len() as int) > 1 <==> exists|i: int, j: int|
            0 <= i < j < types.len() && (#[trigger] types[i])@
                == "application/vnd.stanchion.plugin.layer.v1.tar+gzip"@ && (#[trigger] types[j])@
                == "application/vnd.stanchion.plugin.layer.v1.tar+gzip"@,
{
    layers_upto(types, types.len() as int);
}

} // verus!
