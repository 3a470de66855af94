//! Package archives: which files a `tar.gz` holds, and the `tar.gz` of files.
//!
//! An archive is read in one pass, entry by entry, and an entry's contents only once it was
//! admitted, so that what is refused costs no more than the entries before it.

use crate::names::NameMap;
use crate::package::{
    admission, confined, sum, Admission, EntryKind, KindModel, Limits, PackageError, PackageFault,
    Unpacked, Unpacking,
};
use crate::signature::opt_str;
use crate::text;
use vstd::prelude::*;
use vstd::string::*;

verus! {

/// The permissions that every packed file has.
pub const PACKED_MODE: u32 = 0o644;

/// The owner that every packed file has.
pub const PACKED_OWNER: u64 = 0;

/// The time at which every packed file was changed.
pub const PACKED_TIME: u64 = 0;

/// What an archive says of an entry, before its contents.
#[derive(Debug)]
pub struct EntryHeader {
    /// The path, where it is a text.
    pub path: Option<String>,
    /// The path as it is shown.
    pub shown: String,
    /// What kind of entry it is.
    pub kind: String,
    /// The size it declares, where it can be read.
    pub declared: Option<u64>,
}

/// What an archive says of an entry, apart from how it is stored.
pub struct HeaderModel {
    pub path: Option<Seq<char>>,
    pub shown: Seq<char>,
    pub kind: Seq<char>,
    pub declared: Option<u64>,
}

impl View for EntryHeader {
    type V = HeaderModel;

    open spec fn view(&self) -> HeaderModel {
        HeaderModel {
            path: text::opt(self.path),
            shown: self.shown@,
            kind: self.kind@,
            declared: self.declared,
        }
    }
}

/// What `tar::Entries::next` says of an entry of a `tar.gz`, by its place: nothing, where the
/// archive ends before it, or the text of the error.
pub uninterp spec fn archive_header(archive: Seq<u8>, at: nat) -> Result<
    Option<HeaderModel>,
    Seq<char>,
>;

/// What `tar` reads of the contents of an entry of a `tar.gz`, by its place and up to a number
/// of bytes, or the text of the error.
pub uninterp spec fn archive_contents(archive: Seq<u8>, at: nat, budget: u64) -> Result<
    Seq<u8>,
    Seq<char>,
>;

/// The view of a header that was read.
pub open spec fn header_view(r: Result<Option<EntryHeader>, String>) -> Result<
    Option<HeaderModel>,
    Seq<char>,
> {
    match r {
        Ok(Some(header)) => Ok(Some(header@)),
        Ok(None) => Ok(None),
        Err(message) => Err(message@),
    }
}

/// The view of contents that were read or written.
pub open spec fn bytes_view(r: Result<Vec<u8>, String>) -> Result<Seq<u8>, Seq<char>> {
    match r {
        Ok(bytes) => Ok(bytes@),
        Err(message) => Err(message@),
    }
}

/// A `tar.gz` that is open for reading: a `tar::Archive` over a `flate2::read::GzDecoder`, both of
/// which are bound by a trait on what they read from.
#[verifier::external_body]
pub struct OpenArchive {
    inner: tar::Archive<flate2::read::GzDecoder<std::io::Cursor<Vec<u8>>>>,
}

/// The bytes of a `tar.gz` that is open for reading.
pub uninterp spec fn open_bytes(archive: OpenArchive) -> Seq<u8>;

/// The entries of a `tar.gz`, in the order they come: the `tar::Entries` of an archive, and the
/// `tar::Entry` that came last.
#[verifier::external_body]
pub struct Reader<'a> {
    entries: tar::Entries<'a, flate2::read::GzDecoder<std::io::Cursor<Vec<u8>>>>,
    current: Option<tar::Entry<'a, flate2::read::GzDecoder<std::io::Cursor<Vec<u8>>>>>,
}

/// How far a reader has come.
pub struct Reading {
    /// The bytes of the archive.
    pub archive: Seq<u8>,
    /// How many entries came.
    pub passed: nat,
    /// Whether the contents of the entry that came last are still to be read.
    pub unread: bool,
    /// Whether something could not be read.
    pub broken: bool,
}

/// How far a reader has come.
pub uninterp spec fn reading(reader: Reader<'_>) -> Reading;

/// Calls `tar::Archive::new` on what a `flate2::read::GzDecoder` decodes. Claimed: the bytes are
/// those that were given.
#[verifier::external_body]
fn open_archive(archive: &[u8]) -> (r: OpenArchive)
    ensures
        open_bytes(r) == archive@,
{
    let bytes = std::io::Cursor::new(archive.to_vec());
    OpenArchive { inner: tar::Archive::new(flate2::read::GzDecoder::new(bytes)) }
}

/// Calls `tar::Archive::entries`. Claimed: the entries are those of the archive's bytes, from the
/// first on; where there are none to be had, the first is as little to be had.
#[verifier::external_body]
fn read_entries<'a>(archive: &'a mut OpenArchive) -> (r: Result<Reader<'a>, String>)
    ensures
        match r {
            Ok(reader) => reading(reader) == (Reading {
                archive: open_bytes(*old(archive)),
                passed: 0,
                unread: false,
                broken: false,
            }),
            Err(message) => header_failed(open_bytes(*old(archive)), 0, message@),
        },
{
    match archive.inner.entries() {
        Ok(entries) => Ok(Reader { entries, current: None }),
        Err(error) => Err(error.to_string()),
    }
}

/// Whether an entry of an archive cannot be read, for a reason.
pub open spec fn header_failed(archive: Seq<u8>, at: nat, message: Seq<char>) -> bool {
    archive_header(archive, at) matches Err(said) && said == message
}

/// Calls `tar::Entries::next`. Claimed: what comes is a function of the archive's bytes and of how
/// many entries came before, whatever was read of their contents.
#[verifier::external_body]
fn next_header(reader: &mut Reader<'_>) -> (r: Result<Option<EntryHeader>, String>)
    requires
        !reading(*old(reader)).broken,
    ensures
        header_view(r) == archive_header(
            reading(*old(reader)).archive,
            reading(*old(reader)).passed,
        ),
        reading(*final(reader)) == (Reading {
            passed: reading(*old(reader)).passed + 1,
            unread: r matches Ok(Some(_)),
            broken: r is Err,
            ..reading(*old(reader))
        }),
{
    let entry = match reader.entries.next() {
        None => return Ok(None),
        Some(found) => found.map_err(|error| error.to_string())?,
    };
    let shown = String::from_utf8_lossy(&entry.path_bytes()).into_owned();
    let path = String::from_utf8(entry.path_bytes().into_owned()).ok();
    let kind = format!("{:?}", entry.header().entry_type());
    let declared = entry.header().size().ok();
    reader.current = Some(entry);
    Ok(Some(EntryHeader { path, shown, kind, declared }))
}

/// Reads the `tar::Entry` that came last, up to a number of bytes. Claimed: what is read is a
/// function of the archive's bytes, the place of the entry and that number.
#[verifier::external_body]
fn read_contents(reader: &mut Reader<'_>, budget: u64) -> (r: Result<Vec<u8>, String>)
    requires
        !reading(*old(reader)).broken,
        reading(*old(reader)).unread,
        reading(*old(reader)).passed > 0,
    ensures
        bytes_view(r) == archive_contents(
            reading(*old(reader)).archive,
            (reading(*old(reader)).passed - 1) as nat,
            budget,
        ),
        reading(*final(reader)) == (Reading {
            unread: false,
            broken: r is Err,
            ..reading(*old(reader))
        }),
{
    let mut contents = Vec::new();
    let mut part = std::io::Read::take(reader.current.take().unwrap(), budget);
    match std::io::Read::read_to_end(&mut part, &mut contents) {
        Ok(_) => Ok(contents),
        Err(error) => Err(error.to_string()),
    }
}

/// What kind of entry is meant, by the name that `tar` gives it.
pub open spec fn kind_named(name: Seq<char>) -> KindModel {
    if name == "Directory"@ {
        KindModel::Directory
    } else if name == "Regular"@ {
        KindModel::File
    } else if name == "Symlink"@ {
        KindModel::Symlink
    } else if name == "Link"@ {
        KindModel::HardLink
    } else if name == "Char"@ {
        KindModel::CharacterDevice
    } else if name == "Block"@ {
        KindModel::BlockDevice
    } else if name == "Fifo"@ {
        KindModel::Fifo
    } else {
        KindModel::Other(name)
    }
}

/// What kind of entry is meant, by the name that `tar` gives it.
pub fn kind_of(name: &str) -> (r: EntryKind)
    ensures
        r@ == kind_named(name@),
{
    if text::same(name, "Directory") {
        EntryKind::Directory
    } else if text::same(name, "Regular") {
        EntryKind::File
    } else if text::same(name, "Symlink") {
        EntryKind::Symlink
    } else if text::same(name, "Link") {
        EntryKind::HardLink
    } else if text::same(name, "Char") {
        EntryKind::CharacterDevice
    } else if text::same(name, "Block") {
        EntryKind::BlockDevice
    } else if text::same(name, "Fifo") {
        EntryKind::Fifo
    } else {
        EntryKind::Other(name.to_owned())
    }
}

/// A file of a package: its path and its contents.
pub type FileModel = (Seq<char>, Seq<u8>);

/// The size that an entry declares: none that can be read counts as nothing.
pub open spec fn declared_size(header: HeaderModel) -> u64 {
    match header.declared {
        Some(size) => size,
        None => 0,
    }
}

/// What becomes of an entry of an archive.
pub open spec fn header_admission(state: Unpacked, header: HeaderModel) -> Admission {
    admission(state, header.path, header.shown, kind_named(header.kind), declared_size(header))
}

/// An archive being unpacked after one more file.
pub open spec fn with_file(state: Unpacked, path: Seq<char>, declared: u64) -> Unpacked {
    Unpacked {
        seen: state.seen.insert(path),
        count: state.count + 1,
        total: sum(state.total, declared),
        limits: state.limits,
    }
}

/// An archive being unpacked once a file was read: one that is larger than it declared counts
/// with its size.
pub open spec fn with_contents(
    state: Unpacked,
    path: Seq<char>,
    declared: u64,
    size: nat,
) -> Unpacked {
    let counted = with_file(state, path, declared);
    Unpacked {
        total: if size > declared {
            sum(counted.total, (size - declared) as u64)
        } else {
            counted.total
        },
        ..counted
    }
}

/// What is said of an archive that expands past its limit.
pub open spec fn expands_past(limits: Limits) -> PackageFault {
    PackageFault::TooLarge(
        "archive expands past the "@ + text::decimal(limits.total_bytes as nat) + " byte limit"@,
    )
}

/// What unpacking an archive comes to from an entry on, given what came before: each entry is
/// judged in turn, a file that is admitted is read and held to its size and to what is left of the
/// limit, and the first entry that cannot be read or is refused refuses the archive.
pub open spec fn unpacked_from(
    archive: Seq<u8>,
    state: Unpacked,
    files: Seq<FileModel>,
    at: usize,
) -> Result<Seq<FileModel>, PackageFault>
    decreases usize::MAX - at,
{
    if at == usize::MAX {
        Err(PackageFault::TooLarge("archive holds more entries than can be counted"@))
    } else {
        match archive_header(archive, at as nat) {
            Err(message) => Err(PackageFault::Io(message)),
            Ok(None) => Ok(files),
            Ok(Some(header)) => match header_admission(state, header) {
                Admission::Refuse(fault) => Err(fault),
                Admission::Skip => unpacked_from(archive, state, files, (at + 1) as usize),
                Admission::Write(path) => match archive_contents(
                    archive,
                    at as nat,
                    sum(state.limits.file_bytes, 1),
                ) {
                    Err(message) => Err(PackageFault::Io(message)),
                    Ok(contents) => {
                        let after = with_contents(
                            state,
                            path,
                            declared_size(header),
                            contents.len(),
                        );
                        if contents.len() > state.limits.file_bytes {
                            Err(
                                PackageFault::TooLarge(
                                    "`"@ + path + "` is larger than its header declared"@,
                                ),
                            )
                        } else if after.total > state.limits.total_bytes {
                            Err(expands_past(state.limits))
                        } else {
                            unpacked_from(
                                archive,
                                after,
                                files.push((path, contents)),
                                (at + 1) as usize,
                            )
                        }
                    },
                },
            },
        }
    }
}

/// An archive of which nothing was unpacked yet.
pub open spec fn not_begun(limits: Limits) -> Unpacked {
    Unpacked { seen: Set::empty(), count: 0, total: 0, limits }
}

/// What unpacking an archive comes to.
pub open spec fn unpacked(archive: Seq<u8>, limits: Limits) -> Result<
    Seq<FileModel>,
    PackageFault,
> {
    unpacked_from(archive, not_begun(limits), Seq::empty(), 0)
}

/// Files, apart from how they are stored.
pub open spec fn file_models(files: Seq<(String, Vec<u8>)>) -> Seq<FileModel> {
    files.map_values(|f: (String, Vec<u8>)| (f.0@, f.1@))
}

/// The view of what an archive was unpacked to.
pub open spec fn unpacked_view(r: Result<Vec<(String, Vec<u8>)>, PackageError>) -> Result<
    Seq<FileModel>,
    PackageFault,
> {
    match r {
        Ok(files) => Ok(file_models(files@)),
        Err(error) => Err(error@),
    }
}

/// Unpacks a `tar.gz`, refusing anything unsafe: the files it holds, by path and contents, in
/// the order of the archive.
pub fn unpack_archive(archive: &[u8], limits: Limits) -> (r: Result<
    Vec<(String, Vec<u8>)>,
    PackageError,
>)
    ensures
        unpacked_view(r) == unpacked(archive@, limits),
{
    let mut unpacking = Unpacking::new(limits);
    let mut files: Vec<(String, Vec<u8>)> = Vec::new();
    let mut opened = open_archive(archive);
    let mut reader = match read_entries(&mut opened) {
        Err(message) => {
            return Err(PackageError::Io(message));
        },
        Ok(reader) => reader,
    };
    let mut at: usize = 0;
    proof {
        assert(file_models(files@) =~= Seq::empty());
    }
    loop
        invariant
            unpacking.wf(),
            unpacking@.limits == limits,
            reading(reader).archive == archive@,
            reading(reader).passed == at,
            !reading(reader).broken,
            unpacked(archive@, limits) == unpacked_from(
                archive@,
                unpacking@,
                file_models(files@),
                at,
            ),
        decreases usize::MAX - at,
    {
        if at == usize::MAX {
            return Err(
                PackageError::TooLarge(
                    "archive holds more entries than can be counted".to_owned(),
                ),
            );
        }
        let header = match next_header(&mut reader) {
            Err(message) => {
                return Err(PackageError::Io(message));
            },
            Ok(None) => {
                return Ok(files);
            },
            Ok(Some(header)) => header,
        };
        let declared: u64 = match header.declared {
            Some(size) => size,
            None => 0,
        };
        let path = match &header.path {
            Some(path) => Some(path.as_str()),
            None => None,
        };
        let ghost before = unpacking@;
        proof {
            assert(opt_str(path) == header@.path);
        }
        let judged = unpacking.judge_entry(
            path,
            header.shown.as_str(),
            &kind_of(header.kind.as_str()),
            declared,
        );
        match judged {
            Err(error) => {
                return Err(error);
            },
            Ok(None) => {},
            Ok(Some(relative)) => {
                let contents = match read_contents(&mut reader, unpacking.read_budget()) {
                    Err(message) => {
                        return Err(PackageError::Io(message));
                    },
                    Ok(contents) => contents,
                };
                let size: u64 = contents.len() as u64;
                match unpacking.check_written(relative.as_str(), size) {
                    Err(error) => {
                        return Err(error);
                    },
                    Ok(_) => {},
                }
                match unpacking.count_written(declared, size) {
                    Err(error) => {
                        return Err(error);
                    },
                    Ok(_) => {},
                }
                let ghost had = file_models(files@);
                let ghost model = (relative@, contents@);
                files.push((relative, contents));
                proof {
                    assert(file_models(files@) =~= had.push(model));
                    assert(unpacking@ == with_contents(before, model.0, declared, model.1.len()));
                }
            },
        }
        at = at + 1;
    }
}

/// A file as it is packed.
pub struct PackedFile {
    pub path: Seq<char>,
    pub contents: Seq<u8>,
    pub mode: u32,
    pub owner: u64,
    pub time: u64,
}

/// A `tar.gz` being written: a `tar::Builder` over a `flate2::write::GzEncoder`, both of which
/// are bound by a trait on what they write to.
#[verifier::external_body]
pub struct Packing {
    inner: tar::Builder<flate2::write::GzEncoder<Vec<u8>>>,
}

/// The files that were added to a `tar.gz` being written.
pub uninterp spec fn packed(archive: Packing) -> Seq<PackedFile>;

/// Why `tar::Builder::append_data` does not take a file, if it does not.
pub uninterp spec fn path_fault(path: Seq<char>) -> Option<Seq<char>>;

/// The bytes that `tar::Builder::into_inner` and `flate2::write::GzEncoder::finish` give for the
/// files that were added, or the text of the error.
pub uninterp spec fn archive_of(files: Seq<PackedFile>) -> Result<Seq<u8>, Seq<char>>;

/// Calls `tar::Builder::new` over a new `flate2::write::GzEncoder`. Claimed: nothing was added.
#[verifier::external_body]
fn new_archive() -> (r: Packing)
    ensures
        packed(r) == Seq::<PackedFile>::empty(),
{
    let encoder = flate2::write::GzEncoder::new(Vec::new(), flate2::Compression::default());
    Packing { inner: tar::Builder::new(encoder) }
}

/// Calls `tar::Builder::append_data` with a header of a regular file. Claimed: whether the file
/// is taken is a function of its path; one that is taken is added as it was given, and one that
/// is not leaves what was added as it was.
#[verifier::external_body]
fn append_file(
    archive: &mut Packing,
    path: &str,
    contents: &[u8],
    mode: u32,
    owner: u64,
    time: u64,
) -> (r: Result<(), String>)
    ensures
        match r {
            Ok(_) => path_fault(path@) is None && packed(*final(archive)) == packed(
                *old(archive),
            ).push(PackedFile { path: path@, contents: contents@, mode, owner, time }),
            Err(message) => path_fault(path@) == Some(message@) && packed(*final(archive))
                == packed(*old(archive)),
        },
{
    let mut header = tar::Header::new_gnu();
    header.set_size(contents.len() as u64);
    header.set_mode(mode);
    header.set_uid(owner);
    header.set_gid(owner);
    header.set_mtime(time);
    header.set_entry_type(tar::EntryType::Regular);
    header.set_cksum();
    let added = archive.inner.append_data(&mut header, path, contents);
    added.map_err(|error| error.to_string())
}

/// Whether a path is written into an archive as it is: it is made of names alone, and none holds
/// the character that ends a text in a header.
pub open spec fn plain_path(path: Seq<char>) -> bool {
    confined(path) == Some(path) && !path.contains('\0')
}

/// Whether files are written into an archive under the paths that they have.
pub open spec fn plain_paths(files: Seq<PackedFile>) -> bool {
    forall|i: int| 0 <= i < files.len() ==> plain_path((#[trigger] files[i]).path)
}

/// What is said of a file that was packed.
pub open spec fn packed_header(file: PackedFile) -> HeaderModel {
    HeaderModel {
        path: Some(file.path),
        shown: file.path,
        kind: "Regular"@,
        declared: Some(file.contents.len() as u64),
    }
}

/// The first bytes of contents, up to a number.
pub open spec fn first_bytes(contents: Seq<u8>, budget: u64) -> Seq<u8> {
    if contents.len() <= budget {
        contents
    } else {
        contents.subrange(0, budget as int)
    }
}

/// Whether an archive holds files, in their order, and no others.
pub open spec fn reads_back(archive: Seq<u8>, files: Seq<PackedFile>) -> bool {
    &&& forall|at: nat|
        at < files.len() ==> #[trigger] archive_header(archive, at) == Ok::<
            Option<HeaderModel>,
            Seq<char>,
        >(Some(packed_header(files[at as int])))
    &&& forall|at: nat, budget: u64|
        at < files.len() ==> #[trigger] archive_contents(archive, at, budget) == Ok::<
            Seq<u8>,
            Seq<char>,
        >(first_bytes(files[at as int].contents, budget))
    &&& archive_header(archive, files.len()) == Ok::<Option<HeaderModel>, Seq<char>>(None)
}

/// Calls `tar::Builder::into_inner` and `flate2::write::GzEncoder::finish`. Claimed: the result
/// is a function of the files that were added, and files whose paths are made of names alone read
/// back as they were added.
#[verifier::external_body]
fn close_archive(archive: Packing) -> (r: Result<Vec<u8>, String>)
    ensures
        bytes_view(r) == archive_of(packed(archive)),
        r is Ok && plain_paths(packed(archive)) ==> reads_back(r->Ok_0@, packed(archive)),
{
    let encoder = archive.inner.into_inner().map_err(|error| error.to_string())?;
    encoder.finish().map_err(|error| error.to_string())
}

/// A file as a package holds it.
pub open spec fn packed_as(file: (String, Vec<u8>)) -> PackedFile {
    PackedFile {
        path: file.0@,
        contents: file.1@,
        mode: PACKED_MODE,
        owner: PACKED_OWNER,
        time: PACKED_TIME,
    }
}

/// The files of a package, in the order of their paths.
pub open spec fn packed_files(files: Seq<(String, Vec<u8>)>) -> Seq<PackedFile> {
    files.map_values(|f: (String, Vec<u8>)| packed_as(f))
}

/// The first fault of a path among files, from one on.
pub open spec fn first_path_fault(files: Seq<(String, Vec<u8>)>, from: int) -> Option<Seq<char>>
    decreases files.len() - from,
{
    if from < 0 || from >= files.len() {
        None
    } else {
        match path_fault(files[from].0@) {
            Some(message) => Some(message),
            None => first_path_fault(files, from + 1),
        }
    }
}

/// The archive of files in the order of their paths.
pub open spec fn archived(files: Seq<(String, Vec<u8>)>) -> Result<Seq<u8>, PackageFault> {
    match first_path_fault(files, 0) {
        Some(message) => Err(PackageFault::Io(message)),
        None => match archive_of(packed_files(files)) {
            Ok(bytes) => Ok(bytes),
            Err(message) => Err(PackageFault::Io(message)),
        },
    }
}

/// The view of an archive that was written.
pub open spec fn archived_view(r: Result<Vec<u8>, PackageError>) -> Result<Seq<u8>, PackageFault> {
    match r {
        Ok(bytes) => Ok(bytes@),
        Err(error) => Err(error@),
    }
}

/// What the first `n` files come to.
pub open spec fn size_upto(files: Seq<PackedFile>, n: int) -> nat
    decreases n,
{
    if n <= 0 {
        0
    } else {
        size_upto(files, n - 1) + files[n - 1].contents.len()
    }
}

/// Whether files keep within limits.
pub open spec fn fits(files: Seq<PackedFile>, limits: Limits) -> bool {
    &&& files.len() <= limits.entries
    &&& files.len() < usize::MAX
    &&& size_upto(files, files.len() as int) <= limits.total_bytes
    &&& forall|i: int|
        0 <= i < files.len() ==> (#[trigger] files[i]).contents.len() <= limits.file_bytes
}

/// The paths and contents of packed files.
pub open spec fn plain_files(files: Seq<PackedFile>) -> Seq<FileModel> {
    files.map_values(|f: PackedFile| (f.path, f.contents))
}

/// Packs files into a `tar.gz`, with fixed metadata and in the order of their paths. What is
/// packed under plain paths and keeps within limits is what unpacking gives back.
pub fn pack_archive(files: &NameMap<Vec<u8>>) -> (r: Result<Vec<u8>, PackageError>)
    requires
        files.wf(),
    ensures
        archived_view(r) == archived(files@),
        r matches Ok(bytes) ==> forall|limits: Limits|
            plain_paths(packed_files(files@)) && fits(packed_files(files@), limits)
                ==> #[trigger] unpacked(bytes@, limits) == Ok::<Seq<FileModel>, PackageFault>(
                plain_files(packed_files(files@)),
            ),
{
    let ghost all = files@;
    let n: usize = files.entries.len();
    let mut archive = new_archive();
    let mut i: usize = 0;
    proof {
        assert(packed(archive) =~= packed_files(all).subrange(0, 0));
    }
    while i < n
        invariant
            files.wf(),
            all == files@,
            files@ == files.entries@,
            n == all.len(),
            i <= n,
            packed(archive) == packed_files(all).subrange(0, i as int),
            first_path_fault(all, 0) == first_path_fault(all, i as int),
        decreases n - i,
    {
        let file = &files.entries[i];
        let ghost had = packed(archive);
        match append_file(
            &mut archive,
            file.0.as_str(),
            file.1.as_slice(),
            PACKED_MODE,
            PACKED_OWNER,
            PACKED_TIME,
        ) {
            Err(message) => {
                return Err(PackageError::Io(message));
            },
            Ok(_) => {},
        }
        proof {
            assert(packed(archive) =~= packed_files(all).subrange(0, i + 1));
        }
        i = i + 1;
    }
    proof {
        assert(packed_files(all).subrange(0, n as int) =~= packed_files(all));
    }
    let ghost whole = packed_files(all);
    let r = match close_archive(archive) {
        Err(message) => Err(PackageError::Io(message)),
        Ok(bytes) => Ok(bytes),
    };
    proof {
        if r is Ok {
            let bytes = r->Ok_0@;
            assert forall|limits: Limits|
                plain_paths(whole) && fits(whole, limits) implies #[trigger] unpacked(bytes, limits)
                == Ok::<Seq<FileModel>, PackageFault>(plain_files(whole)) by {
                distinct_paths(*files);
                assert(plain_files(whole).subrange(0, 0) =~= Seq::empty());
                assert(paths_upto(whole, 0) =~= Set::empty());
                comes_back(bytes, whole, limits, 0);
            }
        }
    }
    r
}

/// The paths of the first `n` files.
spec fn paths_upto(files: Seq<PackedFile>, n: int) -> Set<Seq<char>> {
    Set::new(|path: Seq<char>| exists|i: int| 0 <= i < n && (#[trigger] files[i]).path == path)
}

/// Whether no two files have one path.
spec fn each_once(files: Seq<PackedFile>) -> bool {
    forall|i: int, j: int|
        0 <= i < j < files.len() ==> (#[trigger] files[i]).path != (#[trigger] files[j]).path
}

proof fn distinct_paths(files: NameMap<Vec<u8>>)
    requires
        files.wf(),
    ensures
        each_once(packed_files(files@)),
{
    let whole = packed_files(files@);
    assert forall|i: int, j: int| 0 <= i < j < whole.len() implies (#[trigger] whole[i]).path != (
    #[trigger] whole[j]).path by {
        files.at_place(i);
        files.at_place(j);
    }
}

/// An archive that is unpacked up to one of the files it was packed from.
spec fn halfway(files: Seq<PackedFile>, limits: Limits, n: int) -> Unpacked {
    Unpacked {
        seen: paths_upto(files, n),
        count: n as nat,
        total: size_upto(files, n) as u64,
        limits,
    }
}

proof fn sizes_grow(files: Seq<PackedFile>, n: int)
    requires
        0 <= n <= files.len(),
    ensures
        size_upto(files, n) <= size_upto(files, files.len() as int),
    decreases files.len() - n,
{
    if n < files.len() {
        sizes_grow(files, n + 1);
    }
}

proof fn comes_back(archive: Seq<u8>, files: Seq<PackedFile>, limits: Limits, n: int)
    requires
        reads_back(archive, files),
        plain_paths(files),
        fits(files, limits),
        each_once(files),
        0 <= n <= files.len(),
    ensures
        unpacked_from(
            archive,
            halfway(files, limits, n),
            plain_files(files).subrange(0, n),
            n as usize,
        ) == Ok::<Seq<FileModel>, PackageFault>(plain_files(files)),
    decreases files.len() - n,
{
    let state = halfway(files, limits, n);
    let done = plain_files(files).subrange(0, n);
    let at = n as nat;
    if n == files.len() {
        assert(done =~= plain_files(files));
    } else {
        let file = files[n];
        let size = file.contents.len() as u64;
        sizes_grow(files, n);
        sizes_grow(files, n + 1);
        assert(archive_header(archive, at) == Ok::<Option<HeaderModel>, Seq<char>>(
            Some(packed_header(files[at as int])),
        ));
        assert(plain_path(files[n].path));
        assert(!state.seen.contains(file.path));
        assert(archive_contents(archive, at, sum(limits.file_bytes, 1)) == Ok::<
            Seq<u8>,
            Seq<char>,
        >(first_bytes(files[at as int].contents, sum(limits.file_bytes, 1))));
        assert(file.contents.len() <= limits.file_bytes);
        reveal_strlit("Regular");
        reveal_strlit("Directory");
        assert("Regular"@.len() != "Directory"@.len());
        let after = with_contents(state, file.path, size, file.contents.len());
        let then = halfway(files, limits, n + 1);
        assert(after.seen =~= then.seen) by {
            assert forall|path: Seq<char>| after.seen.contains(path) <==> then.seen.contains(
                path,
            ) by {
                if then.seen.contains(path) {
                    let i = choose|i: int| 0 <= i < n + 1 && (#[trigger] files[i]).path == path;
                    if i == n {
                    } else {
                        assert(files[i].path == path);
                    }
                }
                if state.seen.contains(path) {
                    let i = choose|i: int| 0 <= i < n && (#[trigger] files[i]).path == path;
                    assert(files[i].path == path);
                }
                if path == file.path {
                    assert(files[n].path == path);
                }
            }
        }
        assert(done.push((file.path, file.contents)) =~= plain_files(files).subrange(0, n + 1));
        comes_back(archive, files, limits, n + 1);
    }
}

/// Whether a path is what some path of an archive is reduced to.
pub open spec fn is_confined(path: Seq<char>) -> bool {
    exists|raw: Seq<char>| #[trigger] confined(raw) == Some(path)
}

/// What the first `n` files come to.
pub open spec fn bytes_upto(files: Seq<FileModel>, n: int) -> nat
    decreases n,
{
    if n <= 0 {
        0
    } else {
        bytes_upto(files, n - 1) + files[n - 1].1.len()
    }
}

proof fn bytes_of_more(files: Seq<FileModel>, more: Seq<FileModel>, n: int)
    requires
        0 <= n <= files.len() <= more.len(),
        forall|i: int| 0 <= i < files.len() ==> #[trigger] more[i] == files[i],
    ensures
        bytes_upto(more, n) == bytes_upto(files, n),
    decreases n,
{
    if n > 0 {
        bytes_of_more(files, more, n - 1);
    }
}

/// Whether files are such as may be written below a destination: no more than may be, none larger
/// than may be nor all of them together, each under a path that stays below, and no two under one
/// path. A limit of the whole range bounds no sum.
pub open spec fn safe_files(files: Seq<FileModel>, limits: Limits) -> bool {
    &&& files.len() <= limits.entries
    &&& forall|i: int| 0 <= i < files.len() ==> (#[trigger] files[i]).1.len() <= limits.file_bytes
    &&& limits.total_bytes < u64::MAX ==> bytes_upto(files, files.len() as int)
        <= limits.total_bytes
    &&& forall|i: int| 0 <= i < files.len() ==> is_confined((#[trigger] files[i]).0)
    &&& forall|i: int, j: int|
        0 <= i < j < files.len() ==> (#[trigger] files[i]).0 != (#[trigger] files[j]).0
}

proof fn safe_from(archive: Seq<u8>, state: Unpacked, files: Seq<FileModel>, at: usize)
    requires
        unpacked_from(archive, state, files, at) is Ok,
        safe_files(files, state.limits),
        files.len() == state.count,
        forall|i: int| 0 <= i < files.len() ==> state.seen.contains((#[trigger] files[i]).0),
        state.total == u64::MAX || bytes_upto(files, files.len() as int) <= state.total,
    ensures
        safe_files(unpacked_from(archive, state, files, at)->Ok_0, state.limits),
    decreases usize::MAX - at,
{
    match archive_header(archive, at as nat) {
        Ok(Some(header)) => {
            match header_admission(state, header) {
                Admission::Skip => {
                    safe_from(archive, state, files, (at + 1) as usize);
                },
                Admission::Write(path) => {
                    assert(confined(header.path->0) == Some(path));
                    let contents = archive_contents(
                        archive,
                        at as nat,
                        sum(state.limits.file_bytes, 1),
                    )->Ok_0;
                    let more = files.push((path, contents));
                    assert forall|i: int, j: int| 0 <= i < j < more.len() implies (
                    #[trigger] more[i]).0 != (#[trigger] more[j]).0 by {
                        assert(state.seen.contains(files[i].0));
                    }
                    bytes_of_more(files, more, files.len() as int);
                    safe_from(
                        archive,
                        with_contents(state, path, declared_size(header), contents.len()),
                        more,
                        (at + 1) as usize,
                    );
                },
                _ => {},
            }
        },
        _ => {},
    }
}

/// Whatever an archive holds, what it is unpacked to is safe to write: it keeps within the
/// limits, every path stays below the destination, and no file is written over another.
pub proof fn unpacked_files_are_safe(archive: Seq<u8>, limits: Limits)
    requires
        unpacked(archive, limits) is Ok,
    ensures
        safe_files(unpacked(archive, limits)->Ok_0, limits),
{
    safe_from(archive, not_begun(limits), Seq::empty(), 0);
}

} // verus!
