//! Plugin packages: what an archive may hold, and that what was unpacked is what was named.
//!
//! An archive is untrusted until its digest has been checked, which cannot be before it was
//! unpacked. So every entry is judged before anything of it is written.

use crate::lock::bare_hex;
use crate::names::NameMap;
use crate::path;
use crate::path::{path_steps, Component, Step};
use crate::signature;
use crate::signature::{covers_listing, DirectoryDigest};
use crate::text;
use vstd::prelude::*;
use vstd::string::*;

verus! {

/// Why a package could not be produced or unpacked.
#[derive(Debug, Clone, PartialEq, Eq)]
pub enum PackageError {
    /// The archive holds an entry that could write outside the destination.
    UnsafePath(String),
    /// The archive holds something that is not a regular file or directory.
    UnsafeEntry {
        /// The entry's path, as the archive spells it.
        path: String,
        /// What kind of thing it is.
        kind: String,
    },
    /// The archive lists one path more than once.
    DuplicateEntry(String),
    /// The archive is larger than the configured limits allow.
    TooLarge(String),
    /// The unpacked directory is not the plugin it claimed to be.
    DigestMismatch {
        /// The digest that was expected.
        expected: String,
        /// The digest the unpacked files produced.
        found: String,
    },
    /// The archive could not be read or written.
    Io(String),
}

/// Why a package was refused, apart from how it is stored.
pub enum PackageFault {
    UnsafePath(Seq<char>),
    UnsafeEntry { path: Seq<char>, kind: Seq<char> },
    DuplicateEntry(Seq<char>),
    TooLarge(Seq<char>),
    DigestMismatch { expected: Seq<char>, found: Seq<char> },
    Io(Seq<char>),
}

impl View for PackageError {
    type V = PackageFault;

    open spec fn view(&self) -> PackageFault {
        match *self {
            PackageError::UnsafePath(path) => PackageFault::UnsafePath(path@),
            PackageError::UnsafeEntry { path, kind } => PackageFault::UnsafeEntry {
                path: path@,
                kind: kind@,
            },
            PackageError::DuplicateEntry(path) => PackageFault::DuplicateEntry(path@),
            PackageError::TooLarge(message) => PackageFault::TooLarge(message@),
            PackageError::DigestMismatch { expected, found } => PackageFault::DigestMismatch {
                expected: expected@,
                found: found@,
            },
            PackageError::Io(source) => PackageFault::Io(source@),
        }
    }
}

impl PackageFault {
    /// What the error says.
    pub open spec fn message(self) -> Seq<char> {
        match self {
            PackageFault::UnsafePath(path) => "`"@ + path
                + "` would be written outside the destination directory"@,
            PackageFault::UnsafeEntry { path, kind } => "`"@ + path + "` is a "@ + kind
                + ", which a plugin package may not contain"@,
            PackageFault::DuplicateEntry(path) => "`"@ + path
                + "` appears more than once in the archive"@,
            PackageFault::TooLarge(message) => message,
            PackageFault::DigestMismatch { expected, found } => "these bytes are "@ + found
                + ", not the expected "@ + expected,
            PackageFault::Io(source) => source,
        }
    }
}

impl PackageError {
    /// The error written out.
    pub fn to_string(&self) -> (r: String)
        ensures
            r@ == self@.message(),
    {
        match self {
            PackageError::UnsafePath(path) => {
                let mut out = "`".to_owned();
                out.append(path.as_str());
                out.append("` would be written outside the destination directory");
                out
            },
            PackageError::UnsafeEntry { path, kind } => {
                let mut out = "`".to_owned();
                out.append(path.as_str());
                out.append("` is a ");
                out.append(kind.as_str());
                out.append(", which a plugin package may not contain");
                out
            },
            PackageError::DuplicateEntry(path) => {
                let mut out = "`".to_owned();
                out.append(path.as_str());
                out.append("` appears more than once in the archive");
                out
            },
            PackageError::TooLarge(message) => message.clone(),
            PackageError::DigestMismatch { expected, found } => {
                let mut out = "these bytes are ".to_owned();
                out.append(found.as_str());
                out.append(", not the expected ");
                out.append(expected.as_str());
                out
            },
            PackageError::Io(source) => source.clone(),
        }
    }
}

/// Bounds on what an archive may expand to.
#[derive(Debug, Clone, Copy, PartialEq, Eq, Structural)]
pub struct Limits {
    /// Most files an archive may contain.
    pub entries: usize,
    /// Most uncompressed bytes an archive may expand to, in total.
    pub total_bytes: u64,
    /// Most uncompressed bytes any single file may expand to.
    pub file_bytes: u64,
}

impl Default for Limits {
    /// Generous for a plugin, ruinous for a decompression bomb.
    fn default() -> (r: Limits)
        ensures
            r == (Limits { entries: 4096, total_bytes: 67_108_864, file_bytes: 16_777_216 }),
    {
        Limits { entries: 4096, total_bytes: 67_108_864, file_bytes: 16_777_216 }
    }
}

/// The names of the first `n` steps.
pub open spec fn named_upto(steps: Seq<Step>, n: int) -> Seq<Seq<char>>
    decreases n,
{
    if n <= 0 {
        Seq::empty()
    } else {
        match steps[n - 1] {
            Step::Name(name) => named_upto(steps, n - 1).push(name),
            _ => named_upto(steps, n - 1),
        }
    }
}

/// Whether no step leads up or to the root.
pub open spec fn stays_below(steps: Seq<Step>) -> bool {
    forall|i: int|
        0 <= i < steps.len() ==> #[trigger] steps[i] != Step::Up && steps[i] != Step::Root
}

/// An archive path as a relative path that stays below the destination, if it is one: any
/// `..`, a root, and a path of no names are refused, and `.` is dropped.
pub open spec fn confined(path: Seq<char>) -> Option<Seq<char>> {
    let steps = path_steps(path);
    let parts = named_upto(steps, steps.len() as int);
    if stays_below(steps) && parts.len() > 0 {
        Some(text::joined(parts, "/"@))
    } else {
        None
    }
}

/// Reduces an archive path to a safe `/`-separated relative path, or refuses it.
pub fn safe_relative(path: &str) -> (r: Option<String>)
    ensures
        text::opt(r) == confined(path@),
{
    let parts = path::components(path);
    let ghost steps = path_steps(path@);
    let n: usize = parts.len();
    let mut out: Vec<String> = Vec::new();
    let mut i: usize = 0;
    proof {
        assert(text::texts(out@) =~= named_upto(steps, 0));
    }
    while i < n
        invariant
            n == parts.len(),
            i <= n,
            steps == path_steps(path@),
            path::steps(parts@) == steps,
            text::texts(out@) == named_upto(steps, i as int),
            forall|j: int|
                0 <= j < i ==> #[trigger] steps[j] != Step::Up && steps[j] != Step::Root,
        decreases n - i,
    {
        let ghost had = text::texts(out@);
        proof {
            assert(steps[i as int] == parts@[i as int].step());
        }
        match &parts[i] {
            Component::Name(name) => {
                out.push(name.clone());
                proof {
                    assert(text::texts(out@) =~= had.push(name@));
                }
            },
            Component::Here => {},
            _ => {
                proof {
                    assert(!(steps[i as int] != Step::Up && steps[i as int] != Step::Root));
                }
                return None;
            },
        }
        i = i + 1;
    }
    if out.len() == 0 {
        return None;
    }
    Some(text::join(&out, "/"))
}

/// What an archive entry is.
#[derive(Debug, PartialEq, Eq)]
pub enum EntryKind {
    Directory,
    File,
    Symlink,
    HardLink,
    CharacterDevice,
    BlockDevice,
    Fifo,
    /// Anything else, by its name.
    Other(String),
}

/// What an archive entry is, apart from how it is stored.
pub enum KindModel {
    Directory,
    File,
    Symlink,
    HardLink,
    CharacterDevice,
    BlockDevice,
    Fifo,
    Other(Seq<char>),
}

impl View for EntryKind {
    type V = KindModel;

    open spec fn view(&self) -> KindModel {
        match *self {
            EntryKind::Directory => KindModel::Directory,
            EntryKind::File => KindModel::File,
            EntryKind::Symlink => KindModel::Symlink,
            EntryKind::HardLink => KindModel::HardLink,
            EntryKind::CharacterDevice => KindModel::CharacterDevice,
            EntryKind::BlockDevice => KindModel::BlockDevice,
            EntryKind::Fifo => KindModel::Fifo,
            EntryKind::Other(name) => KindModel::Other(name@),
        }
    }
}

/// How a kind of entry that is refused is named.
pub open spec fn kind_text(kind: KindModel) -> Seq<char> {
    match kind {
        KindModel::Directory => "directory"@,
        KindModel::File => "file"@,
        KindModel::Symlink => "symlink"@,
        KindModel::HardLink => "hard link"@,
        KindModel::CharacterDevice => "character device"@,
        KindModel::BlockDevice => "block device"@,
        KindModel::Fifo => "fifo"@,
        KindModel::Other(name) => name + " entry"@,
    }
}

/// Names an entry for an error a person has to act on.
pub fn entry_kind(kind: &EntryKind) -> (r: String)
    ensures
        r@ == kind_text(kind@),
{
    match kind {
        EntryKind::Directory => "directory".to_owned(),
        EntryKind::File => "file".to_owned(),
        EntryKind::Symlink => "symlink".to_owned(),
        EntryKind::HardLink => "hard link".to_owned(),
        EntryKind::CharacterDevice => "character device".to_owned(),
        EntryKind::BlockDevice => "block device".to_owned(),
        EntryKind::Fifo => "fifo".to_owned(),
        EntryKind::Other(name) => {
            let mut out = name.clone();
            out.append(" entry");
            out
        },
    }
}

/// Confirms that something found in a plugin directory is a file that may be packed. A link
/// is named as such, anything else by what the system calls it.
pub fn check_packable(path: &str, is_file: bool, is_symlink: bool, kind: &str) -> (r: Result<
    (),
    PackageError,
>)
    ensures
        is_file ==> r is Ok,
        !is_file ==> (r matches Err(error) && error@ == PackageFault::UnsafeEntry {
            path: path@,
            kind: if is_symlink {
                "symlink"@
            } else {
                kind@
            },
        }),
{
    if is_file {
        return Ok(());
    }
    let name = if is_symlink {
        "symlink".to_owned()
    } else {
        kind.to_owned()
    };
    Err(PackageError::UnsafeEntry { path: path.to_owned(), kind: name })
}

/// The files of a package in the order of their paths, so that packing the same directory
/// twice produces the same bytes.
pub fn pack_order(files: Vec<(String, Vec<u8>)>) -> (r: NameMap<Vec<u8>>)
    ensures
        r.wf(),
        forall|path: Seq<char>| #[trigger]
            listed_contents(r, path) == signature::last_at(files@, path),
{
    let n: usize = files.len();
    let ghost all = files@;
    let mut rest = files;
    let mut out: NameMap<Vec<u8>> = NameMap::new();
    let mut i: usize = 0;
    while i < n
        invariant
            n == all.len(),
            i <= n,
            rest@ == all.subrange(i as int, n as int),
            out.wf(),
            forall|path: Seq<char>| #[trigger]
                listed_contents(out, path) == signature::last_at(
                    all.subrange(0, i as int),
                    path,
                ),
        decreases n - i,
    {
        let ghost had = out;
        proof {
            assert(rest@[0] == all[i as int]);
            assert(all.subrange(0, i + 1).drop_last() =~= all.subrange(0, i as int));
        }
        let (name, contents) = rest.remove(0);
        proof {
            assert(rest@ =~= all.subrange(i + 1, n as int));
        }
        out.insert(name, contents);
        proof {
            assert forall|path: Seq<char>| #[trigger] listed_contents(out, path)
                == signature::last_at(all.subrange(0, i + 1), path) by {
                assert(listed_contents(had, path) == signature::last_at(
                    all.subrange(0, i as int),
                    path,
                ));
            }
        }
        i = i + 1;
    }
    proof {
        assert(all.subrange(0, n as int) =~= all);
    }
    out
}

/// The contents of a path among files.
pub open spec fn listed_contents(files: NameMap<Vec<u8>>, path: Seq<char>) -> Option<Seq<u8>> {
    match files.at(path) {
        Some(contents) => Some(contents@),
        None => None,
    }
}

/// An archive being unpacked: the paths that were seen and the bytes they declared.
#[derive(Debug)]
pub struct Unpacking {
    seen: NameMap<()>,
    total: u64,
    limits: Limits,
}

/// What an archive being unpacked is, apart from how it is stored.
pub struct Unpacked {
    pub seen: Set<Seq<char>>,
    pub count: nat,
    pub total: u64,
    pub limits: Limits,
}

impl View for Unpacking {
    type V = Unpacked;

    closed spec fn view(&self) -> Unpacked {
        Unpacked {
            seen: Set::new(|path: Seq<char>| self.seen.has(path)),
            count: self.seen@.len(),
            total: self.total,
            limits: self.limits,
        }
    }
}

/// What becomes of an archive entry, apart from how it is stored.
pub enum Admission {
    /// Nothing: a directory is made when a file needs it.
    Skip,
    /// It is written to this path.
    Write(Seq<char>),
    /// The archive is refused.
    Refuse(PackageFault),
}

/// The sum of two sizes, or the largest size there is.
pub open spec fn sum(a: u64, b: u64) -> u64 {
    if a as int + b as int > u64::MAX as int {
        u64::MAX
    } else {
        (a + b) as u64
    }
}

/// What becomes of an entry, given its path (nothing, where it is no text), how the path is
/// shown, its kind and the size it declares. Directories are only checked; anything that is
/// neither a file nor a directory is refused, and so is a path that could escape, a path that
/// was seen, and what goes over a limit.
pub open spec fn admission(
    state: Unpacked,
    path: Option<Seq<char>>,
    shown: Seq<char>,
    kind: KindModel,
    declared: u64,
) -> Admission {
    let relative = match path {
        Some(path) => confined(path),
        None => None,
    };
    match kind {
        KindModel::Directory => if relative is None {
            Admission::Refuse(PackageFault::UnsafePath(shown))
        } else {
            Admission::Skip
        },
        KindModel::File => match relative {
            None => Admission::Refuse(PackageFault::UnsafePath(shown)),
            Some(relative) => if state.seen.contains(relative) {
                Admission::Refuse(PackageFault::DuplicateEntry(relative))
            } else if state.count + 1 > state.limits.entries {
                Admission::Refuse(
                    PackageFault::TooLarge(
                        "archive holds more than "@ + text::decimal(state.limits.entries as nat)
                            + " entries"@,
                    ),
                )
            } else if declared > state.limits.file_bytes {
                Admission::Refuse(
                    PackageFault::TooLarge(
                        "`"@ + relative + "` declares "@ + text::decimal(declared as nat)
                            + " bytes, over the "@ + text::decimal(
                            state.limits.file_bytes as nat,
                        ) + " byte limit"@,
                    ),
                )
            } else if sum(state.total, declared) > state.limits.total_bytes {
                Admission::Refuse(
                    PackageFault::TooLarge(
                        "archive expands past the "@ + text::decimal(
                            state.limits.total_bytes as nat,
                        ) + " byte limit"@,
                    ),
                )
            } else {
                Admission::Write(relative)
            },
        },
        _ => Admission::Refuse(
            PackageFault::UnsafeEntry { path: shown, kind: kind_text(kind) },
        ),
    }
}

/// The view of what becomes of an entry.
pub open spec fn admission_view(r: Result<Option<String>, PackageError>) -> Admission {
    match r {
        Ok(None) => Admission::Skip,
        Ok(Some(relative)) => Admission::Write(relative@),
        Err(error) => Admission::Refuse(error@),
    }
}

impl Unpacking {
    pub closed spec fn wf(self) -> bool {
        self.seen.wf()
    }

    /// Starts to unpack an archive.
    pub fn new(limits: Limits) -> (r: Unpacking)
        ensures
            r.wf(),
            r@.seen == Set::<Seq<char>>::empty(),
            r@.count == 0,
            r@.total == 0,
            r@.limits == limits,
    {
        let seen: NameMap<()> = NameMap::new();
        proof {
            assert(Set::new(|path: Seq<char>| seen.has(path)) =~= Set::<Seq<char>>::empty());
        }
        Unpacking { seen, total: 0, limits }
    }

    /// Judges the next entry before anything of it is written. `Some` says where it is
    /// written, `None` that there is nothing to write.
    pub fn judge_entry(
        &mut self,
        path: Option<&str>,
        shown: &str,
        kind: &EntryKind,
        declared: u64,
    ) -> (r: Result<Option<String>, PackageError>)
        requires
            old(self).wf(),
        ensures
            final(self).wf(),
            final(self)@.limits == old(self)@.limits,
            admission_view(r) == admission(
                old(self)@,
                signature::opt_str(path),
                shown@,
                kind@,
                declared,
            ),
            r matches Ok(Some(relative)) ==> {
                &&& final(self)@.seen == old(self)@.seen.insert(relative@)
                &&& final(self)@.count == old(self)@.count + 1
                &&& final(self)@.total == sum(old(self)@.total, declared)
            },
            !(r matches Ok(Some(_))) ==> final(self)@ == old(self)@,
    {
        let relative = match path {
            Some(path) => safe_relative(path),
            None => None,
        };
        match kind {
            EntryKind::Directory => match relative {
                Some(_) => Ok(None),
                None => Err(PackageError::UnsafePath(shown.to_owned())),
            },
            EntryKind::File => match relative {
                None => Err(PackageError::UnsafePath(shown.to_owned())),
                Some(relative) => self.judge_file(relative, declared),
            },
            _ => Err(
                PackageError::UnsafeEntry { path: shown.to_owned(), kind: entry_kind(kind) },
            ),
        }
    }

    fn judge_file(&mut self, relative: String, declared: u64) -> (r: Result<
        Option<String>,
        PackageError,
    >)
        requires
            old(self).wf(),
        ensures
            final(self).wf(),
            final(self)@.limits == old(self)@.limits,
            r is Err ==> final(self)@ == old(self)@,
            ({
                let state = old(self)@;
                let limits = state.limits;
                if state.seen.contains(relative@) {
                    admission_view(r) == Admission::Refuse(
                        PackageFault::DuplicateEntry(relative@),
                    )
                } else if state.count + 1 > limits.entries {
                    admission_view(r) == Admission::Refuse(
                        PackageFault::TooLarge(
                            "archive holds more than "@ + text::decimal(limits.entries as nat)
                                + " entries"@,
                        ),
                    )
                } else if declared > limits.file_bytes {
                    admission_view(r) == Admission::Refuse(
                        PackageFault::TooLarge(
                            "`"@ + relative@ + "` declares "@ + text::decimal(declared as nat)
                                + " bytes, over the "@ + text::decimal(limits.file_bytes as nat)
                                + " byte limit"@,
                        ),
                    )
                } else if sum(state.total, declared) > limits.total_bytes {
                    admission_view(r) == Admission::Refuse(
                        PackageFault::TooLarge(
                            "archive expands past the "@ + text::decimal(
                                limits.total_bytes as nat,
                            ) + " byte limit"@,
                        ),
                    )
                } else {
                    &&& admission_view(r) == Admission::Write(relative@)
                    &&& final(self)@.seen == state.seen.insert(relative@)
                    &&& final(self)@.count == state.count + 1
                    &&& final(self)@.total == sum(state.total, declared)
                }
            }),
    {
        let ghost was = *self;
        if self.seen.contains_key(relative.as_str()) {
            return Err(PackageError::DuplicateEntry(relative));
        }
        if self.seen.len() >= self.limits.entries {
            let mut out = "archive holds more than ".to_owned();
            out.append(text::number(self.limits.entries as u64).as_str());
            out.append(" entries");
            return Err(PackageError::TooLarge(out));
        }
        if declared > self.limits.file_bytes {
            let mut out = "`".to_owned();
            out.append(relative.as_str());
            out.append("` declares ");
            out.append(text::number(declared).as_str());
            out.append(" bytes, over the ");
            out.append(text::number(self.limits.file_bytes).as_str());
            out.append(" byte limit");
            return Err(PackageError::TooLarge(out));
        }
        let total: u64 = self.total.saturating_add(declared);
        if total > self.limits.total_bytes {
            let mut out = "archive expands past the ".to_owned();
            out.append(text::number(self.limits.total_bytes).as_str());
            out.append(" byte limit");
            return Err(PackageError::TooLarge(out));
        }
        self.total = total;
        self.seen.insert(relative.clone(), ());
        proof {
            let now = Set::new(|path: Seq<char>| self.seen.has(path));
            let then = Set::new(|path: Seq<char>| was.seen.has(path)).insert(relative@);
            assert forall|path: Seq<char>| now.contains(path) == then.contains(path) by {
                assert(self.seen.has(path) == (self.seen.at(path) is Some));
                assert(was.seen.has(path) == (was.seen.at(path) is Some));
            }
            assert(now =~= then);
        }
        Ok(Some(relative))
    }

    /// How many bytes of an entry are read at most: one more than a file may have, so that
    /// an entry that is larger than its header declared is noticed.
    pub fn read_budget(&self) -> (r: u64)
        ensures
            r == sum(self@.limits.file_bytes, 1),
    {
        self.limits.file_bytes.saturating_add(1)
    }

    /// Counts what an entry that was read has beyond what it declared, and confirms that the
    /// archive still keeps within its limit.
    pub fn count_written(&mut self, declared: u64, written: u64) -> (r: Result<(), PackageError>)
        requires
            old(self).wf(),
        ensures
            final(self).wf(),
            final(self)@ == (Unpacked {
                total: if written > declared {
                    sum(old(self)@.total, (written - declared) as u64)
                } else {
                    old(self)@.total
                },
                ..old(self)@
            }),
            final(self)@.total <= final(self)@.limits.total_bytes ==> r is Ok,
            final(self)@.total > final(self)@.limits.total_bytes ==> (r matches Err(error)
                && error@ == PackageFault::TooLarge(
                "archive expands past the "@ + text::decimal(
                    final(self)@.limits.total_bytes as nat,
                ) + " byte limit"@,
            )),
    {
        if written > declared {
            self.total = self.total.saturating_add(written - declared);
        }
        if self.total > self.limits.total_bytes {
            let mut out = "archive expands past the ".to_owned();
            out.append(text::number(self.limits.total_bytes).as_str());
            out.append(" byte limit");
            return Err(PackageError::TooLarge(out));
        }
        Ok(())
    }

    /// Confirms that an entry was not larger than a file may be, once it was read.
    pub fn check_written(&self, relative: &str, written: u64) -> (r: Result<(), PackageError>)
        ensures
            written <= self@.limits.file_bytes ==> r is Ok,
            written > self@.limits.file_bytes ==> (r matches Err(error) && error@
                == PackageFault::TooLarge(
                "`"@ + relative@ + "` is larger than its header declared"@,
            )),
    {
        if written > self.limits.file_bytes {
            let mut out = "`".to_owned();
            out.append(relative);
            out.append("` is larger than its header declared");
            return Err(PackageError::TooLarge(out));
        }
        Ok(())
    }
}

/// Whether confirming that files are the plugin a digest names comes to this.
pub open spec fn confirmed(
    files: Seq<(String, Vec<u8>)>,
    expected: Seq<char>,
    r: Result<DirectoryDigest, PackageError>,
) -> bool {
    exists|digest: DirectoryDigest|
        #[trigger] covers_listing(digest.covered(), files) && if text::lower(bare_hex(expected))
            == text::lower(digest.fingerprint()) {
            r matches Ok(found) && found.covered() == digest.covered()
        } else {
            r matches Err(error) && error@ == PackageFault::DigestMismatch {
                expected: "sha256:"@ + text::lower(bare_hex(expected)),
                found: "sha256:"@ + digest.fingerprint(),
            }
        }
}

/// Confirms an unpacked directory, given by its files, is the plugin a digest names.
pub fn verify_directory(files: &Vec<(String, Vec<u8>)>, expected: &str) -> (r: Result<
    DirectoryDigest,
    PackageError,
>)
    ensures
        confirmed(files@, expected@, r),
{
    let digest = DirectoryDigest::compute(files);
    let ghost computed = digest;
    proof {
        assert(covers_listing(computed.covered(), files@));
    }
    let hex = crate::lock::hex_of(expected);
    let found = digest.hex();
    if !text::same_ignoring_case(hex.as_str(), found.as_str()) {
        let mut want = "sha256:".to_owned();
        want.append(text::to_lower(hex.as_str()).as_str());
        let mut have = "sha256:".to_owned();
        have.append(found.as_str());
        return Err(PackageError::DigestMismatch { expected: want, found: have });
    }
    Ok(digest)
}

/// A path that is accepted for an entry stays below the destination: each of its parts is a
/// name, none is `..` or `.`, and none is empty or holds a separator.
pub proof fn confined_parts_are_names(path: Seq<char>)
    requires
        confined(path) is Some,
    ensures
        ({
            let steps = path_steps(path);
            let parts = named_upto(steps, steps.len() as int);
            &&& confined(path) == Some(text::joined(parts, "/"@))
            &&& parts.len() > 0
            &&& forall|i: int|
                0 <= i < parts.len() ==> (#[trigger] parts[i]).len() > 0 && parts[i] != "."@
                    && parts[i] != ".."@ && !parts[i].contains('/')
        }),
{
    let steps = path_steps(path);
    let all = text::pieces(path, '/');
    assert forall|i: int|
        0 <= i < named_upto(steps, steps.len() as int).len() implies #[trigger] plain_name(
        named_upto(steps, steps.len() as int)[i],
    ) by {
        names_are_plain(path);
        named_plain(steps, steps.len() as int, i);
    }
    assert forall|i: int|
        0 <= i < named_upto(steps, steps.len() as int).len() implies (#[trigger] named_upto(
        steps,
        steps.len() as int,
    )[i]).len() > 0 && named_upto(steps, steps.len() as int)[i] != "."@ && named_upto(
        steps,
        steps.len() as int,
    )[i] != ".."@ && !named_upto(steps, steps.len() as int)[i].contains('/') by {
        assert(plain_name(named_upto(steps, steps.len() as int)[i]));
    }
}

/// Whether a text is a plain name.
spec fn plain_name(name: Seq<char>) -> bool {
    name.len() > 0 && name != "."@ && name != ".."@ && !name.contains('/')
}

spec fn plain_step(step: Step) -> bool {
    match step {
        Step::Name(name) => plain_name(name),
        _ => true,
    }
}

proof fn named_plain(steps: Seq<Step>, n: int, i: int)
    requires
        0 <= n <= steps.len(),
        0 <= i < named_upto(steps, n).len(),
        forall|k: int| 0 <= k < steps.len() ==> plain_step(#[trigger] steps[k]),
    ensures
        plain_name(named_upto(steps, n)[i]),
    decreases n,
{
    let less = named_upto(steps, n - 1);
    assert(plain_step(steps[n - 1]));
    if i < less.len() {
        named_plain(steps, n - 1, i);
    }
}

proof fn names_are_plain(path: Seq<char>)
    ensures
        forall|k: int| 0 <= k < path_steps(path).len() ==> plain_step(#[trigger] path_steps(path)[k]),
{
    let parts = text::pieces(path, '/');
    let rest = path::piece_steps(parts, parts.len() as int);
    pieces_have_no_separator(path, '/', 0);
    steps_are_plain(parts, parts.len() as int);
    assert forall|k: int| 0 <= k < path_steps(path).len() implies plain_step(
        #[trigger] path_steps(path)[k],
    ) by {
        if path::absolute(path) {
            if k > 0 {
                assert(path_steps(path)[k] == rest[k - 1]);
            }
        } else {
            assert(path_steps(path)[k] == rest[k]);
        }
    }
}

proof fn steps_are_plain(parts: Seq<Seq<char>>, n: int)
    requires
        0 <= n <= parts.len(),
        forall|i: int| 0 <= i < parts.len() ==> !(#[trigger] parts[i]).contains('/'),
    ensures
        forall|k: int|
            0 <= k < path::piece_steps(parts, n).len() ==> plain_step(
                #[trigger] path::piece_steps(parts, n)[k],
            ),
    decreases n,
{
    if n > 0 {
        steps_are_plain(parts, n - 1);
        assert(!parts[n - 1].contains('/'));
        let less = path::piece_steps(parts, n - 1);
        let here = path::piece_steps(parts, n);
        assert forall|k: int| 0 <= k < here.len() implies plain_step(#[trigger] here[k]) by {
            if k < less.len() {
                assert(here[k] == less[k]);
                assert(plain_step(less[k]));
            }
        }
    }
}

proof fn pieces_have_no_separator(s: Seq<char>, sep: char, from: int)
    requires
        0 <= from <= s.len(),
    ensures
        forall|i: int|
            0 <= i < text::pieces_from(s, sep, from).len() ==> !(#[trigger] text::pieces_from(
                s,
                sep,
                from,
            )[i]).contains(sep),
    decreases s.len() - from,
{
    text::find_bounds(s, sep, from);
    let cut = text::find(s, sep, from);
    let all = text::pieces_from(s, sep, from);
    let first = s.subrange(from, cut);
    assert(!first.contains(sep)) by {
        if first.contains(sep) {
            let k = choose|k: int| 0 <= k < first.len() && first[k] == sep;
            assert(s[from + k] == sep);
        }
    }
    if cut < s.len() {
        pieces_have_no_separator(s, sep, cut + 1);
        let rest = text::pieces_from(s, sep, cut + 1);
        assert forall|i: int| 0 <= i < all.len() implies !(#[trigger] all[i]).contains(sep) by {
            if i > 0 {
                assert(all[i] == rest[i - 1]);
            }
        }
    } else {
        assert(all =~= seq![first]);
    }
}

/// Whatever an archive declares, what is admitted of it stays within the limits: no more
/// files, and no more declared bytes in one of them or in all.
pub proof fn admitted_stays_within_limits(
    state: Unpacked,
    path: Option<Seq<char>>,
    shown: Seq<char>,
    kind: KindModel,
    declared: u64,
)
    requires
        admission(state, path, shown, kind, declared) is Write,
    ensures
        state.count + 1 <= state.limits.entries,
        declared <= state.limits.file_bytes,
        sum(state.total, declared) <= state.limits.total_bytes,
        !state.seen.contains(admission(state, path, shown, kind, declared)->Write_0),
{
}

} // verus!
