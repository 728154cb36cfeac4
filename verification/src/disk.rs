//! The filesystem boundary, as plain values.
//!
//! Two sides meet the filesystem.  Traversal hands the writer a listing
//! of [`FsEntry`] values — metadata plus identity for link resolution
//! plus the data blocks a sparse file reports.  Extraction applies one
//! member to a [`Disk`], a flat path-to-file store, honouring the
//! extraction flags: secure path checks, overwrite policy, and which
//! attributes are preserved.  Whoever owns a real filesystem builds the
//! listing and replays the store; the rules themselves live here.

use vstd::prelude::*;

use crate::entry::Entry;
use crate::entry::EntryData;
use crate::entry::EntryModel;
use crate::entry::EntryType;
use crate::entry::clone_bytes;
use crate::flags;
use crate::flags::ExtractFlags;
use crate::status::IOError;

verus! {

/// The permission bits a file gets when the entry's own bits are not
/// preserved.
pub const DEFAULT_PERM: u16 = 0o644;

/// The path separator byte.
pub const PATH_SEP: u8 = 0x2F;

/// The dot byte.
pub const PATH_DOT: u8 = 0x2E;

/// One contiguous run of payload bytes at an offset, as a sparse file
/// reports its data.
pub struct DataBlock {
    pub data: Vec<u8>,
    pub offset: u64,
}

/// The blocks of one member, as byte sequences at offsets.
pub open spec fn spec_blocks(blocks: Seq<DataBlock>) -> Seq<(Seq<u8>, u64)> {
    blocks.map_values(|b: DataBlock| (b.data@, b.offset))
}

/// One live filesystem object met during traversal: its metadata, its
/// identity for hard-link resolution, and its data blocks.
pub struct FsEntry {
    pub meta: EntryData,
    pub dev: u64,
    pub ino: u64,
    pub nlink: u64,
    pub blocks: Vec<DataBlock>,
}

/// The mathematical content of one traversal entry.
pub struct FsModel {
    pub meta: EntryModel,
    pub dev: u64,
    pub ino: u64,
    pub nlink: u64,
    pub blocks: Seq<(Seq<u8>, u64)>,
}

impl View for FsEntry {
    type V = FsModel;

    open spec fn view(&self) -> FsModel {
        FsModel {
            meta: self.meta@,
            dev: self.dev,
            ino: self.ino,
            nlink: self.nlink,
            blocks: spec_blocks(self.blocks@),
        }
    }
}

impl FsEntry {
    /// An independent copy.
    pub fn duplicate(&self) -> (r: FsEntry)
        ensures
            r@ == self@,
    {
        let mut blocks: Vec<DataBlock> = Vec::new();
        let mut i: usize = 0;
        while i < self.blocks.len()
            invariant
                i <= self.blocks@.len(),
                blocks@.len() == i,
                forall|j: int|
                    0 <= j < i ==> (#[trigger] blocks@[j]).data@ == self.blocks@[j].data@
                        && blocks@[j].offset == self.blocks@[j].offset,
            decreases self.blocks@.len() - i,
        {
            blocks.push(
                DataBlock { data: clone_bytes(&self.blocks[i].data), offset: self.blocks[i].offset },
            );
            i = i + 1;
        }
        proof {
            assert(spec_blocks(blocks@) =~~= spec_blocks(self.blocks@));
        }
        FsEntry {
            meta: self.meta.duplicate(),
            dev: self.dev,
            ino: self.ino,
            nlink: self.nlink,
            blocks,
        }
    }
}

/// A filesystem subtree, listed in traversal order: each entry already
/// carries the directory descent the engine would perform.
pub struct FsTree {
    pub entries: Vec<FsEntry>,
}

/// The traversal entries of the listing, as models.
pub open spec fn spec_tree(tree: &FsTree) -> Seq<FsModel> {
    tree.entries@.map_values(|e: FsEntry| e@)
}

/// Whether `prefix` is a byte-prefix of `path`.
pub open spec fn spec_path_under(path: Seq<u8>, root: Seq<u8>) -> bool {
    root.len() <= path.len() && path.take(root.len() as int) == root
}

/// Whether the path holds a parent-directory segment.
pub open spec fn spec_has_dotdot(path: Seq<u8>) -> bool {
    exists|i: int|
        0 <= i && i + 2 <= path.len() && #[trigger] path[i] == PATH_DOT && path[i + 1] == PATH_DOT
            && (i == 0 || path[i - 1] == PATH_SEP) && (i + 2 == path.len() || path[i + 2]
            == PATH_SEP)
}

/// Whether the path is absolute.
pub open spec fn spec_is_absolute(path: Seq<u8>) -> bool {
    path.len() > 0 && path[0] == PATH_SEP
}

/// Checks for a parent-directory segment.
pub fn has_dotdot(path: &Vec<u8>) -> (r: bool)
    ensures
        r == spec_has_dotdot(path@),
{
    if path.len() < 2 {
        proof {
            assert(!spec_has_dotdot(path@));
        }
        return false;
    }
    let limit: usize = path.len() - 2;
    let mut i: usize = 0;
    while i <= limit
        invariant
            i <= limit + 1,
            limit == path@.len() - 2,
            2 <= path@.len() <= usize::MAX,
            forall|j: int|
                0 <= j < i ==> !(j + 2 <= path@.len() && #[trigger] path@[j] == PATH_DOT && path@[j
                    + 1] == PATH_DOT && (j == 0 || path@[j - 1] == PATH_SEP) && (j + 2
                    == path@.len() || path@[j + 2] == PATH_SEP)),
        decreases limit + 1 - i,
    {
        if path[i] == PATH_DOT && path[i + 1] == PATH_DOT && (i == 0 || path[i - 1] == PATH_SEP)
            && (i + 2 == path.len() || path[i + 2] == PATH_SEP) {
            return true;
        }
        i = i + 1;
    }
    proof {
        assert(!spec_has_dotdot(path@));
    }
    false
}

/// Whether two byte strings are equal.
pub fn bytes_eq(a: &Vec<u8>, b: &Vec<u8>) -> (r: bool)
    ensures
        r == (a@ == b@),
{
    if a.len() != b.len() {
        return false;
    }
    let mut i: usize = 0;
    while i < a.len()
        invariant
            i <= a@.len(),
            a@.len() == b@.len(),
            forall|j: int| 0 <= j < i ==> a@[j] == b@[j],
        decreases a@.len() - i,
    {
        if a[i] != b[i] {
            return false;
        }
        i = i + 1;
    }
    proof {
        assert(a@ =~= b@);
    }
    true
}

/// Whether `root` is a byte-prefix of `path`.
pub fn path_under(path: &Vec<u8>, root: &Vec<u8>) -> (r: bool)
    ensures
        r == spec_path_under(path@, root@),
{
    if path.len() < root.len() {
        return false;
    }
    let mut i: usize = 0;
    while i < root.len()
        invariant
            i <= root@.len(),
            root@.len() <= path@.len(),
            forall|j: int| 0 <= j < i ==> path@[j] == root@[j],
        decreases root@.len() - i,
    {
        if path[i] != root[i] {
            return false;
        }
        i = i + 1;
    }
    proof {
        assert(path@.take(root@.len() as int) =~= root@);
    }
    true
}

/// The traversal entries that sit under `root`, in order.
pub open spec fn spec_selected(es: Seq<FsModel>, root: Seq<u8>) -> Seq<FsModel>
    decreases es.len(),
{
    if es.len() == 0 {
        Seq::empty()
    } else {
        spec_selected(es.drop_last(), root) + if spec_path_under(es.last().meta.path, root) {
            seq![es.last()]
        } else {
            Seq::empty()
        }
    }
}

// ---------------------------------------------------------------------
// The extraction target.
// ---------------------------------------------------------------------

/// One extracted file as it sits on the disk model.
pub struct DiskFile {
    pub etype: EntryType,
    pub perm: u16,
    pub data: Vec<u8>,
    pub uname: Vec<u8>,
    pub gname: Vec<u8>,
    pub mtime_s: u64,
    pub mtime_ns: u32,
}

/// The mathematical content of one extracted file.
pub struct FileModel {
    pub etype: EntryType,
    pub perm: u16,
    pub data: Seq<u8>,
    pub uname: Seq<u8>,
    pub gname: Seq<u8>,
    pub mtime_s: u64,
    pub mtime_ns: u32,
}

impl View for DiskFile {
    type V = FileModel;

    open spec fn view(&self) -> FileModel {
        FileModel {
            etype: self.etype,
            perm: self.perm,
            data: self.data@,
            uname: self.uname@,
            gname: self.gname@,
            mtime_s: self.mtime_s,
            mtime_ns: self.mtime_ns,
        }
    }
}

/// The file at `path` in the listing, if any.
pub open spec fn spec_disk_lookup(files: Seq<(Seq<u8>, FileModel)>, path: Seq<u8>) -> Option<
    FileModel,
>
    decreases files.len(),
{
    if files.len() == 0 {
        Option::None
    } else if files[0].0 == path {
        Option::Some(files[0].1)
    } else {
        spec_disk_lookup(files.skip(1), path)
    }
}

/// The listing with the file at `path` set to `f`: replaced in place if
/// present, appended otherwise.
pub open spec fn spec_disk_store(
    files: Seq<(Seq<u8>, FileModel)>,
    path: Seq<u8>,
    f: FileModel,
) -> Seq<(Seq<u8>, FileModel)>
    decreases files.len(),
{
    if files.len() == 0 {
        seq![(path, f)]
    } else if files[0].0 == path {
        seq![(path, f)] + files.skip(1)
    } else {
        seq![files[0]] + spec_disk_store(files.skip(1), path, f)
    }
}

/// A flat extraction target: each path holds at most one file.
pub struct Disk {
    files: Vec<(Vec<u8>, DiskFile)>,
}

impl Disk {
    /// The listing of the disk, in creation order.
    pub closed spec fn disk_model(&self) -> Seq<(Seq<u8>, FileModel)> {
        self.files@.map_values(|p: (Vec<u8>, DiskFile)| (p.0@, p.1@))
    }

    /// An empty disk.
    pub fn new() -> (r: Disk)
        ensures
            r.disk_model() == Seq::<(Seq<u8>, FileModel)>::empty(),
    {
        let d = Disk { files: Vec::new() };
        proof {
            assert(d.disk_model() =~= Seq::<(Seq<u8>, FileModel)>::empty());
        }
        d
    }

    /// The index of `path` in the listing, if present.
    fn position(&self, path: &Vec<u8>) -> (r: Option<usize>)
        ensures
            match r {
                Option::Some(i) => {
                    &&& 0 <= i < self.disk_model().len()
                    &&& self.disk_model()[i as int].0 == path@
                    &&& (forall|j: int| 0 <= j < i ==> self.disk_model()[j].0 != path@)
                    &&& spec_disk_lookup(self.disk_model(), path@) == Option::Some(
                        self.disk_model()[i as int].1,
                    )
                },
                Option::None => spec_disk_lookup(self.disk_model(), path@) is None,
            },
    {
        let mut i: usize = 0;
        proof {
            assert(self.disk_model().skip(0) =~= self.disk_model());
        }
        while i < self.files.len()
            invariant
                i <= self.files@.len(),
                spec_disk_lookup(self.disk_model(), path@) == spec_disk_lookup(
                    self.disk_model().skip(i as int),
                    path@,
                ),
                forall|j: int| 0 <= j < i ==> self.disk_model()[j].0 != path@,
            decreases self.files@.len() - i,
        {
            proof {
                assert(self.disk_model().skip(i as int)[0] == self.disk_model()[i as int]);
            }
            if bytes_eq(&self.files[i].0, path) {
                return Some(i);
            }
            proof {
                assert(self.disk_model().skip(i as int).skip(1) =~= self.disk_model().skip(
                    i + 1,
                ));
            }
            i = i + 1;
        }
        proof {
            assert(self.disk_model().skip(i as int).len() == 0);
        }
        None
    }

    /// Whether a file sits at `path`.
    pub fn contains(&self, path: &Vec<u8>) -> (r: bool)
        ensures
            r == (spec_disk_lookup(self.disk_model(), path@) is Some),
    {
        self.position(path).is_some()
    }

    /// The payload of the file at `path`, if one sits there.
    pub fn read_file(&self, path: &Vec<u8>) -> (r: Option<Vec<u8>>)
        ensures
            match r {
                Option::Some(d) => {
                    &&& spec_disk_lookup(self.disk_model(), path@) matches Option::Some(f)
                        && f.data == d@
                },
                Option::None => spec_disk_lookup(self.disk_model(), path@) is None,
            },
    {
        match self.position(path) {
            Option::Some(i) => Some(clone_bytes(&self.files[i].1.data)),
            Option::None => None,
        }
    }

    /// The file at `path`, if one sits there.
    pub fn stat(&self, path: &Vec<u8>) -> (r: Option<&DiskFile>)
        ensures
            match r {
                Option::Some(f) => spec_disk_lookup(self.disk_model(), path@) == Option::Some(f@),
                Option::None => spec_disk_lookup(self.disk_model(), path@) is None,
            },
    {
        match self.position(path) {
            Option::Some(i) => Some(&self.files[i].1),
            Option::None => None,
        }
    }

    /// The files on the disk, in creation order.
    pub fn entries(&self) -> (r: &Vec<(Vec<u8>, DiskFile)>)
        ensures
            r@.map_values(|p: (Vec<u8>, DiskFile)| (p.0@, p.1@)) == self.disk_model(),
    {
        &self.files
    }

    /// Sets the file at `path`: replaces one already there, appends
    /// otherwise.
    fn store(&mut self, path: Vec<u8>, f: DiskFile)
        ensures
            final(self).disk_model() == spec_disk_store(old(self).disk_model(), path@, f@),
    {
        let pos = self.position(&path);
        match pos {
            Option::Some(i) => {
                self.files.set(i, (path, f));
                proof {
                    lemma_store_at(old(self).disk_model(), path@, f@, i as int);
                    assert(final(self).disk_model() =~= spec_disk_store(
                        old(self).disk_model(),
                        path@,
                        f@,
                    ));
                }
            },
            Option::None => {
                self.files.push((path, f));
                proof {
                    lemma_store_append(old(self).disk_model(), path@, f@);
                    assert(final(self).disk_model() =~= old(self).disk_model() + seq![
                        (path@, f@),
                    ]);
                }
            },
        }
    }
}

/// Storing over the first hit replaces exactly that element.
proof fn lemma_store_at(files: Seq<(Seq<u8>, FileModel)>, path: Seq<u8>, f: FileModel, i: int)
    requires
        0 <= i < files.len(),
        files[i].0 == path,
        forall|j: int| 0 <= j < i ==> files[j].0 != path,
    ensures
        spec_disk_store(files, path, f) == files.update(i, (path, f)),
    decreases i,
{
    if i == 0 {
        assert(spec_disk_store(files, path, f) =~= files.update(0, (path, f)));
    } else {
        lemma_store_at(files.skip(1), path, f, i - 1);
        assert(files.skip(1)[i - 1].0 == path);
        assert(spec_disk_store(files, path, f) =~= files.update(i, (path, f)));
    }
}

/// Storing a fresh path appends.
proof fn lemma_store_append(files: Seq<(Seq<u8>, FileModel)>, path: Seq<u8>, f: FileModel)
    requires
        spec_disk_lookup(files, path) is None,
    ensures
        spec_disk_store(files, path, f) == files + seq![(path, f)],
    decreases files.len(),
{
    if files.len() == 0 {
        assert(spec_disk_store(files, path, f) =~= files + seq![(path, f)]);
    } else {
        lemma_store_append(files.skip(1), path, f);
        assert(spec_disk_store(files, path, f) =~= files + seq![(path, f)]);
    }
}

// ---------------------------------------------------------------------
// Extraction.
// ---------------------------------------------------------------------

/// Whether the file on disk is newer than the entry being extracted.
pub open spec fn spec_newer(f: FileModel, m: EntryModel) -> bool {
    f.mtime_s > m.mtime_s || (f.mtime_s == m.mtime_s && f.mtime_ns > m.mtime_ns)
}

/// The file that extracting an entry creates, under the given flags:
/// permission bits, owner names and timestamps are taken from the entry
/// only where the matching flag asks for them.
pub open spec fn spec_extracted_file(m: EntryModel, payload: Seq<u8>, fl: ExtractFlags) -> FileModel {
    FileModel {
        etype: m.etype,
        perm: if fl.spec_has(flags::EXTRACT_PERM) {
            m.perm
        } else {
            DEFAULT_PERM
        },
        data: payload,
        uname: if fl.spec_has(flags::EXTRACT_OWNER) {
            m.uname
        } else {
            Seq::empty()
        },
        gname: if fl.spec_has(flags::EXTRACT_OWNER) {
            m.gname
        } else {
            Seq::empty()
        },
        mtime_s: if fl.spec_has(flags::EXTRACT_TIME) {
            m.mtime_s
        } else {
            0
        },
        mtime_ns: if fl.spec_has(flags::EXTRACT_TIME) {
            m.mtime_ns
        } else {
            0
        },
    }
}

/// Whether extraction may go ahead: the secure path checks, then the
/// overwrite policy against what already sits at the target path.
pub open spec fn spec_extract_check(
    files: Seq<(Seq<u8>, FileModel)>,
    m: EntryModel,
    fl: ExtractFlags,
) -> Result<(), IOError> {
    if fl.spec_has(flags::EXTRACT_SECURE_NODOTDOT) && spec_has_dotdot(m.path) {
        Result::Err(IOError::Failed)
    } else if fl.spec_has(flags::EXTRACT_SECURE_NOABSOLUTEPATHS) && spec_is_absolute(m.path) {
        Result::Err(IOError::Failed)
    } else {
        match spec_disk_lookup(files, m.path) {
            Option::Some(existing) => {
                if fl.spec_has(flags::EXTRACT_NO_OVERWRITE) {
                    Result::Err(IOError::Failed)
                } else if fl.spec_has(flags::EXTRACT_NO_OVERWRITE_NEWER) && spec_newer(
                    existing,
                    m,
                ) {
                    Result::Err(IOError::Failed)
                } else {
                    Result::Ok(())
                }
            },
            Option::None => Result::Ok(()),
        }
    }
}

/// What extracting one entry does to a disk: the outcome and the disk
/// afterwards.  A rejected extraction leaves the disk untouched.
pub open spec fn spec_extract(
    files: Seq<(Seq<u8>, FileModel)>,
    m: EntryModel,
    payload: Seq<u8>,
    fl: ExtractFlags,
) -> (Result<(), IOError>, Seq<(Seq<u8>, FileModel)>) {
    match spec_extract_check(files, m, fl) {
        Result::Err(e) => (Result::Err(e), files),
        Result::Ok(()) => (
            Result::Ok(()),
            spec_disk_store(files, m.path, spec_extracted_file(m, payload, fl)),
        ),
    }
}

/// Applies one entry to the disk under the given flags.
pub fn extract_entry(disk: &mut Disk, e: &EntryData, payload: &Vec<u8>, fl: ExtractFlags) -> (r:
    Result<(), IOError>)
    ensures
        r == spec_extract(old(disk).disk_model(), e@, payload@, fl).0,
        final(disk).disk_model() == spec_extract(old(disk).disk_model(), e@, payload@, fl).1,
{
    if fl.has(flags::EXTRACT_SECURE_NODOTDOT) && has_dotdot(&e.path) {
        return Err(IOError::Failed);
    }
    if fl.has(flags::EXTRACT_SECURE_NOABSOLUTEPATHS) && e.path.len() > 0 && e.path[0] == PATH_SEP {
        return Err(IOError::Failed);
    }
    match disk.stat(&e.path) {
        Option::Some(existing) => {
            if fl.has(flags::EXTRACT_NO_OVERWRITE) {
                return Err(IOError::Failed);
            }
            if fl.has(flags::EXTRACT_NO_OVERWRITE_NEWER) && (existing.mtime_s > e.mtime_s || (
            existing.mtime_s == e.mtime_s && existing.mtime_ns > e.mtime_ns)) {
                return Err(IOError::Failed);
            }
        },
        Option::None => {
        },
    }
    let preserve_perm = fl.has(flags::EXTRACT_PERM);
    let preserve_owner = fl.has(flags::EXTRACT_OWNER);
    let preserve_time = fl.has(flags::EXTRACT_TIME);
    let f = DiskFile {
        etype: e.etype,
        perm: if preserve_perm {
            e.perm
        } else {
            DEFAULT_PERM
        },
        data: clone_bytes(payload),
        uname: if preserve_owner {
            clone_bytes(&e.uname)
        } else {
            Vec::new()
        },
        gname: if preserve_owner {
            clone_bytes(&e.gname)
        } else {
            Vec::new()
        },
        mtime_s: if preserve_time {
            e.mtime_s
        } else {
            0
        },
        mtime_ns: if preserve_time {
            e.mtime_ns
        } else {
            0
        },
    };
    disk.store(clone_bytes(&e.path), f);
    Ok(())
}

/// What is stored at a path is found at that path.
pub proof fn lemma_lookup_store(files: Seq<(Seq<u8>, FileModel)>, path: Seq<u8>, f: FileModel)
    ensures
        spec_disk_lookup(spec_disk_store(files, path, f), path) == Option::Some(f),
    decreases files.len(),
{
    if files.len() == 0 {
    } else if files[0].0 == path {
        assert((seq![(path, f)] + files.skip(1))[0] == (path, f));
    } else {
        lemma_lookup_store(files.skip(1), path, f);
        let stored = seq![files[0]] + spec_disk_store(files.skip(1), path, f);
        assert(stored[0] == files[0]);
        assert(stored.skip(1) =~= spec_disk_store(files.skip(1), path, f));
    }
}

/// Extracting the same entry twice to the same path with the
/// no-overwrite option set fails the second time, whatever payload the
/// second attempt carries, and leaves the disk as the first extraction
/// made it.
pub proof fn lemma_extract_no_overwrite_twice(
    files: Seq<(Seq<u8>, FileModel)>,
    m: EntryModel,
    payload: Seq<u8>,
    payload2: Seq<u8>,
    fl: ExtractFlags,
)
    requires
        fl.spec_has(flags::EXTRACT_NO_OVERWRITE),
        spec_extract(files, m, payload, fl).0 is Ok,
    ensures
        ({
            let after = spec_extract(files, m, payload, fl).1;
            &&& spec_extract(after, m, payload2, fl).0 == Result::<(), IOError>::Err(
                IOError::Failed,
            )
            &&& spec_extract(after, m, payload2, fl).1 == after
        }),
{
    let after = spec_extract(files, m, payload, fl).1;
    lemma_lookup_store(files, m.path, spec_extracted_file(m, payload, fl));
}

/// Extracting the same entry twice to the same path with the unlink
/// option set and the no-overwrite option clear succeeds both times: the
/// second extraction replaces the first file.
pub proof fn lemma_extract_unlink_twice(
    files: Seq<(Seq<u8>, FileModel)>,
    m: EntryModel,
    payload: Seq<u8>,
    payload2: Seq<u8>,
    fl: ExtractFlags,
)
    requires
        fl.spec_has(flags::EXTRACT_UNLINK),
        !fl.spec_has(flags::EXTRACT_NO_OVERWRITE),
        spec_extract(files, m, payload, fl).0 is Ok,
    ensures
        ({
            let after = spec_extract(files, m, payload, fl).1;
            &&& spec_extract(after, m, payload2, fl).0 is Ok
            &&& spec_disk_lookup(spec_extract(after, m, payload2, fl).1, m.path)
                == Option::Some(spec_extracted_file(m, payload2, fl))
        }),
{
    let first = spec_extracted_file(m, payload, fl);
    let after = spec_extract(files, m, payload, fl).1;
    lemma_lookup_store(files, m.path, first);
    assert(!spec_newer(first, m));
    lemma_lookup_store(after, m.path, spec_extracted_file(m, payload2, fl));
}

} // verus!
