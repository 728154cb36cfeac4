//! The entry abstraction.
//!
//! One archive member is metadata — path, file type, permission bits,
//! owner and group names, size, timestamps — plus an optional payload.
//! Two variants exist: [`ReaderEntry`], a view yielded by a read session
//! that also carries the decoded payload, and [`WriteEntry`], an
//! independently owned entry built for writing.  Both expose the shared
//! [`Entry`] capability.
//!
//! Paths and names are byte strings, as the container stores them; no
//! normalisation happens at this layer.

use vstd::prelude::*;

use crate::disk::Disk;
use crate::disk::extract_entry;
use crate::disk::spec_extract;
use crate::flags::ExtractFlags;
use crate::status::IOError;

verus! {

/// File-type mode bits, regular file.
pub const AE_IFREG: u32 = 0x8000;

/// File-type mode bits, directory.
pub const AE_IFDIR: u32 = 0x4000;

/// File-type mode bits, block device.
pub const AE_IFBLK: u32 = 0x6000;

/// File-type mode bits, symbolic link.
pub const AE_IFLNK: u32 = 0xA000;

/// File-type mode bits, fifo.
pub const AE_IFIFO: u32 = 0x1000;

/// File-type mode bits, character device.
pub const AE_IFCHR: u32 = 0x2000;

/// File-type mode bits, socket.
pub const AE_IFSOCK: u32 = 0xC000;

/// File-type mode bits, the mask of the whole file-type field.
pub const AE_IFMT: u32 = 0xF000;

/// The file type of an archive member.
#[derive(Clone, Copy, Debug, PartialEq, Eq, Structural)]
pub enum EntryType {
    File,
    Dir,
    Block,
    Link,
    Fifo,
    Character,
    Socket,
    Mt,
    Undefined,
}

/// The mode bits that stand for a file type.
pub open spec fn spec_entry_type_to_mode(t: EntryType) -> u32 {
    match t {
        EntryType::File => AE_IFREG,
        EntryType::Dir => AE_IFDIR,
        EntryType::Block => AE_IFBLK,
        EntryType::Link => AE_IFLNK,
        EntryType::Fifo => AE_IFIFO,
        EntryType::Character => AE_IFCHR,
        EntryType::Socket => AE_IFSOCK,
        EntryType::Mt => AE_IFMT,
        EntryType::Undefined => 0,
    }
}

/// The file type that a mode value denotes.  Any value that is not
/// exactly one of the known file-type codes is undefined.
pub open spec fn spec_entry_type_from_mode(m: u32) -> EntryType {
    if m == AE_IFREG {
        EntryType::File
    } else if m == AE_IFDIR {
        EntryType::Dir
    } else if m == AE_IFBLK {
        EntryType::Block
    } else if m == AE_IFLNK {
        EntryType::Link
    } else if m == AE_IFIFO {
        EntryType::Fifo
    } else if m == AE_IFCHR {
        EntryType::Character
    } else if m == AE_IFSOCK {
        EntryType::Socket
    } else if m == AE_IFMT {
        EntryType::Mt
    } else {
        EntryType::Undefined
    }
}

/// Maps a file type to its mode bits.
pub fn entry_type_to_mode(t: EntryType) -> (m: u32)
    ensures
        m == spec_entry_type_to_mode(t),
{
    match t {
        EntryType::File => AE_IFREG,
        EntryType::Dir => AE_IFDIR,
        EntryType::Block => AE_IFBLK,
        EntryType::Link => AE_IFLNK,
        EntryType::Fifo => AE_IFIFO,
        EntryType::Character => AE_IFCHR,
        EntryType::Socket => AE_IFSOCK,
        EntryType::Mt => AE_IFMT,
        EntryType::Undefined => 0,
    }
}

/// Maps mode bits back to the file type.
pub fn entry_type_from_mode(m: u32) -> (t: EntryType)
    ensures
        t == spec_entry_type_from_mode(m),
{
    if m == AE_IFREG {
        EntryType::File
    } else if m == AE_IFDIR {
        EntryType::Dir
    } else if m == AE_IFBLK {
        EntryType::Block
    } else if m == AE_IFLNK {
        EntryType::Link
    } else if m == AE_IFIFO {
        EntryType::Fifo
    } else if m == AE_IFCHR {
        EntryType::Character
    } else if m == AE_IFSOCK {
        EntryType::Socket
    } else if m == AE_IFMT {
        EntryType::Mt
    } else {
        EntryType::Undefined
    }
}

/// The two mode mappings invert each other on every file type.
pub proof fn lemma_mode_round_trip(t: EntryType)
    ensures
        spec_entry_type_from_mode(spec_entry_type_to_mode(t)) == t,
{
}

/// The mathematical content of one entry's metadata.
pub struct EntryModel {
    pub path: Seq<u8>,
    pub etype: EntryType,
    pub perm: u16,
    pub size: u64,
    pub uname: Seq<u8>,
    pub gname: Seq<u8>,
    pub hardlink: Seq<u8>,
    pub atime_s: u64,
    pub atime_ns: u32,
    pub mtime_s: u64,
    pub mtime_ns: u32,
    pub ctime_s: u64,
    pub ctime_ns: u32,
    pub btime_s: u64,
    pub btime_ns: u32,
}

/// One entry's metadata.  The `hardlink` field names the member this one
/// is a hard link to; empty means none.
pub struct EntryData {
    pub path: Vec<u8>,
    pub etype: EntryType,
    pub perm: u16,
    pub size: u64,
    pub uname: Vec<u8>,
    pub gname: Vec<u8>,
    pub hardlink: Vec<u8>,
    pub atime_s: u64,
    pub atime_ns: u32,
    pub mtime_s: u64,
    pub mtime_ns: u32,
    pub ctime_s: u64,
    pub ctime_ns: u32,
    pub btime_s: u64,
    pub btime_ns: u32,
}

impl View for EntryData {
    type V = EntryModel;

    open spec fn view(&self) -> EntryModel {
        EntryModel {
            path: self.path@,
            etype: self.etype,
            perm: self.perm,
            size: self.size,
            uname: self.uname@,
            gname: self.gname@,
            hardlink: self.hardlink@,
            atime_s: self.atime_s,
            atime_ns: self.atime_ns,
            mtime_s: self.mtime_s,
            mtime_ns: self.mtime_ns,
            ctime_s: self.ctime_s,
            ctime_ns: self.ctime_ns,
            btime_s: self.btime_s,
            btime_ns: self.btime_ns,
        }
    }
}

/// The model of a cleared entry: everything empty or zero, file type
/// undefined.
pub open spec fn spec_empty_entry() -> EntryModel {
    EntryModel {
        path: Seq::empty(),
        etype: EntryType::Undefined,
        perm: 0,
        size: 0,
        uname: Seq::empty(),
        gname: Seq::empty(),
        hardlink: Seq::empty(),
        atime_s: 0,
        atime_ns: 0,
        mtime_s: 0,
        mtime_ns: 0,
        ctime_s: 0,
        ctime_ns: 0,
        btime_s: 0,
        btime_ns: 0,
    }
}

/// Copies a byte string.
pub fn clone_bytes(v: &Vec<u8>) -> (r: Vec<u8>)
    ensures
        r@ == v@,
{
    let mut r: Vec<u8> = Vec::new();
    let mut i: usize = 0;
    while i < v.len()
        invariant
            i <= v.len(),
            r@ == v@.subrange(0, i as int),
        decreases v.len() - i,
    {
        r.push(v[i]);
        i = i + 1;
        proof {
            assert(r@ =~= v@.subrange(0, i as int));
        }
    }
    proof {
        assert(r@ =~= v@);
    }
    r
}

impl EntryData {
    /// A cleared entry.
    pub fn empty() -> (r: EntryData)
        ensures
            r@ == spec_empty_entry(),
    {
        EntryData {
            path: Vec::new(),
            etype: EntryType::Undefined,
            perm: 0,
            size: 0,
            uname: Vec::new(),
            gname: Vec::new(),
            hardlink: Vec::new(),
            atime_s: 0,
            atime_ns: 0,
            mtime_s: 0,
            mtime_ns: 0,
            ctime_s: 0,
            ctime_ns: 0,
            btime_s: 0,
            btime_ns: 0,
        }
    }

    /// An independent copy of the metadata.
    pub fn duplicate(&self) -> (r: EntryData)
        ensures
            r@ == self@,
    {
        EntryData {
            path: clone_bytes(&self.path),
            etype: self.etype,
            perm: self.perm,
            size: self.size,
            uname: clone_bytes(&self.uname),
            gname: clone_bytes(&self.gname),
            hardlink: clone_bytes(&self.hardlink),
            atime_s: self.atime_s,
            atime_ns: self.atime_ns,
            mtime_s: self.mtime_s,
            mtime_ns: self.mtime_ns,
            ctime_s: self.ctime_s,
            ctime_ns: self.ctime_ns,
            btime_s: self.btime_s,
            btime_ns: self.btime_ns,
        }
    }
}

/// The capability shared by every entry variant: read and update the
/// member's metadata.
pub trait Entry {
    /// The metadata the entry holds.
    spec fn entry_model(&self) -> EntryModel;

    /// The member's path.
    fn path(&self) -> (r: &Vec<u8>)
        ensures
            r@ == self.entry_model().path,
    ;

    /// The owning user's name.
    fn user_name(&self) -> (r: &Vec<u8>)
        ensures
            r@ == self.entry_model().uname,
    ;

    /// The owning group's name.
    fn group_name(&self) -> (r: &Vec<u8>)
        ensures
            r@ == self.entry_model().gname,
    ;

    /// The permission bits.
    fn permissions(&self) -> (r: u16)
        ensures
            r == self.entry_model().perm,
    ;

    /// The declared payload size in bytes.
    fn size(&self) -> (r: u64)
        ensures
            r == self.entry_model().size,
    ;

    /// The member's file type.
    fn entry_type(&self) -> (r: EntryType)
        ensures
            r == self.entry_model().etype,
    ;

    /// An independent snapshot of the whole metadata.
    fn export(&self) -> (r: EntryData)
        ensures
            r@ == self.entry_model(),
    ;

    /// Whether the member is a regular file.
    fn is_file(&self) -> (r: bool)
        ensures
            r == (self.entry_model().etype == EntryType::File),
    {
        let t = self.entry_type();
        matches!(t, EntryType::File)
    }

    /// Whether the member is a directory.
    fn is_directory(&self) -> (r: bool)
        ensures
            r == (self.entry_model().etype == EntryType::Dir),
    {
        let t = self.entry_type();
        matches!(t, EntryType::Dir)
    }

    /// Replaces the member's path.
    fn set_path(&mut self, path: Vec<u8>)
        ensures
            final(self).entry_model() == (EntryModel { path: path@, ..old(self).entry_model() }),
    ;

    /// Replaces the permission bits.
    fn set_permissions(&mut self, perm: u16)
        ensures
            final(self).entry_model() == (EntryModel { perm: perm, ..old(self).entry_model() }),
    ;

    /// Replaces the declared payload size.
    fn set_size(&mut self, size: u64)
        ensures
            final(self).entry_model() == (EntryModel { size: size, ..old(self).entry_model() }),
    ;

    /// Replaces the file type.
    fn set_entry_type(&mut self, t: EntryType)
        ensures
            final(self).entry_model() == (EntryModel { etype: t, ..old(self).entry_model() }),
    ;

    /// Forces the member to a regular file, for metadata supplied out of
    /// band.
    fn stub(&mut self)
        ensures
            final(self).entry_model() == (EntryModel {
                etype: EntryType::File,
                ..old(self).entry_model()
            }),
    {
        self.set_entry_type(EntryType::File);
    }
}

/// An entry yielded by a read session: the decoded metadata together
/// with the member's payload.  The view is valid until the session
/// advances; it holds no reference back into the session.
pub struct ReaderEntry {
    pub data: EntryData,
    pub payload: Vec<u8>,
    pub read_pos: usize,
}

impl ReaderEntry {
    /// The member's whole payload.
    pub open spec fn payload_model(&self) -> Seq<u8> {
        self.payload@
    }

    /// How many payload bytes earlier `read_data` calls consumed.
    pub open spec fn consumed(&self) -> int {
        self.read_pos as int
    }

    /// Well-formed: the read cursor sits inside the payload and the
    /// declared size matches the payload actually decoded.
    pub open spec fn wf(&self) -> bool {
        self.consumed() <= self.payload_model().len()
            && self.entry_model().size == self.payload_model().len()
    }

    pub(crate) fn new(data: EntryData, payload: Vec<u8>) -> (r: ReaderEntry)
        requires
            data@.size == payload@.len(),
        ensures
            r.entry_model() == data@,
            r.payload_model() == payload@,
            r.consumed() == 0,
            r.wf(),
    {
        ReaderEntry { data, payload, read_pos: 0 }
    }

    /// Pulls up to `n` further bytes of the member's payload.  Yields
    /// `None` once the payload is exhausted, on this and on every later
    /// call.
    pub fn read_data(&mut self, n: usize) -> (r: Option<Vec<u8>>)
        requires
            old(self).wf(),
        ensures
            final(self).wf(),
            final(self).entry_model() == old(self).entry_model(),
            final(self).payload_model() == old(self).payload_model(),
            match r {
                Option::None => {
                    &&& old(self).consumed() == old(self).payload_model().len()
                    &&& final(self).consumed() == old(self).consumed()
                },
                Option::Some(chunk) => {
                    &&& old(self).consumed() < old(self).payload_model().len()
                    &&& chunk@.len() == vstd::math::min(
                        n as int,
                        old(self).payload_model().len() - old(self).consumed(),
                    )
                    &&& chunk@ == old(self).payload_model().subrange(
                        old(self).consumed(),
                        old(self).consumed() + chunk@.len(),
                    )
                    &&& final(self).consumed() == old(self).consumed() + chunk@.len()
                },
            },
    {
        let rem = self.payload.len() - self.read_pos;
        if rem == 0 {
            return None;
        }
        let take = if n < rem {
            n
        } else {
            rem
        };
        let end: usize = self.read_pos + take;
        let mut chunk: Vec<u8> = Vec::new();
        let mut j: usize = self.read_pos;
        while j < end
            invariant
                self.read_pos <= j <= end,
                end <= self.payload@.len(),
                chunk@ == self.payload@.subrange(self.read_pos as int, j as int),
            decreases end - j,
        {
            chunk.push(self.payload[j]);
            j = j + 1;
            proof {
                assert(chunk@ =~= self.payload@.subrange(self.read_pos as int, j as int));
            }
        }
        self.read_pos = end;
        Some(chunk)
    }
}

impl Entry for ReaderEntry {
    open spec fn entry_model(&self) -> EntryModel {
        self.data@
    }

    fn path(&self) -> (r: &Vec<u8>) {
        &self.data.path
    }

    fn user_name(&self) -> (r: &Vec<u8>) {
        &self.data.uname
    }

    fn group_name(&self) -> (r: &Vec<u8>) {
        &self.data.gname
    }

    fn permissions(&self) -> (r: u16) {
        self.data.perm
    }

    fn size(&self) -> (r: u64) {
        self.data.size
    }

    fn entry_type(&self) -> (r: EntryType) {
        self.data.etype
    }

    fn export(&self) -> (r: EntryData) {
        self.data.duplicate()
    }

    fn set_path(&mut self, path: Vec<u8>) {
        self.data.path = path;
    }

    fn set_permissions(&mut self, perm: u16) {
        self.data.perm = perm;
    }

    fn set_size(&mut self, size: u64) {
        self.data.size = size;
    }

    fn set_entry_type(&mut self, t: EntryType) {
        self.data.etype = t;
    }
}

/// An independently owned entry, freshly built or copied from another
/// entry, for handing to a write session.
pub struct WriteEntry {
    pub data: EntryData,
}

impl WriteEntry {
    /// A new entry, typed as a regular file.
    pub fn new() -> (r: WriteEntry)
        ensures
            r.entry_model() == (EntryModel { etype: EntryType::File, ..spec_empty_entry() }),
    {
        let mut data = EntryData::empty();
        data.etype = EntryType::File;
        WriteEntry { data }
    }

    /// An independent copy of another entry's metadata.
    pub fn clone<E: Entry>(entry: &E) -> (r: WriteEntry)
        ensures
            r.entry_model() == entry.entry_model(),
    {
        WriteEntry { data: entry.export() }
    }

    /// Clears the entry back to the undefined state.
    pub fn reset(&mut self)
        ensures
            final(self).entry_model() == spec_empty_entry(),
    {
        self.data = EntryData::empty();
    }
}

impl Entry for WriteEntry {
    open spec fn entry_model(&self) -> EntryModel {
        self.data@
    }

    fn path(&self) -> (r: &Vec<u8>) {
        &self.data.path
    }

    fn user_name(&self) -> (r: &Vec<u8>) {
        &self.data.uname
    }

    fn group_name(&self) -> (r: &Vec<u8>) {
        &self.data.gname
    }

    fn permissions(&self) -> (r: u16) {
        self.data.perm
    }

    fn size(&self) -> (r: u64) {
        self.data.size
    }

    fn entry_type(&self) -> (r: EntryType) {
        self.data.etype
    }

    fn export(&self) -> (r: EntryData) {
        self.data.duplicate()
    }

    fn set_path(&mut self, path: Vec<u8>) {
        self.data.path = path;
    }

    fn set_permissions(&mut self, perm: u16) {
        self.data.perm = perm;
    }

    fn set_size(&mut self, size: u64) {
        self.data.size = size;
    }

    fn set_entry_type(&mut self, t: EntryType) {
        self.data.etype = t;
    }
}

impl ReaderEntry {
    /// Applies the entry to the disk, honouring the flag set, and
    /// consumes it: extraction is a terminal operation on the view.
    pub fn extract(self, disk: &mut Disk, fl: ExtractFlags) -> (r: Result<(), IOError>)
        ensures
            r == spec_extract(old(disk).disk_model(), self.entry_model(), self.payload_model(), fl).0,
            final(disk).disk_model() == spec_extract(
                old(disk).disk_model(),
                self.entry_model(),
                self.payload_model(),
                fl,
            ).1,
    {
        extract_entry(disk, &self.data, &self.payload, fl)
    }
}

} // verus!
