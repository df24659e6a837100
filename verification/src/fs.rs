//! The filesystem core: the identity table built from one bucket listing,
//! and the four request handlers that serve it.
//!
//! Identifier `1` is the root directory; the `N` entries accepted from the
//! listing get identifiers `2..=N+1`, densely, in visitation order. The table
//! is immutable after construction: no request mutates it.

use crate::backends::{entry_is_valid, spec_object_of, Backend, BackendError, Object, RawEntry};
use vstd::prelude::*;

verus! {

/// The identifier reserved for the root directory.
pub const ROOT_INO: u64 = 1;

/// The block size reported in every attribute record.
pub const BLOCK_SIZE: u32 = 512;

/// The largest number of children the identifier space admits: children get
/// identifiers from `2` upward, so a table can hold at most this many.
pub const MAX_ENTRIES: u64 = u64::MAX - 2;

/// What an identifier refers to: the single root directory, or a regular
/// file standing for one bucket object.
#[derive(Debug, Clone, Copy, PartialEq, Eq, Structural)]
pub enum FileType {
    Directory,
    RegularFile,
}

/// POSIX-style metadata for one identifier. Everything not derived from the
/// bucket entry is fixed: read-only permissions, one link, a constant block
/// size.
#[derive(Debug, Clone, Copy, PartialEq, Eq, Structural)]
pub struct FileAttr {
    pub ino: u64,
    pub size: u64,
    pub blocks: u64,
    pub mtime: u64,
    pub kind: FileType,
    pub perm: u16,
    pub nlink: u32,
    pub blksize: u32,
}

/// How many `BLOCK_SIZE`-byte blocks `size` bytes occupy, rounded up.
pub open spec fn spec_blocks(size: u64) -> u64 {
    if size % (BLOCK_SIZE as u64) == 0 {
        size / (BLOCK_SIZE as u64)
    } else {
        (size / (BLOCK_SIZE as u64) + 1) as u64
    }
}

/// The attribute record for `ino` with the given kind, size and
/// modification time.
pub open spec fn spec_attr(ino: u64, kind: FileType, size: u64, mtime: u64) -> FileAttr {
    FileAttr {
        ino,
        size,
        blocks: spec_blocks(size),
        mtime,
        kind,
        perm: 0o444,
        nlink: 1,
        blksize: BLOCK_SIZE,
    }
}

/// Builds the attribute record for one identifier.
pub fn new_attr(ino: u64, kind: FileType, size: u64, mtime: u64) -> (r: FileAttr)
    ensures
        r == spec_attr(ino, kind, size, mtime),
{
    let blocks: u64 = if size % (BLOCK_SIZE as u64) == 0 {
        size / (BLOCK_SIZE as u64)
    } else {
        size / (BLOCK_SIZE as u64) + 1
    };
    FileAttr { ino, size, blocks, mtime, kind, perm: 0o444, nlink: 1, blksize: BLOCK_SIZE }
}

/// Builds the root directory's attribute record.
pub fn new_root_attr(ino: u64, size: u64, mtime: u64) -> (r: FileAttr)
    ensures
        r == spec_attr(ino, FileType::Directory, size, mtime),
{
    new_attr(ino, FileType::Directory, size, mtime)
}

/// Builds a child file's attribute record.
pub fn new_child_attr(ino: u64, size: u64, mtime: u64) -> (r: FileAttr)
    ensures
        r == spec_attr(ino, FileType::RegularFile, size, mtime),
{
    new_attr(ino, FileType::RegularFile, size, mtime)
}

/// The entries of a listing that enter the table, in visitation order:
/// the valid ones, each reduced to its object, with the invalid ones left
/// out entirely.
pub open spec fn accepted(entries: Seq<RawEntry>) -> Seq<Object>
    decreases entries.len(),
{
    if entries.len() == 0 {
        Seq::empty()
    } else {
        let rest = accepted(entries.drop_last());
        if entry_is_valid(entries.last()) {
            rest.push(spec_object_of(entries.last()))
        } else {
            rest
        }
    }
}

/// One step of `accepted` over a growing prefix: extending the prefix by one
/// entry appends that entry's object when it is valid and nothing otherwise.
proof fn lemma_accepted_take_step(entries: Seq<RawEntry>, i: int)
    requires
        0 <= i < entries.len(),
    ensures
        entry_is_valid(entries[i]) ==> accepted(entries.take(i + 1)) == accepted(
            entries.take(i),
        ).push(spec_object_of(entries[i])),
        !entry_is_valid(entries[i]) ==> accepted(entries.take(i + 1)) == accepted(
            entries.take(i),
        ),
{
    assert(entries.take(i + 1).drop_last() =~= entries.take(i));
    assert(entries.take(i + 1).last() == entries[i]);
}

/// A listing whose entries are all valid loses none of them.
pub proof fn lemma_accepted_all_valid(entries: Seq<RawEntry>)
    requires
        forall|i: int| 0 <= i < entries.len() ==> entry_is_valid(#[trigger] entries[i]),
    ensures
        accepted(entries).len() == entries.len(),
        forall|i: int|
            0 <= i < entries.len() ==> accepted(entries)[i] == spec_object_of(
                #[trigger] entries[i],
            ),
    decreases entries.len(),
{
    if entries.len() > 0 {
        let prefix = entries.drop_last();
        assert forall|i: int| 0 <= i < prefix.len() implies entry_is_valid(
            #[trigger] prefix[i],
        ) by {
            assert(prefix[i] == entries[i]);
        }
        lemma_accepted_all_valid(prefix);
        assert(entry_is_valid(entries.last())) by {
            assert(entries.last() == entries[entries.len() - 1]);
        }
        assert forall|i: int| 0 <= i < entries.len() implies accepted(entries)[i]
            == spec_object_of(#[trigger] entries[i]) by {
            if i < entries.len() - 1 {
                assert(prefix[i] == entries[i]);
            }
        }
    }
}

/// Builds the children of the root: one object per valid listing entry, in
/// visitation order, each destined for the identifier its position gives it.
pub fn new_childs_from(entries: Vec<RawEntry>) -> (children: Vec<Object>)
    ensures
        children@ == accepted(entries@),
{
    let mut children: Vec<Object> = Vec::new();
    let n = entries.len();
    let mut i: usize = 0;
    while i < n
        invariant
            i <= n,
            n == entries@.len(),
            children@ == accepted(entries@.take(i as int)),
        decreases n - i,
    {
        proof {
            lemma_accepted_take_step(entries@, i as int);
        }
        match crate::backends::try_from_entry(&entries[i]) {
            Some(o) => children.push(o),
            None => (),
        }
        i = i + 1;
    }
    proof {
        assert(entries@.take(n as int) =~= entries@);
    }
    children
}

/// The sum of the children's sizes, unbounded.
pub open spec fn sum_sizes(objs: Seq<Object>) -> int
    decreases objs.len(),
{
    if objs.len() == 0 {
        0
    } else {
        sum_sizes(objs.drop_last()) + objs.last().size
    }
}

/// A sum of sizes is never negative.
pub proof fn lemma_sum_sizes_nonneg(objs: Seq<Object>)
    ensures
        sum_sizes(objs) >= 0,
    decreases objs.len(),
{
    if objs.len() > 0 {
        lemma_sum_sizes_nonneg(objs.drop_last());
    }
}

/// The root's reported size: the sum of its children's sizes, saturated at
/// what the attribute field can hold.
pub open spec fn root_size_of(objs: Seq<Object>) -> u64 {
    if sum_sizes(objs) <= u64::MAX {
        sum_sizes(objs) as u64
    } else {
        u64::MAX
    }
}

/// The root's reported modification time: the latest among its children,
/// or the epoch when there are none.
pub open spec fn root_mtime_of(objs: Seq<Object>) -> u64
    decreases objs.len(),
{
    if objs.len() == 0 {
        0u64
    } else {
        let rest = root_mtime_of(objs.drop_last());
        if objs.last().last_modified > rest {
            objs.last().last_modified
        } else {
            rest
        }
    }
}

/// Folds the children into the root's aggregate size and modification time.
pub fn root_totals(children: &Vec<Object>) -> (r: (u64, u64))
    ensures
        r.0 == root_size_of(children@),
        r.1 == root_mtime_of(children@),
{
    let mut size: u64 = 0;
    let mut mtime: u64 = 0;
    let n = children.len();
    let mut i: usize = 0;
    while i < n
        invariant
            i <= n,
            n == children@.len(),
            size == root_size_of(children@.take(i as int)),
            mtime == root_mtime_of(children@.take(i as int)),
        decreases n - i,
    {
        proof {
            assert(children@.take(i + 1).drop_last() =~= children@.take(i as int));
            assert(children@.take(i + 1).last() == children@[i as int]);
            assert(sum_sizes(children@.take(i + 1)) == sum_sizes(children@.take(i as int))
                + children@[i as int].size);
        }
        let o = &children[i];
        size = if size > u64::MAX - o.size {
            u64::MAX
        } else {
            size + o.size
        };
        if o.last_modified > mtime {
            mtime = o.last_modified;
        }
        proof {
            lemma_sum_sizes_nonneg(children@.take(i as int));
        }
        i = i + 1;
    }
    proof {
        assert(children@.take(n as int) =~= children@);
    }
    (size, mtime)
}

/// Builds the whole identity table from one listing: the children and the
/// root's aggregate attribute record. Reports failure only when the listing
/// holds more valid entries than the identifier space can address.
pub fn new_fs_from(entries: Vec<RawEntry>) -> (r: Option<(Vec<Object>, FileAttr)>)
    ensures
        match r {
            Some(t) => accepted(entries@).len() <= MAX_ENTRIES && t.0@ == accepted(entries@)
                && t.1 == spec_attr(
                ROOT_INO,
                FileType::Directory,
                root_size_of(accepted(entries@)),
                root_mtime_of(accepted(entries@)),
            ),
            None => accepted(entries@).len() > MAX_ENTRIES,
        },
{
    let children = new_childs_from(entries);
    if children.len() as u64 > MAX_ENTRIES {
        return None;
    }
    let (root_size, root_mtime) = root_totals(&children);
    let root_attr = new_root_attr(ROOT_INO, root_size, root_mtime);
    Some((children, root_attr))
}

/// The error a request handler reports: the identifier or name is not in the
/// table, or a content download failed.
#[derive(Debug, Clone, Copy, PartialEq, Eq, Structural)]
pub enum FsError {
    NotFound,
    Io,
}

/// Why construction failed: the one listing call failed, or the listing held
/// more valid entries than the identifier space can address.
#[derive(Debug)]
pub enum BuildError {
    Backend(BackendError),
    TooManyEntries,
}

/// The identifier the name index gives for `name` among the children alone:
/// the position of the *last* child bearing that name, shifted into the
/// identifier space. A later entry with the same name shadows an earlier one,
/// as repeated insertion into a unique-key index would.
pub open spec fn child_ino(objs: Seq<Object>, name: Seq<char>) -> Option<u64>
    decreases objs.len(),
{
    if objs.len() == 0 {
        None
    } else if objs.last().name@ == name {
        Some((objs.len() + 1) as u64)
    } else {
        child_ino(objs.drop_last(), name)
    }
}

/// A read-only filesystem over one bucket: the identity table built from one
/// listing, and the connection content reads go through.
pub struct BucketFilesystem<B> {
    bucket_name: String,
    children: Vec<Object>,
    root_attr: FileAttr,
    conn: B,
}

impl<B> View for BucketFilesystem<B> {
    type V = Seq<Object>;

    /// The mathematical content of the identity table: the accepted bucket
    /// objects, in visitation order. The child at position `i` owns
    /// identifier `i + 2`.
    closed spec fn view(&self) -> Seq<Object> {
        self.children@
    }
}

impl<B> BucketFilesystem<B> {
    /// The bucket this filesystem exposes.
    pub closed spec fn spec_bucket_name(self) -> Seq<char> {
        self.bucket_name@
    }

    /// Well-formedness: the children fit the identifier space, and the stored
    /// root attribute is the aggregate over them.
    pub closed spec fn wf(self) -> bool {
        &&& self.children@.len() <= MAX_ENTRIES
        &&& self.root_attr == spec_attr(
            ROOT_INO,
            FileType::Directory,
            root_size_of(self.children@),
            root_mtime_of(self.children@),
        )
    }

    /// The identifiers the table holds: the root, and one per child.
    pub open spec fn has_ino(self, ino: u64) -> bool {
        ino == ROOT_INO || (2 <= ino && ino - 2 < self@.len())
    }

    /// The attribute record the table holds for `ino`.
    pub open spec fn attr_of(self, ino: u64) -> FileAttr
        recommends
            self.has_ino(ino),
    {
        if ino == ROOT_INO {
            spec_attr(ROOT_INO, FileType::Directory, root_size_of(self@), root_mtime_of(self@))
        } else {
            spec_attr(
                ino,
                FileType::RegularFile,
                self@[ino - 2].size,
                self@[ino - 2].last_modified,
            )
        }
    }

    /// What the name index maps `name` to: the root under its canonical path
    /// name, else the last child bearing that name. The root's entry shadows
    /// any child named like it, having been inserted after all of them.
    pub open spec fn name_to_ino(self, name: Seq<char>) -> Option<u64> {
        if name == "/"@ {
            Some(ROOT_INO)
        } else {
            child_ino(self@, name)
        }
    }

    /// Serves an attribute query: the record for `ino`, or not-found.
    pub fn getattr(&self, ino: u64) -> (r: Result<FileAttr, FsError>)
        requires
            self.wf(),
        ensures
            self.has_ino(ino) ==> r == Ok::<FileAttr, FsError>(self.attr_of(ino)),
            !self.has_ino(ino) ==> r == Err::<FileAttr, FsError>(FsError::NotFound),
    {
        if ino == ROOT_INO {
            Ok(self.root_attr)
        } else if ino >= 2 && ino - 2 < self.children.len() as u64 {
            let o = &self.children[(ino - 2) as usize];
            Ok(new_child_attr(ino, o.size, o.last_modified))
        } else {
            Err(FsError::NotFound)
        }
    }

    /// Serves a name lookup under `parent`: only the root is a valid parent,
    /// the namespace being one level deep. Returns the attributes of what the
    /// name index maps `name` to, or not-found.
    pub fn lookup(&self, parent: u64, name: &str) -> (r: Result<FileAttr, FsError>)
        requires
            self.wf(),
        ensures
            parent != ROOT_INO ==> r == Err::<FileAttr, FsError>(FsError::NotFound),
            parent == ROOT_INO ==> match self.name_to_ino(name@) {
                Some(ino) => r == Ok::<FileAttr, FsError>(self.attr_of(ino)),
                None => r == Err::<FileAttr, FsError>(FsError::NotFound),
            },
    {
        if parent != ROOT_INO {
            return Err(FsError::NotFound);
        }
        let name_owned: String = name.to_owned();
        let root_name: String = "/".to_owned();
        if name_owned == root_name {
            return Ok(self.root_attr);
        }
        let mut i: usize = self.children.len();
        proof {
            assert(self.children@.take(self.children@.len() as int) =~= self.children@);
        }
        while i > 0
            invariant
                i <= self.children@.len(),
                self.wf(),
                parent == ROOT_INO,
                name_owned@ == name@,
                name@ != "/"@,
                child_ino(self.children@, name@) == child_ino(
                    self.children@.take(i as int),
                    name@,
                ),
            decreases i,
        {
            i = i - 1;
            proof {
                assert(self.children@.take(i + 1).last() == self.children@[i as int]);
                assert(self.children@.take(i + 1).drop_last() =~= self.children@.take(i as int));
            }
            if self.children[i].name == name_owned {
                let o = &self.children[i];
                return Ok(new_child_attr(i as u64 + 2, o.size, o.last_modified));
            }
        }
        assert(self.children@.take(0) =~= Seq::<Object>::empty());
        Err(FsError::NotFound)
    }
}

/// One row of a directory enumeration. `offset` is the resumption point a
/// caller hands back to continue the enumeration after this row.
#[derive(Debug, Clone)]
pub struct DirEntry {
    pub ino: u64,
    pub offset: u64,
    pub kind: FileType,
    pub name: String,
}

impl<B> BucketFilesystem<B> {
    /// How many rows a full enumeration of the root yields: its self-entry
    /// plus one per child.
    pub open spec fn listing_len(self) -> int {
        self@.len() + 1int
    }

    /// The identifier at row `j` of the enumeration: the root at row 0, then
    /// the children in identifier order. The resumption offset of a row is
    /// the same number, which is strictly increasing across rows.
    pub open spec fn listing_ino(self, j: int) -> u64
        recommends
            0 <= j < self.listing_len(),
    {
        (j + 1) as u64
    }

    /// The kind at row `j` of the enumeration.
    pub open spec fn listing_kind(self, j: int) -> FileType
        recommends
            0 <= j < self.listing_len(),
    {
        if j == 0 {
            FileType::Directory
        } else {
            FileType::RegularFile
        }
    }

    /// The name at row `j` of the enumeration.
    pub open spec fn listing_name(self, j: int) -> Seq<char>
        recommends
            0 <= j < self.listing_len(),
    {
        if j == 0 {
            "/"@
        } else {
            self@[j - 1].name@
        }
    }

    /// The first row an enumeration resumed at `offset` delivers: rows whose
    /// resumption offset is at most `offset` were already delivered.
    pub open spec fn listing_start(self, offset: u64) -> int {
        if offset <= self.listing_len() {
            offset as int
        } else {
            self.listing_len()
        }
    }

    /// `v` is exactly the tail of the enumeration that a call resumed at
    /// `offset` must deliver: every remaining row, in order, nothing else.
    pub open spec fn is_listing_suffix(self, offset: u64, v: Seq<DirEntry>) -> bool {
        let start = self.listing_start(offset);
        &&& v.len() == self.listing_len() - start
        &&& forall|k: int|
            0 <= k < v.len() ==> {
                &&& (#[trigger] v[k]).ino == self.listing_ino(start + k)
                &&& v[k].offset == self.listing_ino(start + k)
                &&& v[k].kind == self.listing_kind(start + k)
                &&& v[k].name@ == self.listing_name(start + k)
            }
    }

    /// Serves a directory enumeration: valid only for the root. Returns
    /// every row past `offset`, in order; a caller whose buffer fills after
    /// consuming some prefix of them calls again with the offset of the last
    /// row it consumed, and the enumeration continues exactly there.
    pub fn readdir(&self, ino: u64, offset: u64) -> (r: Result<Vec<DirEntry>, FsError>)
        requires
            self.wf(),
        ensures
            ino != ROOT_INO ==> r == Err::<Vec<DirEntry>, FsError>(FsError::NotFound),
            ino == ROOT_INO ==> (r matches Ok(v) && self.is_listing_suffix(offset, v@)),
    {
        if ino != ROOT_INO {
            return Err(FsError::NotFound);
        }
        let n = self.children.len();
        let total: u64 = n as u64 + 1;
        let start: u64 = if offset <= total {
            offset
        } else {
            total
        };
        let mut v: Vec<DirEntry> = Vec::new();
        let mut j: u64 = start;
        while j < total
            invariant
                self.wf(),
                ino == ROOT_INO,
                n == self.children@.len(),
                total == n + 1,
                start == self.listing_start(offset),
                start <= j <= total,
                v@.len() == j - start,
                forall|k: int|
                    0 <= k < v@.len() ==> {
                        &&& (#[trigger] v@[k]).ino == self.listing_ino(start + k)
                        &&& v@[k].offset == self.listing_ino(start + k)
                        &&& v@[k].kind == self.listing_kind(start + k)
                        &&& v@[k].name@ == self.listing_name(start + k)
                    },
            decreases total - j,
        {
            if j == 0 {
                v.push(
                    DirEntry {
                        ino: ROOT_INO,
                        offset: 1,
                        kind: FileType::Directory,
                        name: "/".to_owned(),
                    },
                );
            } else {
                let o = &self.children[(j - 1) as usize];
                v.push(
                    DirEntry {
                        ino: j + 1,
                        offset: j + 1,
                        kind: FileType::RegularFile,
                        name: o.name.clone(),
                    },
                );
            }
            j = j + 1;
        }
        Ok(v)
    }

    /// Pausing and resuming loses nothing: if one call (resumed at any
    /// `offset`) delivered `v1`, and a second call resumes at the offset of
    /// row `k` of `v1`, the second call's rows are exactly the rows of `v1`
    /// after `k` — same identifiers, offsets, kinds and names, in order.
    pub proof fn lemma_readdir_resume(
        self,
        offset: u64,
        v1: Seq<DirEntry>,
        k: int,
        v2: Seq<DirEntry>,
    )
        requires
            self.wf(),
            self.is_listing_suffix(offset, v1),
            0 <= k < v1.len(),
            self.is_listing_suffix(v1[k].offset, v2),
        ensures
            v2.len() == v1.len() - k - 1,
            forall|m: int|
                0 <= m < v2.len() ==> {
                    &&& (#[trigger] v2[m]).ino == v1[k + 1 + m].ino
                    &&& v2[m].offset == v1[k + 1 + m].offset
                    &&& v2[m].kind == v1[k + 1 + m].kind
                    &&& v2[m].name@ == v1[k + 1 + m].name@
                },
    {
        let start = self.listing_start(offset);
        assert(v1[k].offset == start + k + 1);
        assert(self.listing_start(v1[k].offset) == start + k + 1);
    }
}

/// Maps a download's outcome to a read reply: the fetched bytes pass through
/// untouched, and a backend failure surfaces as an I/O error.
pub fn fetch_reply(fetched: Result<Vec<u8>, BackendError>) -> (r: Result<Vec<u8>, FsError>)
    ensures
        fetched matches Ok(bytes) ==> (r matches Ok(b) && b@ == bytes@),
        fetched is Err ==> r == Err::<Vec<u8>, FsError>(FsError::Io),
{
    match fetched {
        Ok(bytes) => Ok(bytes),
        Err(_) => Err(FsError::Io),
    }
}

impl<B> BucketFilesystem<B> {
    /// The name `ino` resolves to through the name index, if any: the name
    /// that the index maps back to `ino`. A child shadowed there — by a later
    /// child with the same name, or by the root's own entry — resolves to
    /// nothing.
    pub open spec fn resolved_name(self, ino: u64) -> Option<Seq<char>> {
        if ino == ROOT_INO {
            Some("/"@)
        } else if 2 <= ino && ino - 2 < self@.len() && self@[ino - 2].name@ != "/"@ && child_ino(
            self@,
            self@[ino - 2].name@,
        ) == Some(ino) {
            Some(self@[ino - 2].name@)
        } else {
            None
        }
    }

    /// Resolves `ino` to the key a content read must fetch, or reports that
    /// the name index holds no name for it.
    pub fn resolve_name(&self, ino: u64) -> (r: Option<String>)
        requires
            self.wf(),
        ensures
            r matches Some(s) ==> self.resolved_name(ino) == Some(s@),
            r is None ==> self.resolved_name(ino) is None,
    {
        if ino == ROOT_INO {
            return Some("/".to_owned());
        }
        if !(ino >= 2 && ino - 2 < self.children.len() as u64) {
            return None;
        }
        let name = self.children[(ino - 2) as usize].name.clone();
        let root_name: String = "/".to_owned();
        if name == root_name {
            return None;
        }
        // The index maps a name to the last child bearing it; `ino` resolves
        // only if that is `ino` itself.
        let mut i: usize = self.children.len();
        proof {
            assert(self.children@.take(self.children@.len() as int) =~= self.children@);
        }
        while i > 0
            invariant
                i <= self.children@.len(),
                self.wf(),
                2 <= ino && ino - 2 < self.children@.len(),
                name@ == self.children@[ino - 2].name@,
                name@ != "/"@,
                child_ino(self.children@, name@) == child_ino(
                    self.children@.take(i as int),
                    name@,
                ),
                forall|j: int|
                    i <= j < self.children@.len() ==> (#[trigger] self.children@[j]).name@
                        != name@,
            decreases i,
        {
            i = i - 1;
            proof {
                assert(self.children@.take(i + 1).last() == self.children@[i as int]);
                assert(self.children@.take(i + 1).drop_last() =~= self.children@.take(i as int));
            }
            if self.children[i].name == name {
                if i as u64 + 2 == ino {
                    return Some(name);
                } else {
                    return None;
                }
            }
        }
        proof {
            assert(self.children@.take(0) =~= Seq::<Object>::empty());
            assert(self.children@[ino - 2].name@ == name@);
        }
        None
    }

}

impl<B: Backend> BucketFilesystem<B> {
    /// Serves a content read: resolves `ino` through the name index and
    /// routes one download through the connection, replying with whatever
    /// bytes it produced, an I/O error if it failed, or not-found if `ino`
    /// resolves to no name.
    ///
    /// `offset` and `size` are accepted as parameters of the request, but
    /// the reply is deliberately the entire fetched object regardless of
    /// their values: the canonical behavior downloads whole objects and
    /// leaves any slicing to the caller.
    pub fn read(&self, ino: u64, offset: i64, size: u32) -> (r: Result<Vec<u8>, FsError>)
        requires
            self.wf(),
        ensures
            r == Err::<Vec<u8>, FsError>(FsError::NotFound) <==> self.resolved_name(ino) is None,
    {
        match self.resolve_name(ino) {
            Some(key) => {
                let fetched = self.conn.download_object(self.bucket_name.as_str(), key.as_str());
                fetch_reply(fetched)
            },
            None => Err(FsError::NotFound),
        }
    }

    /// Builds the filesystem: one listing call, then the identity table from
    /// its result. Fails only when that call fails — the backend's error is
    /// carried upward — or when the listing exceeds the identifier space; no
    /// partial filesystem is ever produced.
    pub fn new(bucket_name: String, conn: B) -> (r: Result<Self, BuildError>)
        ensures
            r matches Ok(fs) ==> fs.wf() && fs.spec_bucket_name() == bucket_name@,
    {
        let entries = match conn.list_objects(bucket_name.as_str()) {
            Ok(entries) => entries,
            Err(e) => {
                return Err(BuildError::Backend(e));
            },
        };
        match new_fs_from(entries) {
            Some((children, root_attr)) => Ok(
                BucketFilesystem { bucket_name, children, root_attr, conn },
            ),
            None => Err(BuildError::TooManyEntries),
        }
    }
}

/// When the name index yields an identifier for a name among the children,
/// that identifier belongs to a child, and that child bears the name.
pub proof fn lemma_child_ino_some(objs: Seq<Object>, name: Seq<char>)
    requires
        objs.len() + 1 <= u64::MAX,
        child_ino(objs, name) is Some,
    ensures
        2 <= child_ino(objs, name)->0 <= objs.len() + 1,
        objs[child_ino(objs, name)->0 - 2].name@ == name,
    decreases objs.len(),
{
    if objs.len() == 0 {
    } else if objs.last().name@ == name {
        assert(objs[objs.len() - 1] == objs.last());
    } else {
        lemma_child_ino_some(objs.drop_last(), name);
        let ino = child_ino(objs.drop_last(), name)->0;
        assert(objs.drop_last()[ino - 2] == objs[ino - 2]);
    }
}

/// A table built from a listing whose entries are all valid holds exactly
/// the identifiers `1` (the root) and `2..=N+1`, one per entry — no gaps,
/// no extras.
pub proof fn lemma_table_identifiers<B>(fs: BucketFilesystem<B>, entries: Seq<RawEntry>)
    requires
        fs.wf(),
        fs@ == accepted(entries),
        forall|i: int| 0 <= i < entries.len() ==> entry_is_valid(#[trigger] entries[i]),
    ensures
        forall|ino: u64| fs.has_ino(ino) <==> 1 <= ino <= entries.len() + 1,
{
    lemma_accepted_all_valid(entries);
}

/// The root is always present, always a directory, and always reachable
/// under its canonical path name.
pub proof fn lemma_root_is_directory<B>(fs: BucketFilesystem<B>)
    requires
        fs.wf(),
    ensures
        fs.has_ino(ROOT_INO),
        fs.attr_of(ROOT_INO).kind == FileType::Directory,
        fs.name_to_ino("/"@) == Some(ROOT_INO),
{
}

/// Every identifier the name index yields is one the attribute table holds:
/// the index dangles nowhere.
pub proof fn lemma_no_dangling<B>(fs: BucketFilesystem<B>, name: Seq<char>)
    requires
        fs.wf(),
        fs.name_to_ino(name) is Some,
    ensures
        fs.has_ino(fs.name_to_ino(name)->0),
{
    if name != "/"@ {
        lemma_child_ino_some(fs@, name);
    }
}

/// The identifier a lookup returns for a name also appears, under that very
/// name, in the directory enumeration of the root.
pub proof fn lemma_lookup_matches_listing<B>(fs: BucketFilesystem<B>, name: Seq<char>)
    requires
        fs.wf(),
        fs.name_to_ino(name) is Some,
    ensures
        exists|j: int|
            0 <= j < fs.listing_len() && fs.listing_ino(j) == fs.name_to_ino(name)->0
                && fs.listing_name(j) == name,
{
    if name == "/"@ {
        assert(fs.listing_ino(0) == fs.name_to_ino(name)->0 && fs.listing_name(0) == name);
    } else {
        lemma_child_ino_some(fs@, name);
        let ino = fs.name_to_ino(name)->0;
        assert(fs.listing_ino(ino - 1) == ino && fs.listing_name(ino - 1) == name);
    }
}

/// The enumeration of a table built from an all-valid listing is the root's
/// self-entry followed by exactly one row per listed entry, in listing
/// order, each under its entry's own name.
pub proof fn lemma_listing_matches_entries<B>(fs: BucketFilesystem<B>, entries: Seq<RawEntry>)
    requires
        fs.wf(),
        fs@ == accepted(entries),
        forall|i: int| 0 <= i < entries.len() ==> entry_is_valid(#[trigger] entries[i]),
    ensures
        fs.listing_len() == entries.len() + 1,
        forall|i: int|
            0 <= i < entries.len() ==> fs.listing_name(i + 1) == (#[trigger] entries[i]).key->0@
                && fs.listing_ino(i + 1) == i + 2,
{
    lemma_accepted_all_valid(entries);
}

/// An entry missing a required field is excluded as if it had not been
/// listed at all: in particular it does not advance identifier assignment
/// for the entries after it.
pub proof fn lemma_invalid_skipped(entries: Seq<RawEntry>, p: int)
    requires
        0 <= p < entries.len(),
        !entry_is_valid(entries[p]),
    ensures
        accepted(entries) == accepted(entries.remove(p)),
    decreases entries.len(),
{
    if p == entries.len() - 1 {
        assert(entries.remove(p) =~= entries.drop_last());
    } else {
        assert(entries.drop_last()[p] == entries[p]);
        lemma_invalid_skipped(entries.drop_last(), p);
        assert(entries.remove(p).drop_last() =~= entries.drop_last().remove(p));
        assert(entries.remove(p).last() == entries.last());
    }
}

/// Round trip: the identifier a lookup returns for an accepted entry's name
/// carries that entry's size and timestamp, as a regular file.
pub proof fn lemma_lookup_getattr_round_trip<B>(fs: BucketFilesystem<B>, name: Seq<char>)
    requires
        fs.wf(),
        name != "/"@,
        fs.name_to_ino(name) is Some,
    ensures
        ({
            let ino = fs.name_to_ino(name)->0;
            &&& fs.has_ino(ino)
            &&& fs.attr_of(ino).kind == FileType::RegularFile
            &&& fs.attr_of(ino).size == fs@[ino - 2].size
            &&& fs.attr_of(ino).mtime == fs@[ino - 2].last_modified
            &&& fs@[ino - 2].name@ == name
        }),
{
    lemma_child_ino_some(fs@, name);
}

} // verus!
