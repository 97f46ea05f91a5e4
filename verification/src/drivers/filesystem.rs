//! The virtual file system: file systems mounted at paths, and each path
//! sent to the file system mounted at its longest matching mount point.
use vstd::prelude::*;
use vstd::string::{StringExecFns, StringSliceAdditionalSpecFns};
use vstd::utf8::{encode_utf8, is_ascii_chars_encode_utf8};

use crate::storage::block::BlockDevice;
use crate::storage::error::{FsError, FsResult};
use crate::storage::metadata::{views, FileType, MetaView, Metadata};
use crate::storage::text::{path_components, str_piece, strip_prefix_str, PATH_SEPARATOR};
use crate::storage::tmpfs::fs::{new_dir_bytes, new_file_bytes, FileHandle};
use crate::storage::tmpfs::lookup::listing_matches;
use crate::drivers::mounted::{
    fs_create_fits, fs_dir_created, fs_exists, fs_file_created, fs_link_fits, fs_linked, fs_listing, fs_meta,
    fs_opened, fs_read_back, MountedFs, OpenFile,
};

verus! {

/// A file system mounted at a path.
pub struct Mount<D: BlockDevice> {
    pub mount_point: String,
    pub fs: MountedFs<D>,
}

/// The file systems of the kernel, each at its mount point.
pub struct VirtualFileSystem<D: BlockDevice> {
    pub mounts: Vec<Mount<D>>,
}

/// The bytes of a mount point.
pub open spec fn point_of<D: BlockDevice>(m: Mount<D>) -> Seq<u8> {
    encode_utf8(m.mount_point@)
}

/// `path` starts with the mount point `p`.
pub open spec fn mounted_at(p: Seq<u8>, path: Seq<u8>) -> bool {
    p.len() <= path.len() && path.subrange(0, p.len() as int) == p
}

/// Mount `i` serves `path`: its point is a non-empty prefix of `path`, no
/// longer than any other matching point, and longer than those of the
/// matching mounts before it.
pub open spec fn serves<D: BlockDevice>(ms: Seq<Mount<D>>, path: Seq<u8>, i: int) -> bool {
    &&& 0 <= i < ms.len()
    &&& mounted_at(point_of(ms[i]), path)
    &&& point_of(ms[i]).len() > 0
    &&& forall|j: int|
        0 <= j < ms.len() && mounted_at(point_of(#[trigger] ms[j]), path) ==> point_of(ms[j]).len()
            <= point_of(ms[i]).len()
    &&& forall|j: int|
        0 <= j < i && mounted_at(point_of(#[trigger] ms[j]), path) ==> point_of(ms[j]).len() < point_of(
            ms[i],
        ).len()
}

/// No mount with a non-empty point matches `path`.
pub open spec fn unserved<D: BlockDevice>(ms: Seq<Mount<D>>, path: Seq<u8>) -> bool {
    forall|j: int|
        0 <= j < ms.len() ==> !(mounted_at(point_of(#[trigger] ms[j]), path) && point_of(ms[j]).len() > 0)
}

/// What the file system mounted at `p` is given for `path`: the rest after
/// the mount point.
pub open spec fn rest_of(p: Seq<u8>, path: Seq<u8>) -> Seq<u8> {
    path.subrange(p.len() as int, path.len() as int)
}

/// `s` without its leading `/`s.
pub open spec fn trim_start(s: Seq<u8>) -> Seq<u8>
    decreases s.len(),
{
    if s.len() > 0 && s[0] == PATH_SEPARATOR {
        trim_start(s.drop_first())
    } else {
        s
    }
}

/// `s` without its trailing `/`s.
pub open spec fn trim_end(s: Seq<u8>) -> Seq<u8>
    decreases s.len(),
{
    if s.len() > 0 && s.last() == PATH_SEPARATOR {
        trim_end(s.drop_last())
    } else {
        s
    }
}

/// The entries for the mount points themselves in a listing of `/`: one
/// directory per mount whose point, without its slashes, is not empty.
pub open spec fn mount_entries<D: BlockDevice>(ms: Seq<Mount<D>>) -> Seq<MetaView>
    decreases ms.len(),
{
    if ms.len() == 0 {
        Seq::empty()
    } else {
        let name = trim_end(trim_start(point_of(ms.last())));
        let before = mount_entries(ms.drop_last());
        if name.len() > 0 {
            before.push(MetaView { name, entry_type: FileType::Directory, len: 0, links: 1 })
        } else {
            before
        }
    }
}

/// The entries that the file systems mounted at `/` add to a listing of `/`,
/// in mount order.
pub open spec fn root_mount_entries<D: BlockDevice>(ms: Seq<Mount<D>>) -> FsResult<Seq<MetaView>>
    decreases ms.len(),
{
    if ms.len() == 0 {
        Ok(Seq::empty())
    } else {
        match root_mount_entries(ms.drop_last()) {
            Err(e) => Err(e),
            Ok(before) => if point_of(ms.last()) == seq![PATH_SEPARATOR] {
                match fs_listing(ms.last().fs, seq![PATH_SEPARATOR]) {
                    Err(e) => Err(e),
                    Ok(more) => Ok(before + more),
                }
            } else {
                Ok(before)
            },
        }
    }
}

/// The path names the root of the virtual file system.
pub open spec fn is_root_path(path: Seq<u8>) -> bool {
    path.len() == 0 || path == seq![PATH_SEPARATOR]
}

proof fn lemma_trim_start(s: Seq<u8>, a: int)
    requires
        0 <= a <= s.len(),
        forall|j: int| 0 <= j < a ==> s[j] == PATH_SEPARATOR,
        a == s.len() || s[a] != PATH_SEPARATOR,
    ensures
        trim_start(s) == s.subrange(a, s.len() as int),
    decreases a,
{
    if a > 0 {
        lemma_trim_start(s.drop_first(), a - 1);
        assert(s.drop_first().subrange(a - 1, s.len() - 1) =~= s.subrange(a, s.len() as int));
    } else {
        assert(s.subrange(0, s.len() as int) =~= s);
    }
}

proof fn lemma_trim_end(s: Seq<u8>, b: int)
    requires
        0 <= b <= s.len(),
        forall|j: int| b <= j < s.len() ==> s[j] == PATH_SEPARATOR,
        b == 0 || s[b - 1] != PATH_SEPARATOR,
    ensures
        trim_end(s) == s.subrange(0, b),
    decreases s.len() - b,
{
    if b < s.len() {
        lemma_trim_end(s.drop_last(), b);
        assert(s.drop_last().subrange(0, b) =~= s.subrange(0, b));
    } else {
        assert(s.subrange(0, b) =~= s);
    }
}

/// `s` without its leading and trailing `/`s.
fn trim_slashes<'a>(s: &'a str) -> (r: &'a str)
    ensures
        r.spec_bytes() == trim_end(trim_start(s.spec_bytes())),
{
    let bytes = s.as_bytes();
    let ghost b = bytes@;
    let mut a: usize = 0;
    while a < bytes.len() && bytes[a] == PATH_SEPARATOR
        invariant
            b == bytes@,
            a <= b.len(),
            forall|j: int| 0 <= j < a ==> b[j] == PATH_SEPARATOR,
        decreases b.len() - a,
    {
        a = a + 1;
    }
    proof {
        lemma_trim_start(b, a as int);
    }
    let ghost t = b.subrange(a as int, b.len() as int);
    let mut e: usize = bytes.len();
    while e > a && bytes[e - 1] == PATH_SEPARATOR
        invariant
            b == bytes@,
            a <= e <= b.len(),
            forall|j: int| e <= j < b.len() ==> b[j] == PATH_SEPARATOR,
        decreases e,
    {
        e = e - 1;
    }
    proof {
        lemma_trim_end(t, e - a);
        assert(t.subrange(0, e - a) =~= b.subrange(a as int, e as int));
    }
    if a >= e {
        proof {
            reveal_strlit("");
        }
        assert(b.subrange(a as int, e as int) =~= Seq::<u8>::empty());
        return "";
    }
    str_piece(s, a, e)
}

/// Whether `path` is `/` or empty.
fn root_path(path: &str) -> (r: bool)
    ensures
        r == is_root_path(path.spec_bytes()),
{
    let b = path.as_bytes();
    if b.len() == 0 {
        return true;
    }
    if b.len() == 1 && b[0] == PATH_SEPARATOR {
        assert(b@ =~= seq![PATH_SEPARATOR]);
        return true;
    }
    false
}

/// At most one mount serves a path.
pub proof fn lemma_serves_unique<D: BlockDevice>(ms: Seq<Mount<D>>, path: Seq<u8>, i: int, j: int)
    requires
        serves(ms, path, i),
        serves(ms, path, j),
    ensures
        i == j,
{
    if j < i {
        assert(point_of(ms[j]).len() < point_of(ms[i]).len());
    } else if j > i {
        assert(point_of(ms[i]).len() < point_of(ms[j]).len());
    }
}

/// `after` is `before` with mount `i`'s file system replaced.
pub open spec fn only_mount_changed<D: BlockDevice>(before: Seq<Mount<D>>, after: Seq<Mount<D>>, i: int) -> bool {
    &&& after.len() == before.len()
    &&& forall|j: int| 0 <= j < before.len() && j != i ==> after[j] == before[j]
    &&& after[i].mount_point == before[i].mount_point
}

/// `r` is what opening the regular file at `p` gives: `FileNotFound` where
/// no mount serves `p`, and otherwise what the file system that serves it
/// gives for the rest of the path.
pub open spec fn vfs_opened<D: BlockDevice>(ms: Seq<Mount<D>>, p: Seq<u8>, r: FsResult<OpenFile>) -> bool {
    &&& unserved(ms, p) ==> (r matches Err(e) && e == FsError::FileNotFound)
    &&& forall|i: int| serves(ms, p, i) ==> fs_opened(ms[i].fs, rest_of(point_of(ms[i]), p), r)
}

/// A regular file fits at `p` in the file system that serves it.
pub open spec fn file_fits_at<D: BlockDevice>(ms: Seq<Mount<D>>, p: Seq<u8>) -> bool {
    forall|i: int|
        serves(ms, p, i) ==> fs_create_fits(ms[i].fs, path_components(rest_of(point_of(ms[i]), p)), new_file_bytes())
}

/// Creating a regular file at `p` took the mounts from `before` to `after`
/// with result `r`: refused with `FileNotFound` where no mount serves `p`,
/// and otherwise done by the file system that serves it, alone.
pub open spec fn vfs_file_created<D: BlockDevice>(
    before: Seq<Mount<D>>,
    after: Seq<Mount<D>>,
    p: Seq<u8>,
    r: FsResult<FileHandle>,
) -> bool {
    &&& unserved(before, p) ==> (r matches Err(e) && e == FsError::FileNotFound) && after == before
    &&& forall|i: int|
        serves(before, p, i) ==> only_mount_changed(before, after, i) && fs_file_created(
            before[i].fs,
            after[i].fs,
            rest_of(point_of(before[i]), p),
            r,
        )
}

/// A directory fits at `p` in the file system that serves it.
pub open spec fn dir_fits_at<D: BlockDevice>(ms: Seq<Mount<D>>, p: Seq<u8>) -> bool {
    forall|i: int|
        serves(ms, p, i) ==> fs_create_fits(ms[i].fs, path_components(rest_of(point_of(ms[i]), p)), new_dir_bytes())
}

/// Creating a directory at `p` took the mounts from `before` to `after`
/// with result `r`: refused with `FileNotFound` where no mount serves `p`,
/// and otherwise done by the file system that serves it, alone.
pub open spec fn vfs_dir_created<D: BlockDevice>(
    before: Seq<Mount<D>>,
    after: Seq<Mount<D>>,
    p: Seq<u8>,
    r: FsResult,
) -> bool {
    &&& unserved(before, p) ==> r == Err::<(), FsError>(FsError::FileNotFound) && after == before
    &&& forall|i: int|
        serves(before, p, i) ==> only_mount_changed(before, after, i) && fs_dir_created(
            before[i].fs,
            after[i].fs,
            rest_of(point_of(before[i]), p),
            r,
        )
}

impl<D: BlockDevice> VirtualFileSystem<D> {
    pub open spec fn wf(&self) -> bool {
        forall|i: int| 0 <= i < self.mounts@.len() ==> (#[trigger] self.mounts@[i]).fs.wf()
    }

    /// No file system mounted yet.
    pub fn new() -> (r: Self)
        ensures
            r.wf(),
            r.mounts@.len() == 0,
    {
        VirtualFileSystem { mounts: Vec::new() }
    }

    /// Mounts `fs` at `path`, after the mounts made before.
    pub fn mount(&mut self, fs: MountedFs<D>, path: &str)
        requires
            old(self).wf(),
            fs.wf(),
        ensures
            final(self).wf(),
            final(self).mounts@.len() == old(self).mounts@.len() + 1,
            forall|i: int| 0 <= i < old(self).mounts@.len() ==> final(self).mounts@[i] == old(self).mounts@[i],
            final(self).mounts@.last().fs == fs,
            final(self).mounts@.last().mount_point@ == path@,
    {
        self.mounts.push(Mount { mount_point: String::from_str(path), fs });
    }

    /// The mount that serves `path`, if any.
    pub fn find_mount(&self, path: &str) -> (r: Option<usize>)
        ensures
            match r {
                Some(i) => serves(self.mounts@, path.spec_bytes(), i as int),
                None => unserved(self.mounts@, path.spec_bytes()),
            },
    {
        let ghost ms = self.mounts@;
        let ghost pb = path.spec_bytes();
        let mut best: Option<usize> = None;
        let mut best_len: usize = 0;
        let mut i: usize = 0;
        while i < self.mounts.len()
            invariant
                ms == self.mounts@,
                pb == path.spec_bytes(),
                i <= ms.len(),
                best is None ==> best_len == 0 && forall|j: int|
                    0 <= j < i ==> !(mounted_at(point_of(#[trigger] ms[j]), pb) && point_of(ms[j]).len() > 0),
                best matches Some(b) ==> {
                    &&& b < i
                    &&& mounted_at(point_of(ms[b as int]), pb)
                    &&& point_of(ms[b as int]).len() == best_len
                    &&& best_len > 0
                    &&& forall|j: int|
                        0 <= j < i && mounted_at(point_of(#[trigger] ms[j]), pb) ==> point_of(ms[j]).len()
                            <= best_len
                    &&& forall|j: int|
                        0 <= j < b && mounted_at(point_of(#[trigger] ms[j]), pb) ==> point_of(ms[j]).len()
                            < best_len
                },
            decreases ms.len() - i,
        {
            let mp = self.mounts[i].mount_point.as_str();
            let mp_len = mp.as_bytes().len();
            assert(mp.spec_bytes() == point_of(ms[i as int]));
            let matched = strip_prefix_str(path, mp);
            assert(matched is Some <==> mounted_at(point_of(ms[i as int]), pb));
            let ghost old_best = best;
            let ghost old_len = best_len;
            if let Some(_) = matched {
                if mp_len > best_len {
                    best = Some(i);
                    best_len = mp_len;
                }
            }
            proof {
                assert forall|j: int| 0 <= j < i + 1 && mounted_at(point_of(#[trigger] ms[j]), pb) implies point_of(
                    ms[j],
                ).len() <= best_len by {
                    if j < i {
                        if old_best is None {
                            assert(!(mounted_at(point_of(ms[j]), pb) && point_of(ms[j]).len() > 0));
                        } else {
                            assert(point_of(ms[j]).len() <= old_len);
                        }
                    } else {
                        assert(j == i);
                        assert(matched is Some);
                        assert(point_of(ms[j]).len() == mp_len);
                    }
                }
                if best is None {
                    assert forall|j: int| 0 <= j < i + 1 implies !(mounted_at(point_of(#[trigger] ms[j]), pb)
                        && point_of(ms[j]).len() > 0) by {
                        if j < i {
                        }
                    }
                }
            }
            i = i + 1;
        }
        best
    }

    /// The part of `path` that mount `i` is given.
    fn rest_for<'a>(&self, i: usize, path: &'a str) -> (r: &'a str)
        requires
            i < self.mounts@.len(),
            mounted_at(point_of(self.mounts@[i as int]), path.spec_bytes()),
        ensures
            r.spec_bytes() == rest_of(point_of(self.mounts@[i as int]), path.spec_bytes()),
    {
        let mp = self.mounts[i].mount_point.as_str();
        match strip_prefix_str(path, mp) {
            Some(rest) => rest,
            None => {
                assert(false);
                path
            },
        }
    }

    /// The entries of the directory at `path`. Listing `/` gives a directory
    /// for each mount point, then the entries of the file systems mounted
    /// at `/`.
    pub fn read_dir(&self, path: &str) -> (r: FsResult<Vec<Metadata>>)
        requires
            self.wf(),
        ensures
            is_root_path(path.spec_bytes()) ==> listing_matches(
                r,
                match root_mount_entries(self.mounts@) {
                    Err(e) => Err(e),
                    Ok(extra) => Ok(mount_entries(self.mounts@) + extra),
                },
            ),
            !is_root_path(path.spec_bytes()) && unserved(self.mounts@, path.spec_bytes()) ==> (r matches Err(e)
                && e == FsError::FileNotFound),
            !is_root_path(path.spec_bytes()) ==> forall|i: int|
                serves(self.mounts@, path.spec_bytes(), i) ==> listing_matches(
                    r,
                    fs_listing(self.mounts@[i].fs, rest_of(point_of(self.mounts@[i]), path.spec_bytes())),
                ),
    {
        let ghost ms = self.mounts@;
        if root_path(path) {
            return self.list_root();
        }
        match self.find_mount(path) {
            None => Err(FsError::FileNotFound),
            Some(i) => {
                let rest = self.rest_for(i, path);
                proof {
                    assert forall|j: int| serves(ms, path.spec_bytes(), j) implies j == i as int by {
                        if j < i {
                            assert(point_of(ms[j]).len() < point_of(ms[i as int]).len());
                        } else if j > i {
                            assert(point_of(ms[i as int]).len() < point_of(ms[j]).len());
                        }
                    }
                }
                self.mounts[i].fs.read_dir(rest)
            },
        }
    }

    /// The listing of `/`.
    fn list_root(&self) -> (r: FsResult<Vec<Metadata>>)
        requires
            self.wf(),
        ensures
            listing_matches(
                r,
                match root_mount_entries(self.mounts@) {
                    Err(e) => Err(e),
                    Ok(extra) => Ok(mount_entries(self.mounts@) + extra),
                },
            ),
    {
        let ghost ms = self.mounts@;
        let n = self.mounts.len();
        let mut entries: Vec<Metadata> = Vec::new();
        let mut i: usize = 0;
        assert(views(entries@) =~= Seq::<MetaView>::empty());
        assert(ms.subrange(0, 0) =~= Seq::<Mount<D>>::empty());
        while i < n
            invariant
                ms == self.mounts@,
                n == ms.len(),
                i <= n,
                views(entries@) == mount_entries(ms.subrange(0, i as int)),
            decreases n - i,
        {
            assert(ms.subrange(0, i + 1).drop_last() =~= ms.subrange(0, i as int));
            let name = trim_slashes(self.mounts[i].mount_point.as_str());
            if name.as_bytes().len() > 0 {
                let ghost before = entries@;
                entries.push(Metadata::new(String::from_str(name), FileType::Directory, 0));
                assert(views(entries@) =~= views(before).push(entries@.last()@));
            }
            i = i + 1;
        }
        assert(ms.subrange(0, n as int) =~= ms);
        let ghost names = views(entries@);
        proof {
            reveal_strlit("/");
            is_ascii_chars_encode_utf8("/"@);
        }
        let mut k: usize = 0;
        assert(names + Seq::<MetaView>::empty() =~= names);
        while k < n
            invariant
                ms == self.mounts@,
                n == ms.len(),
                k <= n,
                forall|j: int| 0 <= j < ms.len() ==> (#[trigger] ms[j]).fs.wf(),
                "/".spec_bytes() == seq![PATH_SEPARATOR],
                root_mount_entries(ms.subrange(0, k as int)) matches Ok(extra) && views(entries@) == names
                    + extra,
            decreases n - k,
        {
            let ghost pre = ms.subrange(0, k + 1);
            assert(pre.drop_last() =~= ms.subrange(0, k as int));
            assert(pre.last() == ms[k as int]);
            let mp = self.mounts[k].mount_point.as_str().as_bytes();
            if mp.len() == 1 && mp[0] == PATH_SEPARATOR {
                assert(mp@ =~= seq![PATH_SEPARATOR]);
                match self.mounts[k].fs.read_dir("/") {
                    Err(e) => {
                        proof {
                            self.lemma_root_entries_err(k as int + 1);
                        }
                        return Err(e);
                    },
                    Ok(mut more) => {
                        let ghost before = entries@;
                        let ghost m = more@;
                        entries.append(&mut more);
                        assert(views(entries@) =~= views(before) + views(m));
                    },
                }
            } else {
                assert(mp@ != seq![PATH_SEPARATOR]);
            }
            k = k + 1;
        }
        assert(ms.subrange(0, n as int) =~= ms);
        Ok(entries)
    }

    /// Once listing the root mounts fails on a prefix, it fails the same way
    /// on all of them.
    proof fn lemma_root_entries_err(&self, k: int)
        requires
            0 <= k <= self.mounts@.len(),
            root_mount_entries(self.mounts@.subrange(0, k)) is Err,
        ensures
            root_mount_entries(self.mounts@) == root_mount_entries(self.mounts@.subrange(0, k)),
        decreases self.mounts@.len() - k,
    {
        let ms = self.mounts@;
        if k < ms.len() {
            assert(ms.subrange(0, k + 1).drop_last() =~= ms.subrange(0, k));
            self.lemma_root_entries_err(k + 1);
        } else {
            assert(ms.subrange(0, k) =~= ms);
        }
    }

    /// The metadata of `path`; the root directory for `/` and the empty path.
    pub fn metadata(&self, path: &str) -> (r: FsResult<Metadata>)
        requires
            self.wf(),
        ensures
            is_root_path(path.spec_bytes()) ==> (r matches Ok(m) && m@ == (MetaView {
                name: seq![PATH_SEPARATOR],
                entry_type: FileType::Directory,
                len: 0,
                links: 1,
            })),
            !is_root_path(path.spec_bytes()) && unserved(self.mounts@, path.spec_bytes()) ==> (r matches Err(e)
                && e == FsError::FileNotFound),
            !is_root_path(path.spec_bytes()) ==> forall|i: int|
                serves(self.mounts@, path.spec_bytes(), i) ==> fs_meta(
                    self.mounts@[i].fs,
                    rest_of(point_of(self.mounts@[i]), path.spec_bytes()),
                    r,
                ),
    {
        if root_path(path) {
            proof {
                reveal_strlit("/");
                is_ascii_chars_encode_utf8("/"@);
            }
            let root = Metadata::new(String::from_str("/"), FileType::Directory, 0);
            assert(root@.name =~= seq![PATH_SEPARATOR]);
            return Ok(root);
        }
        match self.find_mount(path) {
            None => Err(FsError::FileNotFound),
            Some(i) => {
                proof {
                    assert forall|j: int| serves(self.mounts@, path.spec_bytes(), j) implies j == i as int by {
                        lemma_serves_unique(self.mounts@, path.spec_bytes(), i as int, j);
                    }
                }
                let rest = self.rest_for(i, path);
                self.mounts[i].fs.metadata(rest)
            },
        }
    }

    /// Whether `path` names a file or directory; `/` always does.
    pub fn path_exists(&self, path: &str) -> (r: FsResult<bool>)
        requires
            self.wf(),
        ensures
            is_root_path(path.spec_bytes()) ==> r == Ok::<bool, FsError>(true),
            !is_root_path(path.spec_bytes()) && unserved(self.mounts@, path.spec_bytes()) ==> r == Err::<
                bool,
                FsError,
            >(FsError::FileNotFound),
            !is_root_path(path.spec_bytes()) ==> forall|i: int|
                serves(self.mounts@, path.spec_bytes(), i) ==> r == fs_exists(
                    self.mounts@[i].fs,
                    rest_of(point_of(self.mounts@[i]), path.spec_bytes()),
                ),
    {
        if root_path(path) {
            return Ok(true);
        }
        match self.find_mount(path) {
            None => Err(FsError::FileNotFound),
            Some(i) => {
                proof {
                    assert forall|j: int| serves(self.mounts@, path.spec_bytes(), j) implies j == i as int by {
                        lemma_serves_unique(self.mounts@, path.spec_bytes(), i as int, j);
                    }
                }
                let rest = self.rest_for(i, path);
                self.mounts[i].fs.path_exists(rest)
            },
        }
    }

    /// Opens the regular file at `path`.
    pub fn open_file(&self, path: &str) -> (r: FsResult<OpenFile>)
        requires
            self.wf(),
        ensures
            vfs_opened(self.mounts@, path.spec_bytes(), r),
    {
        match self.find_mount(path) {
            None => Err(FsError::FileNotFound),
            Some(i) => {
                proof {
                    assert forall|j: int| serves(self.mounts@, path.spec_bytes(), j) implies j == i as int by {
                        lemma_serves_unique(self.mounts@, path.spec_bytes(), i as int, j);
                    }
                }
                let rest = self.rest_for(i, path);
                self.mounts[i].fs.open_file(rest)
            },
        }
    }

    /// Creates an empty regular file at `path` and opens it.
    pub fn create_file(&mut self, path: &str) -> (r: FsResult<FileHandle>)
        requires
            old(self).wf(),
            file_fits_at(old(self).mounts@, path.spec_bytes()),
        ensures
            final(self).wf(),
            vfs_file_created(old(self).mounts@, final(self).mounts@, path.spec_bytes(), r),
    {
        let i = match self.find_mount(path) {
            None => return Err(FsError::FileNotFound),
            Some(i) => i,
        };
        proof {
            assert forall|j: int| serves(old(self).mounts@, path.spec_bytes(), j) implies j == i as int by {
                lemma_serves_unique(old(self).mounts@, path.spec_bytes(), i as int, j);
            }
        }
        let rest = self.rest_for(i, path);
        let mut m = self.mounts.remove(i);
        let r = m.fs.create_file(rest);
        self.mounts.insert(i, m);
        proof {
            self.lemma_wf_after_update(old(self).mounts@, i as int);
        }
        r
    }

    /// Creates an empty directory at `path`.
    pub fn create_dir(&mut self, path: &str) -> (r: FsResult)
        requires
            old(self).wf(),
            dir_fits_at(old(self).mounts@, path.spec_bytes()),
        ensures
            final(self).wf(),
            vfs_dir_created(old(self).mounts@, final(self).mounts@, path.spec_bytes(), r),
    {
        let i = match self.find_mount(path) {
            None => return Err(FsError::FileNotFound),
            Some(i) => i,
        };
        proof {
            assert forall|j: int| serves(old(self).mounts@, path.spec_bytes(), j) implies j == i as int by {
                lemma_serves_unique(old(self).mounts@, path.spec_bytes(), i as int, j);
            }
        }
        let rest = self.rest_for(i, path);
        let mut m = self.mounts.remove(i);
        let r = m.fs.create_dir(rest);
        self.mounts.insert(i, m);
        proof {
            self.lemma_wf_after_update(old(self).mounts@, i as int);
        }
        r
    }

    /// Enters the regular file at `src` under the path `dst` as well, in the
    /// file system that serves `src`; `dst` loses that file system's mount
    /// point where it starts with it.
    pub fn link(&mut self, src: &str, dst: &str) -> (r: FsResult)
        requires
            old(self).wf(),
            forall|i: int|
                serves(old(self).mounts@, src.spec_bytes(), i) ==> fs_link_fits(
                    old(self).mounts@[i].fs,
                    rest_of(point_of(old(self).mounts@[i]), src.spec_bytes()),
                    if mounted_at(point_of(old(self).mounts@[i]), dst.spec_bytes()) {
                        rest_of(point_of(old(self).mounts@[i]), dst.spec_bytes())
                    } else {
                        dst.spec_bytes()
                    },
                ),
        ensures
            final(self).wf(),
            unserved(old(self).mounts@, src.spec_bytes()) ==> r == Err::<(), FsError>(FsError::FileNotFound)
                && final(self).mounts@ == old(self).mounts@,
            forall|i: int|
                serves(old(self).mounts@, src.spec_bytes(), i) ==> only_mount_changed(
                    old(self).mounts@,
                    final(self).mounts@,
                    i,
                ) && fs_linked(
                    old(self).mounts@[i].fs,
                    final(self).mounts@[i].fs,
                    rest_of(point_of(old(self).mounts@[i]), src.spec_bytes()),
                    if mounted_at(point_of(old(self).mounts@[i]), dst.spec_bytes()) {
                        rest_of(point_of(old(self).mounts@[i]), dst.spec_bytes())
                    } else {
                        dst.spec_bytes()
                    },
                    r,
                ),
    {
        let i = match self.find_mount(src) {
            None => return Err(FsError::FileNotFound),
            Some(i) => i,
        };
        proof {
            assert forall|j: int| serves(old(self).mounts@, src.spec_bytes(), j) implies j == i as int by {
                lemma_serves_unique(old(self).mounts@, src.spec_bytes(), i as int, j);
            }
        }
        let src_rest = self.rest_for(i, src);
        let dst_rest = match strip_prefix_str(dst, self.mounts[i].mount_point.as_str()) {
            Some(d) => d,
            None => dst,
        };
        let mut m = self.mounts.remove(i);
        let r = m.fs.link(src_rest, dst_rest);
        self.mounts.insert(i, m);
        proof {
            self.lemma_wf_after_update(old(self).mounts@, i as int);
        }
        r
    }

    /// Opens the file at `path` for appending. Neither TmpFS nor FAT16 does
    /// this: a path that a mount serves is answered `NotSupported`, any other
    /// `FileNotFound`.
    pub fn append_file(&self, path: &str) -> (r: FsResult<OpenFile>)
        ensures
            r == if unserved(self.mounts@, path.spec_bytes()) {
                Err::<OpenFile, FsError>(FsError::FileNotFound)
            } else {
                Err::<OpenFile, FsError>(FsError::NotSupported)
            },
    {
        match self.find_mount(path) {
            None => Err(FsError::FileNotFound),
            Some(_) => Err(FsError::NotSupported),
        }
    }

    /// Removes the file at `path`. Neither TmpFS nor FAT16 does
    /// this: a path that a mount serves is answered `NotSupported`, any other
    /// `FileNotFound`.
    pub fn remove_file(&self, path: &str) -> (r: FsResult<OpenFile>)
        ensures
            r == if unserved(self.mounts@, path.spec_bytes()) {
                Err::<OpenFile, FsError>(FsError::FileNotFound)
            } else {
                Err::<OpenFile, FsError>(FsError::NotSupported)
            },
    {
        match self.find_mount(path) {
            None => Err(FsError::FileNotFound),
            Some(_) => Err(FsError::NotSupported),
        }
    }

    /// Removes the directory at `path`. Neither TmpFS nor FAT16 does
    /// this: a path that a mount serves is answered `NotSupported`, any other
    /// `FileNotFound`.
    pub fn remove_dir(&self, path: &str) -> (r: FsResult<OpenFile>)
        ensures
            r == if unserved(self.mounts@, path.spec_bytes()) {
                Err::<OpenFile, FsError>(FsError::FileNotFound)
            } else {
                Err::<OpenFile, FsError>(FsError::NotSupported)
            },
    {
        match self.find_mount(path) {
            None => Err(FsError::FileNotFound),
            Some(_) => Err(FsError::NotSupported),
        }
    }

    /// Copies the file at `src` to `dst`. Neither TmpFS nor FAT16 does
    /// this: a path that a mount serves is answered `NotSupported`, any other
    /// `FileNotFound`.
    pub fn copy_file(&self, src: &str, _dst: &str) -> (r: FsResult)
        ensures
            r == if unserved(self.mounts@, src.spec_bytes()) {
                Err::<(), FsError>(FsError::FileNotFound)
            } else {
                Err::<(), FsError>(FsError::NotSupported)
            },
    {
        match self.find_mount(src) {
            None => Err(FsError::FileNotFound),
            Some(_) => Err(FsError::NotSupported),
        }
    }

    /// Moves the file at `src` to `dst`. Neither TmpFS nor FAT16 does
    /// this: a path that a mount serves is answered `NotSupported`, any other
    /// `FileNotFound`.
    pub fn move_file(&self, src: &str, _dst: &str) -> (r: FsResult)
        ensures
            r == if unserved(self.mounts@, src.spec_bytes()) {
                Err::<(), FsError>(FsError::FileNotFound)
            } else {
                Err::<(), FsError>(FsError::NotSupported)
            },
    {
        match self.find_mount(src) {
            None => Err(FsError::FileNotFound),
            Some(_) => Err(FsError::NotSupported),
        }
    }

    /// Moves the directory at `src` to `dst`. Neither TmpFS nor FAT16 does
    /// this: a path that a mount serves is answered `NotSupported`, any other
    /// `FileNotFound`.
    pub fn move_dir(&self, src: &str, _dst: &str) -> (r: FsResult)
        ensures
            r == if unserved(self.mounts@, src.spec_bytes()) {
                Err::<(), FsError>(FsError::FileNotFound)
            } else {
                Err::<(), FsError>(FsError::NotSupported)
            },
    {
        match self.find_mount(src) {
            None => Err(FsError::FileNotFound),
            Some(_) => Err(FsError::NotSupported),
        }
    }

    /// Putting a mount back after changing its file system keeps the others.
    proof fn lemma_wf_after_update(&self, before: Seq<Mount<D>>, i: int)
        requires
            0 <= i < before.len(),
            forall|j: int| 0 <= j < before.len() ==> (#[trigger] before[j]).fs.wf(),
            self.mounts@.len() == before.len(),
            forall|j: int| 0 <= j < before.len() && j != i ==> self.mounts@[j] == before[j],
            self.mounts@[i].fs.wf(),
        ensures
            self.wf(),
    {
        assert forall|j: int| 0 <= j < self.mounts@.len() implies (#[trigger] self.mounts@[j]).fs.wf() by {
            if j != i {
                assert(self.mounts@[j] == before[j]);
            }
        }
    }

    /// The whole content of the regular file at `path`, or `None` where it
    /// cannot be opened or read.
    pub fn read_file(&self, path: &str) -> (r: Option<Vec<u8>>)
        requires
            self.wf(),
        ensures
            unserved(self.mounts@, path.spec_bytes()) ==> r is None,
            forall|i: int|
                serves(self.mounts@, path.spec_bytes(), i) ==> fs_read_back(
                    self.mounts@[i].fs,
                    rest_of(point_of(self.mounts@[i]), path.spec_bytes()),
                    r,
                ),
    {
        match self.find_mount(path) {
            None => None,
            Some(i) => {
                proof {
                    assert forall|j: int| serves(self.mounts@, path.spec_bytes(), j) implies j == i as int by {
                        lemma_serves_unique(self.mounts@, path.spec_bytes(), i as int, j);
                    }
                }
                let rest = self.rest_for(i, path);
                self.mounts[i].fs.read_file(rest)
            },
        }
    }
}

} // verus!
