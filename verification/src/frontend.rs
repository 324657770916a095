//! The protocol frontend's pure logic: attribute synthesis under the
//! response contract, the byte-range rule for reads, directory stream
//! assembly with the cookie/offset contract, and the choice of prefetch
//! targets after a read.

use vstd::prelude::*;
use crate::ascii::bytes_eq;
use vstd::string::StringSliceAdditionalSpecFns;

verus! {

/// Synthesized attributes of a virtual file or directory.
#[derive(Debug, Clone)]
pub struct FileAttr {
    pub ino: u64,
    pub size: u64,
    pub blocks: u64,
    pub is_dir: bool,
    pub perm: u16,
    pub nlink: u32,
    pub uid: u32,
    pub gid: u32,
    pub blksize: u32,
    pub atime_secs: i64,
    pub atime_nanos: u32,
    pub mtime_secs: i64,
    pub mtime_nanos: u32,
    pub ctime_secs: i64,
    pub ctime_nanos: u32,
}

/// 512-byte blocks covering `size` bytes.
pub open spec fn spec_blocks_of(size: u64) -> int {
    (size + 511) / 512
}

/// Attributes under the response contract: regular files are mode 0644
/// with one link, directories mode 0755; the caller's uid and gid; a
/// 4096-byte preferred block size; all three timestamps set to the given
/// time (the caller copies the host source's times over afterwards).
pub fn create_file_attr(
    ino: u64,
    size: u64,
    is_dir: bool,
    uid: u32,
    gid: u32,
    now_secs: i64,
    now_nanos: u32,
) -> (r: FileAttr)
    ensures
        r.ino == ino,
        r.size == size,
        r.blocks == spec_blocks_of(size),
        r.is_dir == is_dir,
        r.perm == (if is_dir {
            0o755u16
        } else {
            0o644u16
        }),
        r.nlink == 1,
        r.uid == uid,
        r.gid == gid,
        r.blksize == 4096,
        r.atime_secs == now_secs && r.atime_nanos == now_nanos,
        r.mtime_secs == now_secs && r.mtime_nanos == now_nanos,
        r.ctime_secs == now_secs && r.ctime_nanos == now_nanos,
{
    let blocks = size / 512 + (if size % 512 != 0 {
        1
    } else {
        0
    });
    FileAttr {
        ino,
        size,
        blocks,
        is_dir,
        perm: if is_dir {
            0o755
        } else {
            0o644
        },
        nlink: 1,
        uid,
        gid,
        blksize: 4096,
        atime_secs: now_secs,
        atime_nanos: now_nanos,
        mtime_secs: now_secs,
        mtime_nanos: now_nanos,
        ctime_secs: now_secs,
        ctime_nanos: now_nanos,
    }
}

/// The size reported for a virtual file: the exact artifact length when
/// the cache holds it, else the host source's current length — an
/// intentional estimate the kernel tolerates.
pub fn attr_size(cached_len: Option<u64>, original_size: u64) -> (r: u64)
    ensures
        r == match cached_len {
            Some(l) => l,
            None => original_size,
        },
{
    match cached_len {
        Some(l) => l,
        None => original_size,
    }
}

/// The half-open byte range a read returns from an artifact of `len`
/// bytes: `[min(offset, len), min(offset + size, len))`. An offset past
/// the end yields an empty range, not an error.
pub fn slice_range(len: usize, offset: u64, size: u32) -> (r: (usize, usize))
    ensures
        r.0 == if offset <= len {
            offset as int
        } else {
            len as int
        },
        r.1 == if offset + size <= len {
            offset + size
        } else {
            len as int
        },
        r.0 <= r.1 <= len,
{
    if offset >= len as u64 {
        return (len, len);
    }
    let start = offset as usize;
    let remaining = len - start;
    let want = size as usize;
    let end = if want <= remaining {
        start + want
    } else {
        len
    };
    (start, end)
}

/// The bytes a read returns: the artifact restricted to the contract's
/// byte range.
pub fn slice_bytes(data: &[u8], offset: u64, size: u32) -> (r: Vec<u8>)
    ensures
        r@ == data@.subrange(
            if offset <= data@.len() {
                offset as int
            } else {
                data@.len() as int
            },
            if offset + size <= data@.len() {
                offset + size
            } else {
                data@.len() as int
            },
        ),
{
    let (start, end) = slice_range(data.len(), offset, size);
    let mut r: Vec<u8> = Vec::new();
    r.extend_from_slice(&data[start..end]);
    proof {
        assert(r@ =~= data@.subrange(start as int, end as int));
    }
    r
}

/// A directory entry handed to the assembler: an already-numbered child.
pub struct DirEntryIn {
    pub name: String,
    pub inode: u64,
    pub is_dir: bool,
}

/// A directory entry as emitted to the kernel, with its cookie offset.
pub struct DirEntryOut {
    pub name: String,
    pub inode: u64,
    pub is_dir: bool,
    pub offset: u64,
}

/// The directory stream under the cookie/offset contract: `.` first,
/// then `..` (the parent of the root is the root), then the listing, with
/// the first `offset` entries skipped and each entry carrying the cookie
/// of its successor.
pub fn assemble_dir_entries(
    dir_inode: u64,
    parent_inode: u64,
    entries: &Vec<DirEntryIn>,
    offset: u64,
) -> (r: Vec<DirEntryOut>)
    requires
        entries@.len() < 0x7fff_ffff_ffff_ffff,
    ensures
        r@.len() == (if offset <= entries@.len() + 2 {
            entries@.len() + 2 - offset
        } else {
            0int
        }),
        forall|k: int|
            0 <= k < r@.len() ==> {
                let pos = k + offset;
                &&& (#[trigger] r@[k]).offset == pos + 1
                &&& if pos == 0 {
                    r@[k].inode == dir_inode && r@[k].name@ == "."@ && r@[k].is_dir
                } else if pos == 1 {
                    r@[k].inode == parent_inode && r@[k].name@ == ".."@ && r@[k].is_dir
                } else {
                    r@[k].inode == entries@[pos - 2].inode && r@[k].name@ == entries@[pos
                        - 2].name@ && r@[k].is_dir == entries@[pos - 2].is_dir
                }
            },
{
    let n: usize = entries.len();
    let total: u64 = (n as u64) + 2;
    let mut r: Vec<DirEntryOut> = Vec::new();
    let mut pos: u64 = if offset > total {
        total
    } else {
        offset
    };
    let ghost start: u64 = pos;
    while pos < total
        invariant
            n == entries@.len(),
            total == n + 2,
            n < 0x7fff_ffff_ffff_ffff,
            start == (if offset <= total {
                offset
            } else {
                total
            }),
            start <= pos <= total,
            offset <= total ==> start == offset,
            r@.len() == pos - start,
            forall|k: int|
                0 <= k < r@.len() ==> {
                    let p = k + offset;
                    &&& (#[trigger] r@[k]).offset == p + 1
                    &&& if p == 0 {
                        r@[k].inode == dir_inode && r@[k].name@ == "."@ && r@[k].is_dir
                    } else if p == 1 {
                        r@[k].inode == parent_inode && r@[k].name@ == ".."@ && r@[k].is_dir
                    } else {
                        r@[k].inode == entries@[p - 2].inode && r@[k].name@ == entries@[p
                            - 2].name@ && r@[k].is_dir == entries@[p - 2].is_dir
                    }
                },
        decreases total - pos,
    {
        if pos == 0 {
            r.push(
                DirEntryOut { name: ".".to_owned(), inode: dir_inode, is_dir: true, offset: 1 },
            );
        } else if pos == 1 {
            r.push(
                DirEntryOut { name: "..".to_owned(), inode: parent_inode, is_dir: true, offset: 2 },
            );
        } else {
            let e = &entries[(pos - 2) as usize];
            r.push(
                DirEntryOut {
                    name: e.name.clone(),
                    inode: e.inode,
                    is_dir: e.is_dir,
                    offset: pos + 1,
                },
            );
        }
        pos = pos + 1;
    }
    r
}

/// The prefetch targets after serving one file: up to `count` of the
/// names that follow the first occurrence of `current` in the list, in
/// list order. With the list sorted, these are the alphabetical
/// successors. Nothing is prefetched when `current` is not listed.
pub fn prefetch_targets(names: &Vec<String>, current: &str, count: usize) -> (r: Vec<String>)
    ensures
        match first_index_of(names@, current.spec_bytes()) {
            Some(p) => {
                &&& r@.len() == (if p + 1 + count <= names@.len() {
                    count as int
                } else {
                    names@.len() - p - 1
                })
                &&& forall|k: int|
                    0 <= k < r@.len() ==> (#[trigger] r@[k])@ == names@[p + 1 + k]@
            },
            None => r@.len() == 0,
        },
{
    let n: usize = names.len();
    let mut i: usize = 0;
    let mut found: Option<usize> = None;
    while i < n
        invariant
            n == names@.len(),
            i <= n,
            match found {
                Some(p) => first_index_of(names@, current.spec_bytes()) == Some(p as int) && p < n,
                None => forall|j: int|
                    0 <= j < i ==> vstd::utf8::encode_utf8((#[trigger] names@[j])@)
                        != current.spec_bytes(),
            },
        decreases n - i,
    {
        if matches!(found, None) {
            if bytes_eq(names[i].as_str().as_bytes(), current.as_bytes()) {
                proof {
                    let nb = current.spec_bytes();
                    assert(vstd::utf8::encode_utf8(names@[i as int]@) == nb);
                    let w = choose|w: int|
                        0 <= w < names@.len() && vstd::utf8::encode_utf8(
                            (#[trigger] names@[w])@,
                        ) == nb && forall|j: int|
                            0 <= j < w ==> vstd::utf8::encode_utf8(names@[j]@) != nb;
                    assert(!(w < i as int) && !((i as int) < w));
                }
                found = Some(i);
            }
        }
        i = i + 1;
    }
    let p: usize = match found {
        Some(p) => p,
        None => {
            proof {
                let nb = current.spec_bytes();
                if exists|w: int|
                    0 <= w < names@.len() && vstd::utf8::encode_utf8((#[trigger] names@[w])@)
                        == nb {
                    let w = choose|w: int|
                        0 <= w < names@.len() && vstd::utf8::encode_utf8(
                            (#[trigger] names@[w])@,
                        ) == nb;
                }
            }
            return Vec::new();
        },
    };
    let mut r: Vec<String> = Vec::new();
    let mut j: usize = p + 1;
    while j < n && r.len() < count
        invariant
            n == names@.len(),
            p < n,
            p + 1 <= j <= n,
            r@.len() == j - p - 1 || r@.len() == count,
            r@.len() == j - p - 1,
            r@.len() <= count,
            forall|k: int| 0 <= k < r@.len() ==> (#[trigger] r@[k])@ == names@[p + 1 + k]@,
        decreases n - j,
    {
        r.push(names[j].clone());
        j = j + 1;
    }
    r
}

/// The position of the first name equal to `target`, by UTF-8 bytes.
pub open spec fn first_index_of(names: Seq<String>, target: Seq<u8>) -> Option<int> {
    if exists|i: int|
        0 <= i < names.len() && vstd::utf8::encode_utf8((#[trigger] names[i])@) == target {
        Some(
            choose|i: int|
                0 <= i < names.len() && vstd::utf8::encode_utf8((#[trigger] names[i])@) == target
                    && forall|j: int|
                    0 <= j < i ==> vstd::utf8::encode_utf8(names[j]@) != target,
        )
    } else {
        None
    }
}

} // verus!
