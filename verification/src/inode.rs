//! Process-local allocation of stable integer handles for virtual paths.
//! Inode 1 is reserved for the mount root; every other virtual path gets
//! the next free integer, starting at 2, on first sight. Entries are never
//! removed or renumbered, so a path seen twice always yields the same
//! inode, and the map is bidirectional by construction.

use vstd::prelude::*;
use vstd::utf8::encode_utf8;
use vstd::string::StringSliceAdditionalSpecFns;
use crate::ascii::bytes_eq;

verus! {

/// The inode of the mount root.
pub const ROOT_INODE: u64 = 1;

/// The table: the path stored at index `i` owns inode `i + 2`.
pub struct InodeTable {
    paths: Vec<String>,
}

impl InodeTable {
    /// Well-formed: paths are distinct and the table is small enough for
    /// the next inode to exist.
    pub closed spec fn wf(&self) -> bool {
        &&& forall|i: int, j: int|
            0 <= i < j < self.paths@.len() ==> encode_utf8(#[trigger] self.paths@[i]@)
                != encode_utf8(#[trigger] self.paths@[j]@)
        &&& self.paths@.len() < 0x7fff_ffff_ffff_ffff
    }

    /// The number of allocated inodes.
    pub closed spec fn spec_len(&self) -> int {
        self.paths@.len() as int
    }

    /// The inode a path holds, if it was ever allocated.
    pub closed spec fn spec_inode_of(&self, path: Seq<u8>) -> Option<u64> {
        if exists|i: int|
            0 <= i < self.paths@.len() && encode_utf8(#[trigger] self.paths@[i]@) == path {
            let i = choose|i: int|
                0 <= i < self.paths@.len() && encode_utf8(#[trigger] self.paths@[i]@) == path;
            Some((i + 2) as u64)
        } else {
            None
        }
    }

    /// The path an inode names, if allocated.
    pub closed spec fn spec_path_of(&self, inode: u64) -> Option<Seq<u8>> {
        if 2 <= inode && inode < self.paths@.len() + 2 {
            Some(encode_utf8(self.paths@[inode - 2]@))
        } else {
            None
        }
    }

    /// An empty table; no inode but the root's is taken.
    pub fn new() -> (r: InodeTable)
        ensures
            r.wf(),
            r.spec_len() == 0,
            forall|p: Seq<u8>| r.spec_inode_of(p) is None,
    {
        InodeTable { paths: Vec::new() }
    }

    /// The number of allocated inodes.
    pub fn len(&self) -> (r: usize)
        ensures
            r == self.spec_len(),
    {
        self.paths.len()
    }

    /// The inode for a virtual path: the one it already holds, or the
    /// next free integer, assigned now and held for the process's life.
    /// A path seen twice always yields the same inode, and no inode is
    /// ever reassigned.
    pub fn allocate(&mut self, path: &str) -> (r: u64)
        requires
            old(self).wf(),
            old(self).spec_len() < 0x7fff_ffff_ffff_fffe,
        ensures
            final(self).wf(),
            r >= 2,
            final(self).spec_inode_of(path.spec_bytes()) == Some(r),
            final(self).spec_path_of(r) == Some(path.spec_bytes()),
            match old(self).spec_inode_of(path.spec_bytes()) {
                Some(existing) => r == existing && final(self).spec_len() == old(self).spec_len(),
                None => r == old(self).spec_len() + 2 && final(self).spec_len() == old(self)
                    .spec_len() + 1,
            },
            forall|p: Seq<u8>|
                p != path.spec_bytes() ==> final(self).spec_inode_of(p) == old(self)
                    .spec_inode_of(p),
            forall|ino: u64|
                old(self).spec_path_of(ino) is Some ==> final(self).spec_path_of(ino) == old(self)
                    .spec_path_of(ino),
    {
        let n: usize = self.paths.len();
        let mut i: usize = 0;
        while i < n
            invariant
                self.wf(),
                n == self.paths@.len(),
                i <= n,
                forall|j: int|
                    0 <= j < i ==> encode_utf8(#[trigger] self.paths@[j]@) != path.spec_bytes(),
            decreases n - i,
        {
            if bytes_eq(self.paths[i].as_str().as_bytes(), path.as_bytes()) {
                proof {
                    let kb = path.spec_bytes();
                    assert(encode_utf8(self.paths@[i as int]@) == kb);
                    let w = choose|w: int|
                        0 <= w < self.paths@.len() && encode_utf8(#[trigger] self.paths@[w]@)
                            == kb;
                    assert(w == i as int);
                }
                return (i as u64) + 2;
            }
            i = i + 1;
        }
        let ghost pre = *self;
        self.paths.push(path.to_owned());
        proof {
            let kb = path.spec_bytes();
            assert(encode_utf8(self.paths@[self.paths@.len() - 1]@) == kb);
            assert forall|p1: int, p2: int|
                0 <= p1 < p2 < self.paths@.len() implies encode_utf8(#[trigger] self.paths@[p1]@)
                != encode_utf8(#[trigger] self.paths@[p2]@) by {
                if p2 == self.paths@.len() - 1 {
                    assert(self.paths@[p1]@ == pre.paths@[p1]@);
                    assert(encode_utf8(pre.paths@[p1]@) != kb);
                }
            }
            assert forall|p: Seq<u8>| p != kb implies final(self).spec_inode_of(p) == pre
                .spec_inode_of(p) by {
                if pre.spec_inode_of(p) is Some {
                    let w = choose|w: int|
                        0 <= w < pre.paths@.len() && encode_utf8(#[trigger] pre.paths@[w]@) == p;
                    assert(encode_utf8(self.paths@[w]@) == p);
                    let w2 = choose|w2: int|
                        0 <= w2 < self.paths@.len() && encode_utf8(#[trigger] self.paths@[w2]@)
                            == p;
                    assert(w2 == w);
                } else {
                    if final(self).spec_inode_of(p) is Some {
                        let w = choose|w: int|
                            0 <= w < self.paths@.len() && encode_utf8(
                                #[trigger] self.paths@[w]@,
                            ) == p;
                        assert(w < pre.paths@.len());
                        assert(encode_utf8(pre.paths@[w]@) == p);
                    }
                }
            }
            assert(final(self).spec_inode_of(kb) == Some(((n as int) + 2) as u64)) by {
                let w = choose|w: int|
                    0 <= w < self.paths@.len() && encode_utf8(#[trigger] self.paths@[w]@) == kb;
                assert(w == self.paths@.len() - 1);
            }
        }
        (n as u64) + 2
    }

    /// A copy of the path an inode names, or nothing for the root's
    /// inode or an inode never handed out.
    pub fn path_of(&self, inode: u64) -> (r: Option<String>)
        requires
            self.wf(),
        ensures
            match r {
                Some(p) => self.spec_path_of(inode) == Some(encode_utf8(p@)),
                None => self.spec_path_of(inode) is None,
            },
    {
        if inode < 2 {
            return None;
        }
        let idx = inode - 2;
        if idx < self.paths.len() as u64 {
            let p = self.paths[idx as usize].clone();
            proof {
                assert(p@ == self.paths@[idx as int]@);
            }
            Some(p)
        } else {
            None
        }
    }
}

} // verus!
