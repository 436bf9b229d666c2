//! The inode map the kernel shim consults: a bijection between the
//! kernel's inode numbers, assigned from two upward, and entity ids,
//! with the root pinned to inode one.

use vstd::prelude::*;

use crate::errors::{OperationError, OperationErrorType, OperationResult};

verus! {

/// Maps kernel inode numbers to entity ids and back.
pub struct FuseHelper {
    pub next_inode: u64,
    pub pairs: Vec<(u64, String)>,
}

impl FuseHelper {
    /// Inodes are unique, ids are unique, and every inode sits below
    /// the next one to assign.
    pub open spec fn wf(self) -> bool {
        &&& self.next_inode >= 2
        &&& forall|i: int, j: int|
            0 <= i < j < self.pairs@.len() ==> (#[trigger] self.pairs@[i]).0 != (
            #[trigger] self.pairs@[j]).0
        &&& forall|i: int, j: int|
            0 <= i < j < self.pairs@.len() ==> (#[trigger] self.pairs@[i]).1@ != (
            #[trigger] self.pairs@[j]).1@
        &&& forall|i: int|
            0 <= i < self.pairs@.len() ==> 1 <= (#[trigger] self.pairs@[i]).0 < self.next_inode
    }

    /// Whether an id is mapped.
    pub open spec fn has_id(self, id: Seq<char>) -> bool {
        exists|i: int| 0 <= i < self.pairs@.len() && (#[trigger] self.pairs@[i]).1@ == id
    }

    /// Whether an inode is mapped.
    pub open spec fn has_inode(self, inode: u64) -> bool {
        exists|i: int| 0 <= i < self.pairs@.len() && (#[trigger] self.pairs@[i]).0 == inode
    }

    /// Starts with the root entity pinned to inode one.
    pub fn new() -> (r: FuseHelper)
        ensures
            r.wf(),
            r.has_id("root"@),
    {
        let mut pairs: Vec<(u64, String)> = Vec::new();
        pairs.push((1, String::from_str("root")));
        let r = FuseHelper { next_inode: 2, pairs };
        proof {
            assert(r.pairs@[0].1@ == "root"@);
        }
        r
    }

    /// The inode of an id, assigning the next number to an id never
    /// seen.
    pub fn get_inode_for_id(&mut self, id: &str) -> (r: u64)
        requires
            old(self).wf(),
            old(self).next_inode < u64::MAX,
        ensures
            final(self).wf(),
            final(self).has_id(id@),
            final(self).has_inode(r),
            exists|i: int|
                0 <= i < final(self).pairs@.len() && (#[trigger] final(self).pairs@[i]).0 == r
                    && final(self).pairs@[i].1@ == id@,
    {
        let mut i: usize = 0;
        while i < self.pairs.len()
            invariant
                self == old(self),
                i <= self.pairs@.len(),
                forall|j: int| 0 <= j < i ==> (#[trigger] self.pairs@[j]).1@ != id@,
            decreases self.pairs@.len() - i,
        {
            if crate::str_eq(self.pairs[i].1.as_str(), id) {
                return self.pairs[i].0;
            }
            i = i + 1;
        }
        let inode = self.next_inode;
        self.pairs.push((inode, String::from_str(id)));
        self.next_inode = self.next_inode + 1;
        proof {
            let n = self.pairs@.len() - 1;
            assert(self.pairs@[n].0 == inode && self.pairs@[n].1@ == id@);
            assert forall|p: int, q: int| 0 <= p < q < self.pairs@.len() implies (
            #[trigger] self.pairs@[p]).0 != (#[trigger] self.pairs@[q]).0 by {
                if q == n {
                    assert(self.pairs@[p] == old(self).pairs@[p]);
                }
            };
            assert forall|p: int, q: int| 0 <= p < q < self.pairs@.len() implies (
            #[trigger] self.pairs@[p]).1@ != (#[trigger] self.pairs@[q]).1@ by {
                if q == n {
                    assert(self.pairs@[p] == old(self).pairs@[p]);
                }
            };
        }
        inode
    }

    /// The id an inode names; an unknown inode is reported as a missing
    /// entry.
    pub fn get_id_by_inode(&self, inode: u64) -> (r: OperationResult<String>)
        requires
            self.wf(),
        ensures
            match r {
                Ok(id) => exists|i: int|
                    0 <= i < self.pairs@.len() && (#[trigger] self.pairs@[i]).0 == inode
                        && self.pairs@[i].1@ == id@,
                Err(e) => !self.has_inode(inode) && e.error_type
                    == OperationErrorType::FileDoesNotExist,
            },
    {
        let mut i: usize = 0;
        while i < self.pairs.len()
            invariant
                i <= self.pairs@.len(),
                forall|j: int| 0 <= j < i ==> (#[trigger] self.pairs@[j]).0 != inode,
            decreases self.pairs@.len() - i,
        {
            if self.pairs[i].0 == inode {
                return Ok(crate::clone_string(&self.pairs[i].1));
            }
            i = i + 1;
        }
        Err(OperationError::file_does_not_exist())
    }
}

} // verus!
