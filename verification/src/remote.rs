//! A model of the remote process's address space, as far as the traversal
//! reads it: a finite set of overflow-region records, each mapped at a
//! nonzero remote address. Reading any unmapped address fails, which is also
//! how a read fault (unmapped page, access denied, dead process) is injected
//! into a fixture.

use vstd::prelude::*;

use crate::utl_ts_hash::HashUnallocatedData;
use crate::utl_ts_hash::UNALLOCATED_LIST_LEN;

verus! {

/// A single read of remote memory failed: the address was unmapped, access
/// was denied, or the target process is gone.
#[derive(Clone, Copy, Debug, PartialEq, Eq, Structural)]
pub struct RemoteReadError {
    /// The remote address whose read failed.
    pub address: u64,
}

/// One mapped overflow region: the record readable at `address`.
struct RegionSlot<T, K> {
    address: u64,
    record: HashUnallocatedData<T, K>,
}

/// The readable part of the remote address space. Regions are added leaf
/// first: a region's link may only target an address that is already mapped,
/// or one that is never mapped (a read of it then fails). This keeps every
/// link chain in the image finite and acyclic, which is the well-formedness
/// the remote table itself guarantees of its chains.
pub struct RemoteImage<T, K> {
    regions: Vec<RegionSlot<T, K>>,
}

impl<T, K> RemoteImage<T, K> {
    /// Whether a region record is mapped at `addr`.
    pub closed spec fn maps(&self, addr: u64) -> bool {
        exists|i: int| 0 <= i < self.regions@.len() && self.regions@[i].address == addr
    }

    spec fn index_of(&self, addr: u64) -> int {
        choose|i: int| 0 <= i < self.regions@.len() && self.regions@[i].address == addr
    }

    /// The region record mapped at `addr` (meaningful only when `maps(addr)`).
    pub closed spec fn region_at(&self, addr: u64) -> HashUnallocatedData<T, K> {
        self.regions@[self.index_of(addr)].record
    }

    /// Whether some mapped region's link targets `addr`.
    pub closed spec fn links_to(&self, addr: u64) -> bool {
        exists|i: int| 0 <= i < self.regions@.len() && self.regions@[i].record.next == addr
    }

    /// A measure on addresses that every link strictly decreases: traversal
    /// of a well-formed image terminates.
    pub closed spec fn rank(&self, addr: u64) -> nat {
        if self.maps(addr) {
            (self.index_of(addr) + 1) as nat
        } else {
            0
        }
    }

    /// Well-formedness: addresses are nonzero and distinct, every mapped
    /// record holds a full slot list, and every link targets an earlier slot
    /// (or nothing), so link chains cannot cycle.
    pub closed spec fn wf(&self) -> bool {
        &&& forall|i: int, j: int|
            0 <= i < j < self.regions@.len() ==> self.regions@[i].address != self.regions@[
                j
            ].address
        &&& forall|i: int| 0 <= i < self.regions@.len() ==> self.regions@[i].address != 0
        &&& forall|i: int|
            0 <= i < self.regions@.len() ==> self.regions@[i].record.block_list@.len()
                == UNALLOCATED_LIST_LEN
        &&& forall|i: int, j: int|
            0 <= i < self.regions@.len() && 0 <= j < self.regions@.len() && self.regions@[
                j
            ].address == self.regions@[i].record.next ==> j < i
    }

    proof fn lemma_index_of(&self, addr: u64, i: int)
        requires
            self.wf(),
            0 <= i < self.regions@.len(),
            self.regions@[i].address == addr,
        ensures
            self.maps(addr),
            self.index_of(addr) == i,
    {
        assert(self.maps(addr));
        let j = self.index_of(addr);
        assert(0 <= j < self.regions@.len() && self.regions@[j].address == addr);
        if i < j {
            assert(self.regions@[i].address != self.regions@[j].address);
        } else if j < i {
            assert(self.regions@[j].address != self.regions@[i].address);
        }
    }

    /// In a well-formed image, a mapped region holds a full slot list, its
    /// rank is positive, and its link's rank is strictly smaller.
    pub proof fn lemma_region_properties(&self, addr: u64)
        requires
            self.wf(),
            self.maps(addr),
        ensures
            addr != 0,
            self.region_at(addr).block_list@.len() == UNALLOCATED_LIST_LEN,
            self.rank(addr) > 0,
            self.rank(self.region_at(addr).next) < self.rank(addr),
    {
        let i = self.index_of(addr);
        assert(0 <= i < self.regions@.len() && self.regions@[i].address == addr);
        let next = self.regions@[i].record.next;
        if self.maps(next) {
            let j = self.index_of(next);
            assert(0 <= j < self.regions@.len() && self.regions@[j].address == next);
            assert(j < i);
        }
    }

    /// An empty address space: every read fails.
    pub fn new() -> (r: Self)
        ensures
            r.wf(),
            forall|a: u64| !r.maps(a),
            forall|a: u64| !r.links_to(a),
    {
        RemoteImage { regions: Vec::new() }
    }

    /// Map `record` at `address`. The mapping is refused (and the image left
    /// unchanged) when the address is null or already mapped, when the record
    /// does not hold a full slot list, or when mapping it could make a link
    /// chain cyclic: a link may only target an already-mapped address or one
    /// that stays unmapped.
    pub fn add_region(&mut self, address: u64, record: HashUnallocatedData<T, K>) -> (added: bool)
        requires
            old(self).wf(),
        ensures
            final(self).wf(),
            added <==> (address != 0 && !old(self).maps(address) && !old(self).links_to(address)
                && record.next != address && record.block_list@.len() == UNALLOCATED_LIST_LEN),
            added ==> final(self).maps(address) && final(self).region_at(address) == record,
            added ==> forall|a: u64|
                a != address ==> (final(self).maps(a) <==> old(self).maps(a)) && (old(self).maps(a)
                    ==> final(self).region_at(a) == old(self).region_at(a)),
            added ==> forall|a: u64|
                final(self).links_to(a) <==> old(self).links_to(a) || a == record.next,
            !added ==> *final(self) == *old(self),
    {
        if address == 0 || record.next == address || record.block_list.len()
            != UNALLOCATED_LIST_LEN {
            return false;
        }
        let n = self.regions.len();
        let mut k: usize = 0;
        while k < n
            invariant
                *self == *old(self),
                self.wf(),
                n == self.regions@.len(),
                k <= n,
                forall|i: int|
                    0 <= i < k ==> self.regions@[i].address != address && self.regions@[
                        i
                    ].record.next != address,
            decreases n - k,
        {
            if self.regions[k].address == address || self.regions[k].record.next == address {
                return false;
            }
            k += 1;
        }
        proof {
            assert(!self.maps(address));
            assert(!self.links_to(address));
        }
        let ghost pre = *self;
        self.regions.push(RegionSlot { address, record });
        proof {
            let m = self.regions@.len() - 1;
            assert(self.regions@ =~= pre.regions@.push(
                RegionSlot { address, record },
            ));
            assert forall|i: int, j: int|
                0 <= i < self.regions@.len() && 0 <= j < self.regions@.len() && self.regions@[
                    j
                ].address == self.regions@[i].record.next implies j < i by {
                if i < m && j < m {
                    assert(pre.regions@[j].address == pre.regions@[i].record.next);
                } else if i == m && j < m {
                } else if j == m {
                    if i < m {
                        assert(pre.regions@[i].record.next == address);
                        assert(pre.links_to(address));
                    }
                }
            }
            self.lemma_index_of(address, m);
            assert forall|a: u64| a != address implies (self.maps(a) <==> pre.maps(a)) && (
            pre.maps(a) ==> self.region_at(a) == pre.region_at(a)) by {
                if pre.maps(a) {
                    let i = pre.index_of(a);
                    assert(self.regions@[i].address == a);
                    self.lemma_index_of(a, i);
                    pre.lemma_index_of(a, i);
                } else if self.maps(a) {
                    let i = self.index_of(a);
                    assert(0 <= i < self.regions@.len() && self.regions@[i].address == a);
                    assert(i < m ==> pre.regions@[i].address == a);
                }
            }
            assert forall|a: u64| self.links_to(a) <==> pre.links_to(a) || a == record.next by {
                if pre.links_to(a) {
                    let i = choose|i: int|
                        0 <= i < pre.regions@.len() && pre.regions@[i].record.next == a;
                    assert(self.regions@[i].record.next == a);
                }
                if a == record.next {
                    assert(self.regions@[m].record.next == a);
                }
                if self.links_to(a) {
                    let i = choose|i: int|
                        0 <= i < self.regions@.len() && self.regions@[i].record.next == a;
                    assert(i < m ==> pre.regions@[i].record.next == a);
                }
            }
        }
        true
    }

    /// Read the overflow-region record at `address`: the one fallible,
    /// address-space-crossing access the traversal makes. Succeeds exactly on
    /// mapped addresses and returns the freshly observed record.
    pub fn read_unallocated(&self, address: u64) -> (r: Result<
        &HashUnallocatedData<T, K>,
        RemoteReadError,
    >)
        requires
            self.wf(),
        ensures
            self.maps(address) ==> (r matches Ok(rec) && *rec == self.region_at(address)),
            !self.maps(address) ==> (r matches Err(e) && e == (RemoteReadError { address })),
    {
        let n = self.regions.len();
        let mut k: usize = 0;
        while k < n
            invariant
                self.wf(),
                n == self.regions@.len(),
                k <= n,
                forall|i: int| 0 <= i < k ==> self.regions@[i].address != address,
            decreases n - k,
        {
            if self.regions[k].address == address {
                proof {
                    self.lemma_index_of(address, k as int);
                }
                return Ok(&self.regions[k].record);
            }
            k += 1;
        }
        Err(RemoteReadError { address })
    }
}

} // verus!
