//! Layout of the remote process's thread-safe hash table and the traversal
//! that recovers its stored values.
//!
//! Every type here is a local reconstruction of a record that lives in
//! another process's address space. Links between records are opaque remote
//! addresses (`u64`, with `0` for null), never local references: following a
//! link is an explicit, fallible read through a [`RemoteImage`].

use core::marker::PhantomData;
use vstd::prelude::*;

use crate::remote::RemoteImage;
use crate::remote::RemoteReadError;

verus! {

/// Number of entry slots in one overflow (unallocated) region's list.
pub const UNALLOCATED_LIST_LEN: usize = 256;

/// Number of entry slots in the primary (allocated) chunk's list.
pub const ALLOCATED_LIST_LEN: usize = 128;

/// One stored record inside the table's primary (pre-sized) allocation.
///
/// The forward link exists for layout compatibility; primary-chunk traversal
/// is by array index, not by following `next`.
#[derive(Clone, Copy, Debug)]
pub struct HashFixedDataInternal<T, K> {
    pub ui_key: K,
    pub next: u64,
    pub data: T,
}

impl<T, K> HashFixedDataInternal<T, K> {
    /// Remote address of the next entry in the same fixed-capacity list
    /// (`0` for null).
    pub fn next(&self) -> (r: u64)
        ensures
            r == self.next,
    {
        self.next
    }
}

/// One stored record inside an overflow (unallocated) region.
///
/// Logically the same content as [`HashFixedDataInternal`], but the remote
/// table lays the fields out in a different order for this placement, so it
/// is a distinct shape.
#[derive(Debug)]
pub struct HashBucketDataInternal<T, K> {
    pub data: T,
    pub next: u64,
    pub ui_key: K,
}

impl<T, K> HashBucketDataInternal<T, K> {
    /// Remote address of the next entry (`0` for null).
    pub fn next(&self) -> (r: u64)
        ensures
            r == self.next,
    {
        self.next
    }
}

/// The table's primary allocation region: a fixed-size ordered list of
/// [`ALLOCATED_LIST_LEN`] entries, reconstructed by one whole-record read.
#[derive(Debug)]
pub struct HashAllocatedData<T, K> {
    pub list: Vec<HashFixedDataInternal<T, K>>,
}

impl<T, K> HashAllocatedData<T, K> {
    /// The region's full entry list.
    pub fn list(&self) -> (r: &Vec<HashFixedDataInternal<T, K>>)
        ensures
            *r == self.list,
    {
        &self.list
    }
}

/// One node in the singly linked chain of overflow (unallocated) regions,
/// reconstructed by one whole-record read.
#[derive(Debug)]
pub struct HashUnallocatedData<T, K> {
    /// Remote address of the next region in the chain (`0` for null).
    pub next: u64,
    pub unknown_1: K,
    /// Duplicate of the table-level key used for bucket identification.
    pub ui_key: K,
    pub unknown_2: K,
    /// The region's fixed-size entry list; a well-formed region holds exactly
    /// [`UNALLOCATED_LIST_LEN`] slots, of which only a prefix is initialized.
    pub block_list: Vec<HashBucketDataInternal<T, K>>,
}

impl<T, K> HashUnallocatedData<T, K> {
    /// Remote address of the next overflow region (`0` for null).
    pub fn next(&self) -> (r: u64)
        ensures
            r == self.next,
    {
        self.next
    }

    /// The bucket key this region belongs to.
    pub fn ui_key(&self) -> (r: K)
        where
            K: Copy,
        ensures
            r == self.ui_key,
    {
        self.ui_key
    }

    /// The region's full entry list.
    pub fn block_list(&self) -> (r: &Vec<HashBucketDataInternal<T, K>>)
        ensures
            *r == self.block_list,
    {
        &self.block_list
    }
}

/// The table's per-bucket descriptor: two independent remote addresses, one
/// for the primary chunk and one for the head of the overflow chain. Either
/// may be null (`0`).
#[derive(Debug)]
pub struct HashBucket<T, K> {
    pub allocated_data: u64,
    pub unallocated_data: u64,
    pub marker: PhantomData<(T, K)>,
}

impl<T, K> HashBucket<T, K> {
    /// A bucket descriptor from its two region addresses.
    pub fn new(allocated_data: u64, unallocated_data: u64) -> (r: Self)
        ensures
            r.allocated_data == allocated_data,
            r.unallocated_data == unallocated_data,
    {
        HashBucket { allocated_data, unallocated_data, marker: PhantomData }
    }
}

/// Fixed-layout header describing the table's allocation pool. Only two
/// fields matter to traversal: `blocks_per_blob` (per-chunk capacity) and
/// `block_allocated_size` (total live element count).
#[derive(Clone, Copy, Debug)]
pub struct UtlMemoryPool {
    pub block_size: i32,
    pub blocks_per_blob: i32,
    pub grow_mode: i32,
    pub blocks_allocated: i32,
    pub block_allocated_size: i32,
    pub peak_alloc: i32,
}

impl UtlMemoryPool {
    /// Returns the number of blocks per blob.
    #[inline]
    pub fn block_size(&self) -> (r: i32)
        ensures
            r == self.blocks_per_blob,
    {
        self.blocks_per_blob
    }

    /// Returns the number of blocks allocated.
    #[inline]
    pub fn count(&self) -> (r: i32)
        ensures
            r == self.block_allocated_size,
    {
        self.block_allocated_size
    }
}

/// A thread-safe hash table of the remote process: its pool metadata and its
/// bucket descriptor, the entry point for traversal.
#[derive(Debug)]
pub struct UtlTsHash<T, K = u64> {
    pub entry_memory: UtlMemoryPool,
    pub buckets: HashBucket<T, K>,
}

impl<T, K> UtlTsHash<T, K> where T: Copy {
    /// A table root from its pool header and bucket descriptor.
    pub fn new(entry_memory: UtlMemoryPool, buckets: HashBucket<T, K>) -> (r: Self)
        ensures
            r.entry_memory == entry_memory,
            r.buckets == buckets,
    {
        UtlTsHash { entry_memory, buckets }
    }

    /// Returns the number of blocks per blob.
    #[inline]
    pub fn block_size(&self) -> (r: i32)
        ensures
            r == self.entry_memory.blocks_per_blob,
    {
        self.entry_memory.block_size()
    }

    /// Returns the number of blocks allocated.
    #[inline]
    pub fn count(&self) -> (r: i32)
        ensures
            r == self.entry_memory.block_allocated_size,
    {
        self.entry_memory.count()
    }

    /// The table's reported element count, converted as the traversal uses
    /// it (a negative count wraps, exactly as the machine conversion does).
    pub open spec fn spec_count(&self) -> usize {
        self.entry_memory.block_allocated_size as usize
    }

    /// Per-region capacity used by traversal: the smaller of the configured
    /// block size and the reported element count.
    pub open spec fn spec_capacity(&self) -> usize {
        let bs = self.entry_memory.blocks_per_blob as usize;
        let cnt = self.entry_memory.block_allocated_size as usize;
        if bs < cnt {
            bs
        } else {
            cnt
        }
    }
}

/// The values the first `cap` slots of a region's list hold, in slot order.
pub open spec fn region_values<T, K>(region: HashUnallocatedData<T, K>, cap: nat) -> Seq<T> {
    region.block_list@.map_values(|e: HashBucketDataInternal<T, K>| e.data).take(cap as int)
}

/// The ordered values the chain walk recovers from `image`, starting at the
/// region mapped at `addr`, reading at most `cap` slots per region, with
/// `got` values already recovered and `cnt` the table's reported count.
///
/// A null address ends the chain (a valid, possibly short, result); an
/// unmapped address is a failed read and poisons the whole walk. The walk
/// stops inside the first region that brings the total to `cnt`, without
/// touching that region's link.
pub open spec fn gather_values<T, K>(
    image: RemoteImage<T, K>,
    addr: u64,
    cap: nat,
    cnt: nat,
    got: nat,
) -> Result<Seq<T>, RemoteReadError>
    decreases image.rank(addr),
        when image.wf()
        via gather_values_decreases::<T, K>
{
    if addr == 0 {
        Ok(Seq::empty())
    } else if !image.maps(addr) {
        Err(RemoteReadError { address: addr })
    } else {
        let region = image.region_at(addr);
        if cap == 0 {
            gather_values(image, region.next, cap, cnt, got)
        } else if got + cap >= cnt {
            // The walk checks the count after each value it takes, so a
            // count already met on entry (possible only for degenerate
            // arguments) still takes one value before stopping.
            let pushed = if got < cnt {
                (cnt - got) as nat
            } else {
                1
            };
            Ok(region_values(region, pushed))
        } else {
            match gather_values(image, region.next, cap, cnt, (got + cap) as nat) {
                Ok(rest) => Ok(region_values(region, cap) + rest),
                Err(e) => Err(e),
            }
        }
    }
}

#[via_fn]
proof fn gather_values_decreases<T, K>(
    image: RemoteImage<T, K>,
    addr: u64,
    cap: nat,
    cnt: nat,
    got: nat,
) {
    if image.wf() && addr != 0 && image.maps(addr) {
        image.lemma_region_properties(addr);
    }
}

/// How many regions the chain walk reads (successfully or not): the
/// recursion depth of [`gather_values`].
pub open spec fn regions_visited<T, K>(
    image: RemoteImage<T, K>,
    addr: u64,
    cap: nat,
    cnt: nat,
    got: nat,
) -> nat
    decreases image.rank(addr),
        when image.wf()
        via regions_visited_decreases::<T, K>
{
    if addr == 0 {
        0
    } else if !image.maps(addr) {
        1
    } else {
        let region = image.region_at(addr);
        if cap == 0 {
            1 + regions_visited(image, region.next, cap, cnt, got)
        } else if got + cap >= cnt {
            1
        } else {
            1 + regions_visited(image, region.next, cap, cnt, (got + cap) as nat)
        }
    }
}

#[via_fn]
proof fn regions_visited_decreases<T, K>(
    image: RemoteImage<T, K>,
    addr: u64,
    cap: nat,
    cnt: nat,
    got: nat,
) {
    if image.wf() && addr != 0 && image.maps(addr) {
        image.lemma_region_properties(addr);
    }
}

/// The least integer at or above `a / b`.
pub open spec fn ceil_div(a: nat, b: nat) -> nat {
    (((a + b - 1) as int) / (b as int)) as nat
}

/// The chain walk never reads more regions than it takes to meet the
/// remaining count: with a positive per-region capacity `cap` and `cnt - got`
/// values still owed, at most `ceil((cnt - got) / cap)` regions are read,
/// however long the chain is and whatever the reads return.
pub proof fn lemma_visited_bound<T, K>(
    image: RemoteImage<T, K>,
    addr: u64,
    cap: nat,
    cnt: nat,
    got: nat,
)
    requires
        image.wf(),
        cap >= 1,
        got < cnt,
    ensures
        regions_visited(image, addr, cap, cnt, got) <= ceil_div((cnt - got) as nat, cap),
    decreases image.rank(addr),
{
    let owed = (cnt - got) as int;
    if addr == 0 {
        vstd::arithmetic::div_mod::lemma_div_pos_is_pos(owed + cap - 1, cap as int);
    } else if !image.maps(addr) {
        vstd::arithmetic::div_mod::lemma_div_non_zero(owed + cap - 1, cap as int);
    } else {
        image.lemma_region_properties(addr);
        let region = image.region_at(addr);
        if got + cap >= cnt {
            vstd::arithmetic::div_mod::lemma_div_non_zero(owed + cap - 1, cap as int);
        } else {
            lemma_visited_bound(image, region.next, cap, cnt, (got + cap) as nat);
            vstd::arithmetic::div_mod::lemma_div_plus_one(owed - cap - 1 + cap, cap as int);
            assert(ceil_div((cnt - got) as nat, cap) == 1 + ceil_div((cnt - (got + cap)) as nat, cap));
        }
    }
}

/// Early termination: as soon as one more region suffices to meet the count
/// (`cnt - got <= cap`), the walk ends inside that region with exactly the
/// owed values, reading exactly one region — in particular it never touches
/// the region's link, even when the link is non-null.
pub proof fn lemma_early_termination<T, K>(
    image: RemoteImage<T, K>,
    addr: u64,
    cap: nat,
    cnt: nat,
    got: nat,
)
    requires
        image.wf(),
        image.maps(addr),
        cap >= 1,
        got < cnt,
        cnt - got <= cap,
    ensures
        gather_values(image, addr, cap, cnt, got) == Ok::<Seq<T>, RemoteReadError>(
            region_values(image.region_at(addr), (cnt - got) as nat),
        ),
        regions_visited(image, addr, cap, cnt, got) == 1,
{
    image.lemma_region_properties(addr);
}

impl<T, K> UtlTsHash<T, K> where T: Copy {
    /// Returns a list of elements in the hash table.
    ///
    /// Walks the overflow (unallocated) chain from the bucket's head address,
    /// reading whole regions through `image` and taking the first
    /// `min(block_size, count)` slots of each, until the reported element
    /// count is met or the chain ends; any failed read fails the whole call.
    /// The primary (allocated) chunk is deliberately not walked: once the
    /// table has grown past its initial reservation, live entries are
    /// expected to reside in overflow regions.
    pub fn elements(&self, image: &RemoteImage<T, K>) -> (result: Result<Vec<T>, RemoteReadError>)
        requires
            image.wf(),
            // the slot lists hold UNALLOCATED_LIST_LEN entries, so a larger
            // per-region capacity is readable only where no region is read
            self.spec_capacity() <= UNALLOCATED_LIST_LEN || self.buckets.unallocated_data == 0
                || !image.maps(self.buckets.unallocated_data),
        ensures
            (match gather_values(
                *image,
                self.buckets.unallocated_data,
                self.spec_capacity() as nat,
                self.spec_count() as nat,
                0,
            ) {
                Ok(s) => result matches Ok(v) && v@ == s,
                Err(e) => result matches Err(e2) && e2 == e,
            }),
            result matches Ok(v) ==> v@.len() <= self.spec_count(),
            self.buckets.unallocated_data == 0 ==> (result matches Ok(v) && v@.len() == 0),
    {
        let min_size: usize = if (self.block_size() as usize) < (self.count() as usize) {
            self.block_size() as usize
        } else {
            self.count() as usize
        };
        let cnt: usize = self.count() as usize;
        let ghost head = self.buckets.unallocated_data;
        let ghost cap_n = min_size as nat;
        let ghost cnt_n = cnt as nat;

        let mut list: Vec<T> = Vec::with_capacity(min_size);
        let mut address: u64 = self.buckets.unallocated_data;

        while address != 0
            invariant
                image.wf(),
                min_size == self.spec_capacity(),
                cnt == self.spec_count(),
                cap_n == min_size as nat,
                cnt_n == cnt as nat,
                head == self.buckets.unallocated_data,
                list@.len() <= cnt,
                min_size == 0 ==> list@.len() == 0,
                min_size > 0 ==> list@.len() < cnt,
                address != 0 && image.maps(address) ==> min_size <= UNALLOCATED_LIST_LEN,
                (match gather_values(*image, address, cap_n, cnt_n, list@.len() as nat) {
                    Ok(rest) => gather_values(*image, head, cap_n, cnt_n, 0) == Ok::<
                        Seq<T>,
                        RemoteReadError,
                    >(list@ + rest),
                    Err(e) => gather_values(*image, head, cap_n, cnt_n, 0) == Err::<
                        Seq<T>,
                        RemoteReadError,
                    >(e),
                }),
            decreases image.rank(address),
        {
            let region = match image.read_unallocated(address) {
                Ok(r) => r,
                Err(e) => {
                    proof {
                        assert(gather_values(*image, address, cap_n, cnt_n, list@.len() as nat)
                            == Err::<Seq<T>, RemoteReadError>(e));
                    }
                    return Err(e);
                },
            };
            proof {
                image.lemma_region_properties(address);
            }
            let ghost start_list = list@;
            let ghost entries = region.block_list@.map_values(
                |e: HashBucketDataInternal<T, K>| e.data,
            );
            let mut i: usize = 0;
            while i < min_size
                invariant
                    image.wf(),
                    address != 0,
                    image.maps(address),
                    *region == image.region_at(address),
                    entries == region.block_list@.map_values(
                        |e: HashBucketDataInternal<T, K>| e.data,
                    ),
                    region.block_list@.len() == UNALLOCATED_LIST_LEN,
                    min_size <= UNALLOCATED_LIST_LEN,
                    i <= min_size,
                    list@ == start_list + entries.take(i as int),
                    list@.len() == start_list.len() + i,
                    min_size > 0 ==> start_list.len() + i < cnt,
                    min_size == 0 ==> start_list.len() == 0,
                    cnt == cnt_n,
                    min_size == cap_n,
                    min_size == self.spec_capacity(),
                    cnt == self.spec_count(),
                    head == self.buckets.unallocated_data,
                    (match gather_values(*image, address, cap_n, cnt_n, start_list.len() as nat) {
                        Ok(rest) => gather_values(*image, head, cap_n, cnt_n, 0) == Ok::<
                            Seq<T>,
                            RemoteReadError,
                        >(start_list + rest),
                        Err(e) => gather_values(*image, head, cap_n, cnt_n, 0) == Err::<
                            Seq<T>,
                            RemoteReadError,
                        >(e),
                    }),
                decreases min_size - i,
            {
                list.push(region.block_list[i].data);
                proof {
                    assert(entries[i as int] == region.block_list@[i as int].data);
                    assert(list@ =~= start_list + entries.take(i + 1));
                }
                if list.len() >= cnt {
                    proof {
                        let got = start_list.len() as nat;
                        let pushed = (i + 1) as nat;
                        assert(got + pushed >= cnt_n && got < cnt_n);
                        assert(pushed == cnt_n - got);
                        assert(got + cap_n >= cnt_n);
                        assert(address != 0);
                        assert(image.maps(address));
                        assert(cap_n != 0);
                        assert(gather_values(*image, address, cap_n, cnt_n, got) == Ok::<
                            Seq<T>,
                            RemoteReadError,
                        >(region_values(image.region_at(address), pushed)));
                        assert(entries.take(pushed as int) == region_values(
                            image.region_at(address),
                            pushed,
                        ));
                        assert(head == 0 ==> gather_values(*image, head, cap_n, cnt_n, 0) == Ok::<
                            Seq<T>,
                            RemoteReadError,
                        >(Seq::empty()));
                    }
                    return Ok(list);
                }
                i += 1;
            }
            proof {
                let got = start_list.len() as nat;
                if min_size == 0 {
                    assert(gather_values(*image, address, cap_n, cnt_n, got) == gather_values(
                        *image,
                        image.region_at(address).next,
                        cap_n,
                        cnt_n,
                        got,
                    ));
                } else {
                    assert(got + cap_n < cnt_n);
                    assert(list@ == start_list + entries.take(cap_n as int));
                    assert(entries.take(cap_n as int) == region_values(
                        image.region_at(address),
                        cap_n,
                    ));
                    let tail = gather_values(
                        *image,
                        image.region_at(address).next,
                        cap_n,
                        cnt_n,
                        (got + cap_n) as nat,
                    );
                    match tail {
                        Ok(rest) => {
                            assert(gather_values(*image, address, cap_n, cnt_n, got) == Ok::<
                                Seq<T>,
                                RemoteReadError,
                            >(region_values(image.region_at(address), cap_n) + rest));
                            assert((start_list + entries.take(cap_n as int)) + rest =~= start_list
                                + (entries.take(cap_n as int) + rest));
                        },
                        Err(_) => {},
                    }
                }
            }
            address = region.next();
        }
        proof {
            assert(gather_values(*image, address, cap_n, cnt_n, list@.len() as nat) == Ok::<
                Seq<T>,
                RemoteReadError,
            >(Seq::empty()));
            assert(list@ + Seq::<T>::empty() =~= list@);
        }
        Ok(list)
    }
}

} // verus!
