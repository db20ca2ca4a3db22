use remote_table::remote::RemoteImage;
use remote_table::utl_ts_hash::HashBucket;
use remote_table::utl_ts_hash::HashBucketDataInternal;
use remote_table::utl_ts_hash::HashUnallocatedData;
use remote_table::utl_ts_hash::UtlMemoryPool;
use remote_table::utl_ts_hash::UtlTsHash;
use remote_table::utl_ts_hash::UNALLOCATED_LIST_LEN;

fn block_list(base: u64) -> Vec<HashBucketDataInternal<u64, u64>> {
    let mut list = Vec::new();
    for i in 0..UNALLOCATED_LIST_LEN {
        list.push(HashBucketDataInternal {
            data: base + i as u64,
            next: 0,
            ui_key: 7,
        });
    }
    list
}

fn region(next: u64, base: u64) -> HashUnallocatedData<u64, u64> {
    HashUnallocatedData {
        next,
        unknown_1: 0,
        ui_key: 7,
        unknown_2: 0,
        block_list: block_list(base),
    }
}

fn pool(blocks_per_blob: i32, block_allocated_size: i32) -> UtlMemoryPool {
    UtlMemoryPool {
        block_size: 64,
        blocks_per_blob,
        grow_mode: 0,
        blocks_allocated: 0,
        block_allocated_size,
        peak_alloc: 0,
    }
}

fn table(p: UtlMemoryPool, head: u64) -> UtlTsHash<u64, u64> {
    UtlTsHash::new(p, HashBucket::new(0, head))
}

#[test]
fn null_overflow_head_yields_empty_result() {
    let image: RemoteImage<u64, u64> = RemoteImage::new();
    let t = table(pool(256, 300), 0);
    let got = t.elements(&image).expect("a null head is not an error");
    assert!(got.is_empty());
}

#[test]
fn single_region_returns_count_entries_in_order() {
    let mut image: RemoteImage<u64, u64> = RemoteImage::new();
    assert!(image.add_region(0x1000, region(0, 500)));
    let t = table(pool(256, 5), 0x1000);
    let got = t.elements(&image).expect("single region read");
    assert_eq!(got, vec![500, 501, 502, 503, 504]);
}

#[test]
fn result_never_exceeds_reported_count() {
    // Two full regions are mapped, but the reported count is far smaller.
    let mut image: RemoteImage<u64, u64> = RemoteImage::new();
    assert!(image.add_region(0x2000, region(0, 1000)));
    assert!(image.add_region(0x1000, region(0x2000, 0)));
    let t = table(pool(256, 10), 0x1000);
    let got = t.elements(&image).expect("chain read");
    assert_eq!(got.len(), 10);
}

#[test]
fn capacity_is_blocks_per_blob_when_smaller() {
    // blocks_per_blob < count: only blocks_per_blob entries per region.
    let mut image: RemoteImage<u64, u64> = RemoteImage::new();
    assert!(image.add_region(0x2000, region(0, 1000)));
    assert!(image.add_region(0x1000, region(0x2000, 0)));
    let t = table(pool(4, 6), 0x1000);
    let got = t.elements(&image).expect("chain read");
    // 4 entries from the first region, then 2 more from the second.
    assert_eq!(got, vec![0, 1, 2, 3, 1000, 1001]);
}

#[test]
fn capacity_is_count_when_smaller() {
    // count < blocks_per_blob: the walk ends inside the first region.
    let mut image: RemoteImage<u64, u64> = RemoteImage::new();
    assert!(image.add_region(0x1000, region(0, 0)));
    let t = table(pool(256, 3), 0x1000);
    let got = t.elements(&image).expect("single region read");
    assert_eq!(got, vec![0, 1, 2]);
}

#[test]
fn early_termination_skips_the_next_region() {
    // The first region satisfies the count; its link dangles. If the walk
    // read past the satisfying region, it would fail on the dangling link.
    let mut image: RemoteImage<u64, u64> = RemoteImage::new();
    assert!(image.add_region(0x1000, region(0xdead_0000, 42)));
    let t = table(pool(256, 8), 0x1000);
    let got = t.elements(&image).expect("no read past the satisfying region");
    assert_eq!(got, vec![42, 43, 44, 45, 46, 47, 48, 49]);
}

#[test]
fn read_failure_at_second_region_fails_the_whole_call() {
    // The first region's link points at an unmapped address and the count
    // is not yet met there: the call fails as a whole, no partial result.
    let mut image: RemoteImage<u64, u64> = RemoteImage::new();
    assert!(image.add_region(0x1000, region(0xdead_0000, 0)));
    let t = table(pool(256, 300), 0x1000);
    let err = t.elements(&image).expect_err("the second read fails");
    assert_eq!(err.address, 0xdead_0000);
}

#[test]
fn round_trip_two_regions_300_of_512() {
    // Region one holds 256 entries, region two 44 more plus a null link;
    // the reported count of 300 is met 44 entries into region two.
    let mut image: RemoteImage<u64, u64> = RemoteImage::new();
    assert!(image.add_region(0x2000, region(0, 5000)));
    assert!(image.add_region(0x1000, region(0x2000, 100)));
    let t = table(pool(256, 300), 0x1000);
    let got = t.elements(&image).expect("two region read");
    assert_eq!(got.len(), 300);
    for i in 0..256u64 {
        assert_eq!(got[i as usize], 100 + i);
    }
    for i in 0..44u64 {
        assert_eq!(got[256 + i as usize], 5000 + i);
    }
}

#[test]
fn short_chain_returns_partial_result_without_error() {
    // The chain ends (null link) before the reported count is met: the
    // partial result is returned as-is.
    let mut image: RemoteImage<u64, u64> = RemoteImage::new();
    assert!(image.add_region(0x1000, region(0, 9)));
    let t = table(pool(256, 300), 0x1000);
    let got = t.elements(&image).expect("a short chain is not an error");
    assert_eq!(got.len(), 256);
    assert_eq!(got[0], 9);
    assert_eq!(got[255], 9 + 255);
}

#[test]
fn zero_count_reads_no_entries() {
    let mut image: RemoteImage<u64, u64> = RemoteImage::new();
    assert!(image.add_region(0x1000, region(0, 0)));
    let t = table(pool(256, 0), 0x1000);
    let got = t.elements(&image).expect("zero count");
    assert!(got.is_empty());
}
