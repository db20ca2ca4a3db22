use remote_table::remote::RemoteImage;
use remote_table::utl_ts_hash::HashAllocatedData;
use remote_table::utl_ts_hash::HashBucket;
use remote_table::utl_ts_hash::HashBucketDataInternal;
use remote_table::utl_ts_hash::HashFixedDataInternal;
use remote_table::utl_ts_hash::HashUnallocatedData;
use remote_table::utl_ts_hash::UtlMemoryPool;
use remote_table::utl_ts_hash::UtlTsHash;
use remote_table::utl_ts_hash::ALLOCATED_LIST_LEN;
use remote_table::utl_ts_hash::UNALLOCATED_LIST_LEN;

fn entries(base: u64) -> Vec<HashBucketDataInternal<u64, u64>> {
    let mut list = Vec::new();
    for i in 0..UNALLOCATED_LIST_LEN {
        list.push(HashBucketDataInternal {
            data: base + i as u64,
            next: 0x30 + i as u64,
            ui_key: 9,
        });
    }
    list
}

#[test]
fn entry_accessors_return_the_link_fields() {
    let fixed = HashFixedDataInternal {
        ui_key: 5u64,
        next: 0xabc,
        data: 17u64,
    };
    assert_eq!(fixed.next(), 0xabc);

    let bucket_entry = HashBucketDataInternal {
        data: 17u64,
        next: 0xdef,
        ui_key: 5u64,
    };
    assert_eq!(bucket_entry.next(), 0xdef);
}

#[test]
fn allocated_data_exposes_its_list() {
    let mut list = Vec::new();
    for i in 0..ALLOCATED_LIST_LEN {
        list.push(HashFixedDataInternal {
            ui_key: i as u64,
            next: 0,
            data: 2 * i as u64,
        });
    }
    let chunk: HashAllocatedData<u64, u64> = HashAllocatedData { list };
    assert_eq!(chunk.list().len(), ALLOCATED_LIST_LEN);
    assert_eq!(chunk.list()[3].data, 6);
}

#[test]
fn unallocated_data_accessors() {
    let region: HashUnallocatedData<u64, u64> = HashUnallocatedData {
        next: 0x4000,
        unknown_1: 1,
        ui_key: 9,
        unknown_2: 2,
        block_list: entries(50),
    };
    assert_eq!(region.next(), 0x4000);
    assert_eq!(region.ui_key(), 9);
    assert_eq!(region.block_list().len(), UNALLOCATED_LIST_LEN);
    assert_eq!(region.block_list()[2].data, 52);
}

#[test]
fn pool_getters_project_the_two_traversal_fields() {
    let pool = UtlMemoryPool {
        block_size: 11,
        blocks_per_blob: 22,
        grow_mode: 33,
        blocks_allocated: 44,
        block_allocated_size: 55,
        peak_alloc: 66,
    };
    assert_eq!(pool.block_size(), 22);
    assert_eq!(pool.count(), 55);

    let table: UtlTsHash<u64, u64> = UtlTsHash::new(pool, HashBucket::new(0x10, 0x20));
    assert_eq!(table.block_size(), 22);
    assert_eq!(table.count(), 55);
    assert_eq!(table.buckets.allocated_data, 0x10);
    assert_eq!(table.buckets.unallocated_data, 0x20);
}

#[test]
fn image_maps_and_rejects_as_documented() {
    let mut image: RemoteImage<u64, u64> = RemoteImage::new();
    let tail = HashUnallocatedData {
        next: 0,
        unknown_1: 0,
        ui_key: 0,
        unknown_2: 0,
        block_list: entries(0),
    };
    // A null address, a short slot list, and a self-link are all refused.
    assert!(!image.add_region(
        0,
        HashUnallocatedData {
            next: 0,
            unknown_1: 0,
            ui_key: 0,
            unknown_2: 0,
            block_list: entries(0),
        }
    ));
    assert!(!image.add_region(
        0x1000,
        HashUnallocatedData {
            next: 0,
            unknown_1: 0,
            ui_key: 0,
            unknown_2: 0,
            block_list: Vec::new(),
        }
    ));
    assert!(!image.add_region(
        0x1000,
        HashUnallocatedData {
            next: 0x1000,
            unknown_1: 0,
            ui_key: 0,
            unknown_2: 0,
            block_list: entries(0),
        }
    ));
    assert!(image.add_region(0x1000, tail));
    // A second mapping of the same address is refused.
    assert!(!image.add_region(
        0x1000,
        HashUnallocatedData {
            next: 0,
            unknown_1: 0,
            ui_key: 0,
            unknown_2: 0,
            block_list: entries(1),
        }
    ));

    let read = image.read_unallocated(0x1000).expect("mapped address");
    assert_eq!(read.block_list()[5].data, 5);
    let err = image.read_unallocated(0x9999).expect_err("unmapped address");
    assert_eq!(err.address, 0x9999);
}
