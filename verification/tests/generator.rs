use std::collections::HashMap;

use kono::generator::BitsAndValue;
use kono::generator::KonoIdGenerator;
use kono::generator::SHARDING_STORAGE_KEY;
use kono::id_gen::IdGen;
use kono::storage::Storage;

struct MemStorage {
    values: HashMap<Vec<u8>, u64>,
}

impl MemStorage {
    fn new() -> Self {
        MemStorage { values: HashMap::new() }
    }
}

impl Storage for MemStorage {
    fn get_u64(&self, key: &[u8]) -> Option<u64> {
        self.values.get(key).copied()
    }

    fn save_u64(&mut self, key: &[u8], val: u64) {
        self.values.insert(key.to_vec(), val);
    }
}

#[test]
fn test_next_id() {
    let mut id_gen = KonoIdGenerator::new(MemStorage::new(), 2, 0, 10, vec![0, 0, 0]);
    assert_eq!(id_gen.next_id(0), 2048);
    assert_eq!(id_gen.next_id(0), 4096);
}

#[test]
fn sharding_id_goes_to_low_bits() {
    let mut g = KonoIdGenerator::new(MemStorage::new(), 1, 0, 4, vec![1]);
    // 37 % 16 == 5
    assert_eq!(g.next_id(37), (1 << 4) | 5);
    assert_eq!(g.next_id(16), (2 << 4) | 0);
}

#[test]
fn zero_sharding_bits_keep_counter_only() {
    let mut g = KonoIdGenerator::new(MemStorage::new(), 3, 100, 0, vec![7]);
    assert_eq!(g.next_id(12345), 103);
    assert_eq!(g.next_id(0), 106);
}

#[test]
fn base_is_used_when_storage_has_no_counter() {
    let mut g = KonoIdGenerator::new(MemStorage::new(), 5, 1000, 2, vec![9, 9]);
    assert_eq!(g.next_id(1), (1005 << 2) | 1);
}

#[test]
fn next_ids_batch_values() {
    let mut g = KonoIdGenerator::new(MemStorage::new(), 2, 0, 10, vec![0, 0, 0]);
    let ids = g.next_ids(5, 3);
    assert_eq!(ids, vec![2048 + 5, 4096 + 5, 6144 + 5]);
    assert_eq!(g.next_id(0), 8192);
}

#[test]
fn next_ids_zero_records_counter() {
    let mut storage = MemStorage::new();
    storage.save_u64(&[4], 77);
    let mut g = KonoIdGenerator::new(storage, 1, 0, 0, vec![4]);
    assert_eq!(g.next_ids(0, 0), Vec::<u64>::new());
    assert_eq!(g.next_id(0), 78);
}

#[test]
fn batch_equals_single_calls() {
    let mut a = KonoIdGenerator::new(MemStorage::new(), 7, 3, 5, vec![1, 2]);
    let mut b = KonoIdGenerator::new(MemStorage::new(), 7, 3, 5, vec![1, 2]);
    let batch = a.next_ids(9, 4);
    let singles: Vec<u64> = (0..4).map(|_| b.next_id(9)).collect();
    assert_eq!(batch, singles);
    assert_eq!(a.next_id(1), b.next_id(1));
}

#[test]
fn successive_ids_increase_across_shards() {
    let mut g = KonoIdGenerator::new(MemStorage::new(), 1, 0, 8, vec![3]);
    let mut last = 0;
    for sharding_id in [255u64, 0, 17, 255, 3, 1000] {
        let id = g.next_id(sharding_id);
        assert!(id > last);
        last = id;
    }
}

#[test]
fn id_decomposes_into_counter_and_shard() {
    let mut g = KonoIdGenerator::new(MemStorage::new(), 3, 40, 6, vec![5]);
    let id = g.next_id(70);
    assert_eq!(id >> 6, 43);
    assert_eq!(id & 63, 70 % 64);
}

#[test]
fn restart_continues_from_stored_counter() {
    let mut g = KonoIdGenerator::new(MemStorage::new(), 2, 0, 10, vec![0, 0, 0]);
    assert_eq!(g.next_id(0), 2048);
    assert_eq!(g.next_id(0), 4096);
    let mut storage = MemStorage::new();
    storage.save_u64(&[0, 0, 0], 4);
    storage.save_u64(&SHARDING_STORAGE_KEY, 10);
    let mut again = KonoIdGenerator::new(storage, 2, 0, 10, vec![0, 0, 0]);
    assert_eq!(again.next_id(0), 6144);
}

#[test]
fn sharding_bits_are_recorded() {
    let mut storage = MemStorage::new();
    KonoIdGenerator::<MemStorage>::check_with_previous_sharding_config(&mut storage, &BitsAndValue::new(12));
    assert_eq!(storage.get_u64(b"shard_bits"), Some(12));
    KonoIdGenerator::<MemStorage>::check_with_previous_sharding_config(&mut storage, &BitsAndValue::new(12));
    assert_eq!(storage.get_u64(b"shard_bits"), Some(12));
}

#[test]
fn sharding_key_spells_shard_bits() {
    assert_eq!(&SHARDING_STORAGE_KEY, b"shard_bits");
}

#[test]
fn capacity_at_the_top_of_the_id_space() {
    // with 63 shard bits the counter may reach 1
    let mut g = KonoIdGenerator::new(MemStorage::new(), 1, 0, 63, vec![2]);
    assert!(g.has_capacity(0));
    assert!(g.has_capacity(1));
    assert!(!g.has_capacity(2));
    assert_eq!(g.next_id(1), (1u64 << 63) | 1);
    assert!(!g.has_capacity(1));
    assert!(g.has_capacity(0));
}

#[test]
fn capacity_with_zero_increment_is_unbounded() {
    let mut storage = MemStorage::new();
    storage.save_u64(&[1], 5);
    let g = KonoIdGenerator::new(storage, 0, 0, 60, vec![1]);
    assert!(g.has_capacity(usize::MAX));
}

#[test]
fn capacity_large_batches() {
    let g = KonoIdGenerator::new(MemStorage::new(), u64::MAX, 0, 0, vec![1]);
    assert!(g.has_capacity(1));
    assert!(!g.has_capacity(2));
    assert!(!g.has_capacity(usize::MAX));
}

#[test]
fn same_counter_different_shards_give_different_ids() {
    let mut a = KonoIdGenerator::new(MemStorage::new(), 1, 0, 3, vec![1]);
    let mut b = KonoIdGenerator::new(MemStorage::new(), 1, 0, 3, vec![1]);
    assert_ne!(a.next_id(1), b.next_id(2));
    // sharding ids that agree modulo 2^bits land in the same shard
    assert_eq!(a.next_id(9), b.next_id(1));
}

#[test]
fn bit_count_reports_sharding_bits() {
    assert_eq!(BitsAndValue::new(12).bit_count(), 12);
    assert_eq!(BitsAndValue::new(0).bit_count(), 0);
}

#[test]
fn batch_of_many_equals_many_single_calls() {
    for n in 1..6usize {
        let mut a = KonoIdGenerator::new(MemStorage::new(), 3, 11, 7, vec![8]);
        let mut b = KonoIdGenerator::new(MemStorage::new(), 3, 11, 7, vec![8]);
        let batch = a.next_ids(200, n);
        let singles: Vec<u64> = (0..n).map(|_| b.next_id(200)).collect();
        assert_eq!(batch, singles);
        assert_eq!(a.next_id(0), b.next_id(0));
    }
}
