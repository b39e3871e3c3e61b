use bloom_filter::BloomFilter;
use bloom_filter::FilterError;

#[test]
fn test_and_insert() {
    let mut bf = BloomFilter::new_with_bits(100, 10).unwrap();
    let mut bf2 = BloomFilter::new_with_hashes(3, 10).unwrap();
    let value = 10;
    let value2 = "string";
    let value3 = vec![1, 2, 3];
    bf.set(&value);
    bf.set(value2);
    bf2.set(&value);
    bf2.set(value2);
    assert_eq!(bf.test(&value), bf2.test(&value));
    assert_eq!(bf.test(value2), bf2.test(value2));
    assert_eq!(bf.test(value2), bf2.test(value2));
    assert_eq!(bf.test(&value3), bf2.test(&value3));
    assert_eq!(bf.test(&value3), false);
    assert_eq!(bf2.test(&value3), false);
}

#[test]
fn test_and_set_one_shot() {
    let mut bf = BloomFilter::new_with_bits(100, 10).unwrap();
    let value = 10;
    let value2 = "string";
    let value3 = vec![1, 2, 3];

    assert_eq!(bf.test_and_set(&value), false);
    assert_eq!(bf.test_and_set(value2), false);
    assert_eq!(bf.test_and_set(&value3), false);
    assert_eq!(bf.test_and_set(&value), true);
    assert_eq!(bf.test_and_set(value2), true);
    assert_eq!(bf.test_and_set(&value3), true);
}

#[test]
fn sizing_from_bits() {
    // k = ceil((100 / 10) * 0.30103) = ceil(3.0103) = 4
    let bf = BloomFilter::new_with_bits(100, 10).unwrap();
    assert_eq!(bf.bit_count(), 100);
    assert_eq!(bf.hash_count(), 4);
    // k = ceil((1000 / 10) * 0.30103) = ceil(30.103) = 31
    let bf2 = BloomFilter::new_with_bits(1000, 10).unwrap();
    assert_eq!(bf2.bit_count(), 1000);
    assert_eq!(bf2.hash_count(), 31);
}

#[test]
fn sizing_from_hashes() {
    // m = ceil((3 * 10) / 0.30103) = ceil(99.657...) = 100
    let bf = BloomFilter::new_with_hashes(3, 10).unwrap();
    assert_eq!(bf.bit_count(), 100);
    assert_eq!(bf.hash_count(), 3);
    // m = ceil(1 / 0.30103) = 4
    let bf2 = BloomFilter::new_with_hashes(1, 1).unwrap();
    assert_eq!(bf2.bit_count(), 4);
    assert_eq!(bf2.hash_count(), 1);
}

#[test]
fn construction_rejects_zero_expected_elements() {
    assert!(matches!(
        BloomFilter::new_with_bits(100, 0),
        Err(FilterError::ZeroExpectedElements)
    ));
    assert!(matches!(
        BloomFilter::new_with_hashes(3, 0),
        Err(FilterError::ZeroExpectedElements)
    ));
}

#[test]
fn construction_rejects_zero_bits() {
    assert!(matches!(
        BloomFilter::new_with_bits(0, 10),
        Err(FilterError::ZeroBits)
    ));
}

#[test]
fn construction_rejects_zero_hashes() {
    // 5 / 10 rounds to zero, so the derived hash count is zero.
    assert!(matches!(
        BloomFilter::new_with_bits(5, 10),
        Err(FilterError::ZeroHashes)
    ));
    assert!(matches!(
        BloomFilter::new_with_hashes(0, 10),
        Err(FilterError::ZeroHashes)
    ));
}

#[test]
fn empty_filter_contains_nothing() {
    let bf = BloomFilter::new_with_bits(100, 10).unwrap();
    assert!(!bf.test(&0u64));
    assert!(!bf.test(&10u64));
    assert!(!bf.test("string"));
    let empty: Vec<u64> = vec![];
    assert!(!bf.test(&empty));
}

#[test]
fn no_false_negatives_with_interleaved_inserts() {
    let mut bf = BloomFilter::new_with_bits(200, 20).unwrap();
    let first: u64 = 41;
    bf.set(&first);
    assert!(bf.test(&first));
    for i in 0..20u64 {
        bf.set(&i);
        assert!(bf.test(&first));
        assert!(bf.test(&i));
    }
    for i in 0..20u64 {
        assert!(bf.test(&i));
    }
}

#[test]
fn test_is_deterministic() {
    let mut bf = BloomFilter::new_with_bits(100, 10).unwrap();
    bf.set("held");
    for _ in 0..10 {
        assert!(bf.test("held"));
        assert_eq!(bf.test("absent"), bf.test("absent"));
    }
}

#[test]
fn distinct_elements_hash_apart() {
    // With one element in a 100-bit filter, a membership answer for a
    // different element is true only on a rare false positive; if the
    // digests ignored the element bytes, it would always be true.
    let mut bf = BloomFilter::new_with_bits(100, 10).unwrap();
    bf.set(&1u64);
    assert!(bf.test(&1u64));
    assert!(!bf.test(&2u64));
}

#[test]
fn test_and_set_matches_set_then_test() {
    let mut via_tas = BloomFilter::new_with_bits(100, 10).unwrap();
    let mut via_set = BloomFilter::new_with_bits(100, 10).unwrap();
    let value = "round trip";
    assert!(!via_tas.test_and_set(value));
    via_set.set(value);
    assert!(via_tas.test(value));
    assert!(via_set.test(value));
    assert!(via_tas.test_and_set(value));
    assert!(via_set.test_and_set(value));
}
