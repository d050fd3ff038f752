use valkey_bloom::bloom_filter::BloomFilterType;
use valkey_bloom::params::FpRate;
use valkey_bloom::parse::{parse_fp_rate, parse_u64};
use valkey_bloom::sub_filter::SubFilter;
use valkey_bloom::errors::BloomError;

#[test]
fn no_false_negatives_across_growth() {
    // base capacity 5, expansion 2: 300 distinct items force many growth
    // events, and every added item must still be found afterwards
    let fp = FpRate { num: 1, pow: 2 };
    let mut bf = BloomFilterType::new_reserved(&fp, 5, 2);
    let items: Vec<Vec<u8>> = (0..300u32).map(|i| format!("item-{}", i).into_bytes()).collect();
    for it in &items {
        let r = bf.add_item(it);
        assert!(r == 0 || r == 1);
    }
    for it in &items {
        assert!(bf.item_exists(it));
    }
    assert!(bf.filters.len() > 1);
}

#[test]
fn cardinality_counts_distinct_adds() {
    let fp = FpRate { num: 1, pow: 3 };
    let mut bf = BloomFilterType::new_reserved(&fp, 1000, 2);
    assert_eq!(bf.cardinality(), 0);
    assert_eq!(bf.add_item(b"x"), 1);
    assert_eq!(bf.add_item(b"y"), 1);
    assert_eq!(bf.add_item(b"x"), 0);
    assert_eq!(bf.cardinality(), 2);
}

#[test]
fn capacity_sums_layers() {
    let fp = FpRate { num: 1, pow: 2 };
    let mut bf = BloomFilterType::new_reserved(&fp, 2, 4);
    assert_eq!(bf.capacity(), 2);
    assert_eq!(bf.add_item(b"a"), 1);
    assert_eq!(bf.add_item(b"b"), 1);
    assert_eq!(bf.add_item(b"c"), 1);
    // one growth event: 2 + 2*4
    assert_eq!(bf.capacity(), 10);
    assert_eq!(bf.filters.len(), 2);
    assert_eq!(bf.filters[1].capacity, 8);
}

#[test]
fn memory_usage_counts_words_and_overhead() {
    let fp = FpRate { num: 1, pow: 2 };
    let bf = BloomFilterType::new_reserved(&fp, 2, 2);
    let expected: u64 = bf.filters.iter().map(|f| f.words.len() as u64 * 8 + 48).sum();
    assert_eq!(bf.get_memory_usage(), expected);
}

#[test]
fn sub_filter_add_and_contains() {
    let mut f = SubFilter::create(10, 65536);
    assert!(!f.contains(b"hello"));
    assert!(f.add(b"hello"));
    assert!(f.contains(b"hello"));
    // a second add of the same item changes nothing
    assert!(!f.add(b"hello"));
    assert_eq!(f.items, 2);
}

#[test]
fn sub_filter_sizing_minimums() {
    let f = SubFilter::create(1, 1);
    assert!(f.num_bits >= 64);
    assert!(f.num_hashes >= 1);
    assert_eq!(f.words.len() as u64, (f.num_bits - 1) / 64 + 1);
}

#[test]
fn parse_u64_cases() {
    assert_eq!(parse_u64(b"0"), Some(0));
    assert_eq!(parse_u64(b"+42"), Some(42));
    assert_eq!(parse_u64(b"18446744073709551615"), Some(u64::MAX));
    assert_eq!(parse_u64(b"18446744073709551616"), None);
    assert_eq!(parse_u64(b""), None);
    assert_eq!(parse_u64(b"+"), None);
    assert_eq!(parse_u64(b"12a"), None);
    assert_eq!(parse_u64(b"-3"), None);
}

#[test]
fn parse_fp_rate_values() {
    assert_eq!(parse_fp_rate(b"0.001"), Ok(FpRate { num: 1, pow: 3 }));
    assert_eq!(parse_fp_rate(b"0.01"), Ok(FpRate { num: 1, pow: 2 }));
    assert_eq!(parse_fp_rate(b"1e-3"), Ok(FpRate { num: 1, pow: 3 }));
    assert_eq!(parse_fp_rate(b"2.5E-2"), Ok(FpRate { num: 25, pow: 3 }));
    assert_eq!(parse_fp_rate(b".5"), Ok(FpRate { num: 5, pow: 1 }));
    assert_eq!(parse_fp_rate(b"0.250"), Ok(FpRate { num: 250, pow: 3 }));
    assert_eq!(parse_fp_rate(b"0"), Err(BloomError::InvalidErrorRate));
    assert_eq!(parse_fp_rate(b"1"), Err(BloomError::InvalidErrorRate));
    assert_eq!(parse_fp_rate(b"1.0"), Err(BloomError::InvalidErrorRate));
    assert_eq!(parse_fp_rate(b"-0.5"), Err(BloomError::InvalidErrorRate));
    assert_eq!(parse_fp_rate(b"10e-1"), Err(BloomError::InvalidErrorRate));
    assert_eq!(parse_fp_rate(b"99e-2"), Ok(FpRate { num: 99, pow: 2 }));
    assert_eq!(parse_fp_rate(b"1.2.3"), Err(BloomError::InvalidErrorRate));
    assert_eq!(parse_fp_rate(b"1e"), Err(BloomError::InvalidErrorRate));
    assert_eq!(parse_fp_rate(b"e-3"), Err(BloomError::InvalidErrorRate));
}

#[test]
fn persisted_parts_round_trip() {
    let fp = FpRate { num: 1, pow: 2 };
    let mut bf = BloomFilterType::new_reserved(&fp, 2, 3);
    for it in [b"a".as_slice(), b"b", b"c", b"d"] {
        bf.add_item(it);
    }
    let rebuilt = BloomFilterType::from_parts(
        bf.fp_num,
        bf.fp_pow,
        bf.expansion,
        bf.num_items,
        bf.filters.clone(),
    )
    .expect("a well-formed filter's parts are accepted");
    assert_eq!(rebuilt.fp_num, bf.fp_num);
    assert_eq!(rebuilt.fp_pow, bf.fp_pow);
    assert_eq!(rebuilt.lam, bf.lam);
    assert_eq!(rebuilt.expansion, bf.expansion);
    assert_eq!(rebuilt.num_items, bf.num_items);
    assert_eq!(rebuilt.filters.len(), bf.filters.len());
    for (a, b) in rebuilt.filters.iter().zip(bf.filters.iter()) {
        assert_eq!(a.words, b.words);
        assert_eq!(a.num_bits, b.num_bits);
        assert_eq!(a.num_hashes, b.num_hashes);
        assert_eq!(a.capacity, b.capacity);
        assert_eq!(a.items, b.items);
    }
    // a corrupted counter is rejected
    let bad = BloomFilterType::from_parts(
        bf.fp_num,
        bf.fp_pow,
        bf.expansion,
        bf.num_items + 1,
        bf.filters.clone(),
    );
    assert!(bad.is_none());
}

#[test]
fn layers_tighten_their_rate() {
    // each appended layer is sized for a tighter false-positive target, so
    // with equal capacities it needs at least as many bits and hashes
    let fp = FpRate { num: 1, pow: 2 };
    let mut bf = BloomFilterType::new_reserved(&fp, 1, 1);
    for i in 0..20u32 {
        bf.add_item(format!("t{}", i).as_bytes());
    }
    assert!(bf.filters.len() > 1);
    for w in bf.filters.windows(2) {
        assert_eq!(w[0].capacity, w[1].capacity);
        assert!(w[0].num_hashes <= w[1].num_hashes);
        assert!(w[0].num_bits <= w[1].num_bits);
    }
}
