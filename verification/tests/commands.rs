use valkey_bloom::commands::{
    bloom_filter_add_value, bloom_filter_card, bloom_filter_exists, bloom_filter_info,
    bloom_filter_insert, bloom_filter_reserve, FilterInfo, Reply,
};
use valkey_bloom::bloom_filter::BloomFilterType;
use valkey_bloom::config::Config;
use valkey_bloom::errors::BloomError;

fn args(tokens: &[&str]) -> Vec<Vec<u8>> {
    tokens.iter().map(|t| t.as_bytes().to_vec()).collect()
}

fn cfg() -> Config {
    Config::default()
}

fn small_cfg() -> Config {
    Config { default_capacity: 100, default_expansion: 2 }
}

#[test]
fn reserve_add_exists_card_info_scenario() {
    let c = cfg();
    let mut f: Option<BloomFilterType> = None;
    let r = bloom_filter_reserve(&args(&["BF.RESERVE", "k", "0.01", "100"]), &mut f, &c);
    assert_eq!(r, Ok(Reply::Done));
    assert!(f.is_some());

    let r = bloom_filter_add_value(&args(&["BF.ADD", "k", "a"]), false, &mut f, &c);
    assert_eq!(r, Ok(Reply::Integer(1)));
    let r = bloom_filter_add_value(&args(&["BF.ADD", "k", "a"]), false, &mut f, &c);
    assert_eq!(r, Ok(Reply::Integer(0)));

    let r = bloom_filter_exists(&args(&["BF.EXISTS", "k", "a"]), false, f.as_ref());
    assert_eq!(r, Ok(Reply::Integer(1)));
    let r = bloom_filter_exists(&args(&["BF.EXISTS", "k", "b"]), false, f.as_ref());
    assert_eq!(r, Ok(Reply::Integer(0)));

    let r = bloom_filter_card(&args(&["BF.CARD", "k"]), f.as_ref());
    assert_eq!(r, Ok(Reply::Integer(1)));

    let r = bloom_filter_info(&args(&["BF.INFO", "k", "CAPACITY"]), f.as_ref());
    assert_eq!(r, Ok(Reply::Integer(100)));
}

#[test]
fn insert_creates_and_grows() {
    let c = cfg();
    let mut f: Option<BloomFilterType> = None;
    let r = bloom_filter_insert(
        &args(&["BF.INSERT", "k2", "CAPACITY", "2", "ITEMS", "x", "y", "z"]),
        &mut f,
        &c,
    );
    assert_eq!(r, Ok(Reply::IntArray(vec![1, 1, 1])));
    let r = bloom_filter_info(&args(&["BF.INFO", "k2", "FILTERS"]), f.as_ref());
    assert_eq!(r, Ok(Reply::Integer(2)));
    // second layer capacity = 2 * default expansion 2
    let r = bloom_filter_info(&args(&["BF.INFO", "k2", "CAPACITY"]), f.as_ref());
    assert_eq!(r, Ok(Reply::Integer(6)));
}

#[test]
fn idempotent_add_cardinality() {
    let c = cfg();
    let mut f: Option<BloomFilterType> = None;
    let r = bloom_filter_add_value(&args(&["BF.ADD", "k", "item"]), false, &mut f, &c);
    assert_eq!(r, Ok(Reply::Integer(1)));
    let r = bloom_filter_add_value(&args(&["BF.ADD", "k", "item"]), false, &mut f, &c);
    assert_eq!(r, Ok(Reply::Integer(0)));
    let r = bloom_filter_card(&args(&["BF.CARD", "k"]), f.as_ref());
    assert_eq!(r, Ok(Reply::Integer(1)));
}

#[test]
fn capacity_triggered_growth() {
    let c = cfg();
    let mut f: Option<BloomFilterType> = None;
    let r = bloom_filter_reserve(
        &args(&["BF.RESERVE", "k", "0.01", "2", "EXPANSION", "3"]),
        &mut f,
        &c,
    );
    assert_eq!(r, Ok(Reply::Done));
    let r = bloom_filter_add_value(&args(&["BF.ADD", "k", "first"]), false, &mut f, &c);
    assert_eq!(r, Ok(Reply::Integer(1)));
    let r = bloom_filter_add_value(&args(&["BF.ADD", "k", "second"]), false, &mut f, &c);
    assert_eq!(r, Ok(Reply::Integer(1)));
    // exactly one layer after filling the base capacity
    let r = bloom_filter_info(&args(&["BF.INFO", "k", "FILTERS"]), f.as_ref());
    assert_eq!(r, Ok(Reply::Integer(1)));
    // the third distinct item triggers a second layer of capacity 2 * 3
    let r = bloom_filter_add_value(&args(&["BF.ADD", "k", "third"]), false, &mut f, &c);
    assert_eq!(r, Ok(Reply::Integer(1)));
    let r = bloom_filter_info(&args(&["BF.INFO", "k", "FILTERS"]), f.as_ref());
    assert_eq!(r, Ok(Reply::Integer(2)));
    let r = bloom_filter_info(&args(&["BF.INFO", "k", "CAPACITY"]), f.as_ref());
    assert_eq!(r, Ok(Reply::Integer(8)));
}

#[test]
fn nonscaling_exhaustion() {
    let c = cfg();
    let mut f: Option<BloomFilterType> = None;
    let r = bloom_filter_reserve(
        &args(&["BF.RESERVE", "k", "0.01", "2", "NONSCALING"]),
        &mut f,
        &c,
    );
    assert_eq!(r, Ok(Reply::Done));
    let r = bloom_filter_add_value(&args(&["BF.ADD", "k", "first"]), false, &mut f, &c);
    assert_eq!(r, Ok(Reply::Integer(1)));
    let r = bloom_filter_add_value(&args(&["BF.ADD", "k", "second"]), false, &mut f, &c);
    assert_eq!(r, Ok(Reply::Integer(1)));
    // full and non-scaling: a new distinct item is rejected
    let r = bloom_filter_add_value(&args(&["BF.ADD", "k", "third"]), false, &mut f, &c);
    assert_eq!(r, Ok(Reply::Integer(-1)));
    // but re-adding an item that is already present still answers 0 without error
    let r = bloom_filter_add_value(&args(&["BF.ADD", "k", "first"]), false, &mut f, &c);
    assert_eq!(r, Ok(Reply::Integer(0)));
    let r = bloom_filter_exists(&args(&["BF.EXISTS", "k", "first"]), false, f.as_ref());
    assert_eq!(r, Ok(Reply::Integer(1)));
}

#[test]
fn fp_rate_boundaries_rejected() {
    let c = cfg();
    for bad in ["0", "1", "0.0", "1.0", "-0.1", "1.5", "abc", "", "nan", "inf", "1e0", "10e-1"] {
        let mut f: Option<BloomFilterType> = None;
        let r = bloom_filter_reserve(&args(&["BF.RESERVE", "k", bad, "100"]), &mut f, &c);
        assert_eq!(r, Err(BloomError::InvalidErrorRate), "rate {:?}", bad);
        assert!(f.is_none());
    }
    for good in ["0.5", ".5", "0.999999", "1e-3", "5E-1", "+0.25", "0.001", "9e-1"] {
        let mut f: Option<BloomFilterType> = None;
        let r = bloom_filter_reserve(&args(&["BF.RESERVE", "k", good, "100"]), &mut f, &c);
        assert_eq!(r, Ok(Reply::Done), "rate {:?}", good);
    }
}

#[test]
fn capacity_boundaries() {
    let c = cfg();
    let mut f: Option<BloomFilterType> = None;
    let r = bloom_filter_reserve(&args(&["BF.RESERVE", "k", "0.1", "0"]), &mut f, &c);
    assert_eq!(r, Err(BloomError::InvalidCapacity));
    let r = bloom_filter_reserve(&args(&["BF.RESERVE", "k", "0.1", "x"]), &mut f, &c);
    assert_eq!(r, Err(BloomError::InvalidCapacity));
    // the configured maximum is accepted (checked via NOCREATE to avoid the
    // allocation), one above it is rejected
    let r = bloom_filter_insert(
        &args(&["BF.INSERT", "k", "CAPACITY", "4294967294", "NOCREATE", "ITEMS", "x"]),
        &mut f,
        &c,
    );
    assert_eq!(r, Err(BloomError::NotFound));
    let r = bloom_filter_insert(
        &args(&["BF.INSERT", "k", "CAPACITY", "4294967295", "NOCREATE", "ITEMS", "x"]),
        &mut f,
        &c,
    );
    assert_eq!(r, Err(BloomError::InvalidCapacity));
}

#[test]
fn expansion_boundaries() {
    let c = cfg();
    let mut f: Option<BloomFilterType> = None;
    let r = bloom_filter_reserve(
        &args(&["BF.RESERVE", "k", "0.1", "10", "EXPANSION", "11"]),
        &mut f,
        &c,
    );
    assert_eq!(r, Err(BloomError::InvalidExpansion));
    let r = bloom_filter_reserve(
        &args(&["BF.RESERVE", "k", "0.1", "10", "EXPANSION", "0"]),
        &mut f,
        &c,
    );
    assert_eq!(r, Err(BloomError::InvalidExpansion));
    let r = bloom_filter_reserve(
        &args(&["BF.RESERVE", "k", "0.1", "10", "EXPANSION", "10"]),
        &mut f,
        &c,
    );
    assert_eq!(r, Ok(Reply::Done));
}

#[test]
fn reserve_errors() {
    let c = cfg();
    let mut f: Option<BloomFilterType> = None;
    let r = bloom_filter_reserve(&args(&["BF.RESERVE", "k"]), &mut f, &c);
    assert_eq!(r, Err(BloomError::WrongArity));
    let r = bloom_filter_reserve(
        &args(&["BF.RESERVE", "k", "0.1", "10", "BOGUS"]),
        &mut f,
        &c,
    );
    assert_eq!(r, Err(BloomError::SyntaxError));
    let r = bloom_filter_reserve(
        &args(&["BF.RESERVE", "k", "0.1", "10", "NONSCALING", "2"]),
        &mut f,
        &c,
    );
    assert_eq!(r, Err(BloomError::SyntaxError));
    let r = bloom_filter_reserve(&args(&["BF.RESERVE", "k", "0.1", "10"]), &mut f, &c);
    assert_eq!(r, Ok(Reply::Done));
    let r = bloom_filter_reserve(&args(&["BF.RESERVE", "k", "0.1", "10"]), &mut f, &c);
    assert_eq!(r, Err(BloomError::AlreadyExists));
}

#[test]
fn insert_errors_and_nocreate() {
    let c = cfg();
    let mut f: Option<BloomFilterType> = None;
    let r = bloom_filter_insert(&args(&["BF.INSERT", "k", "ITEMS"]), &mut f, &c);
    assert_eq!(r, Err(BloomError::WrongArity));
    let r = bloom_filter_insert(&args(&["BF.INSERT", "k", "ITEMS", "x", "BOGUS"]), &mut f, &c);
    assert_eq!(r, Ok(Reply::IntArray(vec![1, 1])));
    let mut f2: Option<BloomFilterType> = None;
    let r = bloom_filter_insert(&args(&["BF.INSERT", "k", "BOGUS", "ITEMS", "x"]), &mut f2, &c);
    assert_eq!(r, Err(BloomError::SyntaxError));
    let r = bloom_filter_insert(
        &args(&["BF.INSERT", "k", "NOCREATE", "ITEMS", "x"]),
        &mut f2,
        &c,
    );
    assert_eq!(r, Err(BloomError::NotFound));
    assert!(f2.is_none());
    // options without a terminating ITEMS keyword
    let r = bloom_filter_insert(&args(&["BF.INSERT", "k", "CAPACITY", "5"]), &mut f2, &c);
    assert_eq!(r, Err(BloomError::SyntaxError));
    // NOCREATE against a present key adds normally
    let r = bloom_filter_insert(&args(&["BF.INSERT", "k", "NOCREATE", "ITEMS", "x"]), &mut f, &c);
    assert_eq!(r, Ok(Reply::IntArray(vec![0])));
}

#[test]
fn insert_keywords_case_insensitive() {
    let c = cfg();
    let mut f: Option<BloomFilterType> = None;
    let r = bloom_filter_insert(
        &args(&["BF.INSERT", "k", "capacity", "5", "error", "0.1", "items", "x", "y"]),
        &mut f,
        &c,
    );
    assert_eq!(r, Ok(Reply::IntArray(vec![1, 1])));
    let r = bloom_filter_info(&args(&["BF.INFO", "k", "capacity"]), f.as_ref());
    assert_eq!(r, Ok(Reply::Integer(5)));
}

#[test]
fn multi_add_and_exists() {
    let c = small_cfg();
    let mut f: Option<BloomFilterType> = None;
    let r = bloom_filter_add_value(&args(&["BF.MADD", "k", "a", "b", "a"]), true, &mut f, &c);
    assert_eq!(r, Ok(Reply::IntArray(vec![1, 1, 0])));
    let r = bloom_filter_exists(&args(&["BF.MEXISTS", "k", "a", "b", "c"]), true, f.as_ref());
    assert_eq!(r, Ok(Reply::IntArray(vec![1, 1, 0])));
    let r = bloom_filter_card(&args(&["BF.CARD", "k"]), f.as_ref());
    assert_eq!(r, Ok(Reply::Integer(2)));
}

#[test]
fn absent_key_queries() {
    let f: Option<&BloomFilterType> = None;
    let r = bloom_filter_exists(&args(&["BF.EXISTS", "k", "a"]), false, f);
    assert_eq!(r, Ok(Reply::Integer(0)));
    let r = bloom_filter_exists(&args(&["BF.MEXISTS", "k", "a", "b"]), true, f);
    assert_eq!(r, Ok(Reply::IntArray(vec![0, 0])));
    let r = bloom_filter_card(&args(&["BF.CARD", "k"]), f);
    assert_eq!(r, Ok(Reply::Integer(0)));
    let r = bloom_filter_info(&args(&["BF.INFO", "k"]), f);
    assert_eq!(r, Err(BloomError::NotFound));
}

#[test]
fn arity_errors() {
    let c = cfg();
    let mut f: Option<BloomFilterType> = None;
    let r = bloom_filter_add_value(&args(&["BF.ADD", "k"]), false, &mut f, &c);
    assert_eq!(r, Err(BloomError::WrongArity));
    let r = bloom_filter_add_value(&args(&["BF.ADD", "k", "a", "b"]), false, &mut f, &c);
    assert_eq!(r, Err(BloomError::WrongArity));
    let r = bloom_filter_exists(&args(&["BF.EXISTS", "k"]), false, f.as_ref());
    assert_eq!(r, Err(BloomError::WrongArity));
    let r = bloom_filter_card(&args(&["BF.CARD", "k", "extra"]), f.as_ref());
    assert_eq!(r, Err(BloomError::WrongArity));
    let r = bloom_filter_info(&args(&["BF.INFO", "k", "CAPACITY", "extra"]), f.as_ref());
    assert_eq!(r, Err(BloomError::WrongArity));
}

#[test]
fn info_fields_and_full_report() {
    let c = cfg();
    let mut f: Option<BloomFilterType> = None;
    let r = bloom_filter_reserve(&args(&["BF.RESERVE", "k", "0.01", "50"]), &mut f, &c);
    assert_eq!(r, Ok(Reply::Done));
    let r = bloom_filter_add_value(&args(&["BF.ADD", "k", "a"]), false, &mut f, &c);
    assert_eq!(r, Ok(Reply::Integer(1)));

    let r = bloom_filter_info(&args(&["BF.INFO", "k", "ITEMS"]), f.as_ref());
    assert_eq!(r, Ok(Reply::Integer(1)));
    let r = bloom_filter_info(&args(&["BF.INFO", "k", "FILTERS"]), f.as_ref());
    assert_eq!(r, Ok(Reply::Integer(1)));
    let r = bloom_filter_info(&args(&["BF.INFO", "k", "EXPANSION"]), f.as_ref());
    assert_eq!(r, Ok(Reply::Integer(2)));
    let r = bloom_filter_info(&args(&["BF.INFO", "k", "SIZE"]), f.as_ref());
    let size = match r {
        Ok(Reply::Integer(n)) => n,
        other => panic!("unexpected reply {:?}", other),
    };
    assert!(size > 48);
    let r = bloom_filter_info(&args(&["BF.INFO", "k", "BOGUS"]), f.as_ref());
    assert_eq!(r, Err(BloomError::InvalidInfoValue));

    let r = bloom_filter_info(&args(&["BF.INFO", "k"]), f.as_ref());
    assert_eq!(
        r,
        Ok(Reply::Info(FilterInfo {
            capacity: 50,
            size,
            filters: 1,
            items: 1,
            expansion: 2,
        }))
    );
}

#[test]
fn info_nonscaling_expansion_sentinel() {
    let c = cfg();
    let mut f: Option<BloomFilterType> = None;
    let r = bloom_filter_reserve(
        &args(&["BF.RESERVE", "k", "0.01", "10", "NONSCALING"]),
        &mut f,
        &c,
    );
    assert_eq!(r, Ok(Reply::Done));
    let r = bloom_filter_info(&args(&["BF.INFO", "k", "EXPANSION"]), f.as_ref());
    assert_eq!(r, Ok(Reply::Integer(-1)));
}

#[test]
fn add_on_absent_key_creates_with_defaults() {
    let c = small_cfg();
    let mut f: Option<BloomFilterType> = None;
    let r = bloom_filter_add_value(&args(&["BF.ADD", "k", "a"]), false, &mut f, &c);
    assert_eq!(r, Ok(Reply::Integer(1)));
    let r = bloom_filter_info(&args(&["BF.INFO", "k", "CAPACITY"]), f.as_ref());
    assert_eq!(r, Ok(Reply::Integer(100)));
    let r = bloom_filter_info(&args(&["BF.INFO", "k", "EXPANSION"]), f.as_ref());
    assert_eq!(r, Ok(Reply::Integer(2)));
}
