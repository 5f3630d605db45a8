use wirehole::cache::{ttl_for, Cache, DEFAULT_TTL};
use wirehole::record::{IpAddress, RecordData, RecordType, ResolvedRecord};

fn address(name: &str, ttl: u32, bits: u32) -> ResolvedRecord {
    ResolvedRecord {
        name: name.to_string(),
        class: 1,
        ttl,
        data: RecordData::Address(IpAddress::V4(bits)),
    }
}

#[test]
fn new_cache_is_empty() {
    let cache = Cache::new();
    assert_eq!(cache.len(), 0);
    assert_eq!(cache.get_at(&RecordType::A, "a.test.", 0), None);
    let other = wirehole::cache::new();
    assert_eq!(other.len(), 0);
}

#[test]
fn entry_is_visible_strictly_before_its_expiry() {
    let mut cache = Cache::new();
    let records = vec![address("a.test.", 10, 1)];
    cache.insert_at(&RecordType::A, "a.test.", &records, 1_000);
    assert_eq!(cache.get_at(&RecordType::A, "a.test.", 1_000), Some(vec![address("a.test.", 10, 1)]));
    assert_eq!(cache.get_at(&RecordType::A, "a.test.", 10_999), Some(vec![address("a.test.", 10, 1)]));
    assert_eq!(cache.get_at(&RecordType::A, "a.test.", 11_000), None);
    assert_eq!(cache.get_at(&RecordType::A, "a.test.", 11_001), None);
    assert_eq!(cache.get_at(&RecordType::A, "a.test.", i64::MAX), None);
    assert_eq!(cache.get_at(&RecordType::A, "a.test.", i64::MIN), Some(records));
}

#[test]
fn stale_entry_is_hidden_though_not_swept() {
    let mut cache = Cache::new();
    cache.insert_at(&RecordType::A, "a.test.", &[address("a.test.", 1, 1)], 0);
    assert_eq!(cache.get_at(&RecordType::A, "a.test.", 1_000), None);
    assert_eq!(cache.len(), 1);
    assert_eq!(cache.get_at(&RecordType::A, "a.test.", 999), Some(vec![address("a.test.", 1, 1)]));
}

#[test]
fn lifetime_is_the_largest_ttl() {
    let records = vec![address("a.", 5, 1), address("a.", 30, 2), address("a.", 7, 3)];
    assert_eq!(ttl_for(&records), 30);
    assert_eq!(ttl_for(&[address("a.", 0, 1)]), 0);
    assert_eq!(ttl_for(&[address("a.", u32::MAX, 1), address("a.", 1, 1)]), u32::MAX);
    let mut cache = Cache::new();
    cache.insert_at(&RecordType::A, "a.", &records, 0);
    assert!(cache.get_at(&RecordType::A, "a.", 29_999).is_some());
    assert!(cache.get_at(&RecordType::A, "a.", 30_000).is_none());
}

#[test]
fn lifetime_defaults_without_records() {
    assert_eq!(DEFAULT_TTL, 3600);
    assert_eq!(ttl_for(&[]), 3600);
    let mut cache = Cache::new();
    cache.insert_at(&RecordType::AAAA, "none.test.", &[], 0);
    assert_eq!(cache.len(), 1);
    assert_eq!(cache.get_at(&RecordType::AAAA, "none.test.", 3_599_999), Some(vec![]));
    assert_eq!(cache.get_at(&RecordType::AAAA, "none.test.", 3_600_000), None);
}

#[test]
fn entry_with_zero_ttl_is_never_visible() {
    let mut cache = Cache::new();
    cache.insert_at(&RecordType::A, "zero.test.", &[address("zero.test.", 0, 9)], 500);
    assert_eq!(cache.get_at(&RecordType::A, "zero.test.", 500), None);
    assert_eq!(cache.get_at(&RecordType::A, "zero.test.", 499), Some(vec![address("zero.test.", 0, 9)]));
}

#[test]
fn second_insert_replaces_the_first() {
    let mut cache = Cache::new();
    cache.insert_at(&RecordType::A, "a.test.", &[address("a.test.", 100, 1), address("a.test.", 100, 2)], 0);
    cache.insert_at(&RecordType::A, "a.test.", &[address("a.test.", 10, 3)], 0);
    assert_eq!(cache.len(), 1);
    assert_eq!(cache.get_at(&RecordType::A, "a.test.", 9_999), Some(vec![address("a.test.", 10, 3)]));
    assert_eq!(cache.get_at(&RecordType::A, "a.test.", 10_000), None);
}

#[test]
fn either_order_of_two_inserts_leaves_the_last() {
    let short = vec![address("race.test.", 10, 1)];
    let long = vec![address("race.test.", 100, 2)];

    let mut cache = Cache::new();
    cache.insert_at(&RecordType::A, "race.test.", &short, 0);
    cache.insert_at(&RecordType::A, "race.test.", &long, 0);
    assert_eq!(cache.get_at(&RecordType::A, "race.test.", 99_999), Some(vec![address("race.test.", 100, 2)]));
    assert_eq!(cache.get_at(&RecordType::A, "race.test.", 100_000), None);

    let mut cache = Cache::new();
    cache.insert_at(&RecordType::A, "race.test.", &long, 0);
    cache.insert_at(&RecordType::A, "race.test.", &short, 0);
    assert_eq!(cache.get_at(&RecordType::A, "race.test.", 9_999), Some(vec![address("race.test.", 10, 1)]));
    assert_eq!(cache.get_at(&RecordType::A, "race.test.", 10_000), None);
    assert_eq!(cache.len(), 1);
}

#[test]
fn keys_differ_by_type_and_by_name() {
    let mut cache = Cache::new();
    cache.insert_at(&RecordType::A, "a.test.", &[address("a.test.", 10, 1)], 0);
    cache.insert_at(&RecordType::AAAA, "a.test.", &[address("a.test.", 10, 2)], 0);
    cache.insert_at(&RecordType::A, "A.test.", &[address("A.test.", 10, 3)], 0);
    cache.insert_at(&RecordType::Other(15), "a.test.", &[address("a.test.", 10, 4)], 0);
    cache.insert_at(&RecordType::Other(16), "a.test.", &[address("a.test.", 10, 5)], 0);
    assert_eq!(cache.len(), 5);
    assert_eq!(cache.get_at(&RecordType::A, "a.test.", 0), Some(vec![address("a.test.", 10, 1)]));
    assert_eq!(cache.get_at(&RecordType::AAAA, "a.test.", 0), Some(vec![address("a.test.", 10, 2)]));
    assert_eq!(cache.get_at(&RecordType::A, "A.test.", 0), Some(vec![address("A.test.", 10, 3)]));
    assert_eq!(cache.get_at(&RecordType::Other(15), "a.test.", 0), Some(vec![address("a.test.", 10, 4)]));
    assert_eq!(cache.get_at(&RecordType::Other(16), "a.test.", 0), Some(vec![address("a.test.", 10, 5)]));
    assert_eq!(cache.get_at(&RecordType::A, "a.test", 0), None);
}

#[test]
fn sweep_takes_out_exactly_the_stale_entries() {
    let mut cache = Cache::new();
    cache.insert_at(&RecordType::A, "one.test.", &[address("one.test.", 10, 1)], 0);
    cache.insert_at(&RecordType::A, "two.test.", &[address("two.test.", 20, 2)], 0);
    cache.insert_at(&RecordType::A, "three.test.", &[address("three.test.", 30, 3)], 0);
    assert_eq!(cache.clean_at(9_999), 0);
    assert_eq!(cache.len(), 3);
    // one.test. is stale, two.test. goes stale at this very instant
    assert_eq!(cache.clean_at(20_000), 2);
    assert_eq!(cache.len(), 1);
    assert_eq!(cache.get_at(&RecordType::A, "one.test.", 0), None);
    assert_eq!(cache.get_at(&RecordType::A, "two.test.", 0), None);
    assert_eq!(cache.get_at(&RecordType::A, "three.test.", 20_000), Some(vec![address("three.test.", 30, 3)]));
    assert_eq!(cache.clean_at(20_000), 0);
    assert_eq!(cache.clean_at(30_000), 1);
    assert_eq!(cache.len(), 0);
    assert_eq!(cache.clean_at(i64::MAX), 0);
}

#[test]
fn sweep_keeps_the_entry_that_expires_a_millisecond_later() {
    let mut cache = Cache::new();
    cache.insert_at(&RecordType::A, "a.test.", &[address("a.test.", 1, 1)], 0);
    assert_eq!(cache.clean_at(999), 0);
    assert_eq!(cache.get_at(&RecordType::A, "a.test.", 999), Some(vec![address("a.test.", 1, 1)]));
    assert_eq!(cache.clean_at(1_000), 1);
}

#[test]
fn expiry_is_exact_at_the_ends_of_the_clock() {
    let mut cache = Cache::new();
    cache.insert_at(&RecordType::A, "late.test.", &[address("late.test.", u32::MAX, 1)], i64::MAX);
    assert_eq!(cache.get_at(&RecordType::A, "late.test.", i64::MAX), Some(vec![address("late.test.", u32::MAX, 1)]));
    assert_eq!(cache.clean_at(i64::MAX), 0);
    cache.insert_at(&RecordType::A, "early.test.", &[address("early.test.", 1, 1)], i64::MIN);
    assert_eq!(cache.get_at(&RecordType::A, "early.test.", i64::MIN + 999), Some(vec![address("early.test.", 1, 1)]));
    assert_eq!(cache.get_at(&RecordType::A, "early.test.", i64::MIN + 1_000), None);
    assert_eq!(cache.clean_at(0), 1);
    assert_eq!(cache.len(), 1);
}

#[test]
fn cache_runs_on_the_wall_clock() {
    let mut cache = Cache::new();
    cache.insert(&RecordType::A, "live.test.", &[address("live.test.", 3600, 1)]);
    cache.insert(&RecordType::A, "dead.test.", &[address("dead.test.", 0, 2)]);
    assert_eq!(cache.get(&RecordType::A, "live.test."), Some(vec![address("live.test.", 3600, 1)]));
    assert_eq!(cache.get(&RecordType::A, "dead.test."), None);
    assert_eq!(cache.get(&RecordType::A, "absent.test."), None);
    assert_eq!(cache.len(), 2);
    assert_eq!(cache.clean(), 1);
    assert_eq!(cache.len(), 1);
    assert_eq!(cache.get(&RecordType::A, "live.test."), Some(vec![address("live.test.", 3600, 1)]));
}

#[test]
fn cached_records_keep_their_payload() {
    let mut cache = Cache::new();
    let records = vec![
        ResolvedRecord {
            name: "alias.test.".to_string(),
            class: 1,
            ttl: 60,
            data: RecordData::Raw { rtype: 5, rdata: vec![4, b'h', b'o', b's', b't', 0] },
        },
        ResolvedRecord {
            name: "host.".to_string(),
            class: 3,
            ttl: 30,
            data: RecordData::Address(IpAddress::V6(1)),
        },
    ];
    cache.insert_at(&RecordType::AAAA, "alias.test.", &records, 0);
    assert_eq!(cache.get_at(&RecordType::AAAA, "alias.test.", 59_999), Some(records));
    assert_eq!(cache.get_at(&RecordType::AAAA, "alias.test.", 60_000), None);
}
