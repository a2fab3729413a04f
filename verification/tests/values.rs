use tikv_client::order::{compare, Side};
use tikv_client::range::{KeyRange, RangeBound};
use tikv_client::raw::ColumnFamily;
use tikv_client::{Config, Error, Key, KeyRef, KvPair, Value};

#[test]
fn keys_are_ordered_byte_by_byte() {
    assert_eq!(compare(b"", b""), Side::Same);
    assert_eq!(compare(b"", b"a"), Side::Before);
    assert_eq!(compare(b"a", b""), Side::After);
    assert_eq!(compare(b"abc", b"abc"), Side::Same);
    assert_eq!(compare(b"ab", b"abc"), Side::Before);
    assert_eq!(compare(b"abc", b"ab"), Side::After);
    assert_eq!(compare(b"abc", b"abd"), Side::Before);
    assert_eq!(compare(b"b", b"abc"), Side::After);
    assert_eq!(compare(&[0x7f], &[0x80]), Side::Before);
    assert_eq!(compare(&[0xff], &[0x00, 0xff]), Side::After);
}

#[test]
fn a_range_contains_what_lies_between_its_bounds() {
    let a = KeyRef::from("b");
    let b = KeyRef::from("d");
    let closed = KeyRange::from(a..=b);
    assert!(!closed.contains(b"a"));
    assert!(closed.contains(b"b"));
    assert!(closed.contains(b"c"));
    assert!(closed.contains(b"d"));
    assert!(!closed.contains(b"da"));
    let half = KeyRange::from(a..b);
    assert!(half.contains(b"b"));
    assert!(half.contains(b"cz"));
    assert!(!half.contains(b"d"));
    let open = KeyRange::new(RangeBound::Exclusive(a), RangeBound::Exclusive(b));
    assert!(!open.contains(b"b"));
    assert!(open.contains(b"b\0"));
    assert!(!open.contains(b"d"));
    assert!(KeyRange::full().contains(b""));
    assert!(KeyRange::full().contains(b"anything"));
    let from = KeyRange::new(RangeBound::Inclusive(b), RangeBound::Unbounded);
    assert!(from.contains(b"d"));
    assert!(from.contains(b"z"));
    assert!(!from.contains(b"c"));
    assert!(from.admits_to_end(b"c"));
    assert!(!from.admits_from_start(b"c"));
}

#[test]
fn an_inclusive_range_keeps_its_two_ends() {
    let range = KeyRange::from(KeyRef::from("low")..=KeyRef::from("top"));
    assert_eq!(range.start(), RangeBound::Inclusive(KeyRef::from("low")));
    assert_eq!(range.end(), RangeBound::Inclusive(KeyRef::from("top")));
    let range = KeyRange::from(KeyRef::from("low")..KeyRef::from("top"));
    assert_eq!(range.start(), RangeBound::Inclusive(KeyRef::from("low")));
    assert_eq!(range.end(), RangeBound::Exclusive(KeyRef::from("top")));
    assert_eq!(KeyRange::full().start(), RangeBound::Unbounded);
    assert_eq!(KeyRange::full().end(), RangeBound::Unbounded);
}

#[test]
fn a_backwards_range_is_empty() {
    let range = KeyRange::from(KeyRef::from("d")..KeyRef::from("b"));
    for key in [&b"a"[..], b"b", b"c", b"d", b"e"] {
        assert!(!range.contains(key));
    }
    let point = KeyRange::from(KeyRef::from("c")..KeyRef::from("c"));
    assert!(!point.contains(b"c"));
    let single = KeyRange::from(KeyRef::from("c")..=KeyRef::from("c"));
    assert!(single.contains(b"c"));
}

#[test]
fn keys_and_values_are_their_bytes() {
    assert_eq!(Key::from("TiKV").as_bytes(), b"TiKV");
    assert_eq!(Key::from(String::from("TiKV")).into_bytes(), b"TiKV".to_vec());
    assert_eq!(Key::from(b"TiKV".to_vec()), Key::from("TiKV"));
    assert_eq!(Key::from("é").as_bytes(), &[0xc3, 0xa9]);
    assert_eq!(Value::from("Rust").as_bytes(), b"Rust");
    assert_eq!(Value::from(String::from("Rust")).into_bytes(), b"Rust".to_vec());
    assert_eq!(Value::from(vec![1u8, 2, 3]).as_bytes(), &[1, 2, 3]);
    assert_eq!(Value::empty().as_bytes(), b"");
    let key = Key::from("TiKV");
    assert_eq!(key.as_key_ref().as_bytes(), b"TiKV");
    assert_eq!(KeyRef::from(&key), KeyRef::from("TiKV"));
    assert_eq!(KeyRef::from("TiKV").to_key(), key);
    assert_eq!(key.clone(), key);
    let bytes = vec![9u8, 8];
    assert_eq!(KeyRef::from(&bytes).as_bytes(), &[9, 8]);
    assert_eq!(KeyRef::from(&bytes[..1]).as_bytes(), &[9]);
    let text = String::from("k");
    assert_eq!(KeyRef::from(&text).as_bytes(), b"k");
    assert!(KeyRef::from("a") < KeyRef::from("b"));
}

#[test]
fn a_pair_keeps_its_key_and_its_value() {
    let pair = KvPair::from((Key::from("TiDB"), Value::from("Go")));
    assert_eq!(pair.key(), &Key::from("TiDB"));
    assert_eq!(pair.value(), &Value::from("Go"));
    assert_eq!(pair, KvPair::new(Key::from("TiDB"), Value::from("Go")));
    assert_eq!(pair, KvPair::from((b"TiDB".to_vec(), b"Go".to_vec())));
    assert_eq!(pair, KvPair::from((String::from("TiDB"), String::from("Go"))));
    assert_eq!(pair.clone(), pair);
    assert_eq!(pair.into_inner(), (Key::from("TiDB"), Value::from("Go")));
}

#[test]
fn a_column_family_is_its_name() {
    assert_eq!(ColumnFamily::from("write").name(), "write");
    assert_eq!(ColumnFamily::from(String::from("write")).name(), "write");
    assert_eq!(ColumnFamily::from(&String::from("lock")).name(), "lock");
    assert_eq!(ColumnFamily::default().name(), "");
    let cf = ColumnFamily::from("write");
    assert_eq!(cf.clone(), cf);
}

#[test]
fn a_config_keeps_its_endpoints() {
    let config = Config::new(vec!["192.168.0.100", "192.168.0.101"]);
    assert_eq!(
        config.endpoints(),
        &vec![String::from("192.168.0.100"), String::from("192.168.0.101")]
    );
    assert!(config.has_endpoints());
    assert_eq!(config.clone(), config);
    assert!(!Config::default().has_endpoints());
    assert!(Config::default().endpoints().is_empty());
}

#[test]
fn errors_describe_themselves() {
    assert_eq!(Error::Connection.describe(), "could not connect to the cluster");
    assert_eq!(Error::NotFound.describe(), "key not found");
    assert_eq!(Error::Dispatch.describe(), "the request could not be dispatched");
    assert_eq!(Error::PartialBatch.describe(), "the batch was only partially applied");
}

#[test]
fn key_refs_compare_byte_wise() {
    assert_eq!(KeyRef::from("a").compare(KeyRef::from("b")), Side::Before);
    assert_eq!(KeyRef::from("b").compare(KeyRef::from("a")), Side::After);
    assert_eq!(KeyRef::from("ab").compare(KeyRef::from("ab")), Side::Same);
    assert_eq!(KeyRef::from("ab").compare(KeyRef::from("abc")), Side::Before);
    assert_eq!(KeyRef::from(&[0xffu8][..]).compare(KeyRef::from("z")), Side::After);
}
