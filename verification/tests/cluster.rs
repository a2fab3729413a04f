use tikv_client::memory::MemoryCluster;
use tikv_client::range::{KeyRange, RangeBound};
use tikv_client::{Error, Key, KeyRef, KvPair, Value};

fn pair(key: &[u8], value: &[u8]) -> KvPair {
    KvPair::new(Key::from(key.to_vec()), Value::from(value.to_vec()))
}

#[test]
fn a_new_cluster_has_the_default_partition_alone() {
    let cluster = MemoryCluster::new();
    assert!(cluster.has_partition("default"));
    assert!(!cluster.has_partition("write"));
    assert!(!cluster.has_partition(""));
    assert_eq!(cluster.scan("default", &KeyRange::full(), u32::MAX, false, false), Ok(vec![]));
}

#[test]
fn the_cluster_answers_gets_with_what_it_holds() {
    let mut cluster = MemoryCluster::new();
    assert_eq!(cluster.get("default", KeyRef::from("k")), Ok(None));
    assert_eq!(cluster.put("default", Key::from("k"), Value::from("v")), Ok(()));
    assert_eq!(cluster.get("default", KeyRef::from("k")), Ok(Some(Value::from("v"))));
    assert_eq!(cluster.get("other", KeyRef::from("k")), Err(Error::Dispatch));
    assert_eq!(cluster.delete("default", KeyRef::from("k")), Ok(()));
    assert_eq!(cluster.get("default", KeyRef::from("k")), Ok(None));
}

#[test]
fn the_cluster_keeps_keys_in_byte_order() {
    let mut cluster = MemoryCluster::new();
    for key in [&[0x80u8][..], &[0x00], &[0x7f, 0x00], &[], &[0x7f], &[0xff, 0xff], &[0x00, 0x01]] {
        assert_eq!(cluster.put("default", Key::from(key.to_vec()), Value::from("x")), Ok(()));
    }
    let keys: Vec<Vec<u8>> = cluster
        .scan("default", &KeyRange::full(), u32::MAX, true, false)
        .unwrap()
        .into_iter()
        .map(|pair| pair.into_inner().0.into_bytes())
        .collect();
    assert_eq!(
        keys,
        vec![
            vec![],
            vec![0x00],
            vec![0x00, 0x01],
            vec![0x7f],
            vec![0x7f, 0x00],
            vec![0x80],
            vec![0xff, 0xff],
        ]
    );
}

#[test]
fn the_cluster_counts_the_parts_of_a_batch() {
    let mut cluster = MemoryCluster::new();
    assert_eq!(
        cluster.batch_put("default", vec![pair(b"a", b"1"), pair(b"b", b"2"), pair(b"a", b"3")]),
        Ok(3)
    );
    assert_eq!(
        cluster.batch_get("default", &vec![KeyRef::from("a"), KeyRef::from("b")]),
        Ok(vec![pair(b"a", b"3"), pair(b"b", b"2")])
    );
    assert_eq!(
        cluster.batch_delete("default", &vec![KeyRef::from("a"), KeyRef::from("z")]),
        Ok(2)
    );
    assert_eq!(cluster.batch_put("default", vec![]), Ok(0));
    assert_eq!(cluster.batch_delete("default", &vec![]), Ok(0));
    assert_eq!(cluster.batch_put("none", vec![pair(b"a", b"1")]), Err(Error::Dispatch));
    assert_eq!(cluster.batch_delete("none", &vec![KeyRef::from("a")]), Err(Error::Dispatch));
    assert_eq!(
        cluster.scan("default", &KeyRange::full(), u32::MAX, false, false),
        Ok(vec![pair(b"b", b"2")])
    );
}

#[test]
fn the_cluster_scans_many_keys_in_both_orders() {
    let mut cluster = MemoryCluster::new();
    let mut expected = Vec::new();
    for i in 0..200u8 {
        let n = i.wrapping_mul(37);
        assert_eq!(cluster.put("default", Key::from(vec![n]), Value::from(vec![i])), Ok(()));
    }
    for n in 0..=255u8 {
        if let Some(i) = (0..200u8).rev().find(|i| i.wrapping_mul(37) == n) {
            expected.push(pair(&[n], &[i]));
        }
    }
    assert_eq!(
        cluster.scan("default", &KeyRange::full(), u32::MAX, false, false),
        Ok(expected.clone())
    );
    let low = [40u8];
    let high = [90u8];
    let range = KeyRange::new(
        RangeBound::Exclusive(KeyRef::from(&low[..])),
        RangeBound::Inclusive(KeyRef::from(&high[..])),
    );
    let mut within: Vec<KvPair> = expected
        .iter()
        .filter(|pair| pair.key().as_bytes() > &low[..] && pair.key().as_bytes() <= &high[..])
        .cloned()
        .collect();
    assert_eq!(cluster.scan("default", &range, u32::MAX, false, false), Ok(within.clone()));
    assert_eq!(cluster.scan("default", &range, 5, false, false), Ok(within[..5].to_vec()));
    within.reverse();
    assert_eq!(cluster.scan("default", &range, u32::MAX, false, true), Ok(within.clone()));
    assert_eq!(cluster.scan("default", &range, 5, false, true), Ok(within[..5].to_vec()));
    assert_eq!(cluster.delete_range("default", &range), Ok(()));
    assert_eq!(cluster.scan("default", &range, u32::MAX, false, false), Ok(vec![]));
    let left = cluster.scan("default", &KeyRange::full(), u32::MAX, false, false).unwrap();
    assert_eq!(left.len(), expected.len() - within.len());
}

#[test]
fn partitions_of_the_cluster_are_apart() {
    let mut cluster = MemoryCluster::new();
    assert!(cluster.add_partition("write"));
    assert!(cluster.add_partition("lock"));
    assert!(!cluster.add_partition("default"));
    assert_eq!(cluster.put("write", Key::from("k"), Value::from("w")), Ok(()));
    assert_eq!(cluster.put("lock", Key::from("k"), Value::from("l")), Ok(()));
    assert_eq!(cluster.get("write", KeyRef::from("k")), Ok(Some(Value::from("w"))));
    assert_eq!(cluster.get("lock", KeyRef::from("k")), Ok(Some(Value::from("l"))));
    assert_eq!(cluster.get("default", KeyRef::from("k")), Ok(None));
    assert_eq!(cluster.delete_range("write", &KeyRange::full()), Ok(()));
    assert_eq!(cluster.get("write", KeyRef::from("k")), Ok(None));
    assert_eq!(cluster.get("lock", KeyRef::from("k")), Ok(Some(Value::from("l"))));
    assert_eq!(
        cluster.batch_scan("lock", &vec![KeyRange::full(), KeyRange::full()], 1, true, false),
        Ok(vec![
            vec![KvPair::new(Key::from("k"), Value::empty())],
            vec![KvPair::new(Key::from("k"), Value::empty())],
        ])
    );
}
