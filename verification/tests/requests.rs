use tikv_client::memory::MemoryCluster;
use tikv_client::range::{KeyRange, RangeBound};
use tikv_client::raw::{Client, ColumnFamily, Get};
use tikv_client::{Config, Error, Key, KeyRef, KvPair, Value};

fn client() -> Client {
    let cluster = MemoryCluster::new();
    Client::new(&Config::new(vec!["192.168.0.100:2379", "192.168.0.101:2379"]))
        .execute(&cluster)
        .unwrap()
}

fn pair(key: &str, value: &str) -> KvPair {
    KvPair::from((Key::from(key), Value::from(value)))
}

fn key_only(key: &str) -> KvPair {
    KvPair::new(Key::from(key), Value::empty())
}

/// A cluster with the fruits in its default partition.
fn orchard(client: &Client) -> MemoryCluster {
    let mut cluster = MemoryCluster::new();
    for (key, value) in [
        ("cherry", "red"),
        ("apple", "green"),
        ("elder", "black"),
        ("banana", "yellow"),
        ("date", "brown"),
    ] {
        assert_eq!(client.put(key, value).execute(&mut cluster), Ok(()));
    }
    cluster
}

#[test]
fn put_then_get_returns_the_value() {
    let client = client();
    let mut cluster = MemoryCluster::new();
    assert_eq!(client.put("TiKV", "Rust").execute(&mut cluster), Ok(()));
    assert_eq!(client.get("TiKV").execute(&cluster), Ok(Value::from("Rust")));
}

#[test]
fn put_accepts_bytes_and_owned_text() {
    let client = client();
    let mut cluster = MemoryCluster::new();
    assert_eq!(client.put(b"TiKV".to_vec(), b"Rust".to_vec()).execute(&mut cluster), Ok(()));
    assert_eq!(
        client.put(String::from("TiDB"), String::from("Go")).execute(&mut cluster),
        Ok(())
    );
    assert_eq!(client.get(&b"TiKV"[..]).execute(&cluster), Ok(Value::from(b"Rust".to_vec())));
    let owned = String::from("TiDB");
    assert_eq!(client.get(&owned).execute(&cluster), Ok(Value::from("Go")));
    let key = Key::from("TiDB");
    assert_eq!(client.get(&key).execute(&cluster), Ok(Value::from("Go")));
    let bytes = b"TiKV".to_vec();
    assert_eq!(client.get(&bytes).execute(&cluster), Ok(Value::from("Rust")));
}

#[test]
fn last_write_wins() {
    let client = client();
    let mut cluster = MemoryCluster::new();
    assert_eq!(client.put("k", "first").execute(&mut cluster), Ok(()));
    assert_eq!(client.put("k", "second").execute(&mut cluster), Ok(()));
    assert_eq!(client.get("k").execute(&cluster), Ok(Value::from("second")));
    assert_eq!(
        client.scan(KeyRange::full(), None).execute(&cluster),
        Ok(vec![pair("k", "second")])
    );
}

#[test]
fn get_of_a_missing_key_is_not_found() {
    let client = client();
    let cluster = MemoryCluster::new();
    assert_eq!(client.get("nothing").execute(&cluster), Err(Error::NotFound));
}

#[test]
fn delete_is_idempotent() {
    let client = client();
    let mut cluster = MemoryCluster::new();
    assert_eq!(client.delete("k").execute(&mut cluster), Ok(()));
    assert_eq!(client.put("k", "v").execute(&mut cluster), Ok(()));
    assert_eq!(client.delete("k").execute(&mut cluster), Ok(()));
    assert_eq!(client.get("k").execute(&cluster), Err(Error::NotFound));
    assert_eq!(client.delete("k").execute(&mut cluster), Ok(()));
    assert_eq!(client.get("k").execute(&cluster), Err(Error::NotFound));
}

#[test]
fn batch_get_omits_missing_keys() {
    let client = client();
    let mut cluster = MemoryCluster::new();
    assert_eq!(client.put("k1", "v1").execute(&mut cluster), Ok(()));
    assert_eq!(
        client.batch_get(vec!["k1", "k2"]).execute(&cluster),
        Ok(vec![pair("k1", "v1")])
    );
}

#[test]
fn batch_get_keeps_the_order_of_the_keys_and_repeats() {
    let client = client();
    let cluster = orchard(&client);
    assert_eq!(
        client.batch_get(vec!["date", "fig", "apple", "date"]).execute(&cluster),
        Ok(vec![pair("date", "brown"), pair("apple", "green"), pair("date", "brown")])
    );
    assert_eq!(client.batch_get(Vec::<&str>::new()).execute(&cluster), Ok(vec![]));
}

#[test]
fn batch_put_applies_every_pair_and_the_later_of_two() {
    let client = client();
    let mut cluster = MemoryCluster::new();
    let request = client.batch_put(vec![
        (String::from("b"), String::from("1")),
        (String::from("a"), String::from("2")),
        (String::from("b"), String::from("3")),
    ]);
    assert_eq!(request.execute(&mut cluster), Ok(()));
    assert_eq!(
        client.scan(KeyRange::full(), None).execute(&cluster),
        Ok(vec![pair("a", "2"), pair("b", "3")])
    );
    let bytes = client.batch_put(vec![(b"c".to_vec(), b"4".to_vec())]);
    assert_eq!(bytes.execute(&mut cluster), Ok(()));
    let pairs = client.batch_put(vec![pair("d", "5")]);
    assert_eq!(pairs.execute(&mut cluster), Ok(()));
    assert_eq!(client.get("c").execute(&cluster), Ok(Value::from("4")));
    assert_eq!(client.get("d").execute(&cluster), Ok(Value::from("5")));
}

#[test]
fn batch_delete_takes_present_and_absent_keys() {
    let client = client();
    let mut cluster = orchard(&client);
    assert_eq!(
        client.batch_delete(vec!["apple", "fig", "date", "apple"]).execute(&mut cluster),
        Ok(())
    );
    assert_eq!(
        client.scan(KeyRange::full(), None).execute(&cluster),
        Ok(vec![pair("banana", "yellow"), pair("cherry", "red"), pair("elder", "black")])
    );
}

#[test]
fn scan_of_an_inclusive_range_returns_its_keys_ascending() {
    let client = client();
    let cluster = orchard(&client);
    let range = KeyRef::from("banana")..=KeyRef::from("date");
    assert_eq!(
        client.scan(range, None).execute(&cluster),
        Ok(vec![pair("banana", "yellow"), pair("cherry", "red"), pair("date", "brown")])
    );
}

#[test]
fn reverse_scan_returns_the_same_keys_descending() {
    let client = client();
    let cluster = orchard(&client);
    let range = KeyRef::from("banana")..=KeyRef::from("date");
    assert_eq!(
        client.scan(range, None).reverse().execute(&cluster),
        Ok(vec![pair("date", "brown"), pair("cherry", "red"), pair("banana", "yellow")])
    );
}

#[test]
fn scan_of_a_half_open_range_leaves_its_end_out() {
    let client = client();
    let cluster = orchard(&client);
    let range = KeyRef::from("banana")..KeyRef::from("date");
    assert_eq!(
        client.scan(range, None).execute(&cluster),
        Ok(vec![pair("banana", "yellow"), pair("cherry", "red")])
    );
}

#[test]
fn scan_bounds_between_keys_and_exclusive_start() {
    let client = client();
    let cluster = orchard(&client);
    let between = KeyRef::from("b")..=KeyRef::from("d");
    assert_eq!(
        client.scan(between, None).execute(&cluster),
        Ok(vec![pair("banana", "yellow"), pair("cherry", "red")])
    );
    let after_banana = KeyRange::new(
        RangeBound::Exclusive(KeyRef::from("banana")),
        RangeBound::Unbounded,
    );
    assert_eq!(
        client.scan(after_banana, None).execute(&cluster),
        Ok(vec![pair("cherry", "red"), pair("date", "brown"), pair("elder", "black")])
    );
    let up_to_banana = KeyRange::new(
        RangeBound::Unbounded,
        RangeBound::Inclusive(KeyRef::from("banana")),
    );
    assert_eq!(
        client.scan(up_to_banana, None).execute(&cluster),
        Ok(vec![pair("apple", "green"), pair("banana", "yellow")])
    );
}

#[test]
fn scan_limit_gives_a_prefix() {
    let client = client();
    let cluster = orchard(&client);
    let all = vec![
        pair("apple", "green"),
        pair("banana", "yellow"),
        pair("cherry", "red"),
        pair("date", "brown"),
        pair("elder", "black"),
    ];
    for limit in 0..7u32 {
        let kept = (limit as usize).min(all.len());
        assert_eq!(
            client.scan(KeyRange::full(), limit).execute(&cluster),
            Ok(all[..kept].to_vec())
        );
    }
    assert_eq!(client.scan(KeyRange::full(), None).execute(&cluster), Ok(all.clone()));
    assert_eq!(client.scan(KeyRange::full(), Some(u32::MAX)).execute(&cluster), Ok(all));
}

#[test]
fn reverse_scan_limit_gives_a_prefix_of_the_descending_keys() {
    let client = client();
    let cluster = orchard(&client);
    assert_eq!(
        client.scan(KeyRange::full(), Some(2)).reverse().execute(&cluster),
        Ok(vec![pair("elder", "black"), pair("date", "brown")])
    );
}

#[test]
fn key_only_scan_returns_keys_without_values() {
    let client = client();
    let cluster = orchard(&client);
    let range = KeyRef::from("banana")..=KeyRef::from("date");
    assert_eq!(
        client.scan(range, None).key_only().execute(&cluster),
        Ok(vec![key_only("banana"), key_only("cherry"), key_only("date")])
    );
    assert_eq!(
        client.scan(KeyRange::full(), Some(2)).key_only().reverse().execute(&cluster),
        Ok(vec![key_only("elder"), key_only("date")])
    );
}

#[test]
fn scan_of_an_empty_range_is_empty() {
    let client = client();
    let cluster = orchard(&client);
    let nothing = KeyRef::from("cherry")..KeyRef::from("cherry");
    assert_eq!(client.scan(nothing, None).execute(&cluster), Ok(vec![]));
    let backwards = KeyRef::from("date")..=KeyRef::from("banana");
    assert_eq!(client.scan(backwards, None).execute(&cluster), Ok(vec![]));
}

#[test]
fn batch_scan_keeps_one_run_per_range() {
    let client = client();
    let cluster = orchard(&client);
    let ranges = vec![
        KeyRef::from("a")..=KeyRef::from("c"),
        KeyRef::from("x")..=KeyRef::from("z"),
        KeyRef::from("cherry")..=KeyRef::from("zebra"),
    ];
    assert_eq!(
        client.batch_scan(ranges.clone(), 2).execute(&cluster),
        Ok(vec![
            vec![pair("apple", "green"), pair("banana", "yellow")],
            vec![],
            vec![pair("cherry", "red"), pair("date", "brown")],
        ])
    );
    assert_eq!(
        client.batch_scan(ranges, None).key_only().reverse().execute(&cluster),
        Ok(vec![
            vec![key_only("banana"), key_only("apple")],
            vec![],
            vec![key_only("elder"), key_only("date"), key_only("cherry")],
        ])
    );
}

#[test]
fn partitions_do_not_share_entries() {
    let client = client();
    let mut cluster = MemoryCluster::new();
    assert!(cluster.add_partition("A"));
    assert!(cluster.add_partition("B"));
    assert!(!cluster.add_partition("A"));
    assert_eq!(client.put("k", "v1").cf("A").execute(&mut cluster), Ok(()));
    assert_eq!(client.get("k").cf("B").execute(&cluster), Err(Error::NotFound));
    assert_eq!(client.get("k").execute(&cluster), Err(Error::NotFound));
    assert_eq!(client.get("k").cf("A").execute(&cluster), Ok(Value::from("v1")));
    assert_eq!(
        client.get("k").cf(ColumnFamily::from(String::from("A"))).execute(&cluster),
        Ok(Value::from("v1"))
    );
}

#[test]
fn no_partition_chosen_means_the_default_partition() {
    let client = client();
    let mut cluster = MemoryCluster::new();
    assert!(cluster.has_partition("default"));
    assert_eq!(client.put("k", "v").execute(&mut cluster), Ok(()));
    assert_eq!(client.get("k").cf("default").execute(&cluster), Ok(Value::from("v")));
    assert_eq!(client.get("k").partition_name(), "default");
    assert_eq!(client.get("k").cf("write").partition_name(), "write");
}

#[test]
fn an_unknown_partition_is_a_dispatch_failure() {
    let client = client();
    let mut cluster = orchard(&client);
    assert!(!cluster.has_partition("write"));
    assert_eq!(client.get("apple").cf("write").execute(&cluster), Err(Error::Dispatch));
    assert_eq!(
        client.batch_get(vec!["apple"]).cf("write").execute(&cluster),
        Err(Error::Dispatch)
    );
    assert_eq!(client.put("k", "v").cf("write").execute(&mut cluster), Err(Error::Dispatch));
    assert_eq!(
        client.batch_put(vec![pair("k", "v")]).cf("write").execute(&mut cluster),
        Err(Error::Dispatch)
    );
    assert_eq!(client.delete("apple").cf("write").execute(&mut cluster), Err(Error::Dispatch));
    assert_eq!(
        client.batch_delete(vec!["apple"]).cf("write").execute(&mut cluster),
        Err(Error::Dispatch)
    );
    assert_eq!(
        client.scan(KeyRange::full(), None).cf("write").execute(&cluster),
        Err(Error::Dispatch)
    );
    assert_eq!(
        client.batch_scan(vec![KeyRange::full()], None).cf("write").execute(&cluster),
        Err(Error::Dispatch)
    );
    assert_eq!(
        client.delete_range(KeyRange::full()).cf("write").execute(&mut cluster),
        Err(Error::Dispatch)
    );
    assert_eq!(client.scan(KeyRange::full(), None).execute(&cluster).map(|all| all.len()), Ok(5));
}

#[test]
fn delete_range_removes_the_keys_within() {
    let client = client();
    let mut cluster = orchard(&client);
    let range = KeyRef::from("banana")..KeyRef::from("date");
    assert_eq!(client.delete_range(range).execute(&mut cluster), Ok(()));
    assert_eq!(
        client.scan(KeyRange::full(), None).execute(&cluster),
        Ok(vec![pair("apple", "green"), pair("date", "brown"), pair("elder", "black")])
    );
    let range = KeyRef::from("date")..=KeyRef::from("elder");
    assert_eq!(client.delete_range(range).execute(&mut cluster), Ok(()));
    assert_eq!(
        client.scan(KeyRange::full(), None).execute(&cluster),
        Ok(vec![pair("apple", "green")])
    );
}

#[test]
fn delete_of_an_empty_range_changes_nothing() {
    let client = client();
    let mut cluster = orchard(&client);
    let before = client.scan(KeyRange::full(), None).execute(&cluster);
    let nothing = KeyRef::from("cherry")..KeyRef::from("cherry");
    assert_eq!(client.delete_range(nothing).execute(&mut cluster), Ok(()));
    assert_eq!(client.scan(KeyRange::full(), None).execute(&cluster), before);
    assert_eq!(before.map(|all| all.len()), Ok(5));
}

#[test]
fn get_resolves_what_the_dispatcher_found() {
    assert_eq!(Get::resolve(Ok(Some(Value::from("v")))), Ok(Value::from("v")));
    assert_eq!(Get::resolve(Ok(None)), Err(Error::NotFound));
    assert_eq!(Get::resolve(Err(Error::Dispatch)), Err(Error::Dispatch));
    assert_eq!(Get::resolve(Err(Error::PartialBatch)), Err(Error::PartialBatch));
}

#[test]
fn a_batch_carried_out_in_part_is_a_failure() {
    let client = client();
    let put = client.batch_put(vec![pair("a", "1"), pair("b", "2")]);
    assert_eq!(put.resolve(Ok(2)), Ok(()));
    assert_eq!(put.resolve(Ok(1)), Err(Error::PartialBatch));
    assert_eq!(put.resolve(Ok(0)), Err(Error::PartialBatch));
    assert_eq!(put.resolve(Err(Error::Dispatch)), Err(Error::Dispatch));
    let delete = client.batch_delete(vec!["a", "b", "c"]);
    assert_eq!(delete.resolve(Ok(3)), Ok(()));
    assert_eq!(delete.resolve(Ok(2)), Err(Error::PartialBatch));
    assert_eq!(delete.resolve(Err(Error::Dispatch)), Err(Error::Dispatch));
    let scan = client.batch_scan(vec![KeyRange::full(), KeyRange::full()], None);
    assert_eq!(
        scan.resolve(Ok(vec![vec![pair("a", "1")], vec![]])),
        Ok(vec![vec![pair("a", "1")], vec![]])
    );
    assert_eq!(scan.resolve(Ok(vec![vec![pair("a", "1")]])), Err(Error::PartialBatch));
    assert_eq!(scan.resolve(Err(Error::Dispatch)), Err(Error::Dispatch));
}

#[test]
fn bootstrap_needs_an_endpoint() {
    let cluster = MemoryCluster::new();
    assert!(matches!(Client::new(&Config::default()).execute(&cluster), Err(Error::Connection)));
    assert!(matches!(
        Client::new(&Config::new(vec![])).resolve(Ok(())),
        Err(Error::Connection)
    ));
    let config = Config::new(vec!["127.0.0.1:2379"]);
    let connected = Client::new(&config).resolve(Ok(()));
    assert!(matches!(connected, Ok(ref client) if *client.config() == config));
}

#[test]
fn bootstrap_passes_a_failure_on() {
    let config = Config::new(vec!["127.0.0.1:2379"]);
    assert!(matches!(
        Client::new(&config).resolve(Err(Error::Connection)),
        Err(Error::Connection)
    ));
    assert!(matches!(Client::new(&config).resolve(Err(Error::Dispatch)), Err(Error::Dispatch)));
}

#[test]
fn requests_keep_what_they_were_made_with() {
    let client = client();
    let get = client.get("k").cf("write");
    assert_eq!(get.key(), KeyRef::from("k"));
    assert_eq!(get.column_family(), &Some(ColumnFamily::from("write")));
    let scan = client.scan(KeyRef::from("a")..KeyRef::from("b"), 7);
    assert_eq!(scan.limit(), 7);
    assert!(!scan.is_key_only());
    assert!(!scan.is_reverse());
    assert_eq!(scan.column_family(), &None);
    let scan = scan.reverse().key_only().cf("lock");
    assert_eq!(scan.limit(), 7);
    assert!(scan.is_key_only());
    assert!(scan.is_reverse());
    assert_eq!(scan.partition_name(), "lock");
    assert_eq!(scan.range().start(), RangeBound::Inclusive(KeyRef::from("a")));
    assert_eq!(scan.range().end(), RangeBound::Exclusive(KeyRef::from("b")));
    assert_eq!(client.scan(KeyRange::full(), None).limit(), u32::MAX);
    let batch = client.batch_scan(vec![KeyRange::full()], None).key_only();
    assert_eq!(batch.each_limit(), u32::MAX);
    assert!(batch.is_key_only());
    assert!(!batch.is_reverse());
    assert_eq!(batch.ranges().len(), 1);
    let put = client.put("k", "v");
    assert_eq!(put.key(), &Key::from("k"));
    assert_eq!(put.value(), &Value::from("v"));
    let pairs = client.batch_put(vec![pair("a", "1")]);
    assert_eq!(pairs.pairs(), &vec![pair("a", "1")]);
    let keys = client.batch_get(vec!["a", "b"]);
    assert_eq!(keys.keys(), &vec![KeyRef::from("a"), KeyRef::from("b")]);
}
