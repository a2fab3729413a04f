//! The raw requests: gets, puts, deletes and scans without transactions.
//!
//! A [`Client`] makes one request value per operation. A request holds what
//! the operation needs, takes the choice of a partition and, for scans, of
//! keys only and of the reverse order, and is used up when it is run. What a
//! request resolves to is stated over [`crate::model`]: `execute` runs it
//! against a [`MemoryCluster`], and `resolve` on the requests that have one
//! turns the answer of any other dispatcher into the result.
//!
//! The client takes keys, values, pairs, ranges and partition names as
//! anything that converts into them. A request then holds what the conversion
//! returned: its contract says so with `call_ensures`, from which a caller has
//! whatever the `ensures` of that conversion says.

use crate::config::Config;
use crate::errors::Error;
use crate::kv::{group_views, key_views, pair_views, Key, KeyRef, KvPair, Value};
use crate::memory::MemoryCluster;
use crate::model::{default_partition, Listing};
use crate::range::{span_views, KeyRange};
use vstd::prelude::*;
use vstd::std_specs::convert::FromSpecImpl;

verus! {

/// The name of a partition of the cluster.
///
/// A request that is given none addresses the partition named `default`. The
/// name is kept as it is given: whether the cluster has such a partition shows
/// when the request is run.
#[derive(Debug, PartialEq, Eq, PartialOrd, Ord, Hash)]
pub struct ColumnFamily(String);

impl View for ColumnFamily {
    type V = Seq<char>;

    closed spec fn view(&self) -> Seq<char> {
        self.0@
    }
}

impl ColumnFamily {
    /// The name as text.
    pub fn name(&self) -> (name: &str)
        ensures
            name@ == self@,
    {
        self.0.as_str()
    }
}

impl Default for ColumnFamily {
    /// The empty name.
    fn default() -> (cf: ColumnFamily)
        ensures
            cf@ == Seq::<char>::empty(),
    {
        ColumnFamily(String::new())
    }
}

impl Clone for ColumnFamily {
    fn clone(&self) -> (copy: ColumnFamily)
        ensures
            copy@ == self@,
    {
        ColumnFamily(self.0.clone())
    }
}

impl From<&str> for ColumnFamily {
    fn from(name: &str) -> (cf: ColumnFamily)
        ensures
            cf@ == name@,
    {
        ColumnFamily(name.to_owned())
    }
}

impl FromSpecImpl<&str> for ColumnFamily {
    open spec fn obeys_from_spec() -> bool {
        false
    }

    open spec fn from_spec(name: &str) -> ColumnFamily {
        arbitrary()
    }
}

impl From<String> for ColumnFamily {
    fn from(name: String) -> (cf: ColumnFamily)
        ensures
            cf@ == name@,
    {
        ColumnFamily(name)
    }
}

impl FromSpecImpl<String> for ColumnFamily {
    open spec fn obeys_from_spec() -> bool {
        false
    }

    open spec fn from_spec(name: String) -> ColumnFamily {
        arbitrary()
    }
}

impl From<&String> for ColumnFamily {
    fn from(name: &String) -> (cf: ColumnFamily)
        ensures
            cf@ == name@,
    {
        ColumnFamily(name.clone())
    }
}

impl FromSpecImpl<&String> for ColumnFamily {
    open spec fn obeys_from_spec() -> bool {
        false
    }

    open spec fn from_spec(name: &String) -> ColumnFamily {
        arbitrary()
    }
}

/// The name of the partition that a request with this choice addresses: the
/// chosen one, or else the default partition.
pub open spec fn partition_of(cf: Option<ColumnFamily>) -> Seq<char> {
    match cf {
        Some(chosen) => chosen@,
        None => default_partition(),
    }
}

/// The name of the partition that a request with this choice addresses.
fn name_of(cf: &Option<ColumnFamily>) -> (name: &str)
    ensures
        name@ == partition_of(*cf),
{
    match cf {
        Some(chosen) => chosen.name(),
        None => "default",
    }
}

/// The limit of a scan: the one that is given, or else the largest one, which
/// stands for no limit.
pub open spec fn limit_of(limit: Option<u32>) -> u32 {
    match limit {
        Some(count) => count,
        None => u32::MAX,
    }
}

/// What a batch that was to have `expected` parts resolves to, when the
/// dispatcher says how many parts it has carried out: success only if it was
/// all of them.
pub open spec fn settled(expected: nat, applied: Result<usize, Error>) -> Result<(), Error> {
    match applied {
        Ok(count) => if count == expected {
            Ok(())
        } else {
            Err(Error::PartialBatch)
        },
        Err(error) => Err(error),
    }
}

/// Resolves a batch from the number of its parts that were carried out.
fn settle(expected: usize, applied: Result<usize, Error>) -> (resolved: Result<(), Error>)
    ensures
        resolved == settled(expected as nat, applied),
{
    match applied {
        Ok(count) => if count == expected {
            Ok(())
        } else {
            Err(Error::PartialBatch)
        },
        Err(error) => Err(error),
    }
}

/// A request for the value of one key.
///
/// It resolves to the value that the partition holds for the key, and fails
/// with [`Error::NotFound`] where it holds none.
pub struct Get<'client, 'key: 'client> {
    client: &'client Client,
    key: KeyRef<'key>,
    cf: Option<ColumnFamily>,
}

impl<'client, 'key: 'client> Get<'client, 'key> {
    /// The client that made the request, in contracts.
    pub closed spec fn spec_client(&self) -> &'client Client {
        self.client
    }

    /// The key asked for, in contracts.
    pub closed spec fn spec_key(&self) -> KeyRef<'key> {
        self.key
    }

    /// The partition chosen, if any, in contracts.
    pub closed spec fn spec_column_family(&self) -> &Option<ColumnFamily> {
        &self.cf
    }

    /// The name of the partition that the request addresses.
    pub open spec fn partition(&self) -> Seq<char> {
        partition_of(*self.column_family())
    }

    /// The client that made the request.
    #[verifier::when_used_as_spec(spec_client)]
    pub fn client(&self) -> (client: &'client Client)
        ensures
            client == self.spec_client(),
    {
        self.client
    }

    /// The key asked for.
    #[verifier::when_used_as_spec(spec_key)]
    pub fn key(&self) -> (key: KeyRef<'key>)
        ensures
            key == self.spec_key(),
    {
        self.key
    }

    /// The partition chosen, if any.
    #[verifier::when_used_as_spec(spec_column_family)]
    pub fn column_family(&self) -> (cf: &Option<ColumnFamily>)
        ensures
            cf == self.spec_column_family(),
    {
        &self.cf
    }

    /// The name of the partition that the request addresses.
    pub fn partition_name(&self) -> (name: &str)
        ensures
            name@ == self.partition(),
    {
        name_of(&self.cf)
    }

    fn new(client: &'client Client, key: KeyRef<'key>) -> (request: Self)
        ensures
            request.client() == client,
            request.key() == key,
            request.column_family() is None,
    {
        Get { client, key, cf: None }
    }

    /// Chooses the partition.
    pub fn cf<T: Into<ColumnFamily>>(self, cf: T) -> (request: Self)
        ensures
            request.client() == self.client(),
            request.key() == self.key(),
            request.column_family() matches Some(chosen) && call_ensures(T::into, (cf,), *chosen),
    {
        Get { client: self.client, key: self.key, cf: Some(cf.into()) }
    }

    /// Resolves the request from what the dispatcher found: a key without
    /// entry is a failure, and a failure of the dispatcher stays what it is.
    pub fn resolve(found: Result<Option<Value>, Error>) -> (resolved: Result<Value, Error>)
        ensures
            resolved == (match found {
                Ok(Some(value)) => Ok::<Value, Error>(value),
                Ok(None) => Err(Error::NotFound),
                Err(error) => Err(error),
            }),
    {
        match found {
            Ok(Some(value)) => Ok(value),
            Ok(None) => Err(Error::NotFound),
            Err(error) => Err(error),
        }
    }

    /// Runs the request against a cluster in memory.
    pub fn execute(self, cluster: &MemoryCluster) -> (resolved: Result<Value, Error>)
        ensures
            match resolved {
                Ok(value) => cluster@.get(self.partition(), self.key()@) == Ok::<Seq<u8>, Error>(
                    value@,
                ),
                Err(error) => cluster@.get(self.partition(), self.key()@) == Err::<Seq<u8>, Error>(
                    error,
                ),
            },
            cluster@.wf(),
    {
        Self::resolve(cluster.get(name_of(&self.cf), self.key))
    }
}

/// A request for the values of several keys.
///
/// It resolves to the pairs found: a key without entry is left out and is no
/// failure. The pairs come in the order of the keys, and a key that is asked
/// for twice is reported twice.
pub struct BatchGet<'client, 'keys: 'client> {
    client: &'client Client,
    keys: Vec<KeyRef<'keys>>,
    cf: Option<ColumnFamily>,
}

impl<'client, 'keys: 'client> BatchGet<'client, 'keys> {
    /// The client that made the request, in contracts.
    pub closed spec fn spec_client(&self) -> &'client Client {
        self.client
    }

    /// The keys asked for, in contracts.
    pub closed spec fn spec_keys(&self) -> &Vec<KeyRef<'keys>> {
        &self.keys
    }

    /// The partition chosen, if any, in contracts.
    pub closed spec fn spec_column_family(&self) -> &Option<ColumnFamily> {
        &self.cf
    }

    /// The name of the partition that the request addresses.
    pub open spec fn partition(&self) -> Seq<char> {
        partition_of(*self.column_family())
    }

    /// The client that made the request.
    #[verifier::when_used_as_spec(spec_client)]
    pub fn client(&self) -> (client: &'client Client)
        ensures
            client == self.spec_client(),
    {
        self.client
    }

    /// The keys asked for.
    #[verifier::when_used_as_spec(spec_keys)]
    pub fn keys(&self) -> (keys: &Vec<KeyRef<'keys>>)
        ensures
            keys == self.spec_keys(),
    {
        &self.keys
    }

    /// The partition chosen, if any.
    #[verifier::when_used_as_spec(spec_column_family)]
    pub fn column_family(&self) -> (cf: &Option<ColumnFamily>)
        ensures
            cf == self.spec_column_family(),
    {
        &self.cf
    }

    /// The name of the partition that the request addresses.
    pub fn partition_name(&self) -> (name: &str)
        ensures
            name@ == self.partition(),
    {
        name_of(&self.cf)
    }

    fn new(client: &'client Client, keys: Vec<KeyRef<'keys>>) -> (request: Self)
        ensures
            request.client() == client,
            request.keys() == keys,
            request.column_family() is None,
    {
        BatchGet { client, keys, cf: None }
    }

    /// Chooses the partition.
    pub fn cf<T: Into<ColumnFamily>>(self, cf: T) -> (request: Self)
        ensures
            request.client() == self.client(),
            request.keys() == self.keys(),
            request.column_family() matches Some(chosen) && call_ensures(T::into, (cf,), *chosen),
    {
        BatchGet { client: self.client, keys: self.keys, cf: Some(cf.into()) }
    }

    /// Runs the request against a cluster in memory.
    pub fn execute(self, cluster: &MemoryCluster) -> (resolved: Result<Vec<KvPair>, Error>)
        ensures
            match resolved {
                Ok(pairs) => cluster@.batch_get(self.partition(), key_views(self.keys()@)) == Ok::<
                    Listing,
                    Error,
                >(pair_views(pairs@)),
                Err(error) => cluster@.batch_get(self.partition(), key_views(self.keys()@))
                    == Err::<Listing, Error>(error),
            },
            cluster@.wf(),
    {
        cluster.batch_get(name_of(&self.cf), &self.keys)
    }
}

/// A request to set the value of one key.
///
/// It resolves once the value is the one that the partition holds for the key:
/// the last write wins.
pub struct Put<'a> {
    client: &'a Client,
    key: Key,
    value: Value,
    cf: Option<ColumnFamily>,
}

impl<'a> Put<'a> {
    /// The client that made the request, in contracts.
    pub closed spec fn spec_client(&self) -> &'a Client {
        self.client
    }

    /// The key to write, in contracts.
    pub closed spec fn spec_key(&self) -> &Key {
        &self.key
    }

    /// The value to write, in contracts.
    pub closed spec fn spec_value(&self) -> &Value {
        &self.value
    }

    /// The partition chosen, if any, in contracts.
    pub closed spec fn spec_column_family(&self) -> &Option<ColumnFamily> {
        &self.cf
    }

    /// The name of the partition that the request addresses.
    pub open spec fn partition(&self) -> Seq<char> {
        partition_of(*self.column_family())
    }

    /// The client that made the request.
    #[verifier::when_used_as_spec(spec_client)]
    pub fn client(&self) -> (client: &'a Client)
        ensures
            client == self.spec_client(),
    {
        self.client
    }

    /// The key to write.
    #[verifier::when_used_as_spec(spec_key)]
    pub fn key(&self) -> (key: &Key)
        ensures
            key == self.spec_key(),
    {
        &self.key
    }

    /// The value to write.
    #[verifier::when_used_as_spec(spec_value)]
    pub fn value(&self) -> (value: &Value)
        ensures
            value == self.spec_value(),
    {
        &self.value
    }

    /// The partition chosen, if any.
    #[verifier::when_used_as_spec(spec_column_family)]
    pub fn column_family(&self) -> (cf: &Option<ColumnFamily>)
        ensures
            cf == self.spec_column_family(),
    {
        &self.cf
    }

    /// The name of the partition that the request addresses.
    pub fn partition_name(&self) -> (name: &str)
        ensures
            name@ == self.partition(),
    {
        name_of(&self.cf)
    }

    fn new(client: &'a Client, key: Key, value: Value) -> (request: Self)
        ensures
            request.client() == client,
            request.key() == key,
            request.value() == value,
            request.column_family() is None,
    {
        Put { client, key, value, cf: None }
    }

    /// Chooses the partition.
    pub fn cf<T: Into<ColumnFamily>>(self, cf: T) -> (request: Self)
        ensures
            request.client() == self.client(),
            request.key() == self.key(),
            request.value() == self.value(),
            request.column_family() matches Some(chosen) && call_ensures(T::into, (cf,), *chosen),
    {
        Put { client: self.client, key: self.key, value: self.value, cf: Some(cf.into()) }
    }

    /// Runs the request against a cluster in memory.
    pub fn execute(self, cluster: &mut MemoryCluster) -> (resolved: Result<(), Error>)
        ensures
            resolved == old(cluster)@.outcome(self.partition()),
            final(cluster)@ == old(cluster)@.put(self.partition(), self.key()@, self.value()@),
            final(cluster)@.wf(),
    {
        cluster.put(name_of(&self.cf), self.key, self.value)
    }
}

/// A request to set the values of several keys.
///
/// The pairs are put one after the other, so that of two pairs with one key
/// the later one stays. It resolves to success only if every pair was put.
pub struct BatchPut<'a> {
    client: &'a Client,
    pairs: Vec<KvPair>,
    cf: Option<ColumnFamily>,
}

impl<'a> BatchPut<'a> {
    /// The client that made the request, in contracts.
    pub closed spec fn spec_client(&self) -> &'a Client {
        self.client
    }

    /// The pairs to write, in contracts.
    pub closed spec fn spec_pairs(&self) -> &Vec<KvPair> {
        &self.pairs
    }

    /// The partition chosen, if any, in contracts.
    pub closed spec fn spec_column_family(&self) -> &Option<ColumnFamily> {
        &self.cf
    }

    /// The name of the partition that the request addresses.
    pub open spec fn partition(&self) -> Seq<char> {
        partition_of(*self.column_family())
    }

    /// The client that made the request.
    #[verifier::when_used_as_spec(spec_client)]
    pub fn client(&self) -> (client: &'a Client)
        ensures
            client == self.spec_client(),
    {
        self.client
    }

    /// The pairs to write.
    #[verifier::when_used_as_spec(spec_pairs)]
    pub fn pairs(&self) -> (pairs: &Vec<KvPair>)
        ensures
            pairs == self.spec_pairs(),
    {
        &self.pairs
    }

    /// The partition chosen, if any.
    #[verifier::when_used_as_spec(spec_column_family)]
    pub fn column_family(&self) -> (cf: &Option<ColumnFamily>)
        ensures
            cf == self.spec_column_family(),
    {
        &self.cf
    }

    /// The name of the partition that the request addresses.
    pub fn partition_name(&self) -> (name: &str)
        ensures
            name@ == self.partition(),
    {
        name_of(&self.cf)
    }

    fn new(client: &'a Client, pairs: Vec<KvPair>) -> (request: Self)
        ensures
            request.client() == client,
            request.pairs() == pairs,
            request.column_family() is None,
    {
        BatchPut { client, pairs, cf: None }
    }

    /// Chooses the partition.
    pub fn cf<T: Into<ColumnFamily>>(self, cf: T) -> (request: Self)
        ensures
            request.client() == self.client(),
            request.pairs() == self.pairs(),
            request.column_family() matches Some(chosen) && call_ensures(T::into, (cf,), *chosen),
    {
        BatchPut { client: self.client, pairs: self.pairs, cf: Some(cf.into()) }
    }

    /// Resolves the request from the number of pairs that the dispatcher has
    /// put: a batch that was put in part only is a failure.
    pub fn resolve(&self, applied: Result<usize, Error>) -> (resolved: Result<(), Error>)
        ensures
            resolved == settled(self.pairs()@.len(), applied),
    {
        settle(self.pairs.len(), applied)
    }

    /// Runs the request against a cluster in memory.
    pub fn execute(self, cluster: &mut MemoryCluster) -> (resolved: Result<(), Error>)
        ensures
            resolved == old(cluster)@.outcome(self.partition()),
            final(cluster)@ == old(cluster)@.batch_put(self.partition(), pair_views(self.pairs()@)),
            final(cluster)@.wf(),
    {
        let expected: usize = self.pairs.len();
        settle(expected, cluster.batch_put(name_of(&self.cf), self.pairs))
    }
}

/// A request to delete one key.
///
/// It resolves to success whether or not the key had an entry.
pub struct Delete<'client, 'key: 'client> {
    client: &'client Client,
    key: KeyRef<'key>,
    cf: Option<ColumnFamily>,
}

impl<'client, 'key: 'client> Delete<'client, 'key> {
    /// The client that made the request, in contracts.
    pub closed spec fn spec_client(&self) -> &'client Client {
        self.client
    }

    /// The key to delete, in contracts.
    pub closed spec fn spec_key(&self) -> KeyRef<'key> {
        self.key
    }

    /// The partition chosen, if any, in contracts.
    pub closed spec fn spec_column_family(&self) -> &Option<ColumnFamily> {
        &self.cf
    }

    /// The name of the partition that the request addresses.
    pub open spec fn partition(&self) -> Seq<char> {
        partition_of(*self.column_family())
    }

    /// The client that made the request.
    #[verifier::when_used_as_spec(spec_client)]
    pub fn client(&self) -> (client: &'client Client)
        ensures
            client == self.spec_client(),
    {
        self.client
    }

    /// The key to delete.
    #[verifier::when_used_as_spec(spec_key)]
    pub fn key(&self) -> (key: KeyRef<'key>)
        ensures
            key == self.spec_key(),
    {
        self.key
    }

    /// The partition chosen, if any.
    #[verifier::when_used_as_spec(spec_column_family)]
    pub fn column_family(&self) -> (cf: &Option<ColumnFamily>)
        ensures
            cf == self.spec_column_family(),
    {
        &self.cf
    }

    /// The name of the partition that the request addresses.
    pub fn partition_name(&self) -> (name: &str)
        ensures
            name@ == self.partition(),
    {
        name_of(&self.cf)
    }

    fn new(client: &'client Client, key: KeyRef<'key>) -> (request: Self)
        ensures
            request.client() == client,
            request.key() == key,
            request.column_family() is None,
    {
        Delete { client, key, cf: None }
    }

    /// Chooses the partition.
    pub fn cf<T: Into<ColumnFamily>>(self, cf: T) -> (request: Self)
        ensures
            request.client() == self.client(),
            request.key() == self.key(),
            request.column_family() matches Some(chosen) && call_ensures(T::into, (cf,), *chosen),
    {
        Delete { client: self.client, key: self.key, cf: Some(cf.into()) }
    }

    /// Runs the request against a cluster in memory.
    pub fn execute(self, cluster: &mut MemoryCluster) -> (resolved: Result<(), Error>)
        ensures
            resolved == old(cluster)@.outcome(self.partition()),
            final(cluster)@ == old(cluster)@.delete(self.partition(), self.key()@),
            final(cluster)@.wf(),
    {
        cluster.delete(name_of(&self.cf), self.key)
    }
}

/// A request to delete several keys.
///
/// It resolves to success only if every key was seen to, whether or not it had
/// an entry. A key that is named twice does no harm.
pub struct BatchDelete<'client, 'keys: 'client> {
    client: &'client Client,
    keys: Vec<KeyRef<'keys>>,
    cf: Option<ColumnFamily>,
}

impl<'client, 'keys: 'client> BatchDelete<'client, 'keys> {
    /// The client that made the request, in contracts.
    pub closed spec fn spec_client(&self) -> &'client Client {
        self.client
    }

    /// The keys to delete, in contracts.
    pub closed spec fn spec_keys(&self) -> &Vec<KeyRef<'keys>> {
        &self.keys
    }

    /// The partition chosen, if any, in contracts.
    pub closed spec fn spec_column_family(&self) -> &Option<ColumnFamily> {
        &self.cf
    }

    /// The name of the partition that the request addresses.
    pub open spec fn partition(&self) -> Seq<char> {
        partition_of(*self.column_family())
    }

    /// The client that made the request.
    #[verifier::when_used_as_spec(spec_client)]
    pub fn client(&self) -> (client: &'client Client)
        ensures
            client == self.spec_client(),
    {
        self.client
    }

    /// The keys to delete.
    #[verifier::when_used_as_spec(spec_keys)]
    pub fn keys(&self) -> (keys: &Vec<KeyRef<'keys>>)
        ensures
            keys == self.spec_keys(),
    {
        &self.keys
    }

    /// The partition chosen, if any.
    #[verifier::when_used_as_spec(spec_column_family)]
    pub fn column_family(&self) -> (cf: &Option<ColumnFamily>)
        ensures
            cf == self.spec_column_family(),
    {
        &self.cf
    }

    /// The name of the partition that the request addresses.
    pub fn partition_name(&self) -> (name: &str)
        ensures
            name@ == self.partition(),
    {
        name_of(&self.cf)
    }

    fn new(client: &'client Client, keys: Vec<KeyRef<'keys>>) -> (request: Self)
        ensures
            request.client() == client,
            request.keys() == keys,
            request.column_family() is None,
    {
        BatchDelete { client, keys, cf: None }
    }

    /// Chooses the partition.
    pub fn cf<T: Into<ColumnFamily>>(self, cf: T) -> (request: Self)
        ensures
            request.client() == self.client(),
            request.keys() == self.keys(),
            request.column_family() matches Some(chosen) && call_ensures(T::into, (cf,), *chosen),
    {
        BatchDelete { client: self.client, keys: self.keys, cf: Some(cf.into()) }
    }

    /// Resolves the request from the number of keys that the dispatcher has
    /// seen to: a batch that was carried out in part only is a failure.
    pub fn resolve(&self, applied: Result<usize, Error>) -> (resolved: Result<(), Error>)
        ensures
            resolved == settled(self.keys()@.len(), applied),
    {
        settle(self.keys.len(), applied)
    }

    /// Runs the request against a cluster in memory.
    pub fn execute(self, cluster: &mut MemoryCluster) -> (resolved: Result<(), Error>)
        ensures
            resolved == old(cluster)@.outcome(self.partition()),
            final(cluster)@ == old(cluster)@.batch_delete(
                self.partition(),
                key_views(self.keys()@),
            ),
            final(cluster)@.wf(),
    {
        settle(self.keys.len(), cluster.batch_delete(name_of(&self.cf), &self.keys))
    }
}

/// A request for the entries of a range of keys.
///
/// It resolves to the entries whose key lies within the range, by ascending
/// key or, reversed, by descending key; of those, to no more than the limit
/// allows; and without the values where only keys are asked for.
pub struct Scan<'client, 'keys: 'client> {
    client: &'client Client,
    range: KeyRange<'keys>,
    limit: u32,
    key_only: bool,
    cf: Option<ColumnFamily>,
    reverse: bool,
}

impl<'client, 'keys: 'client> Scan<'client, 'keys> {
    /// The client that made the request, in contracts.
    pub closed spec fn spec_client(&self) -> &'client Client {
        self.client
    }

    /// The range to scan, in contracts.
    pub closed spec fn spec_range(&self) -> KeyRange<'keys> {
        self.range
    }

    /// The largest number of entries wanted, in contracts.
    pub closed spec fn spec_limit(&self) -> u32 {
        self.limit
    }

    /// Whether only keys are asked for, in contracts.
    pub closed spec fn spec_is_key_only(&self) -> bool {
        self.key_only
    }

    /// Whether the entries are wanted by descending key, in contracts.
    pub closed spec fn spec_is_reverse(&self) -> bool {
        self.reverse
    }

    /// The partition chosen, if any, in contracts.
    pub closed spec fn spec_column_family(&self) -> &Option<ColumnFamily> {
        &self.cf
    }

    /// The name of the partition that the request addresses.
    pub open spec fn partition(&self) -> Seq<char> {
        partition_of(*self.column_family())
    }

    /// The client that made the request.
    #[verifier::when_used_as_spec(spec_client)]
    pub fn client(&self) -> (client: &'client Client)
        ensures
            client == self.spec_client(),
    {
        self.client
    }

    /// The range to scan.
    #[verifier::when_used_as_spec(spec_range)]
    pub fn range(&self) -> (range: KeyRange<'keys>)
        ensures
            range == self.spec_range(),
    {
        self.range
    }

    /// The largest number of entries wanted; the largest number there is
    /// stands for no limit.
    #[verifier::when_used_as_spec(spec_limit)]
    pub fn limit(&self) -> (limit: u32)
        ensures
            limit == self.spec_limit(),
    {
        self.limit
    }

    /// Whether only keys are asked for.
    #[verifier::when_used_as_spec(spec_is_key_only)]
    pub fn is_key_only(&self) -> (key_only: bool)
        ensures
            key_only == self.spec_is_key_only(),
    {
        self.key_only
    }

    /// Whether the entries are wanted by descending key.
    #[verifier::when_used_as_spec(spec_is_reverse)]
    pub fn is_reverse(&self) -> (reverse: bool)
        ensures
            reverse == self.spec_is_reverse(),
    {
        self.reverse
    }

    /// The partition chosen, if any.
    #[verifier::when_used_as_spec(spec_column_family)]
    pub fn column_family(&self) -> (cf: &Option<ColumnFamily>)
        ensures
            cf == self.spec_column_family(),
    {
        &self.cf
    }

    /// The name of the partition that the request addresses.
    pub fn partition_name(&self) -> (name: &str)
        ensures
            name@ == self.partition(),
    {
        name_of(&self.cf)
    }

    fn new(client: &'client Client, range: KeyRange<'keys>, limit: u32) -> (request: Self)
        ensures
            request.client() == client,
            request.range() == range,
            request.limit() == limit,
            !request.is_key_only(),
            !request.is_reverse(),
            request.column_family() is None,
    {
        Scan { client, range, limit, key_only: false, cf: None, reverse: false }
    }

    /// Asks for keys only: the entries come without their values.
    pub fn key_only(self) -> (request: Self)
        ensures
            request.client() == self.client(),
            request.range() == self.range(),
            request.limit() == self.limit(),
            request.is_key_only(),
            request.is_reverse() == self.is_reverse(),
            request.column_family() == self.column_family(),
    {
        Scan {
            client: self.client,
            range: self.range,
            limit: self.limit,
            key_only: true,
            cf: self.cf,
            reverse: self.reverse,
        }
    }

    /// Chooses the partition.
    pub fn cf<T: Into<ColumnFamily>>(self, cf: T) -> (request: Self)
        ensures
            request.client() == self.client(),
            request.range() == self.range(),
            request.limit() == self.limit(),
            request.is_key_only() == self.is_key_only(),
            request.is_reverse() == self.is_reverse(),
            request.column_family() matches Some(chosen) && call_ensures(T::into, (cf,), *chosen),
    {
        Scan {
            client: self.client,
            range: self.range,
            limit: self.limit,
            key_only: self.key_only,
            cf: Some(cf.into()),
            reverse: self.reverse,
        }
    }

    /// Asks for the entries by descending key.
    pub fn reverse(self) -> (request: Self)
        ensures
            request.client() == self.client(),
            request.range() == self.range(),
            request.limit() == self.limit(),
            request.is_key_only() == self.is_key_only(),
            request.is_reverse(),
            request.column_family() == self.column_family(),
    {
        Scan {
            client: self.client,
            range: self.range,
            limit: self.limit,
            key_only: self.key_only,
            cf: self.cf,
            reverse: true,
        }
    }

    /// Runs the request against a cluster in memory.
    pub fn execute(self, cluster: &MemoryCluster) -> (resolved: Result<Vec<KvPair>, Error>)
        ensures
            match resolved {
                Ok(pairs) => cluster@.scan(
                    self.partition(),
                    self.range()@,
                    self.limit(),
                    self.is_key_only(),
                    self.is_reverse(),
                ) == Ok::<Listing, Error>(pair_views(pairs@)),
                Err(error) => cluster@.scan(
                    self.partition(),
                    self.range()@,
                    self.limit(),
                    self.is_key_only(),
                    self.is_reverse(),
                ) == Err::<Listing, Error>(error),
            },
            cluster@.wf(),
    {
        cluster.scan(name_of(&self.cf), &self.range, self.limit, self.key_only, self.reverse)
    }
}

/// A request for the entries of several ranges of keys.
///
/// The limit and the choices of keys only and of the reverse order hold for
/// every range alike. It resolves to one run of entries for each range, in the
/// order of the ranges: what a scan of that range alone resolves to.
pub struct BatchScan<'client, 'keys: 'client> {
    client: &'client Client,
    ranges: Vec<KeyRange<'keys>>,
    each_limit: u32,
    key_only: bool,
    cf: Option<ColumnFamily>,
    reverse: bool,
}

impl<'client, 'keys: 'client> BatchScan<'client, 'keys> {
    /// The client that made the request, in contracts.
    pub closed spec fn spec_client(&self) -> &'client Client {
        self.client
    }

    /// The ranges to scan, in contracts.
    pub closed spec fn spec_ranges(&self) -> &Vec<KeyRange<'keys>> {
        &self.ranges
    }

    /// The largest number of entries wanted of each range, in contracts.
    pub closed spec fn spec_each_limit(&self) -> u32 {
        self.each_limit
    }

    /// Whether only keys are asked for, in contracts.
    pub closed spec fn spec_is_key_only(&self) -> bool {
        self.key_only
    }

    /// Whether the entries are wanted by descending key, in contracts.
    pub closed spec fn spec_is_reverse(&self) -> bool {
        self.reverse
    }

    /// The partition chosen, if any, in contracts.
    pub closed spec fn spec_column_family(&self) -> &Option<ColumnFamily> {
        &self.cf
    }

    /// The name of the partition that the request addresses.
    pub open spec fn partition(&self) -> Seq<char> {
        partition_of(*self.column_family())
    }

    /// The client that made the request.
    #[verifier::when_used_as_spec(spec_client)]
    pub fn client(&self) -> (client: &'client Client)
        ensures
            client == self.spec_client(),
    {
        self.client
    }

    /// The ranges to scan.
    #[verifier::when_used_as_spec(spec_ranges)]
    pub fn ranges(&self) -> (ranges: &Vec<KeyRange<'keys>>)
        ensures
            ranges == self.spec_ranges(),
    {
        &self.ranges
    }

    /// The largest number of entries wanted of each range; the largest number
    /// there is stands for no limit.
    #[verifier::when_used_as_spec(spec_each_limit)]
    pub fn each_limit(&self) -> (limit: u32)
        ensures
            limit == self.spec_each_limit(),
    {
        self.each_limit
    }

    /// Whether only keys are asked for.
    #[verifier::when_used_as_spec(spec_is_key_only)]
    pub fn is_key_only(&self) -> (key_only: bool)
        ensures
            key_only == self.spec_is_key_only(),
    {
        self.key_only
    }

    /// Whether the entries are wanted by descending key.
    #[verifier::when_used_as_spec(spec_is_reverse)]
    pub fn is_reverse(&self) -> (reverse: bool)
        ensures
            reverse == self.spec_is_reverse(),
    {
        self.reverse
    }

    /// The partition chosen, if any.
    #[verifier::when_used_as_spec(spec_column_family)]
    pub fn column_family(&self) -> (cf: &Option<ColumnFamily>)
        ensures
            cf == self.spec_column_family(),
    {
        &self.cf
    }

    /// The name of the partition that the request addresses.
    pub fn partition_name(&self) -> (name: &str)
        ensures
            name@ == self.partition(),
    {
        name_of(&self.cf)
    }

    fn new(client: &'client Client, ranges: Vec<KeyRange<'keys>>, each_limit: u32) -> (request:
        Self)
        ensures
            request.client() == client,
            request.ranges() == ranges,
            request.each_limit() == each_limit,
            !request.is_key_only(),
            !request.is_reverse(),
            request.column_family() is None,
    {
        BatchScan { client, ranges, each_limit, key_only: false, cf: None, reverse: false }
    }

    /// Asks for keys only: the entries come without their values.
    pub fn key_only(self) -> (request: Self)
        ensures
            request.client() == self.client(),
            request.ranges() == self.ranges(),
            request.each_limit() == self.each_limit(),
            request.is_key_only(),
            request.is_reverse() == self.is_reverse(),
            request.column_family() == self.column_family(),
    {
        BatchScan {
            client: self.client,
            ranges: self.ranges,
            each_limit: self.each_limit,
            key_only: true,
            cf: self.cf,
            reverse: self.reverse,
        }
    }

    /// Chooses the partition.
    pub fn cf<T: Into<ColumnFamily>>(self, cf: T) -> (request: Self)
        ensures
            request.client() == self.client(),
            request.ranges() == self.ranges(),
            request.each_limit() == self.each_limit(),
            request.is_key_only() == self.is_key_only(),
            request.is_reverse() == self.is_reverse(),
            request.column_family() matches Some(chosen) && call_ensures(T::into, (cf,), *chosen),
    {
        BatchScan {
            client: self.client,
            ranges: self.ranges,
            each_limit: self.each_limit,
            key_only: self.key_only,
            cf: Some(cf.into()),
            reverse: self.reverse,
        }
    }

    /// Asks for the entries by descending key.
    pub fn reverse(self) -> (request: Self)
        ensures
            request.client() == self.client(),
            request.ranges() == self.ranges(),
            request.each_limit() == self.each_limit(),
            request.is_key_only() == self.is_key_only(),
            request.is_reverse(),
            request.column_family() == self.column_family(),
    {
        BatchScan {
            client: self.client,
            ranges: self.ranges,
            each_limit: self.each_limit,
            key_only: self.key_only,
            cf: self.cf,
            reverse: true,
        }
    }

    /// Resolves the request from the runs of entries that the dispatcher
    /// hands back, one for each range that it has scanned: runs for a part of
    /// the ranges only are a failure.
    pub fn resolve(&self, found: Result<Vec<Vec<KvPair>>, Error>) -> (resolved: Result<
        Vec<Vec<KvPair>>,
        Error,
    >)
        ensures
            resolved == (match found {
                Ok(groups) => if groups.len() == self.ranges().len() {
                    Ok::<Vec<Vec<KvPair>>, Error>(groups)
                } else {
                    Err(Error::PartialBatch)
                },
                Err(error) => Err(error),
            }),
    {
        match found {
            Ok(groups) => if groups.len() == self.ranges.len() {
                Ok(groups)
            } else {
                Err(Error::PartialBatch)
            },
            Err(error) => Err(error),
        }
    }

    /// Runs the request against a cluster in memory.
    pub fn execute(self, cluster: &MemoryCluster) -> (resolved: Result<Vec<Vec<KvPair>>, Error>)
        ensures
            match resolved {
                Ok(groups) => cluster@.batch_scan(
                    self.partition(),
                    span_views(self.ranges()@),
                    self.each_limit(),
                    self.is_key_only(),
                    self.is_reverse(),
                ) == Ok::<Seq<Listing>, Error>(group_views(groups@)),
                Err(error) => cluster@.batch_scan(
                    self.partition(),
                    span_views(self.ranges()@),
                    self.each_limit(),
                    self.is_key_only(),
                    self.is_reverse(),
                ) == Err::<Seq<Listing>, Error>(error),
            },
            cluster@.wf(),
    {
        let found = cluster.batch_scan(
            name_of(&self.cf),
            &self.ranges,
            self.each_limit,
            self.key_only,
            self.reverse,
        );
        assert(found matches Ok(groups) ==> group_views(groups@).len() == span_views(
            self.ranges@,
        ).len());
        self.resolve(found)
    }
}

/// A request to delete every key of a range.
///
/// It resolves once no key within the range has an entry. A range that holds
/// no key changes nothing.
pub struct DeleteRange<'client, 'keys: 'client> {
    client: &'client Client,
    range: KeyRange<'keys>,
    cf: Option<ColumnFamily>,
}

impl<'client, 'keys: 'client> DeleteRange<'client, 'keys> {
    /// The client that made the request, in contracts.
    pub closed spec fn spec_client(&self) -> &'client Client {
        self.client
    }

    /// The range to delete, in contracts.
    pub closed spec fn spec_range(&self) -> KeyRange<'keys> {
        self.range
    }

    /// The partition chosen, if any, in contracts.
    pub closed spec fn spec_column_family(&self) -> &Option<ColumnFamily> {
        &self.cf
    }

    /// The name of the partition that the request addresses.
    pub open spec fn partition(&self) -> Seq<char> {
        partition_of(*self.column_family())
    }

    /// The client that made the request.
    #[verifier::when_used_as_spec(spec_client)]
    pub fn client(&self) -> (client: &'client Client)
        ensures
            client == self.spec_client(),
    {
        self.client
    }

    /// The range to delete.
    #[verifier::when_used_as_spec(spec_range)]
    pub fn range(&self) -> (range: KeyRange<'keys>)
        ensures
            range == self.spec_range(),
    {
        self.range
    }

    /// The partition chosen, if any.
    #[verifier::when_used_as_spec(spec_column_family)]
    pub fn column_family(&self) -> (cf: &Option<ColumnFamily>)
        ensures
            cf == self.spec_column_family(),
    {
        &self.cf
    }

    /// The name of the partition that the request addresses.
    pub fn partition_name(&self) -> (name: &str)
        ensures
            name@ == self.partition(),
    {
        name_of(&self.cf)
    }

    fn new(client: &'client Client, range: KeyRange<'keys>) -> (request: Self)
        ensures
            request.client() == client,
            request.range() == range,
            request.column_family() is None,
    {
        DeleteRange { client, range, cf: None }
    }

    /// Chooses the partition.
    pub fn cf<T: Into<ColumnFamily>>(self, cf: T) -> (request: Self)
        ensures
            request.client() == self.client(),
            request.range() == self.range(),
            request.column_family() matches Some(chosen) && call_ensures(T::into, (cf,), *chosen),
    {
        DeleteRange { client: self.client, range: self.range, cf: Some(cf.into()) }
    }

    /// Runs the request against a cluster in memory.
    pub fn execute(self, cluster: &mut MemoryCluster) -> (resolved: Result<(), Error>)
        ensures
            resolved == old(cluster)@.outcome(self.partition()),
            final(cluster)@ == old(cluster)@.delete_range(self.partition(), self.range()@),
            final(cluster)@.wf(),
    {
        cluster.delete_range(name_of(&self.cf), &self.range)
    }
}

/// The bootstrap of a client: it resolves, once, to the client or to the
/// failure to connect.
pub struct Connect {
    config: Config,
}

impl Connect {
    /// The configuration to connect with, in contracts.
    pub closed spec fn spec_config(&self) -> &Config {
        &self.config
    }

    /// The configuration to connect with.
    #[verifier::when_used_as_spec(spec_config)]
    pub fn config(&self) -> (config: &Config)
        ensures
            config == self.spec_config(),
    {
        &self.config
    }

    fn new(config: Config) -> (connect: Self)
        ensures
            connect.config() == config,
    {
        Connect { config }
    }

    /// Resolves the bootstrap from what became of the attempt to reach the
    /// cluster. A configuration that names no endpoint cannot connect, whatever
    /// the attempt is said to have come to; a failure of the attempt stays what
    /// it is; and no client comes of a failure.
    pub fn resolve(self, reached: Result<(), Error>) -> (resolved: Result<Client, Error>)
        ensures
            match resolved {
                Ok(client) => reached is Ok && self.config()@.len() > 0 && client.config()
                    == self.config(),
                Err(error) => if self.config()@.len() == 0 {
                    error == Error::Connection
                } else {
                    reached == Err::<(), Error>(error)
                },
            },
    {
        if !self.config.has_endpoints() {
            return Err(Error::Connection);
        }
        match reached {
            Ok(()) => Ok(Client { config: self.config }),
            Err(error) => Err(error),
        }
    }

    /// Connects to a cluster in memory, which is within reach of every
    /// configuration that names an endpoint.
    pub fn execute(self, cluster: &MemoryCluster) -> (resolved: Result<Client, Error>)
        ensures
            match resolved {
                Ok(client) => self.config()@.len() > 0 && client.config() == self.config(),
                Err(error) => self.config()@.len() == 0 && error == Error::Connection,
            },
    {
        let reached = cluster.connect(&self.config);
        self.resolve(reached)
    }
}

/// The handle through which requests are made.
///
/// A client is not changed by the requests that it makes, and any number of
/// them can be outstanding at a time.
pub struct Client {
    config: Config,
}

impl Client {
    /// The configuration that the client was connected with, in contracts.
    pub closed spec fn spec_config(&self) -> &Config {
        &self.config
    }

    /// The configuration that the client was connected with.
    #[verifier::when_used_as_spec(spec_config)]
    pub fn config(&self) -> (config: &Config)
        ensures
            config == self.spec_config(),
    {
        &self.config
    }

    /// Prepares the bootstrap of a client with a copy of the configuration.
    pub fn new(config: &Config) -> (connect: Connect)
        ensures
            connect.config()@ == config@,
    {
        Connect::new(config.clone())
    }

    /// Makes a request for the value of a key.
    pub fn get<'client, 'key: 'client, T: Into<KeyRef<'key>>>(&'client self, key: T) -> (request:
        Get<'client, 'key>)
        ensures
            request.client() == self,
            call_ensures(T::into, (key,), request.key()),
            request.column_family() is None,
    {
        Get::new(self, key.into())
    }

    /// Makes a request for the values of several keys.
    pub fn batch_get<'client, 'keys: 'client, T: Into<KeyRef<'keys>>>(
        &'client self,
        keys: Vec<T>,
    ) -> (request: BatchGet<'client, 'keys>)
        ensures
            request.client() == self,
            request.keys().len() == keys.len(),
            forall|i: int|
                0 <= i < keys.len() ==> call_ensures(T::into, (keys[i],), #[trigger] request.keys()[i]),
            request.column_family() is None,
    {
        BatchGet::new(self, converted(keys))
    }

    /// Makes a request to set the value of a key.
    pub fn put<K: Into<Key>, V: Into<Value>>(&self, key: K, value: V) -> (request: Put<'_>)
        ensures
            request.client() == self,
            call_ensures(K::into, (key,), *request.key()),
            call_ensures(V::into, (value,), *request.value()),
            request.column_family() is None,
    {
        Put::new(self, key.into(), value.into())
    }

    /// Makes a request to set the values of several keys.
    pub fn batch_put<T: Into<KvPair>>(&self, pairs: Vec<T>) -> (request: BatchPut<'_>)
        ensures
            request.client() == self,
            request.pairs().len() == pairs.len(),
            forall|i: int|
                0 <= i < pairs.len() ==> call_ensures(
                    T::into,
                    (pairs[i],),
                    #[trigger] request.pairs()[i],
                ),
            request.column_family() is None,
    {
        BatchPut::new(self, converted(pairs))
    }

    /// Makes a request to delete a key.
    pub fn delete<'client, 'key: 'client, T: Into<KeyRef<'key>>>(&'client self, key: T) -> (request:
        Delete<'client, 'key>)
        ensures
            request.client() == self,
            call_ensures(T::into, (key,), request.key()),
            request.column_family() is None,
    {
        Delete::new(self, key.into())
    }

    /// Makes a request to delete several keys.
    pub fn batch_delete<'client, 'keys: 'client, T: Into<KeyRef<'keys>>>(
        &'client self,
        keys: Vec<T>,
    ) -> (request: BatchDelete<'client, 'keys>)
        ensures
            request.client() == self,
            request.keys().len() == keys.len(),
            forall|i: int|
                0 <= i < keys.len() ==> call_ensures(T::into, (keys[i],), #[trigger] request.keys()[i]),
            request.column_family() is None,
    {
        BatchDelete::new(self, converted(keys))
    }

    /// Makes a request for the entries of a range, with the limit given or
    /// else without limit. The entries are asked for with their values and by
    /// ascending key.
    pub fn scan<'client, 'keys: 'client, R: Into<KeyRange<'keys>>, L: Into<Option<u32>>>(
        &'client self,
        range: R,
        limit: L,
    ) -> (request: Scan<'client, 'keys>)
        ensures
            request.client() == self,
            call_ensures(R::into, (range,), request.range()),
            exists|given: Option<u32>| #[trigger]
                call_ensures(L::into, (limit,), given) && request.limit() == limit_of(given),
            !request.is_key_only(),
            !request.is_reverse(),
            request.column_family() is None,
    {
        let given: Option<u32> = limit.into();
        Scan::new(
            self,
            range.into(),
            match given {
                Some(count) => count,
                None => u32::MAX,
            },
        )
    }

    /// Makes a request for the entries of several ranges, with the limit given
    /// for each range or else without limit. The entries are asked for with
    /// their values and by ascending key.
    pub fn batch_scan<'client, 'keys: 'client, R: Into<KeyRange<'keys>>, L: Into<Option<u32>>>(
        &'client self,
        ranges: Vec<R>,
        each_limit: L,
    ) -> (request: BatchScan<'client, 'keys>)
        ensures
            request.client() == self,
            request.ranges().len() == ranges.len(),
            forall|i: int|
                0 <= i < ranges.len() ==> call_ensures(
                    R::into,
                    (ranges[i],),
                    #[trigger] request.ranges()[i],
                ),
            exists|given: Option<u32>| #[trigger]
                call_ensures(L::into, (each_limit,), given) && request.each_limit() == limit_of(
                    given,
                ),
            !request.is_key_only(),
            !request.is_reverse(),
            request.column_family() is None,
    {
        let given: Option<u32> = each_limit.into();
        BatchScan::new(
            self,
            converted(ranges),
            match given {
                Some(count) => count,
                None => u32::MAX,
            },
        )
    }

    /// Makes a request to delete every key of a range.
    pub fn delete_range<'client, 'keys: 'client, R: Into<KeyRange<'keys>>>(
        &'client self,
        range: R,
    ) -> (request: DeleteRange<'client, 'keys>)
        ensures
            request.client() == self,
            call_ensures(R::into, (range,), request.range()),
            request.column_family() is None,
    {
        DeleteRange::new(self, range.into())
    }
}

/// Converts each item of a vector, in their order.
fn converted<T: Into<U>, U>(items: Vec<T>) -> (out: Vec<U>)
    ensures
        out.len() == items.len(),
        forall|i: int| 0 <= i < items.len() ==> call_ensures(T::into, (items[i],), #[trigger] out[i]),
{
    let mut out: Vec<U> = Vec::new();
    for item in it: items
        invariant
            out.len() == it.index(),
            forall|i: int|
                0 <= i < out.len() ==> call_ensures(T::into, (it.seq()[i],), #[trigger] out[i]),
    {
        out.push(item.into());
    }
    out
}

} // verus!
