//! A cluster held in memory.
//!
//! It answers every request as [`crate::model`] says a cluster does, and so
//! serves as the cluster against which requests are run where no remote one is
//! at hand. Its view is the [`ClusterState`] that it stands for.
//!
//! The default partition is there from the start and is held on its own; the
//! other partitions are held by name. A partition that is to change is taken
//! out, changed and put back, so that the cluster is sound at every moment.

use crate::config::Config;
use crate::errors::Error;
use crate::kv::{group_views, key_views, pair_views, Key, KeyRef, KvPair, Value};
use crate::model::{default_partition, is_ascending, ClusterState, Listing};
use crate::order::{compare, Side};
use crate::range::{span_views, KeyRange};
use crate::sorted::{
    as_entries, collect, collect_all, erase, erase_all, erase_span, find_all,
    lemma_as_entries_finite, store, store_all, value_of,
};
use vstd::prelude::*;
use vstd::utf8::encode_utf8_decode_utf8;

verus! {

/// A partition with a name of its own: the name and the pairs by ascending key.
struct Partition {
    name: String,
    pairs: Vec<KvPair>,
}

/// Where a partition is held.
#[derive(Clone, Copy)]
enum Place {
    /// The default partition.
    Default,
    /// The named partition at this index.
    Named(usize),
}

/// A place, in contracts.
enum Spot {
    Default,
    Named(int),
}

impl Place {
    /// The place, in contracts.
    spec fn spot(self) -> Spot {
        match self {
            Place::Default => Spot::Default,
            Place::Named(i) => Spot::Named(i as int),
        }
    }
}

/// A cluster held in memory.
pub struct MemoryCluster {
    default_pairs: Vec<KvPair>,
    named: Vec<Partition>,
}

/// What a cluster holds.
struct Held {
    default_pairs: Seq<KvPair>,
    named: Seq<Partition>,
}

impl Held {
    /// Some named partition has this name.
    spec fn is_named(self, name: Seq<char>) -> bool {
        exists|i: int| 0 <= i < self.named.len() && (#[trigger] self.named[i]).name@ == name
    }

    /// Where the named partition of this name stands, if there is one.
    spec fn slot_of(self, name: Seq<char>) -> int {
        choose|i: int| 0 <= i < self.named.len() && (#[trigger] self.named[i]).name@ == name
    }

    /// What holds of a cluster at all times: no two partitions have one name,
    /// and the pairs of each are ascending.
    spec fn sound(self) -> bool {
        &&& is_ascending(pair_views(self.default_pairs))
        &&& forall|i: int, j: int|
            #![trigger self.named[i], self.named[j]]
            0 <= i < j < self.named.len() ==> self.named[i].name@ != self.named[j].name@
        &&& forall|i: int|
            0 <= i < self.named.len() ==> (#[trigger] self.named[i]).name@ != default_partition()
                && is_ascending(pair_views(self.named[i].pairs@))
    }

    /// The place is one of this cluster.
    spec fn has_place(self, place: Spot) -> bool {
        match place {
            Spot::Default => true,
            Spot::Named(i) => 0 <= i < self.named.len(),
        }
    }

    /// The name of the partition at the place.
    spec fn name_at(self, place: Spot) -> Seq<char> {
        match place {
            Spot::Default => default_partition(),
            Spot::Named(i) => self.named[i].name@,
        }
    }

    /// The pairs of the partition at the place.
    spec fn pairs_at(self, place: Spot) -> Seq<KvPair> {
        match place {
            Spot::Default => self.default_pairs,
            Spot::Named(i) => self.named[i].pairs@,
        }
    }

    /// The cluster that this stands for.
    spec fn state(self) -> ClusterState {
        ClusterState {
            partitions: Map::new(
                |name: Seq<char>| name == default_partition() || self.is_named(name),
                |name: Seq<char>|
                    if name == default_partition() {
                        as_entries(pair_views(self.default_pairs))
                    } else {
                        as_entries(pair_views(self.named[self.slot_of(name)].pairs@))
                    },
            ),
        }
    }

    /// The same partitions under the same names, with the same pairs but for
    /// the partition at the place.
    spec fn same_but_at(self, other: Held, place: Spot) -> bool {
        &&& self.named.len() == other.named.len()
        &&& forall|i: int|
            0 <= i < self.named.len() ==> (#[trigger] self.named[i]).name@ == other.named[i].name@
        &&& forall|i: int|
            0 <= i < self.named.len() && place != Spot::Named(i) ==> (
            #[trigger] self.named[i]).pairs == other.named[i].pairs
        &&& place != Spot::Default ==> self.default_pairs == other.default_pairs
    }
}

/// Each partition is found under its name, with its pairs as entries.
proof fn lemma_state_at(held: Held, place: Spot)
    requires
        held.sound(),
        held.has_place(place),
    ensures
        held.state().has_partition(held.name_at(place)),
        held.state().entries(held.name_at(place)) == as_entries(pair_views(held.pairs_at(place))),
{
    if let Spot::Named(at) = place {
        let name = held.named[at].name@;
        assert(held.is_named(name));
        let j = held.slot_of(name);
        if at < j {
            assert(held.named[at].name@ != held.named[j].name@);
        } else if j < at {
            assert(held.named[j].name@ != held.named[at].name@);
        }
    }
}

/// The cluster that sound partitions stand for is well formed.
proof fn lemma_state_wf(held: Held)
    requires
        held.sound(),
    ensures
        held.state().wf(),
{
    let state = held.state();
    assert forall|name: Seq<char>| #[trigger] state.has_partition(name) implies state.entries(
        name,
    ).dom().finite() by {
        if name == default_partition() {
            lemma_as_entries_finite(pair_views(held.default_pairs));
        } else {
            lemma_as_entries_finite(pair_views(held.named[held.slot_of(name)].pairs@));
        }
    }
}

/// Other pairs in one partition change the entries of that partition and
/// nothing else.
proof fn lemma_state_after(before: Held, after: Held, place: Spot)
    requires
        before.sound(),
        before.has_place(place),
        after.same_but_at(before, place),
        is_ascending(pair_views(after.pairs_at(place))),
    ensures
        after.sound(),
        after.state() == before.state().with_entries(
            before.name_at(place),
            as_entries(pair_views(after.pairs_at(place))),
        ),
{
    assert forall|i: int, j: int|
        #![trigger after.named[i], after.named[j]]
        0 <= i < j < after.named.len() implies after.named[i].name@ != after.named[j].name@ by {
        assert(before.named[i].name@ != before.named[j].name@);
    }
    assert forall|i: int| 0 <= i < after.named.len() implies (#[trigger] after.named[i]).name@
        != default_partition() && is_ascending(pair_views(after.named[i].pairs@)) by {
        assert(before.named[i].name@ != default_partition());
        if place != Spot::Named(i) {
            assert(after.named[i].pairs == before.named[i].pairs);
        }
    }
    lemma_state_at(before, place);
    lemma_state_at(after, place);
    let changed = before.name_at(place);
    let target = before.state().with_entries(changed, as_entries(pair_views(after.pairs_at(place))));
    assert forall|name: Seq<char>| after.state().partitions.contains_key(name)
        <==> target.partitions.contains_key(name) by {
        if after.is_named(name) {
            assert(before.named[after.slot_of(name)].name@ == name);
        }
        if before.is_named(name) {
            assert(after.named[before.slot_of(name)].name@ == name);
        }
    }
    assert forall|name: Seq<char>| after.state().partitions.contains_key(name) implies after.state(
    ).partitions[name] == target.partitions[name] by {
        if name != default_partition() {
            let j = after.slot_of(name);
            lemma_state_at(after, Spot::Named(j));
            lemma_state_at(before, Spot::Named(j));
        }
    }
    assert(after.state().partitions =~= target.partitions);
}

/// Whether two names are the same.
fn same_name(a: &str, b: &str) -> (same: bool)
    ensures
        same == (a@ == b@),
{
    proof {
        encode_utf8_decode_utf8(a@);
        encode_utf8_decode_utf8(b@);
    }
    compare(a.as_bytes(), b.as_bytes()) == Side::Same
}

impl View for MemoryCluster {
    type V = ClusterState;

    closed spec fn view(&self) -> ClusterState {
        self.held().state()
    }
}

impl MemoryCluster {
    /// What the cluster holds.
    spec fn held(&self) -> Held {
        Held { default_pairs: self.default_pairs@, named: self.named@ }
    }

    #[verifier::type_invariant]
    spec fn well_kept(self) -> bool {
        self.held().sound()
    }

    /// A cluster with the default partition alone, and nothing in it.
    pub fn new() -> (cluster: MemoryCluster)
        ensures
            cluster@.wf(),
            cluster@.partitions == Map::<Seq<char>, Map<Seq<u8>, Seq<u8>>>::empty().insert(
                default_partition(),
                Map::empty(),
            ),
    {
        let cluster = MemoryCluster { default_pairs: Vec::new(), named: Vec::new() };
        proof {
            lemma_state_wf(cluster.held());
            lemma_state_at(cluster.held(), Spot::Default);
            assert(as_entries(pair_views(cluster.default_pairs@)) =~= Map::empty());
            assert(cluster@.partitions =~= Map::<Seq<char>, Map<Seq<u8>, Seq<u8>>>::empty().insert(
                default_partition(),
                Map::empty(),
            ));
        }
        cluster
    }

    /// Answers the bootstrap of a client: a cluster in memory is within reach
    /// of every configuration.
    pub fn connect(&self, config: &Config) -> (reached: Result<(), Error>)
        ensures
            reached is Ok,
            self@.wf(),
    {
        proof {
            use_type_invariant(self);
            lemma_state_wf(self.held());
        }
        Ok(())
    }

    /// Where the partition of this name is held.
    fn locate(&self, name: &str) -> (found: Option<Place>)
        ensures
            match found {
                Some(place) => self.held().has_place(place.spot()) && self.held().name_at(place.spot())
                    == name@ && self@.has_partition(name@) && self@.entries(name@) == as_entries(
                    pair_views(self.held().pairs_at(place.spot())),
                ),
                None => !self@.has_partition(name@),
            },
            self.held().sound(),
            self@.wf(),
    {
        proof {
            use_type_invariant(self);
            lemma_state_wf(self.held());
        }
        if same_name(name, "default") {
            proof {
                lemma_state_at(self.held(), Spot::Default);
            }
            return Some(Place::Default);
        }
        let mut i: usize = 0;
        while i < self.named.len()
            invariant
                self.held().sound(),
                self@.wf(),
                name@ != default_partition(),
                i <= self.named.len(),
                forall|j: int| 0 <= j < i ==> (#[trigger] self.named[j]).name@ != name@,
            decreases self.named.len() - i,
        {
            if same_name(self.named[i].name.as_str(), name) {
                proof {
                    lemma_state_at(self.held(), Spot::Named(i as int));
                }
                return Some(Place::Named(i));
            }
            i += 1;
        }
        proof {
            if self.held().is_named(name@) {
                assert(self.named[self.held().slot_of(name@)].name@ != name@);
            }
        }
        None
    }

    /// The pairs of the partition at a place.
    fn pairs_at(&self, place: Place) -> (pairs: &Vec<KvPair>)
        requires
            self.held().has_place(place.spot()),
        ensures
            pairs@ == self.held().pairs_at(place.spot()),
            is_ascending(pair_views(pairs@)),
    {
        proof {
            use_type_invariant(self);
        }
        match place {
            Place::Default => &self.default_pairs,
            Place::Named(i) => &self.named[i].pairs,
        }
    }

    /// Takes the pairs of the partition at a place out for a change. The
    /// partition holds nothing until they are given back.
    fn take_pairs(&mut self, place: Place) -> (pairs: Vec<KvPair>)
        requires
            old(self).held().has_place(place.spot()),
        ensures
            pairs@ == old(self).held().pairs_at(place.spot()),
            is_ascending(pair_views(pairs@)),
            old(self).held().sound(),
            final(self).held().same_but_at(old(self).held(), place.spot()),
    {
        proof {
            use_type_invariant(&*self);
        }
        let ghost before = self.held();
        let mut pairs: Vec<KvPair> = Vec::new();
        match place {
            Place::Default => {
                proof {
                    lemma_state_after(
                        before,
                        Held { default_pairs: pairs@, named: self.named@ },
                        place.spot(),
                    );
                }
                std::mem::swap(&mut self.default_pairs, &mut pairs);
            },
            Place::Named(i) => {
                let mut named: Vec<Partition> = Vec::new();
                std::mem::swap(&mut self.named, &mut named);
                std::mem::swap(&mut named[i].pairs, &mut pairs);
                proof {
                    lemma_state_after(
                        before,
                        Held { default_pairs: self.default_pairs@, named: named@ },
                        place.spot(),
                    );
                }
                std::mem::swap(&mut self.named, &mut named);
            },
        }
        pairs
    }

    /// Gives the partition at a place its pairs.
    fn give_pairs(&mut self, place: Place, pairs: Vec<KvPair>)
        requires
            old(self).held().has_place(place.spot()),
            is_ascending(pair_views(pairs@)),
        ensures
            final(self).held().pairs_at(place.spot()) == pairs@,
            final(self).held().same_but_at(old(self).held(), place.spot()),
    {
        proof {
            use_type_invariant(&*self);
        }
        let ghost before = self.held();
        let mut given = pairs;
        match place {
            Place::Default => {
                proof {
                    lemma_state_after(
                        before,
                        Held { default_pairs: given@, named: self.named@ },
                        place.spot(),
                    );
                }
                std::mem::swap(&mut self.default_pairs, &mut given);
            },
            Place::Named(i) => {
                let mut named: Vec<Partition> = Vec::new();
                std::mem::swap(&mut self.named, &mut named);
                std::mem::swap(&mut named[i].pairs, &mut given);
                proof {
                    lemma_state_after(
                        before,
                        Held { default_pairs: self.default_pairs@, named: named@ },
                        place.spot(),
                    );
                }
                std::mem::swap(&mut self.named, &mut named);
            },
        }
    }

    /// Whether the cluster has a partition of this name.
    pub fn has_partition(&self, name: &str) -> (known: bool)
        ensures
            known == self@.has_partition(name@),
            self@.wf(),
    {
        self.locate(name).is_some()
    }

    /// Gives the cluster one more, empty partition, unless it has one of that
    /// name already.
    pub fn add_partition(&mut self, name: &str) -> (added: bool)
        ensures
            final(self)@ == old(self)@.with_partition(name@),
            added == !old(self)@.has_partition(name@),
            final(self)@.wf(),
    {
        if self.locate(name).is_some() {
            return false;
        }
        let ghost before = self.held();
        let mut named: Vec<Partition> = Vec::new();
        std::mem::swap(&mut self.named, &mut named);
        named.push(Partition { name: name.to_owned(), pairs: Vec::new() });
        proof {
            let after = Held { default_pairs: self.default_pairs@, named: named@ };
            let last = before.named.len() as int;
            assert forall|i: int, j: int|
                #![trigger after.named[i], after.named[j]]
                0 <= i < j < after.named.len() implies after.named[i].name@
                != after.named[j].name@ by {
                assert(after.named[i] == before.named[i]);
                if j < last {
                    assert(after.named[j] == before.named[j]);
                } else if before.named[i].name@ == name@ {
                    assert(before.is_named(name@));
                }
            }
            assert forall|i: int| 0 <= i < after.named.len() implies (
            #[trigger] after.named[i]).name@ != default_partition() && is_ascending(
                pair_views(after.named[i].pairs@),
            ) by {
                if i < last {
                    assert(after.named[i] == before.named[i]);
                }
            }
            lemma_state_wf(after);
            let target = before.state().with_partition(name@);
            assert(as_entries(pair_views(after.named[last].pairs@)) =~= Map::empty());
            assert forall|other: Seq<char>| after.state().partitions.contains_key(other)
                <==> target.partitions.contains_key(other) by {
                if after.is_named(other) {
                    let j = after.slot_of(other);
                    if j < last {
                        assert(before.named[j].name@ == other);
                    }
                }
                if before.is_named(other) {
                    assert(after.named[before.slot_of(other)].name@ == other);
                }
                if other == name@ {
                    assert(after.named[last].name@ == other);
                }
            }
            assert forall|other: Seq<char>| after.state().partitions.contains_key(
                other,
            ) implies after.state().partitions[other] == target.partitions[other] by {
                if other != default_partition() {
                    let j = after.slot_of(other);
                    lemma_state_at(after, Spot::Named(j));
                    if j < last {
                        assert(after.named[j] == before.named[j]);
                        lemma_state_at(before, Spot::Named(j));
                    }
                }
            }
            assert(after.state().partitions =~= target.partitions);
        }
        std::mem::swap(&mut self.named, &mut named);
        true
    }

    /// Answers a get: the value that the partition holds for the key, if any.
    pub fn get(&self, partition: &str, key: KeyRef<'_>) -> (found: Result<Option<Value>, Error>)
        ensures
            match found {
                Ok(Some(value)) => self@.lookup(partition@, key@) == Ok::<Option<Seq<u8>>, Error>(
                    Some(value@),
                ),
                Ok(None) => self@.lookup(partition@, key@) == Ok::<Option<Seq<u8>>, Error>(None),
                Err(error) => self@.lookup(partition@, key@) == Err::<Option<Seq<u8>>, Error>(
                    error,
                ),
            },
            self@.wf(),
    {
        match self.locate(partition) {
            Some(place) => Ok(value_of(self.pairs_at(place), key.as_bytes())),
            None => Err(Error::Dispatch),
        }
    }

    /// Answers a batch get: the pairs found among the keys.
    pub fn batch_get(&self, partition: &str, keys: &Vec<KeyRef<'_>>) -> (found: Result<
        Vec<KvPair>,
        Error,
    >)
        ensures
            match found {
                Ok(pairs) => self@.batch_get(partition@, key_views(keys@)) == Ok::<Listing, Error>(
                    pair_views(pairs@),
                ),
                Err(error) => self@.batch_get(partition@, key_views(keys@)) == Err::<
                    Listing,
                    Error,
                >(error),
            },
            self@.wf(),
    {
        match self.locate(partition) {
            Some(place) => Ok(find_all(self.pairs_at(place), keys)),
            None => Err(Error::Dispatch),
        }
    }

    /// Answers a scan.
    pub fn scan(
        &self,
        partition: &str,
        range: &KeyRange<'_>,
        limit: u32,
        key_only: bool,
        reverse: bool,
    ) -> (found: Result<Vec<KvPair>, Error>)
        ensures
            match found {
                Ok(pairs) => self@.scan(partition@, range@, limit, key_only, reverse) == Ok::<
                    Listing,
                    Error,
                >(pair_views(pairs@)),
                Err(error) => self@.scan(partition@, range@, limit, key_only, reverse) == Err::<
                    Listing,
                    Error,
                >(error),
            },
            self@.wf(),
    {
        match self.locate(partition) {
            Some(place) => Ok(collect(self.pairs_at(place), range, limit, key_only, reverse)),
            None => Err(Error::Dispatch),
        }
    }

    /// Answers a batch scan: for each range, in the order given, what a scan
    /// of that range answers.
    pub fn batch_scan(
        &self,
        partition: &str,
        ranges: &Vec<KeyRange<'_>>,
        each_limit: u32,
        key_only: bool,
        reverse: bool,
    ) -> (found: Result<Vec<Vec<KvPair>>, Error>)
        ensures
            match found {
                Ok(groups) => self@.batch_scan(
                    partition@,
                    span_views(ranges@),
                    each_limit,
                    key_only,
                    reverse,
                ) == Ok::<Seq<Listing>, Error>(group_views(groups@)),
                Err(error) => self@.batch_scan(
                    partition@,
                    span_views(ranges@),
                    each_limit,
                    key_only,
                    reverse,
                ) == Err::<Seq<Listing>, Error>(error),
            },
            self@.wf(),
    {
        match self.locate(partition) {
            Some(place) => Ok(
                collect_all(self.pairs_at(place), ranges, each_limit, key_only, reverse),
            ),
            None => Err(Error::Dispatch),
        }
    }

    /// Carries out a put.
    pub fn put(&mut self, partition: &str, key: Key, value: Value) -> (done: Result<(), Error>)
        ensures
            done == old(self)@.outcome(partition@),
            final(self)@ == old(self)@.put(partition@, key@, value@),
            final(self)@.wf(),
    {
        match self.locate(partition) {
            Some(place) => {
                let ghost before = self.held();
                let mut pairs = self.take_pairs(place);
                store(&mut pairs, key, value);
                self.give_pairs(place, pairs);
                proof {
                    lemma_state_after(before, self.held(), place.spot());
                    lemma_state_wf(self.held());
                }
                Ok(())
            },
            None => Err(Error::Dispatch),
        }
    }

    /// Carries out a batch put, pair by pair in the order given, and says how
    /// many pairs it has put: all of them.
    pub fn batch_put(&mut self, partition: &str, pairs: Vec<KvPair>) -> (done: Result<usize, Error>)
        ensures
            match done {
                Ok(count) => old(self)@.has_partition(partition@) && count == pairs.len(),
                Err(error) => !old(self)@.has_partition(partition@) && error == Error::Dispatch,
            },
            final(self)@ == old(self)@.batch_put(partition@, pair_views(pairs@)),
            final(self)@.wf(),
    {
        match self.locate(partition) {
            Some(place) => {
                let ghost before = self.held();
                let count: usize = pairs.len();
                let mut held = self.take_pairs(place);
                store_all(&mut held, pairs);
                self.give_pairs(place, held);
                proof {
                    lemma_state_after(before, self.held(), place.spot());
                    lemma_state_wf(self.held());
                }
                Ok(count)
            },
            None => Err(Error::Dispatch),
        }
    }

    /// Carries out a delete.
    pub fn delete(&mut self, partition: &str, key: KeyRef<'_>) -> (done: Result<(), Error>)
        ensures
            done == old(self)@.outcome(partition@),
            final(self)@ == old(self)@.delete(partition@, key@),
            final(self)@.wf(),
    {
        match self.locate(partition) {
            Some(place) => {
                let ghost before = self.held();
                let mut pairs = self.take_pairs(place);
                erase(&mut pairs, key.as_bytes());
                self.give_pairs(place, pairs);
                proof {
                    lemma_state_after(before, self.held(), place.spot());
                    lemma_state_wf(self.held());
                }
                Ok(())
            },
            None => Err(Error::Dispatch),
        }
    }

    /// Carries out a batch delete, and says for how many keys: all of them.
    pub fn batch_delete(&mut self, partition: &str, keys: &Vec<KeyRef<'_>>) -> (done: Result<
        usize,
        Error,
    >)
        ensures
            match done {
                Ok(count) => old(self)@.has_partition(partition@) && count == keys.len(),
                Err(error) => !old(self)@.has_partition(partition@) && error == Error::Dispatch,
            },
            final(self)@ == old(self)@.batch_delete(partition@, key_views(keys@)),
            final(self)@.wf(),
    {
        match self.locate(partition) {
            Some(place) => {
                let ghost before = self.held();
                let mut pairs = self.take_pairs(place);
                erase_all(&mut pairs, keys);
                self.give_pairs(place, pairs);
                proof {
                    lemma_state_after(before, self.held(), place.spot());
                    lemma_state_wf(self.held());
                }
                Ok(keys.len())
            },
            None => Err(Error::Dispatch),
        }
    }

    /// Carries out a delete of a range.
    pub fn delete_range(&mut self, partition: &str, range: &KeyRange<'_>) -> (done: Result<
        (),
        Error,
    >)
        ensures
            done == old(self)@.outcome(partition@),
            final(self)@ == old(self)@.delete_range(partition@, range@),
            final(self)@.wf(),
    {
        match self.locate(partition) {
            Some(place) => {
                let ghost before = self.held();
                let mut pairs = self.take_pairs(place);
                erase_span(&mut pairs, range);
                self.give_pairs(place, pairs);
                proof {
                    lemma_state_after(before, self.held(), place.spot());
                    lemma_state_wf(self.held());
                }
                Ok(())
            },
            None => Err(Error::Dispatch),
        }
    }
}

} // verus!
