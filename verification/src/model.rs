//! What the raw operations mean, over an abstract cluster.
//!
//! A cluster is a set of named partitions, each a finite map from keys to
//! values. This module says, as functions of such a cluster, what every
//! operation answers and what it leaves behind. The requests of
//! [`crate::raw`] are held to these functions, and so is the cluster of
//! [`crate::memory`].

use crate::errors::Error;
use crate::order::{
    key_lt, lemma_key_lt_asymmetric, lemma_key_lt_irreflexive, lemma_key_lt_transitive,
    lemma_key_trichotomy,
};
use crate::range::Span;
use vstd::prelude::*;

verus! {

/// The entries of one partition.
pub type Entries = Map<Seq<u8>, Seq<u8>>;

/// A run of key/value pairs, as a scan or a batch get reports it.
pub type Listing = Seq<(Seq<u8>, Seq<u8>)>;

/// The name of the partition that a request addresses when it names none.
pub open spec fn default_partition() -> Seq<char> {
    "default"@
}

/// The keys of the listing grow strictly from each pair to the next.
pub open spec fn is_ascending(listing: Listing) -> bool {
    forall|i: int, j: int|
        #![trigger listing[i], listing[j]]
        0 <= i < j < listing.len() ==> key_lt(listing[i].0, listing[j].0)
}

/// The listing has a pair for the key.
pub open spec fn holds_key(listing: Listing, key: Seq<u8>) -> bool {
    exists|i: int| 0 <= i < listing.len() && (#[trigger] listing[i]).0 == key
}

/// The listing is the content of the span: exactly the entries whose key lies
/// within it, each once, by ascending key.
pub open spec fn lists(entries: Entries, span: Span, listing: Listing) -> bool {
    &&& is_ascending(listing)
    &&& forall|i: int|
        0 <= i < listing.len() ==> span.contains((#[trigger] listing[i]).0)
            && entries.contains_pair(listing[i].0, listing[i].1)
    &&& forall|key: Seq<u8>|
        #[trigger] entries.contains_key(key) && span.contains(key) ==> holds_key(listing, key)
}

/// The content of the span by ascending key.
pub open spec fn ascending_listing(entries: Entries, span: Span) -> Listing {
    choose|listing: Listing| lists(entries, span, listing)
}

/// The same keys in the same order, none with a payload.
pub open spec fn without_values(listing: Listing) -> Listing {
    listing.map_values(|pair: (Seq<u8>, Seq<u8>)| (pair.0, Seq::<u8>::empty()))
}

/// How many pairs of `available` a scan with this limit reports. The largest
/// limit stands for no limit at all.
pub open spec fn kept(limit: u32, available: nat) -> nat {
    if limit == u32::MAX || limit >= available {
        available
    } else {
        limit as nat
    }
}

/// What a listing reports under a limit and the choice of keys only: its
/// first pairs up to the limit, without their values where only keys are asked
/// for.
pub open spec fn report_of(ordered: Listing, limit: u32, key_only: bool) -> Listing {
    let first = ordered.take(kept(limit, ordered.len()) as int);
    if key_only {
        without_values(first)
    } else {
        first
    }
}

/// What a scan of the span reports: the content of the span, by ascending key
/// or, reversed, by descending key, as it is reported under the limit and the
/// choice of keys only.
pub open spec fn scan_of(entries: Entries, span: Span, limit: u32, key_only: bool, reverse: bool)
    -> Listing {
    let content = ascending_listing(entries, span);
    report_of(
        if reverse {
            content.reverse()
        } else {
            content
        },
        limit,
        key_only,
    )
}

/// What a batch get reports: for each of the keys that has an entry, in the
/// order of the request, the key with its value. A key without entry is left
/// out, and a key asked for twice is reported twice.
pub open spec fn found_among(entries: Entries, keys: Seq<Seq<u8>>) -> Listing {
    keys.filter(|key: Seq<u8>| entries.contains_key(key)).map_values(
        |key: Seq<u8>| (key, entries[key]),
    )
}

/// The entries after the pairs were put one after the other: of two pairs with
/// one key, the later one stays.
pub open spec fn with_all(entries: Entries, pairs: Listing) -> Entries {
    pairs.fold_left(entries, |so_far: Entries, pair: (Seq<u8>, Seq<u8>)| so_far.insert(pair.0, pair.1))
}

/// The entries without those whose key lies within the span.
pub open spec fn without_span(entries: Entries, span: Span) -> Entries {
    Map::new(|key: Seq<u8>| entries.contains_key(key) && !span.contains(key), |key: Seq<u8>| entries[key])
}

/// A cluster: its partitions by name.
pub struct ClusterState {
    pub partitions: Map<Seq<char>, Map<Seq<u8>, Seq<u8>>>,
}

impl ClusterState {
    /// The cluster has a partition of this name.
    pub open spec fn has_partition(self, name: Seq<char>) -> bool {
        self.partitions.contains_key(name)
    }

    /// The entries of the partition of this name.
    pub open spec fn entries(self, name: Seq<char>) -> Entries {
        self.partitions[name]
    }

    /// The default partition exists, and every partition holds finitely many
    /// entries.
    pub open spec fn wf(self) -> bool {
        &&& self.has_partition(default_partition())
        &&& forall|name: Seq<char>| #[trigger]
            self.has_partition(name) ==> self.entries(name).dom().finite()
    }

    /// The cluster with other entries in one of its partitions; itself, where
    /// it has no partition of that name.
    pub open spec fn with_entries(self, name: Seq<char>, entries: Entries) -> ClusterState {
        if self.has_partition(name) {
            ClusterState { partitions: self.partitions.insert(name, entries) }
        } else {
            self
        }
    }

    /// The cluster with one more, empty partition; itself, where it has one
    /// of that name already.
    pub open spec fn with_partition(self, name: Seq<char>) -> ClusterState {
        if self.has_partition(name) {
            self
        } else {
            ClusterState { partitions: self.partitions.insert(name, Map::empty()) }
        }
    }

    /// How a request that names this partition and asks for no payload ends:
    /// well if the cluster has the partition, else as a dispatch failure. This
    /// does not depend on any key.
    pub open spec fn outcome(self, name: Seq<char>) -> Result<(), Error> {
        if self.has_partition(name) {
            Ok(())
        } else {
            Err(Error::Dispatch)
        }
    }

    /// What the cluster holds for the key, if anything.
    pub open spec fn lookup(self, name: Seq<char>, key: Seq<u8>) -> Result<Option<Seq<u8>>, Error> {
        if !self.has_partition(name) {
            Err(Error::Dispatch)
        } else if self.entries(name).contains_key(key) {
            Ok(Some(self.entries(name)[key]))
        } else {
            Ok(None)
        }
    }

    /// What a get resolves to: the value of the key, or "not found".
    pub open spec fn get(self, name: Seq<char>, key: Seq<u8>) -> Result<Seq<u8>, Error> {
        match self.lookup(name, key) {
            Ok(Some(value)) => Ok(value),
            Ok(None) => Err(Error::NotFound),
            Err(error) => Err(error),
        }
    }

    /// What a batch get resolves to.
    pub open spec fn batch_get(self, name: Seq<char>, keys: Seq<Seq<u8>>) -> Result<Listing, Error> {
        if self.has_partition(name) {
            Ok(found_among(self.entries(name), keys))
        } else {
            Err(Error::Dispatch)
        }
    }

    /// What a scan resolves to.
    pub open spec fn scan(
        self,
        name: Seq<char>,
        span: Span,
        limit: u32,
        key_only: bool,
        reverse: bool,
    ) -> Result<Listing, Error> {
        if self.has_partition(name) {
            Ok(scan_of(self.entries(name), span, limit, key_only, reverse))
        } else {
            Err(Error::Dispatch)
        }
    }

    /// What a batch scan resolves to: for each span, in the order of the
    /// request, what a scan of that span alone resolves to.
    pub open spec fn batch_scan(
        self,
        name: Seq<char>,
        spans: Seq<Span>,
        each_limit: u32,
        key_only: bool,
        reverse: bool,
    ) -> Result<Seq<Listing>, Error> {
        if self.has_partition(name) {
            Ok(
                spans.map_values(
                    |span: Span| scan_of(self.entries(name), span, each_limit, key_only, reverse),
                ),
            )
        } else {
            Err(Error::Dispatch)
        }
    }

    /// The cluster after a put.
    pub open spec fn put(self, name: Seq<char>, key: Seq<u8>, value: Seq<u8>) -> ClusterState {
        self.with_entries(name, self.entries(name).insert(key, value))
    }

    /// The cluster after a batch put.
    pub open spec fn batch_put(self, name: Seq<char>, pairs: Listing) -> ClusterState {
        self.with_entries(name, with_all(self.entries(name), pairs))
    }

    /// The cluster after a delete.
    pub open spec fn delete(self, name: Seq<char>, key: Seq<u8>) -> ClusterState {
        self.with_entries(name, self.entries(name).remove(key))
    }

    /// The cluster after a batch delete.
    pub open spec fn batch_delete(self, name: Seq<char>, keys: Seq<Seq<u8>>) -> ClusterState {
        self.with_entries(name, self.entries(name).remove_keys(keys.to_set()))
    }

    /// The cluster after a delete of a range.
    pub open spec fn delete_range(self, name: Seq<char>, span: Span) -> ClusterState {
        self.with_entries(name, without_span(self.entries(name), span))
    }
}

/// Where a listing holds a key, it holds it at one place only.
pub proof fn lemma_ascending_keys_differ(listing: Listing, i: int, j: int)
    requires
        is_ascending(listing),
        0 <= i < listing.len(),
        0 <= j < listing.len(),
        listing[i].0 == listing[j].0,
    ensures
        i == j,
{
    lemma_key_lt_irreflexive(listing[i].0);
    if i < j {
        assert(key_lt(listing[i].0, listing[j].0));
    } else if j < i {
        assert(key_lt(listing[j].0, listing[i].0));
    }
}

/// Two listings of the content of one span agree up to the shorter one.
proof fn lemma_listings_agree(entries: Entries, span: Span, a: Listing, b: Listing, n: int)
    requires
        lists(entries, span, a),
        lists(entries, span, b),
        0 <= n <= a.len(),
        n <= b.len(),
    ensures
        forall|i: int| 0 <= i < n ==> a[i] == b[i],
    decreases n,
{
    if n > 0 {
        lemma_listings_agree(entries, span, a, b, n - 1);
        let m = n - 1;
        let ka = a[m].0;
        let kb = b[m].0;
        assert(entries.contains_key(ka) && span.contains(ka));
        assert(entries.contains_key(kb) && span.contains(kb));
        assert(holds_key(b, ka));
        assert(holds_key(a, kb));
        let jb = choose|j: int| 0 <= j < b.len() && (#[trigger] b[j]).0 == ka;
        let ja = choose|j: int| 0 <= j < a.len() && (#[trigger] a[j]).0 == kb;
        if jb < m {
            assert(a[jb] == b[jb]);
            lemma_ascending_keys_differ(a, jb, m);
        }
        if ja < m {
            assert(a[ja] == b[ja]);
            lemma_ascending_keys_differ(b, ja, m);
        }
        lemma_key_trichotomy(ka, kb);
        lemma_key_lt_irreflexive(ka);
        if jb > m {
            assert(key_lt(b[m].0, b[jb].0));
        }
        if ja > m {
            assert(key_lt(a[m].0, a[ja].0));
        }
        if key_lt(kb, ka) && key_lt(ka, kb) {
            lemma_key_lt_asymmetric(ka, kb);
        }
        assert(ka == kb);
        assert(a[m].1 == entries[ka]);
        assert(b[m].1 == entries[kb]);
        assert(a[m] == b[m]);
    }
}

/// The content of a span has one listing only.
pub proof fn lemma_listing_is_unique(entries: Entries, span: Span, a: Listing, b: Listing)
    requires
        lists(entries, span, a),
        lists(entries, span, b),
    ensures
        a == b,
{
    if a.len() <= b.len() {
        lemma_listings_agree(entries, span, a, b, a.len() as int);
        if a.len() < b.len() {
            let extra = b[a.len() as int].0;
            assert(entries.contains_key(extra) && span.contains(extra));
            assert(holds_key(a, extra));
            let j = choose|j: int| 0 <= j < a.len() && (#[trigger] a[j]).0 == extra;
            assert(a[j] == b[j]);
            lemma_ascending_keys_differ(b, j, a.len() as int);
        }
    } else {
        lemma_listings_agree(entries, span, a, b, b.len() as int);
        let extra = a[b.len() as int].0;
        assert(entries.contains_key(extra) && span.contains(extra));
        assert(holds_key(b, extra));
        let j = choose|j: int| 0 <= j < b.len() && (#[trigger] b[j]).0 == extra;
        assert(a[j] == b[j]);
        lemma_ascending_keys_differ(a, j, b.len() as int);
    }
    assert(a =~= b);
}

/// A listing of the content of a span is the one that `ascending_listing`
/// names.
pub proof fn lemma_listing_is_the_ascending_listing(entries: Entries, span: Span, listing: Listing)
    requires
        lists(entries, span, listing),
    ensures
        ascending_listing(entries, span) == listing,
{
    lemma_listing_is_unique(entries, span, ascending_listing(entries, span), listing);
}

/// How many leading pairs of the listing have a key before `key`.
spec fn rank(listing: Listing, key: Seq<u8>) -> nat
    decreases listing.len(),
{
    if listing.len() == 0 {
        0
    } else if key_lt(listing.last().0, key) {
        listing.len()
    } else {
        rank(listing.drop_last(), key)
    }
}

/// In an ascending listing the pairs before the rank of a key have keys before
/// it, and the pairs from the rank on do not.
proof fn lemma_rank_splits(listing: Listing, key: Seq<u8>)
    requires
        is_ascending(listing),
    ensures
        rank(listing, key) <= listing.len(),
        forall|i: int| 0 <= i < rank(listing, key) ==> key_lt((#[trigger] listing[i]).0, key),
        forall|i: int|
            rank(listing, key) <= i < listing.len() ==> !key_lt((#[trigger] listing[i]).0, key),
    decreases listing.len(),
{
    if listing.len() > 0 {
        let last = listing.len() - 1;
        if key_lt(listing.last().0, key) {
            assert forall|i: int| 0 <= i < listing.len() implies key_lt(
                (#[trigger] listing[i]).0,
                key,
            ) by {
                if i < last {
                    assert(key_lt(listing[i].0, listing[last].0));
                    lemma_key_lt_transitive(listing[i].0, listing[last].0, key);
                }
            }
        } else {
            let shorter = listing.drop_last();
            assert forall|i: int, j: int|
                #![trigger shorter[i], shorter[j]]
                0 <= i < j < shorter.len() implies key_lt(shorter[i].0, shorter[j].0) by {
                assert(shorter[i] == listing[i] && shorter[j] == listing[j]);
            }
            lemma_rank_splits(shorter, key);
            assert forall|i: int| 0 <= i < rank(listing, key) implies key_lt(
                (#[trigger] listing[i]).0,
                key,
            ) by {
                assert(shorter[i] == listing[i]);
            }
            assert forall|i: int| rank(listing, key) <= i < listing.len() implies !key_lt(
                (#[trigger] listing[i]).0,
                key,
            ) by {
                if i < last {
                    assert(shorter[i] == listing[i]);
                }
            }
        }
    }
}

/// Every span of a finite partition has a listing of its content.
pub proof fn lemma_listing_exists(entries: Entries, span: Span)
    requires
        entries.dom().finite(),
    ensures
        lists(entries, span, ascending_listing(entries, span)),
    decreases entries.dom().len(),
{
    if entries.dom().len() == 0 {
        let none: Listing = Seq::empty();
        assert forall|key: Seq<u8>| #[trigger]
            entries.contains_key(key) && span.contains(key) implies holds_key(none, key) by {
            assert(entries.dom().contains(key));
            assert(false);
        }
        assert(lists(entries, span, none));
    } else {
        let picked = entries.dom().choose();
        let value = entries[picked];
        let rest = entries.remove(picked);
        assert(rest.dom() =~= entries.dom().remove(picked));
        lemma_listing_exists(rest, span);
        let shorter = ascending_listing(rest, span);
        if !span.contains(picked) {
            assert forall|key: Seq<u8>| #[trigger]
                entries.contains_key(key) && span.contains(key) implies holds_key(shorter, key) by {
                assert(rest.contains_key(key));
            }
            assert(lists(entries, span, shorter));
        } else {
            lemma_rank_splits(shorter, picked);
            let at = rank(shorter, picked) as int;
            let longer = shorter.insert(at, (picked, value));
            shorter.insert_ensures(at, (picked, value));
            assert forall|i: int| at <= i < shorter.len() implies key_lt(
                picked,
                (#[trigger] shorter[i]).0,
            ) by {
                assert(rest.contains_key(shorter[i].0));
                lemma_key_trichotomy(picked, shorter[i].0);
            }
            assert forall|i: int, j: int|
                #![trigger longer[i], longer[j]]
                0 <= i < j < longer.len() implies key_lt(longer[i].0, longer[j].0) by {
                if j < at {
                    assert(longer[i] == shorter[i] && longer[j] == shorter[j]);
                } else if j == at {
                    assert(longer[i] == shorter[i]);
                } else if i < at {
                    assert(longer[i] == shorter[i] && longer[j] == shorter[j - 1]);
                    if j - 1 == i {
                        assert(false);
                    }
                } else if i == at {
                    assert(longer[j] == shorter[j - 1]);
                } else {
                    assert(longer[i] == shorter[i - 1] && longer[j] == shorter[j - 1]);
                }
            }
            assert forall|i: int| 0 <= i < longer.len() implies span.contains(
                (#[trigger] longer[i]).0,
            ) && entries.contains_pair(longer[i].0, longer[i].1) by {
                if i < at {
                    assert(longer[i] == shorter[i]);
                    assert(rest.contains_pair(shorter[i].0, shorter[i].1));
                } else if i > at {
                    assert(longer[i] == shorter[i - 1]);
                    assert(rest.contains_pair(shorter[i - 1].0, shorter[i - 1].1));
                }
            }
            assert forall|key: Seq<u8>| #[trigger]
                entries.contains_key(key) && span.contains(key) implies holds_key(longer, key) by {
                if key == picked {
                    assert(longer[at].0 == key);
                } else {
                    assert(rest.contains_key(key));
                    assert(holds_key(shorter, key));
                    let i = choose|i: int| 0 <= i < shorter.len() && (#[trigger] shorter[i]).0 == key;
                    if i < at {
                        assert(longer[i] == shorter[i]);
                    } else {
                        assert(longer[i + 1] == shorter[i]);
                    }
                }
            }
            assert(lists(entries, span, longer));
        }
    }
}

} // verus!
