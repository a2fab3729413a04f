//! A partition held in memory: its pairs in a vector, by ascending key.
//!
//! The vector is read as a map through [`as_entries`]. The functions here
//! keep the vector ascending and say, over that map, what they change.

use crate::kv::{group_views, key_views, pair_views, Key, KeyRef, KvPair, Value};
use crate::model::{
    ascending_listing, found_among, holds_key, is_ascending, kept, lemma_ascending_keys_differ,
    lemma_listing_is_the_ascending_listing, report_of, scan_of, with_all, without_span,
    without_values, Entries,
    Listing,
};
use crate::order::{
    compare, key_lt, lemma_key_lt_irreflexive, lemma_key_lt_transitive, lemma_key_trichotomy, Side,
};
use crate::range::{span_views, KeyRange, Span};
use vstd::prelude::*;

verus! {

/// A place at which the listing holds the key, where it holds it at all.
pub open spec fn place_in(listing: Listing, key: Seq<u8>) -> int {
    choose|i: int| 0 <= i < listing.len() && (#[trigger] listing[i]).0 == key
}

/// The map that an ascending listing stands for.
pub open spec fn as_entries(listing: Listing) -> Entries {
    Map::new(
        |key: Seq<u8>| holds_key(listing, key),
        |key: Seq<u8>| listing[place_in(listing, key)].1,
    )
}

/// Each pair of an ascending listing is an entry of its map.
pub proof fn lemma_pair_is_entry(listing: Listing, i: int)
    requires
        is_ascending(listing),
        0 <= i < listing.len(),
    ensures
        as_entries(listing).contains_pair(listing[i].0, listing[i].1),
{
    let key = listing[i].0;
    assert(holds_key(listing, key));
    lemma_ascending_keys_differ(listing, i, place_in(listing, key));
}

/// The map of a listing has finitely many keys.
pub proof fn lemma_as_entries_finite(listing: Listing)
    ensures
        as_entries(listing).dom().finite(),
    decreases listing.len(),
{
    if listing.len() == 0 {
        assert(as_entries(listing).dom() =~= Set::<Seq<u8>>::empty());
    } else {
        let shorter = listing.drop_last();
        lemma_as_entries_finite(shorter);
        let grown = as_entries(shorter).dom().insert(listing.last().0);
        assert forall|key: Seq<u8>| as_entries(listing).dom().contains(key) implies grown.contains(
            key,
        ) by {
            let i = choose|i: int| 0 <= i < listing.len() && (#[trigger] listing[i]).0 == key;
            if i < listing.len() - 1 {
                assert(shorter[i].0 == key);
            }
        }
        assert forall|key: Seq<u8>| grown.contains(key) implies as_entries(listing).dom().contains(
            key,
        ) by {
            if key == listing.last().0 {
                assert(listing[listing.len() - 1].0 == key);
            } else {
                let i = choose|i: int| 0 <= i < shorter.len() && (#[trigger] shorter[i]).0 == key;
                assert(listing[i].0 == key);
            }
        }
        assert(as_entries(listing).dom() =~= grown);
    }
}

/// Where `key` would stand in the listing: every pair before `at` has a key
/// before it, and every pair from `at` on does not.
pub open spec fn stands_at(listing: Listing, key: Seq<u8>, at: int) -> bool {
    &&& 0 <= at <= listing.len()
    &&& forall|i: int| 0 <= i < at ==> key_lt((#[trigger] listing[i]).0, key)
    &&& forall|i: int| at <= i < listing.len() ==> !key_lt((#[trigger] listing[i]).0, key)
}

/// A key has an entry exactly if the pair at its place carries it.
pub proof fn lemma_place_decides(listing: Listing, key: Seq<u8>, at: int)
    requires
        is_ascending(listing),
        stands_at(listing, key, at),
    ensures
        as_entries(listing).contains_key(key) <==> (at < listing.len() && listing[at].0 == key),
        at < listing.len() && listing[at].0 == key ==> as_entries(listing)[key] == listing[at].1,
        forall|i: int|
            at <= i < listing.len() && (at == listing.len() || listing[at].0 != key) ==> key_lt(
                key,
                (#[trigger] listing[i]).0,
            ),
{
    lemma_key_lt_irreflexive(key);
    if at < listing.len() && listing[at].0 == key {
        lemma_pair_is_entry(listing, at);
    }
    if as_entries(listing).contains_key(key) {
        let i = choose|i: int| 0 <= i < listing.len() && (#[trigger] listing[i]).0 == key;
        if i < at {
            assert(key_lt(listing[i].0, key));
        } else if i > at {
            assert(key_lt(listing[at].0, listing[i].0));
            assert(!key_lt(listing[at].0, key));
        }
    }
    assert forall|i: int|
        at <= i < listing.len() && (at == listing.len() || listing[at].0 != key) implies key_lt(
        key,
        (#[trigger] listing[i]).0,
    ) by {
        lemma_key_trichotomy(key, listing[at].0);
        assert(key_lt(key, listing[at].0));
        if i > at {
            assert(key_lt(listing[at].0, listing[i].0));
            lemma_key_lt_transitive(key, listing[at].0, listing[i].0);
        }
    }
}

/// A new pair set in at the place of its key keeps the listing ascending and
/// adds one entry to its map.
pub proof fn lemma_insert_adds(listing: Listing, key: Seq<u8>, value: Seq<u8>, at: int)
    requires
        is_ascending(listing),
        stands_at(listing, key, at),
        at == listing.len() || listing[at].0 != key,
    ensures
        is_ascending(listing.insert(at, (key, value))),
        as_entries(listing.insert(at, (key, value))) == as_entries(listing).insert(key, value),
{
    let longer = listing.insert(at, (key, value));
    listing.insert_ensures(at, (key, value));
    lemma_place_decides(listing, key, at);
    assert forall|i: int, j: int|
        #![trigger longer[i], longer[j]]
        0 <= i < j < longer.len() implies key_lt(longer[i].0, longer[j].0) by {
        if j < at {
            assert(longer[i] == listing[i] && longer[j] == listing[j]);
        } else if j == at {
            assert(longer[i] == listing[i]);
        } else if i < at {
            assert(longer[i] == listing[i] && longer[j] == listing[j - 1]);
        } else if i == at {
            assert(longer[j] == listing[j - 1]);
        } else {
            assert(longer[i] == listing[i - 1] && longer[j] == listing[j - 1]);
        }
    }
    let grown = as_entries(listing).insert(key, value);
    assert forall|k: Seq<u8>| as_entries(longer).contains_key(k) <==> grown.contains_key(k) by {
        if as_entries(longer).contains_key(k) {
            let i = choose|i: int| 0 <= i < longer.len() && (#[trigger] longer[i]).0 == k;
            if i < at {
                assert(listing[i].0 == k);
            } else if i > at {
                assert(listing[i - 1].0 == k);
            }
        }
        if grown.contains_key(k) {
            if k == key {
                assert(longer[at].0 == k);
            } else {
                let i = choose|i: int| 0 <= i < listing.len() && (#[trigger] listing[i]).0 == k;
                if i < at {
                    assert(longer[i].0 == k);
                } else {
                    assert(longer[i + 1].0 == k);
                }
            }
        }
    }
    assert forall|k: Seq<u8>| as_entries(longer).contains_key(k) implies as_entries(longer)[k]
        == grown[k] by {
        let i = choose|i: int| 0 <= i < longer.len() && (#[trigger] longer[i]).0 == k;
        lemma_pair_is_entry(longer, i);
        if i < at {
            lemma_pair_is_entry(listing, i);
        } else if i > at {
            lemma_pair_is_entry(listing, i - 1);
        }
    }
    assert(as_entries(longer) =~= grown);
}

/// Another value at the place of a key that has an entry keeps the listing
/// ascending and changes that one entry of its map.
pub proof fn lemma_update_replaces(listing: Listing, key: Seq<u8>, value: Seq<u8>, at: int)
    requires
        is_ascending(listing),
        0 <= at < listing.len(),
        listing[at].0 == key,
    ensures
        is_ascending(listing.update(at, (key, value))),
        as_entries(listing.update(at, (key, value))) == as_entries(listing).insert(key, value),
{
    let changed = listing.update(at, (key, value));
    assert forall|i: int, j: int|
        #![trigger changed[i], changed[j]]
        0 <= i < j < changed.len() implies key_lt(changed[i].0, changed[j].0) by {
        assert(changed[i].0 == listing[i].0 && changed[j].0 == listing[j].0);
    }
    let grown = as_entries(listing).insert(key, value);
    assert forall|k: Seq<u8>| as_entries(changed).contains_key(k) <==> grown.contains_key(k) by {
        if as_entries(changed).contains_key(k) {
            let i = choose|i: int| 0 <= i < changed.len() && (#[trigger] changed[i]).0 == k;
            assert(listing[i].0 == k);
        }
        if grown.contains_key(k) {
            if k == key {
                assert(changed[at].0 == k);
            } else {
                let i = choose|i: int| 0 <= i < listing.len() && (#[trigger] listing[i]).0 == k;
                assert(changed[i].0 == k);
            }
        }
    }
    assert forall|k: Seq<u8>| as_entries(changed).contains_key(k) implies as_entries(changed)[k]
        == grown[k] by {
        let i = choose|i: int| 0 <= i < changed.len() && (#[trigger] changed[i]).0 == k;
        lemma_pair_is_entry(changed, i);
        if i != at {
            assert(listing[i] == changed[i]);
            lemma_pair_is_entry(listing, i);
            if k == key {
                lemma_ascending_keys_differ(changed, i, at);
            }
        }
    }
    assert(as_entries(changed) =~= grown);
}

/// A listing without one of its pairs is ascending, and its map lacks that
/// one entry.
pub proof fn lemma_remove_drops(listing: Listing, at: int)
    requires
        is_ascending(listing),
        0 <= at < listing.len(),
    ensures
        is_ascending(listing.remove(at)),
        as_entries(listing.remove(at)) == as_entries(listing).remove(listing[at].0),
{
    let shorter = listing.remove(at);
    let key = listing[at].0;
    listing.remove_ensures(at);
    assert forall|i: int, j: int|
        #![trigger shorter[i], shorter[j]]
        0 <= i < j < shorter.len() implies key_lt(shorter[i].0, shorter[j].0) by {
        if j < at {
            assert(shorter[i] == listing[i] && shorter[j] == listing[j]);
        } else if i < at {
            assert(shorter[i] == listing[i] && shorter[j] == listing[j + 1]);
        } else {
            assert(shorter[i] == listing[i + 1] && shorter[j] == listing[j + 1]);
        }
    }
    let fewer = as_entries(listing).remove(key);
    assert forall|k: Seq<u8>| as_entries(shorter).contains_key(k) <==> fewer.contains_key(k) by {
        if as_entries(shorter).contains_key(k) {
            let i = choose|i: int| 0 <= i < shorter.len() && (#[trigger] shorter[i]).0 == k;
            if i < at {
                assert(listing[i].0 == k);
                lemma_ascending_keys_differ(listing, i, if k == key { at } else { i });
            } else {
                assert(listing[i + 1].0 == k);
                lemma_ascending_keys_differ(listing, i + 1, if k == key { at } else { i + 1 });
            }
        }
        if fewer.contains_key(k) {
            let i = choose|i: int| 0 <= i < listing.len() && (#[trigger] listing[i]).0 == k;
            if i < at {
                assert(shorter[i].0 == k);
            } else {
                assert(shorter[i - 1].0 == k);
            }
        }
    }
    assert forall|k: Seq<u8>| as_entries(shorter).contains_key(k) implies as_entries(shorter)[k]
        == fewer[k] by {
        let i = choose|i: int| 0 <= i < shorter.len() && (#[trigger] shorter[i]).0 == k;
        lemma_pair_is_entry(shorter, i);
        let from = if i < at {
            i
        } else {
            i + 1
        };
        assert(listing[from] == shorter[i]);
        lemma_pair_is_entry(listing, from);
        if k == key {
            lemma_ascending_keys_differ(listing, from, at);
        }
    }
    assert(as_entries(shorter) =~= fewer);
}

/// Finds the place of a key in an ascending vector of pairs.
pub fn place_of(pairs: &Vec<KvPair>, key: &[u8]) -> (found: (usize, bool))
    requires
        is_ascending(pair_views(pairs@)),
    ensures
        stands_at(pair_views(pairs@), key@, found.0 as int),
        found.1 <==> as_entries(pair_views(pairs@)).contains_key(key@),
        found.1 ==> found.0 < pairs.len() && pairs[found.0 as int]@.0 == key@
            && as_entries(pair_views(pairs@))[key@] == pairs[found.0 as int]@.1,
{
    let ghost listing = pair_views(pairs@);
    let mut low: usize = 0;
    let mut high: usize = pairs.len();
    while low < high
        invariant
            listing == pair_views(pairs@),
            is_ascending(listing),
            low <= high <= pairs.len(),
            forall|i: int| 0 <= i < low ==> key_lt((#[trigger] listing[i]).0, key@),
            forall|i: int| high <= i < listing.len() ==> !key_lt((#[trigger] listing[i]).0, key@),
        decreases high - low,
    {
        let mid: usize = low + (high - low) / 2;
        assert(listing[mid as int] == pairs[mid as int]@);
        let side = compare(pairs[mid].key().as_bytes(), key);
        if side == Side::Before {
            assert forall|i: int| 0 <= i < mid + 1 implies key_lt((#[trigger] listing[i]).0, key@) by {
                if i < mid {
                    assert(key_lt(listing[i].0, listing[mid as int].0));
                    lemma_key_lt_transitive(listing[i].0, listing[mid as int].0, key@);
                }
            }
            low = mid + 1;
        } else {
            assert forall|i: int| mid <= i < listing.len() implies !key_lt(
                (#[trigger] listing[i]).0,
                key@,
            ) by {
                if i > mid && key_lt(listing[i].0, key@) {
                    assert(key_lt(listing[mid as int].0, listing[i].0));
                    lemma_key_lt_transitive(listing[mid as int].0, listing[i].0, key@);
                }
            }
            high = mid;
        }
    }
    proof {
        lemma_place_decides(listing, key@, low as int);
    }
    if low < pairs.len() {
        assert(listing[low as int] == pairs[low as int]@);
        let same = compare(pairs[low].key().as_bytes(), key) == Side::Same;
        (low, same)
    } else {
        (low, false)
    }
}

/// Looks a key up in an ascending vector of pairs.
pub fn value_of(pairs: &Vec<KvPair>, key: &[u8]) -> (found: Option<Value>)
    requires
        is_ascending(pair_views(pairs@)),
    ensures
        match found {
            Some(value) => as_entries(pair_views(pairs@)).contains_pair(key@, value@),
            None => !as_entries(pair_views(pairs@)).contains_key(key@),
        },
{
    let (at, present) = place_of(pairs, key);
    if present {
        Some(pairs[at].value().clone())
    } else {
        None
    }
}

/// Puts a pair into an ascending vector of pairs: in place of the pair with
/// its key, or else where its key stands.
pub fn store(pairs: &mut Vec<KvPair>, key: Key, value: Value)
    requires
        is_ascending(pair_views(old(pairs)@)),
    ensures
        is_ascending(pair_views(final(pairs)@)),
        as_entries(pair_views(final(pairs)@)) == as_entries(pair_views(old(pairs)@)).insert(
            key@,
            value@,
        ),
{
    let ghost before = pair_views(pairs@);
    let (at, present) = place_of(pairs, key.as_bytes());
    let ghost key_view = key@;
    let ghost value_view = value@;
    let pair = KvPair::new(key, value);
    if present {
        assert(before[at as int] == pairs[at as int]@);
        pairs[at] = pair;
        proof {
            lemma_update_replaces(before, key_view, value_view, at as int);
            assert(pair_views(pairs@) =~= before.update(at as int, (key_view, value_view)));
        }
    } else {
        proof {
            if at < pairs.len() {
                assert(before[at as int] == pairs[at as int]@);
                lemma_place_decides(before, key_view, at as int);
            }
        }
        pairs.insert(at, pair);
        proof {
            lemma_insert_adds(before, key_view, value_view, at as int);
            assert(pair_views(pairs@) =~= before.insert(at as int, (key_view, value_view)));
        }
    }
}

/// Takes the pair with this key, if there is one, out of an ascending vector
/// of pairs.
pub fn erase(pairs: &mut Vec<KvPair>, key: &[u8])
    requires
        is_ascending(pair_views(old(pairs)@)),
    ensures
        is_ascending(pair_views(final(pairs)@)),
        as_entries(pair_views(final(pairs)@)) == as_entries(pair_views(old(pairs)@)).remove(key@),
{
    let ghost before = pair_views(pairs@);
    let (at, present) = place_of(pairs, key);
    if present {
        assert(before[at as int] == pairs[at as int]@);
        pairs.remove(at);
        proof {
            lemma_remove_drops(before, at as int);
            assert(pair_views(pairs@) =~= before.remove(at as int));
        }
    } else {
        assert(as_entries(before).remove(key@) =~= as_entries(before));
    }
}

/// A listing the other way round: exactly the content of the span, by
/// descending key.
pub open spec fn lists_descending(entries: Entries, span: Span, listing: Listing) -> bool {
    &&& forall|i: int, j: int|
        #![trigger listing[i], listing[j]]
        0 <= i < j < listing.len() ==> key_lt(listing[j].0, listing[i].0)
    &&& forall|i: int|
        0 <= i < listing.len() ==> span.contains((#[trigger] listing[i]).0)
            && entries.contains_pair(listing[i].0, listing[i].1)
    &&& forall|key: Seq<u8>|
        #[trigger] entries.contains_key(key) && span.contains(key) ==> holds_key(listing, key)
}

/// The content of a span by descending key is its ascending listing reversed.
pub proof fn lemma_descending_is_reversed(entries: Entries, span: Span, listing: Listing)
    requires
        lists_descending(entries, span, listing),
    ensures
        ascending_listing(entries, span).reverse() == listing,
{
    let turned = listing.reverse();
    let n = listing.len() as int;
    assert forall|i: int, j: int|
        #![trigger turned[i], turned[j]]
        0 <= i < j < turned.len() implies key_lt(turned[i].0, turned[j].0) by {
        assert(turned[i] == listing[n - 1 - i] && turned[j] == listing[n - 1 - j]);
    }
    assert forall|i: int| 0 <= i < turned.len() implies span.contains((#[trigger] turned[i]).0)
        && entries.contains_pair(turned[i].0, turned[i].1) by {
        assert(turned[i] == listing[n - 1 - i]);
    }
    assert forall|key: Seq<u8>| #[trigger]
        entries.contains_key(key) && span.contains(key) implies holds_key(turned, key) by {
        let i = choose|i: int| 0 <= i < listing.len() && (#[trigger] listing[i]).0 == key;
        assert(turned[n - 1 - i] == listing[i]);
    }
    lemma_listing_is_the_ascending_listing(entries, span, turned);
    assert(turned.reverse() =~= listing);
}

/// The pair as a scan reports it: whole, or without its value where only keys
/// are asked for.
fn reported(pair: &KvPair, key_only: bool) -> (out: KvPair)
    ensures
        out@ == if key_only {
            (pair@.0, Seq::<u8>::empty())
        } else {
            pair@
        },
{
    if key_only {
        KvPair::new(pair.key().clone(), Value::empty())
    } else {
        pair.clone()
    }
}

/// One more pair at the end of a listing shows in its report as long as the
/// limit is not reached, and not at all afterwards.
proof fn lemma_report_grows(earlier: Listing, pair: (Seq<u8>, Seq<u8>), limit: u32, key_only: bool)
    ensures
        limit == u32::MAX || kept(limit, earlier.len()) < limit ==> report_of(
            earlier.push(pair),
            limit,
            key_only,
        ) == report_of(earlier, limit, key_only).push(
            if key_only {
                (pair.0, Seq::<u8>::empty())
            } else {
                pair
            },
        ),
        !(limit == u32::MAX || kept(limit, earlier.len()) < limit) ==> report_of(
            earlier.push(pair),
            limit,
            key_only,
        ) == report_of(earlier, limit, key_only),
{
    let longer = earlier.push(pair);
    let old_first = earlier.take(kept(limit, earlier.len()) as int);
    let new_first = longer.take(kept(limit, longer.len()) as int);
    if limit == u32::MAX || kept(limit, earlier.len()) < limit {
        assert(new_first =~= old_first.push(pair));
        assert(without_values(new_first) =~= without_values(old_first).push(
            (pair.0, Seq::<u8>::empty()),
        ));
    } else {
        assert(new_first =~= old_first);
    }
}

/// Scans an ascending vector of pairs.
pub fn collect(pairs: &Vec<KvPair>, range: &KeyRange, limit: u32, key_only: bool, reverse: bool)
    -> (out: Vec<KvPair>)
    requires
        is_ascending(pair_views(pairs@)),
    ensures
        pair_views(out@) == scan_of(
            as_entries(pair_views(pairs@)),
            range@,
            limit,
            key_only,
            reverse,
        ),
{
    let ghost listing = pair_views(pairs@);
    let ghost entries = as_entries(listing);
    let ghost span = range@;
    let ghost mut seen: Listing = Seq::empty();
    let mut out: Vec<KvPair> = Vec::new();
    if reverse {
        let mut i: usize = pairs.len();
        while i > 0
            invariant
                listing == pair_views(pairs@),
                entries == as_entries(listing),
                span == range@,
                is_ascending(listing),
                i <= pairs.len(),
                forall|a: int, b: int|
                    #![trigger seen[a], seen[b]]
                    0 <= a < b < seen.len() ==> key_lt(seen[b].0, seen[a].0),
                forall|a: int, m: int|
                    #![trigger seen[a], listing[m]]
                    0 <= a < seen.len() && 0 <= m < i ==> key_lt(listing[m].0, seen[a].0),
                forall|a: int|
                    0 <= a < seen.len() ==> span.contains((#[trigger] seen[a]).0)
                        && entries.contains_pair(seen[a].0, seen[a].1),
                forall|m: int|
                    i <= m < listing.len() && span.contains((#[trigger] listing[m]).0)
                        ==> holds_key(seen, listing[m].0),
                out.len() == kept(limit, seen.len()),
                pair_views(out@) == report_of(seen, limit, key_only),
            decreases i,
        {
            i -= 1;
            assert(listing[i as int] == pairs[i as int]@);
            if range.contains(pairs[i].key().as_bytes()) {
                let ghost earlier = seen;
                proof {
                    lemma_pair_is_entry(listing, i as int);
                    seen = seen.push(listing[i as int]);
                    assert forall|m: int|
                        i <= m < listing.len() && span.contains(
                            (#[trigger] listing[m]).0,
                        ) implies holds_key(seen, listing[m].0) by {
                        if m == i {
                            assert(seen[seen.len() - 1] == listing[m]);
                        } else {
                            let a = choose|a: int|
                                0 <= a < earlier.len() && (#[trigger] earlier[a]).0 == listing[m].0;
                            assert(seen[a] == earlier[a]);
                        }
                    }
                }
                let ghost reported_before = pair_views(out@);
                proof {
                    lemma_report_grows(earlier, listing[i as int], limit, key_only);
                }
                if limit == u32::MAX || out.len() < limit as usize {
                    let next = reported(&pairs[i], key_only);
                    out.push(next);
                    assert(pair_views(out@) =~= reported_before.push(next@));
                }
            } else {
                proof {
                    assert forall|m: int|
                        i <= m < listing.len() && span.contains(
                            (#[trigger] listing[m]).0,
                        ) implies holds_key(seen, listing[m].0) by {}
                }
            }
        }
        proof {
            assert forall|key: Seq<u8>| #[trigger]
                entries.contains_key(key) && span.contains(key) implies holds_key(seen, key) by {
                let m = choose|m: int| 0 <= m < listing.len() && (#[trigger] listing[m]).0 == key;
                assert(holds_key(seen, listing[m].0));
            }
            lemma_descending_is_reversed(entries, span, seen);
        }
    } else {
        let mut i: usize = 0;
        while i < pairs.len()
            invariant
                listing == pair_views(pairs@),
                entries == as_entries(listing),
                span == range@,
                is_ascending(listing),
                i <= pairs.len(),
                is_ascending(seen),
                forall|a: int, m: int|
                    #![trigger seen[a], listing[m]]
                    0 <= a < seen.len() && i <= m < listing.len() ==> key_lt(
                        seen[a].0,
                        listing[m].0,
                    ),
                forall|a: int|
                    0 <= a < seen.len() ==> span.contains((#[trigger] seen[a]).0)
                        && entries.contains_pair(seen[a].0, seen[a].1),
                forall|m: int|
                    0 <= m < i && span.contains((#[trigger] listing[m]).0) ==> holds_key(
                        seen,
                        listing[m].0,
                    ),
                out.len() == kept(limit, seen.len()),
                pair_views(out@) == report_of(seen, limit, key_only),
            decreases pairs.len() - i,
        {
            assert(listing[i as int] == pairs[i as int]@);
            if range.contains(pairs[i].key().as_bytes()) {
                let ghost earlier = seen;
                proof {
                    lemma_pair_is_entry(listing, i as int);
                    seen = seen.push(listing[i as int]);
                    assert forall|m: int|
                        0 <= m < i + 1 && span.contains(
                            (#[trigger] listing[m]).0,
                        ) implies holds_key(seen, listing[m].0) by {
                        if m == i {
                            assert(seen[seen.len() - 1] == listing[m]);
                        } else {
                            let a = choose|a: int|
                                0 <= a < earlier.len() && (#[trigger] earlier[a]).0 == listing[m].0;
                            assert(seen[a] == earlier[a]);
                        }
                    }
                }
                let ghost reported_before = pair_views(out@);
                proof {
                    lemma_report_grows(earlier, listing[i as int], limit, key_only);
                }
                if limit == u32::MAX || out.len() < limit as usize {
                    let next = reported(&pairs[i], key_only);
                    out.push(next);
                    assert(pair_views(out@) =~= reported_before.push(next@));
                }
            }
            i += 1;
        }
        proof {
            assert forall|key: Seq<u8>| #[trigger]
                entries.contains_key(key) && span.contains(key) implies holds_key(seen, key) by {
                let m = choose|m: int| 0 <= m < listing.len() && (#[trigger] listing[m]).0 == key;
                assert(holds_key(seen, listing[m].0));
            }
            lemma_listing_is_the_ascending_listing(entries, span, seen);
        }
    }
    out
}

/// Takes every pair whose key lies within the range out of an ascending
/// vector of pairs.
pub fn erase_span(pairs: &mut Vec<KvPair>, range: &KeyRange)
    requires
        is_ascending(pair_views(old(pairs)@)),
    ensures
        is_ascending(pair_views(final(pairs)@)),
        as_entries(pair_views(final(pairs)@)) == without_span(
            as_entries(pair_views(old(pairs)@)),
            range@,
        ),
{
    let ghost before = as_entries(pair_views(pairs@));
    let ghost span = range@;
    let ghost mut removed: Set<Seq<u8>> = Set::empty();
    let mut i: usize = 0;
    proof {
        assert(before.remove_keys(removed) =~= before);
    }
    while i < pairs.len()
        invariant
            span == range@,
            is_ascending(pair_views(pairs@)),
            i <= pairs.len(),
            forall|j: int| 0 <= j < i ==> !span.contains((#[trigger] pair_views(pairs@)[j]).0),
            as_entries(pair_views(pairs@)) == before.remove_keys(removed),
            forall|key: Seq<u8>| removed.contains(key) ==> span.contains(key),
        decreases pairs.len() - i,
    {
        let ghost listing = pair_views(pairs@);
        assert(listing[i as int] == pairs[i as int]@);
        if range.contains(pairs[i].key().as_bytes()) {
            pairs.remove(i);
            proof {
                let key = listing[i as int].0;
                lemma_remove_drops(listing, i as int);
                assert(pair_views(pairs@) =~= listing.remove(i as int));
                assert(before.remove_keys(removed).remove(key) =~= before.remove_keys(
                    removed.insert(key),
                ));
                removed = removed.insert(key);
                assert forall|j: int| 0 <= j < i implies !span.contains(
                    (#[trigger] pair_views(pairs@)[j]).0,
                ) by {
                    assert(pair_views(pairs@)[j] == listing[j]);
                }
            }
        } else {
            i += 1;
        }
    }
    proof {
        let listing = pair_views(pairs@);
        assert forall|key: Seq<u8>| as_entries(listing).contains_key(key) implies !span.contains(
            key,
        ) by {
            let j = choose|j: int| 0 <= j < listing.len() && (#[trigger] listing[j]).0 == key;
        }
        assert(as_entries(listing) =~= without_span(before, span));
    }
}

/// Looks several keys up in an ascending vector of pairs: the pairs found, in
/// the order of the keys.
pub fn find_all(pairs: &Vec<KvPair>, keys: &Vec<KeyRef<'_>>) -> (out: Vec<KvPair>)
    requires
        is_ascending(pair_views(pairs@)),
    ensures
        pair_views(out@) == found_among(as_entries(pair_views(pairs@)), key_views(keys@)),
{
    let ghost entries = as_entries(pair_views(pairs@));
    let ghost wanted = key_views(keys@);
    let mut out: Vec<KvPair> = Vec::new();
    let mut i: usize = 0;
    proof {
        reveal(Seq::filter);
        assert(wanted.take(0) =~= Seq::<Seq<u8>>::empty());
        assert(pair_views(out@) =~= found_among(entries, wanted.take(0)));
    }
    while i < keys.len()
        invariant
            i <= keys.len(),
            wanted == key_views(keys@),
            entries == as_entries(pair_views(pairs@)),
            is_ascending(pair_views(pairs@)),
            pair_views(out@) == found_among(entries, wanted.take(i as int)),
        decreases keys.len() - i,
    {
        let ghost reported = pair_views(out@);
        let found = value_of(pairs, keys[i].as_bytes());
        proof {
            reveal(Seq::filter);
            let longer = wanted.take(i + 1);
            assert(longer.drop_last() =~= wanted.take(i as int));
            assert(longer.last() == keys[i as int]@);
        }
        if let Some(value) = found {
            out.push(KvPair::new(keys[i].to_key(), value));
            assert(pair_views(out@) =~= reported.push((keys[i as int]@, entries[keys[i as int]@])));
        }
        assert(pair_views(out@) =~= found_among(entries, wanted.take(i + 1)));
        i += 1;
    }
    proof {
        assert(wanted.take(keys.len() as int) =~= wanted);
    }
    out
}

/// Puts pairs into an ascending vector of pairs, one after the other in the
/// order given.
pub fn store_all(pairs: &mut Vec<KvPair>, given: Vec<KvPair>)
    requires
        is_ascending(pair_views(old(pairs)@)),
    ensures
        is_ascending(pair_views(final(pairs)@)),
        as_entries(pair_views(final(pairs)@)) == with_all(
            as_entries(pair_views(old(pairs)@)),
            pair_views(given@),
        ),
{
    let ghost entries = as_entries(pair_views(pairs@));
    let ghost all = pair_views(given@);
    proof {
        assert(all.take(0) =~= Seq::<(Seq<u8>, Seq<u8>)>::empty());
    }
    for pair in it: given
        invariant
            all == pair_views(given@),
            is_ascending(pair_views(pairs@)),
            as_entries(pair_views(pairs@)) == with_all(entries, all.take(it.index() as int)),
    {
        proof {
            let longer = all.take(it.index() + 1);
            assert(longer.drop_last() =~= all.take(it.index() as int));
            assert(longer.last() == pair@);
        }
        let (key, value) = pair.into_inner();
        store(pairs, key, value);
    }
    proof {
        assert(all.take(all.len() as int) =~= all);
    }
}

/// Takes the pairs with these keys, as far as there are any, out of an
/// ascending vector of pairs.
pub fn erase_all(pairs: &mut Vec<KvPair>, keys: &Vec<KeyRef<'_>>)
    requires
        is_ascending(pair_views(old(pairs)@)),
    ensures
        is_ascending(pair_views(final(pairs)@)),
        as_entries(pair_views(final(pairs)@)) == as_entries(pair_views(old(pairs)@)).remove_keys(
            key_views(keys@).to_set(),
        ),
{
    let ghost entries = as_entries(pair_views(pairs@));
    let ghost unwanted = key_views(keys@);
    let mut i: usize = 0;
    proof {
        assert(unwanted.take(0).to_set() =~= Set::<Seq<u8>>::empty());
        assert(entries.remove_keys(Set::<Seq<u8>>::empty()) =~= entries);
    }
    while i < keys.len()
        invariant
            i <= keys.len(),
            unwanted == key_views(keys@),
            is_ascending(pair_views(pairs@)),
            as_entries(pair_views(pairs@)) == entries.remove_keys(unwanted.take(i as int).to_set()),
        decreases keys.len() - i,
    {
        proof {
            let gone = unwanted.take(i as int);
            let more = unwanted.take(i + 1);
            let key = keys[i as int]@;
            assert(more[i as int] == key);
            assert forall|other: Seq<u8>| more.to_set().contains(other) <==> gone.to_set().insert(
                key,
            ).contains(other) by {
                if more.contains(other) {
                    let j = choose|j: int| 0 <= j < more.len() && more[j] == other;
                    if j < i {
                        assert(gone[j] == other);
                    }
                }
                if gone.contains(other) {
                    let j = choose|j: int| 0 <= j < gone.len() && gone[j] == other;
                    assert(more[j] == other);
                }
            }
            assert(more.to_set() =~= gone.to_set().insert(key));
            assert(entries.remove_keys(gone.to_set()).remove(key) =~= entries.remove_keys(
                more.to_set(),
            ));
        }
        erase(pairs, keys[i].as_bytes());
        i += 1;
    }
    proof {
        assert(unwanted.take(keys.len() as int) =~= unwanted);
    }
}

/// Scans an ascending vector of pairs for each of several ranges, in their
/// order.
pub fn collect_all(
    pairs: &Vec<KvPair>,
    ranges: &Vec<KeyRange<'_>>,
    each_limit: u32,
    key_only: bool,
    reverse: bool,
) -> (groups: Vec<Vec<KvPair>>)
    requires
        is_ascending(pair_views(pairs@)),
    ensures
        group_views(groups@) == span_views(ranges@).map_values(
            |span: Span|
                scan_of(as_entries(pair_views(pairs@)), span, each_limit, key_only, reverse),
        ),
{
    let ghost entries = as_entries(pair_views(pairs@));
    let mut groups: Vec<Vec<KvPair>> = Vec::new();
    let mut i: usize = 0;
    while i < ranges.len()
        invariant
            i <= ranges.len(),
            entries == as_entries(pair_views(pairs@)),
            is_ascending(pair_views(pairs@)),
            groups.len() == i,
            forall|j: int|
                0 <= j < i ==> pair_views((#[trigger] groups[j])@) == scan_of(
                    entries,
                    ranges[j]@,
                    each_limit,
                    key_only,
                    reverse,
                ),
        decreases ranges.len() - i,
    {
        groups.push(collect(pairs, &ranges[i], each_limit, key_only, reverse));
        i += 1;
    }
    proof {
        assert(group_views(groups@) =~= span_views(ranges@).map_values(
            |span: Span| scan_of(entries, span, each_limit, key_only, reverse),
        ));
    }
    groups
}

} // verus!
