//! What follows from the meaning of the operations.
//!
//! Each statement here holds of every cluster and is proved from the functions
//! of [`crate::model`] alone. Since the requests of [`crate::raw`] resolve to
//! what those functions say, it holds of them as well.

use crate::errors::Error;
use crate::model::{
    ascending_listing, found_among, holds_key, is_ascending, kept, lemma_listing_exists,
    lemma_listing_is_the_ascending_listing, lists, scan_of, without_span, without_values,
    ClusterState, Entries, Listing,
};
use crate::order::key_le;
use crate::range::{lemma_half_open_backwards_is_empty, Span};
use vstd::prelude::*;

verus! {

/// A get after a put of the same key in the same partition resolves to the
/// value that was put.
pub proof fn lemma_get_after_put(
    state: ClusterState,
    partition: Seq<char>,
    key: Seq<u8>,
    value: Seq<u8>,
)
    requires
        state.has_partition(partition),
    ensures
        state.put(partition, key, value).get(partition, key) == Ok::<Seq<u8>, Error>(value),
{
}

/// A delete succeeds whether or not the key has an entry, a get of the key
/// fails afterwards with "not found", and a second delete changes nothing.
pub proof fn lemma_delete_is_idempotent(state: ClusterState, partition: Seq<char>, key: Seq<u8>)
    requires
        state.has_partition(partition),
    ensures
        state.outcome(partition) == Ok::<(), Error>(()),
        state.delete(partition, key).get(partition, key) == Err::<Seq<u8>, Error>(Error::NotFound),
        state.delete(partition, key).outcome(partition) == Ok::<(), Error>(()),
        state.delete(partition, key).delete(partition, key) == state.delete(partition, key),
{
    let once = state.delete(partition, key);
    assert(once.delete(partition, key).partitions =~= once.partitions) by {
        assert(once.entries(partition).remove(key) =~= once.entries(partition));
    }
}

/// A batch get of two keys of which only the first has an entry resolves to
/// the pair of the first key alone, and does not fail.
pub proof fn lemma_batch_get_omits_absent(
    state: ClusterState,
    partition: Seq<char>,
    present: Seq<u8>,
    absent: Seq<u8>,
)
    requires
        state.has_partition(partition),
        state.entries(partition).contains_key(present),
        !state.entries(partition).contains_key(absent),
    ensures
        state.batch_get(partition, seq![present, absent]) == Ok::<Listing, Error>(
            seq![(present, state.entries(partition)[present])],
        ),
{
    let entries = state.entries(partition);
    let has_entry = |key: Seq<u8>| entries.contains_key(key);
    let keys = seq![present, absent];
    let first = seq![present];
    reveal_with_fuel(Seq::filter, 3);
    assert(keys.drop_last() =~= first);
    assert(first.drop_last() =~= Seq::<Seq<u8>>::empty());
    assert(first.filter(has_entry) =~= first);
    assert(keys.filter(has_entry) =~= first);
    assert(first.map_values(|key: Seq<u8>| (key, entries[key])) =~= seq![(present, entries[present])]);
}

/// What is kept of a run of keys was in it, and meets what it was kept for.
proof fn lemma_kept_keys_come_from(keys: Seq<Seq<u8>>, wanted: spec_fn(Seq<u8>) -> bool)
    ensures
        keys.filter(wanted).len() <= keys.len(),
        forall|i: int|
            0 <= i < keys.filter(wanted).len() ==> keys.contains(#[trigger] keys.filter(wanted)[i])
                && wanted(keys.filter(wanted)[i]),
    decreases keys.len(),
{
    reveal(Seq::filter);
    if keys.len() > 0 {
        let shorter = keys.drop_last();
        lemma_kept_keys_come_from(shorter, wanted);
        let kept_keys = keys.filter(wanted);
        assert forall|i: int| 0 <= i < kept_keys.len() implies keys.contains(
            #[trigger] kept_keys[i],
        ) && wanted(kept_keys[i]) by {
            if i < shorter.filter(wanted).len() {
                let found = shorter.filter(wanted)[i];
                assert(shorter.contains(found));
                let j = choose|j: int| 0 <= j < shorter.len() && shorter[j] == found;
                assert(keys[j] == found);
            } else {
                assert(kept_keys[i] == keys[keys.len() - 1]);
            }
        }
    }
}

/// A batch get reports no more pairs than keys were asked for, and each pair
/// that it reports is the entry of a key that was asked for.
pub proof fn lemma_batch_get_reports_entries(entries: Entries, keys: Seq<Seq<u8>>)
    ensures
        found_among(entries, keys).len() <= keys.len(),
        forall|i: int|
            0 <= i < found_among(entries, keys).len() ==> keys.contains(
                (#[trigger] found_among(entries, keys)[i]).0,
            ) && entries.contains_pair(
                found_among(entries, keys)[i].0,
                found_among(entries, keys)[i].1,
            ),
{
    lemma_kept_keys_come_from(keys, |key: Seq<u8>| entries.contains_key(key));
}

/// A scan without limit resolves to exactly the entries whose key lies within
/// the span, by ascending key, and reversed to the same entries by descending
/// key.
pub proof fn lemma_scan_bounds(state: ClusterState, partition: Seq<char>, span: Span)
    requires
        state.wf(),
        state.has_partition(partition),
    ensures
        state.scan(partition, span, u32::MAX, false, false) matches Ok(listing) && {
            &&& lists(state.entries(partition), span, listing)
            &&& state.scan(partition, span, u32::MAX, false, true) == Ok::<Listing, Error>(
                listing.reverse(),
            )
        },
{
    let entries = state.entries(partition);
    lemma_listing_exists(entries, span);
    let content = ascending_listing(entries, span);
    assert(content.take(content.len() as int) =~= content);
    assert(content.reverse().take(content.reverse().len() as int) =~= content.reverse());
}

/// A scan of the span from `start` to `end`, both within it, resolves to
/// exactly the entries with `start <= key <= end`, by ascending key.
pub proof fn lemma_scan_inclusive(
    state: ClusterState,
    partition: Seq<char>,
    start: Seq<u8>,
    end: Seq<u8>,
)
    requires
        state.wf(),
        state.has_partition(partition),
    ensures
        state.scan(partition, Span::inclusive(start, end), u32::MAX, false, false) matches Ok(
            listing,
        ) && {
            &&& is_ascending(listing)
            &&& forall|key: Seq<u8>|
                holds_key(listing, key) <==> #[trigger] state.entries(partition).contains_key(key)
                    && key_le(start, key) && key_le(key, end)
            &&& forall|i: int|
                0 <= i < listing.len() ==> (#[trigger] listing[i]).1 == state.entries(
                    partition,
                )[listing[i].0]
        },
{
    lemma_scan_bounds(state, partition, Span::inclusive(start, end));
    let listing = state.scan(partition, Span::inclusive(start, end), u32::MAX, false, false)->Ok_0;
    let entries = state.entries(partition);
    assert forall|key: Seq<u8>| holds_key(listing, key) implies #[trigger] entries.contains_key(key)
        && key_le(start, key) && key_le(key, end) by {
        let i = choose|i: int| 0 <= i < listing.len() && (#[trigger] listing[i]).0 == key;
    }
}

/// A scan with a limit resolves to a prefix of what it resolves to without
/// limit, and to no more entries than the limit allows. The largest limit
/// stands for no limit and bounds nothing.
pub proof fn lemma_scan_limit(
    entries: Entries,
    span: Span,
    limit: u32,
    key_only: bool,
    reverse: bool,
)
    ensures
        ({
            let limited = scan_of(entries, span, limit, key_only, reverse);
            let unlimited = scan_of(entries, span, u32::MAX, key_only, reverse);
            &&& limited.len() == kept(limit, unlimited.len())
            &&& limited == unlimited.take(limited.len() as int)
            &&& limit < u32::MAX ==> limited.len() <= limit
        }),
{
    let content = ascending_listing(entries, span);
    let ordered = if reverse {
        content.reverse()
    } else {
        content
    };
    let limited = scan_of(entries, span, limit, key_only, reverse);
    let unlimited = scan_of(entries, span, u32::MAX, key_only, reverse);
    assert(ordered.take(ordered.len() as int) =~= ordered);
    assert(limited =~= unlimited.take(limited.len() as int));
}

/// A scan for keys only resolves to the keys that the scan with values
/// resolves to, in the same order, each with an empty value.
pub proof fn lemma_scan_key_only(entries: Entries, span: Span, limit: u32, reverse: bool)
    ensures
        ({
            let keys = scan_of(entries, span, limit, true, reverse);
            let whole = scan_of(entries, span, limit, false, reverse);
            &&& keys == without_values(whole)
            &&& keys.len() == whole.len()
            &&& forall|i: int|
                0 <= i < keys.len() ==> (#[trigger] keys[i]).0 == whole[i].0 && keys[i].1
                    == Seq::<u8>::empty()
        }),
{
}

/// A put in one partition is not seen in another: there a get of the key
/// resolves as it did before, which is "not found" where that partition held
/// no entry for the key. In the partition of the put it resolves to the value.
pub proof fn lemma_partitions_are_apart(
    state: ClusterState,
    written: Seq<char>,
    other: Seq<char>,
    key: Seq<u8>,
    value: Seq<u8>,
)
    requires
        state.has_partition(written),
        state.has_partition(other),
        written != other,
    ensures
        state.put(written, key, value).get(written, key) == Ok::<Seq<u8>, Error>(value),
        state.put(written, key, value).get(other, key) == state.get(other, key),
        !state.entries(other).contains_key(key) ==> state.put(written, key, value).get(other, key)
            == Err::<Seq<u8>, Error>(Error::NotFound),
{
}

/// A delete of a range that holds no key succeeds and leaves the cluster as it
/// was; so does a scan of it resolve to no entry.
pub proof fn lemma_empty_range_is_a_no_op(state: ClusterState, partition: Seq<char>, span: Span)
    requires
        span.is_empty(),
    ensures
        state.delete_range(partition, span) == state,
        state.has_partition(partition) ==> state.outcome(partition) == Ok::<(), Error>(()),
        forall|limit: u32, key_only: bool, reverse: bool|
            state.has_partition(partition) ==> #[trigger] state.scan(
                partition,
                span,
                limit,
                key_only,
                reverse,
            ) == Ok::<Listing, Error>(Seq::empty()),
{
    let entries = state.entries(partition);
    if state.has_partition(partition) {
        assert(without_span(entries, span) =~= entries);
        assert(state.delete_range(partition, span).partitions =~= state.partitions);
        let none: Listing = Seq::empty();
        assert(lists(entries, span, none));
        lemma_listing_is_the_ascending_listing(entries, span, none);
        assert(none.reverse() =~= none);
        assert forall|limit: u32, key_only: bool, reverse: bool| #[trigger]
            state.scan(partition, span, limit, key_only, reverse) == Ok::<Listing, Error>(
                Seq::empty(),
            ) by {
            assert(scan_of(entries, span, limit, key_only, reverse) =~= none);
        }
    }
}

/// The range from a key up to the same key, outside it, holds no key: to
/// delete it succeeds and leaves the cluster as it was.
pub proof fn lemma_delete_of_nothing(state: ClusterState, partition: Seq<char>, at: Seq<u8>)
    ensures
        Span::half_open(at, at).is_empty(),
        state.delete_range(partition, Span::half_open(at, at)) == state,
        state.has_partition(partition) ==> state.outcome(partition) == Ok::<(), Error>(()),
{
    lemma_half_open_backwards_is_empty(at, at);
    lemma_empty_range_is_a_no_op(state, partition, Span::half_open(at, at));
}

} // verus!
