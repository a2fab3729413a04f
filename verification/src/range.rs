//! Key ranges: a start bound and an end bound over borrowed keys.
//!
//! Each side of a range is, on its own, inclusive, exclusive or unbounded. A
//! range is not validated when it is built: one whose start lies after its end
//! is simply a range that holds no key.
//!
//! A range is made from its two bounds, or from a range of std over borrowed
//! keys. What a conversion returns is said by the `ensures` of its `from`.

use crate::kv::KeyRef;
use crate::order::{
    compare, key_le, key_lt, lemma_key_le_transitive, lemma_key_trichotomy, Side,
};
use std::ops::{Range, RangeInclusive};
use vstd::prelude::*;
use vstd::std_specs::convert::FromSpecImpl;

verus! {

/// One side of a range, over the bytes of its key.
pub enum Edge {
    /// No bound on this side.
    Unbounded,
    /// The key itself is within the range.
    Inclusive(Seq<u8>),
    /// The key itself is outside the range.
    Exclusive(Seq<u8>),
}

/// A range of keys, as the pair of its two sides.
pub struct Span {
    pub start: Edge,
    pub end: Edge,
}

impl Span {
    /// The key is not before the start of the range.
    pub open spec fn admits_from_start(self, key: Seq<u8>) -> bool {
        match self.start {
            Edge::Unbounded => true,
            Edge::Inclusive(start) => key_le(start, key),
            Edge::Exclusive(start) => key_lt(start, key),
        }
    }

    /// The key is not after the end of the range.
    pub open spec fn admits_to_end(self, key: Seq<u8>) -> bool {
        match self.end {
            Edge::Unbounded => true,
            Edge::Inclusive(end) => key_le(key, end),
            Edge::Exclusive(end) => key_lt(key, end),
        }
    }

    /// The key lies within the range.
    pub open spec fn contains(self, key: Seq<u8>) -> bool {
        self.admits_from_start(key) && self.admits_to_end(key)
    }

    /// The range holds no key at all.
    pub open spec fn is_empty(self) -> bool {
        forall|key: Seq<u8>| !self.contains(key)
    }

    /// The range from `start` to `end`, both within it.
    pub open spec fn inclusive(start: Seq<u8>, end: Seq<u8>) -> Span {
        Span { start: Edge::Inclusive(start), end: Edge::Inclusive(end) }
    }

    /// The range from `start`, within it, up to `end`, outside it.
    pub open spec fn half_open(start: Seq<u8>, end: Seq<u8>) -> Span {
        Span { start: Edge::Inclusive(start), end: Edge::Exclusive(end) }
    }

    /// The range of all keys.
    pub open spec fn full() -> Span {
        Span { start: Edge::Unbounded, end: Edge::Unbounded }
    }
}

/// A half-open range whose end is not after its start holds no key.
pub proof fn lemma_half_open_backwards_is_empty(start: Seq<u8>, end: Seq<u8>)
    requires
        key_le(end, start),
    ensures
        Span::half_open(start, end).is_empty(),
{
    assert forall|key: Seq<u8>| !Span::half_open(start, end).contains(key) by {
        lemma_key_trichotomy(start, key);
        lemma_key_trichotomy(key, end);
        lemma_key_trichotomy(start, end);
        if key_le(start, key) && key_lt(key, end) {
            lemma_key_le_transitive(start, key, end);
        }
    }
}

/// One side of a range.
#[derive(Clone, Copy, Debug, PartialEq, Eq)]
pub enum RangeBound<'a> {
    /// No bound on this side.
    Unbounded,
    /// The key itself is within the range.
    Inclusive(KeyRef<'a>),
    /// The key itself is outside the range.
    Exclusive(KeyRef<'a>),
}

/// A range of keys.
#[derive(Clone, Copy, Debug, PartialEq, Eq)]
pub struct KeyRange<'a> {
    start: RangeBound<'a>,
    end: RangeBound<'a>,
}

impl<'a> View for RangeBound<'a> {
    type V = Edge;

    open spec fn view(&self) -> Edge {
        match *self {
            RangeBound::Unbounded => Edge::Unbounded,
            RangeBound::Inclusive(key) => Edge::Inclusive(key@),
            RangeBound::Exclusive(key) => Edge::Exclusive(key@),
        }
    }
}

impl<'a> View for KeyRange<'a> {
    type V = Span;

    closed spec fn view(&self) -> Span {
        Span { start: self.start@, end: self.end@ }
    }
}

/// The views of a run of ranges, in the same order.
pub open spec fn span_views(ranges: Seq<KeyRange<'_>>) -> Seq<Span> {
    ranges.map_values(|range: KeyRange<'_>| range@)
}

impl<'a> KeyRange<'a> {
    /// The range between two bounds.
    pub fn new(start: RangeBound<'a>, end: RangeBound<'a>) -> (range: KeyRange<'a>)
        ensures
            range@ == (Span { start: start@, end: end@ }),
    {
        KeyRange { start, end }
    }

    /// The range of all keys.
    pub fn full() -> (range: KeyRange<'a>)
        ensures
            range@ == Span::full(),
    {
        KeyRange { start: RangeBound::Unbounded, end: RangeBound::Unbounded }
    }

    /// The start of the range.
    pub fn start(&self) -> (bound: RangeBound<'a>)
        ensures
            bound@ == self@.start,
    {
        self.start
    }

    /// The end of the range.
    pub fn end(&self) -> (bound: RangeBound<'a>)
        ensures
            bound@ == self@.end,
    {
        self.end
    }

    /// Whether the key is not before the start of the range.
    pub fn admits_from_start(&self, key: &[u8]) -> (within: bool)
        ensures
            within == self@.admits_from_start(key@),
    {
        match self.start {
            RangeBound::Unbounded => true,
            RangeBound::Inclusive(start) => {
                let side = compare(start.as_bytes(), key);
                side == Side::Before || side == Side::Same
            },
            RangeBound::Exclusive(start) => compare(start.as_bytes(), key) == Side::Before,
        }
    }

    /// Whether the key is not after the end of the range.
    pub fn admits_to_end(&self, key: &[u8]) -> (within: bool)
        ensures
            within == self@.admits_to_end(key@),
    {
        match self.end {
            RangeBound::Unbounded => true,
            RangeBound::Inclusive(end) => {
                let side = compare(key, end.as_bytes());
                side == Side::Before || side == Side::Same
            },
            RangeBound::Exclusive(end) => compare(key, end.as_bytes()) == Side::Before,
        }
    }

    /// Whether the key lies within the range.
    pub fn contains(&self, key: &[u8]) -> (within: bool)
        ensures
            within == self@.contains(key@),
    {
        self.admits_from_start(key) && self.admits_to_end(key)
    }
}

/// Takes an inclusive range of std apart with `RangeInclusive::into_inner`,
/// which hands out the lower bound and the upper bound that the range was made
/// with.
#[verifier::external_body]
fn inclusive_ends<'a>(range: RangeInclusive<KeyRef<'a>>) -> (ends: (KeyRef<'a>, KeyRef<'a>))
    ensures
        ends.0 == range@.start,
        ends.1 == range@.end,
{
    range.into_inner()
}

impl<'a> From<Range<KeyRef<'a>>> for KeyRange<'a> {
    /// `start..end`: from `start`, within the range, up to `end`, outside it.
    fn from(range: Range<KeyRef<'a>>) -> (made: KeyRange<'a>)
        ensures
            made@ == Span::half_open(range.start@, range.end@),
    {
        KeyRange { start: RangeBound::Inclusive(range.start), end: RangeBound::Exclusive(range.end) }
    }
}

impl<'a> FromSpecImpl<Range<KeyRef<'a>>> for KeyRange<'a> {
    open spec fn obeys_from_spec() -> bool {
        false
    }

    open spec fn from_spec(range: Range<KeyRef<'a>>) -> KeyRange<'a> {
        arbitrary()
    }
}

impl<'a> From<RangeInclusive<KeyRef<'a>>> for KeyRange<'a> {
    /// `start..=end`: from `start` to `end`, both within the range.
    fn from(range: RangeInclusive<KeyRef<'a>>) -> (made: KeyRange<'a>)
        ensures
            made@ == Span::inclusive(range@.start@, range@.end@),
    {
        let ends = inclusive_ends(range);
        KeyRange { start: RangeBound::Inclusive(ends.0), end: RangeBound::Inclusive(ends.1) }
    }
}

impl<'a> FromSpecImpl<RangeInclusive<KeyRef<'a>>> for KeyRange<'a> {
    open spec fn obeys_from_spec() -> bool {
        false
    }

    open spec fn from_spec(range: RangeInclusive<KeyRef<'a>>) -> KeyRange<'a> {
        arbitrary()
    }
}

} // verus!
