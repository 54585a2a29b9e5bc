//! Groups of pictures and the table that a video stream keeps of them.

use std::collections::hash_map::Entry;
use std::collections::HashMap;

use vstd::prelude::*;

use crate::clock::Timestamp;

verus! {

broadcast use vstd::std_specs::hash::group_hash_axioms;

/// Represents a Group of Pictures (GOP) in a video stream.
/// This struct stores metadata about a GOP, including its number, byte range, and timing information.
#[derive(Debug, PartialEq, Eq, Structural)]
pub struct VideoGop {
    /// The sequential number of the GOP in the video stream.
    pub gop_number: u32,
    /// The starting byte position of the GOP in the video stream.
    pub gop_start_byte: u64,
    /// The length of the GOP in bytes.
    pub gop_length: u64,
    /// The timestamp of the GOP in the video stream (e.g., in milliseconds).
    pub gop_time_stamp: u128,
    /// The duration of the GOP in the video stream (e.g., in milliseconds).
    pub gop_duration_time: u128,
}

impl Default for VideoGop {
    fn default() -> (gop: Self)
        ensures
            gop == (VideoGop {
                gop_number: 0,
                gop_start_byte: 0,
                gop_length: 0,
                gop_time_stamp: 0,
                gop_duration_time: 0,
            }),
    {
        VideoGop {
            gop_number: 0,
            gop_start_byte: 0,
            gop_length: 0,
            gop_time_stamp: 0,
            gop_duration_time: 0,
        }
    }
}

impl Clone for VideoGop {
    fn clone(&self) -> (gop: Self)
        ensures
            gop == *self,
    {
        VideoGop {
            gop_number: self.gop_number,
            gop_start_byte: self.gop_start_byte,
            gop_length: self.gop_length,
            gop_time_stamp: self.gop_time_stamp,
            gop_duration_time: self.gop_duration_time,
        }
    }
}

impl VideoGop {
    /// The position of the first byte behind the GOP.
    pub open spec fn end_byte(self) -> int {
        self.gop_start_byte + self.gop_length
    }

    /// The time at which the GOP has been played.
    pub open spec fn end_time_stamp(self) -> int {
        self.gop_time_stamp + self.gop_duration_time
    }

    /// Whether the byte at `offset` belongs to the GOP.
    pub open spec fn covers(self, offset: u64) -> bool {
        self.gop_start_byte <= offset < self.end_byte()
    }

    /// Creates a new `VideoGop` instance with the specified metadata.
    pub fn new(
        gop_number: u32,
        gop_start_byte: u64,
        gop_length: u64,
        gop_time_stamp: u128,
        gop_duration_time: u128,
    ) -> (gop: Self)
        ensures
            gop == (VideoGop {
                gop_number,
                gop_start_byte,
                gop_length,
                gop_time_stamp,
                gop_duration_time,
            }),
    {
        VideoGop { gop_number, gop_start_byte, gop_length, gop_time_stamp, gop_duration_time }
    }

    /// Returns the GOP number.
    pub fn get_gop_number(&self) -> (number: u32)
        ensures
            number == self.gop_number,
    {
        self.gop_number
    }

    /// Returns the start byte of the GOP.
    pub fn get_gop_start_byte(&self) -> (start: u64)
        ensures
            start == self.gop_start_byte,
    {
        self.gop_start_byte
    }

    /// Returns the end byte of the GOP.
    pub fn get_gop_end_byte(&self) -> (end: u64)
        requires
            self.end_byte() <= u64::MAX,
        ensures
            end == self.end_byte(),
            end == self.gop_start_byte + self.gop_length,
    {
        self.gop_start_byte + self.gop_length
    }

    /// Returns the start time stamp of the GOP.
    pub fn get_gop_start_time_stamp(&self) -> (start: u128)
        ensures
            start == self.gop_time_stamp,
    {
        self.gop_time_stamp
    }

    /// Returns the end time stamp of the GOP.
    pub fn get_gop_end_time_stamp(&self) -> (end: u128)
        requires
            self.end_time_stamp() <= u128::MAX,
        ensures
            end == self.end_time_stamp(),
            end == self.gop_time_stamp + self.gop_duration_time,
    {
        self.gop_time_stamp + self.gop_duration_time
    }
}

/// A collection of `VideoGop` objects, indexed by `gop_number`.
/// Ensures that each `VideoGop` in the collection has a unique `gop_number`.
#[derive(Debug)]
pub struct VideoGopCollection {
    gops: HashMap<u32, VideoGop>,
    /// When the server received the request to play the video.
    request_timestamp: Option<Timestamp>,
}

/// What a collection holds, by the number under which it was added.
impl View for VideoGopCollection {
    type V = Map<u32, VideoGop>;

    closed spec fn view(&self) -> Map<u32, VideoGop> {
        self.gops@
    }
}

impl Default for VideoGopCollection {
    fn default() -> (collection: Self)
        ensures
            collection@ == Map::<u32, VideoGop>::empty(),
            indexed_by_number(collection@),
            collection.requested_at() is None,
    {
        VideoGopCollection::new()
    }
}

impl Clone for VideoGopCollection {
    fn clone(&self) -> (collection: Self)
        ensures
            collection@ == self@,
            collection.requested_at() == self.requested_at(),
    {
        VideoGopCollection {
            gops: self.gops.clone(),
            request_timestamp: self.request_timestamp,
        }
    }
}

/// Whether every GOP stands under its own number.
pub open spec fn indexed_by_number(gops: Map<u32, VideoGop>) -> bool {
    forall|number: u32| #[trigger]
        gops.contains_key(number) ==> gops[number].gop_number == number
}

/// What `gops` holds after a GOP was offered to it: an earlier GOP of the same
/// number keeps its place.
pub open spec fn with_gop(gops: Map<u32, VideoGop>, gop: VideoGop) -> Map<u32, VideoGop> {
    if gops.contains_key(gop.gop_number) {
        gops
    } else {
        gops.insert(gop.gop_number, gop)
    }
}

/// Whether some GOP in `gops` covers the byte at `offset`.
pub open spec fn some_gop_covers(gops: Map<u32, VideoGop>, offset: u64) -> bool {
    exists|number: u32| #[trigger] gops.contains_key(number) && gops[number].covers(offset)
}

/// Whether `gop` is one of those in `gops` that cover the byte at `offset`.
pub open spec fn is_gop_at(gops: Map<u32, VideoGop>, offset: u64, gop: VideoGop) -> bool {
    &&& gop.covers(offset)
    &&& exists|number: u32| #[trigger] gops.contains_key(number) && gops[number] == gop
}

/// Whether the byte ranges that start at or before `offset` end within the
/// range of a `u64`.
pub open spec fn ends_fit(gops: Map<u32, VideoGop>, offset: u64) -> bool {
    forall|number: u32| #[trigger]
        gops.contains_key(number) && gops[number].gop_start_byte <= offset
            ==> gops[number].end_byte() <= u64::MAX
}

/// Whether the play times of the GOPs that cover `offset` end within the range
/// of a `u128`.
pub open spec fn end_times_fit(gops: Map<u32, VideoGop>, offset: u64) -> bool {
    forall|gop: VideoGop| #[trigger]
        is_gop_at(gops, offset, gop) ==> gop.end_time_stamp() <= u128::MAX
}

impl VideoGopCollection {
    /// When the video was requested, if that is known.
    pub closed spec fn requested_at(self) -> Option<Timestamp> {
        self.request_timestamp
    }

    /// Creates a new empty `VideoGopCollection`.
    pub fn new() -> (collection: Self)
        ensures
            collection@ == Map::<u32, VideoGop>::empty(),
            indexed_by_number(collection@),
            collection.requested_at() is None,
    {
        VideoGopCollection { gops: HashMap::new(), request_timestamp: None }
    }

    /// Adds a `VideoGop` to the collection.
    /// Returns `true` if the `VideoGop` was added successfully, or `false` if a `VideoGop` with the same `gop_number` already exists.
    pub fn add_gop(&mut self, gop: VideoGop) -> (added: bool)
        ensures
            added == !old(self)@.contains_key(gop.gop_number),
            final(self)@ == with_gop(old(self)@, gop),
            added ==> final(self)@ == old(self)@.insert(gop.gop_number, gop),
            !added ==> final(self)@ == old(self)@,
            indexed_by_number(old(self)@) ==> indexed_by_number(final(self)@),
            final(self).requested_at() == old(self).requested_at(),
    {
        if self.gops.contains_key(&gop.gop_number) {
            false
        } else {
            self.gops.insert(gop.gop_number, gop);
            true
        }
    }

    /// Retrieves a reference to the `VideoGop` with the specified `gop_number`.
    /// Returns `None` if no such `VideoGop` exists.
    pub fn get_gop(&self, gop_number: u32) -> (gop: Option<&VideoGop>)
        ensures
            match gop {
                Some(gop) => self@.contains_key(gop_number) && *gop == self@[gop_number],
                None => !self@.contains_key(gop_number),
            },
    {
        self.gops.get(&gop_number)
    }

    /// Retrieves a `VideoGop` that covers the byte at `stream_offset`.
    /// Returns `None` if no such `VideoGop` exists. Where several do, any of
    /// them may be returned.
    pub fn get_gop_by_stream_offset(&self, stream_offset: u64) -> (gop: Option<&VideoGop>)
        requires
            ends_fit(self@, stream_offset),
        ensures
            match gop {
                Some(gop) => is_gop_at(self@, stream_offset, *gop),
                None => !some_gop_covers(self@, stream_offset),
            },
    {
        for entry in entries: self.gops.iter()
            invariant
                ends_fit(self.gops@, stream_offset),
                forall|i: int|
                    0 <= i < entries.index() ==> !(#[trigger] entries.seq()[i]).1.covers(
                        stream_offset,
                    ),
        {
            let (number, gop) = entry;
            assert(self.gops@.contains_key(*number) && self.gops@[*number] == *gop);
            if stream_offset >= gop.gop_start_byte && stream_offset < gop.gop_start_byte
                + gop.gop_length {
                return Some(gop);
            }
        }
        None
    }

    /// Checks that [`get_gop_by_stream_offset`](Self::get_gop_by_stream_offset)
    /// can be asked for the byte at `stream_offset`.
    pub fn check_ends(&self, stream_offset: u64) -> (fit: bool)
        ensures
            fit == ends_fit(self@, stream_offset),
    {
        for entry in entries: self.gops.iter()
            invariant
                forall|i: int|
                    0 <= i < entries.index() && (#[trigger] entries.seq()[i]).1.gop_start_byte
                        <= stream_offset ==> entries.seq()[i].1.end_byte() <= u64::MAX,
        {
            let (number, gop) = entry;
            assert(self.gops@.contains_key(*number) && self.gops@[*number] == *gop);
            if gop.gop_start_byte <= stream_offset && gop.gop_length > u64::MAX
                - gop.gop_start_byte {
                return false;
            }
        }
        true
    }

    /// Checks that the end time stamp of each GOP that covers the byte at
    /// `stream_offset` can be asked for.
    pub fn check_end_times(&self, stream_offset: u64) -> (fit: bool)
        ensures
            fit == end_times_fit(self@, stream_offset),
    {
        for entry in entries: self.gops.iter()
            invariant
                forall|i: int|
                    0 <= i < entries.index() && (#[trigger] entries.seq()[i]).1.covers(
                        stream_offset,
                    ) ==> entries.seq()[i].1.end_time_stamp() <= u128::MAX,
        {
            let (number, gop) = entry;
            assert(self.gops@.contains_key(*number) && self.gops@[*number] == *gop);
            if gop.gop_start_byte <= stream_offset && stream_offset - gop.gop_start_byte
                < gop.gop_length && gop.gop_duration_time > u128::MAX - gop.gop_time_stamp {
                assert(is_gop_at(self@, stream_offset, *gop));
                return false;
            }
        }
        true
    }

    /// Checks if a GOP that covers the byte at `stream_offset` is played for
    /// longer than `millis`.
    pub fn check_plays_beyond(&self, stream_offset: u64, millis: u128) -> (beyond: bool)
        ensures
            beyond == exists|gop: VideoGop| #[trigger]
                is_gop_at(self@, stream_offset, gop) && millis < gop.end_time_stamp(),
    {
        for entry in entries: self.gops.iter()
            invariant
                forall|i: int|
                    0 <= i < entries.index() && (#[trigger] entries.seq()[i]).1.covers(
                        stream_offset,
                    ) ==> entries.seq()[i].1.end_time_stamp() <= millis,
        {
            let (number, gop) = entry;
            assert(self.gops@.contains_key(*number) && self.gops@[*number] == *gop);
            let covered = gop.gop_start_byte <= stream_offset && stream_offset
                - gop.gop_start_byte < gop.gop_length;
            if covered && (gop.gop_time_stamp > millis || gop.gop_duration_time > millis
                - gop.gop_time_stamp) {
                assert(is_gop_at(self@, stream_offset, *gop));
                return true;
            }
        }
        false
    }

    /// Retrieves a mutable reference to the `VideoGop` with the specified `gop_number`.
    /// Returns `None` if no such `VideoGop` exists.
    pub fn get_gop_mut(&mut self, gop_number: u32) -> (gop: Option<&mut VideoGop>)
        ensures
            match gop {
                Some(gop) => {
                    &&& old(self)@.contains_key(gop_number)
                    &&& *gop == old(self)@[gop_number]
                    &&& final(self)@ == old(self)@.insert(gop_number, *final(gop))
                    &&& indexed_by_number(old(self)@) && final(gop).gop_number == gop_number
                        ==> indexed_by_number(final(self)@)
                },
                None => {
                    &&& !old(self)@.contains_key(gop_number)
                    &&& final(self)@ == old(self)@
                },
            },
            final(self).requested_at() == old(self).requested_at(),
    {
        match self.gops.entry(gop_number) {
            Entry::Occupied(entry) => Some(entry.into_mut()),
            Entry::Vacant(_) => None,
        }
    }

    /// Removes the `VideoGop` with the specified `gop_number` from the collection.
    /// Returns the removed `VideoGop` if it existed, or `None` otherwise.
    pub fn remove_gop(&mut self, gop_number: u32) -> (gop: Option<VideoGop>)
        ensures
            gop == old(self)@.get(gop_number),
            final(self)@ == old(self)@.remove(gop_number),
            indexed_by_number(old(self)@) ==> indexed_by_number(final(self)@),
            final(self).requested_at() == old(self).requested_at(),
    {
        self.gops.remove(&gop_number)
    }

    /// Returns the number of `VideoGop` objects in the collection.
    pub fn len(&self) -> (len: usize)
        ensures
            len == self@.len(),
    {
        self.gops.len()
    }

    /// Checks if the collection is empty.
    pub fn is_empty(&self) -> (empty: bool)
        ensures
            empty == (self@.len() == 0),
    {
        self.gops.is_empty()
    }

    /// Sets the timestamp when the server receives the video request.
    pub fn set_request_timestamp(&mut self, timestamp: Timestamp)
        ensures
            final(self)@ == old(self)@,
            final(self).requested_at() == Some(timestamp),
    {
        self.request_timestamp = Some(timestamp);
    }

    /// Gets the timestamp when the server received the video request.
    /// Returns `None` if the timestamp is not set.
    pub fn get_request_timestamp(&self) -> (timestamp: Option<Timestamp>)
        ensures
            timestamp == self.requested_at(),
    {
        self.request_timestamp
    }
}

/// Whether no byte belongs to two GOPs.
pub open spec fn no_overlap(gops: Map<u32, VideoGop>) -> bool {
    forall|a: u32, b: u32, offset: u64|
        a != b && gops.contains_key(a) && gops.contains_key(b)
            && #[trigger] gops[a].covers(offset) ==> !(#[trigger] gops[b].covers(offset))
}

/// In a collection that is indexed by number, no two GOPs share a number.
pub proof fn law_numbers_are_unique(gops: Map<u32, VideoGop>, a: u32, b: u32)
    requires
        indexed_by_number(gops),
        gops.contains_key(a),
        gops.contains_key(b),
        gops[a].gop_number == gops[b].gop_number,
    ensures
        a == b,
{
}

/// A GOP whose number is new is found under that number once it has been
/// added, and all others are found as before.
pub proof fn law_added_gop_is_found(gops: Map<u32, VideoGop>, gop: VideoGop, number: u32)
    requires
        !gops.contains_key(gop.gop_number),
    ensures
        with_gop(gops, gop).get(gop.gop_number) == Some(gop),
        number != gop.gop_number ==> with_gop(gops, gop).get(number) == gops.get(number),
{
}

/// A second GOP of a number changes nothing.
pub proof fn law_second_gop_is_refused(gops: Map<u32, VideoGop>, first: VideoGop, second: VideoGop)
    requires
        first.gop_number == second.gop_number,
    ensures
        with_gop(with_gop(gops, first), second) == with_gop(gops, first),
{
}

/// A GOP that was added and is removed again leaves nothing behind.
pub proof fn law_removal_undoes_addition(gops: Map<u32, VideoGop>, gop: VideoGop)
    requires
        !gops.contains_key(gop.gop_number),
    ensures
        with_gop(gops, gop).remove(gop.gop_number) == gops,
{
    assert(with_gop(gops, gop).remove(gop.gop_number) =~= gops);
}

/// Where GOPs do not overlap, a byte belongs to at most one of them.
pub proof fn law_gop_at_offset_is_unique(
    gops: Map<u32, VideoGop>,
    offset: u64,
    one: VideoGop,
    other: VideoGop,
)
    requires
        no_overlap(gops),
        is_gop_at(gops, offset, one),
        is_gop_at(gops, offset, other),
    ensures
        one == other,
{
    let a = choose|number: u32| #[trigger] gops.contains_key(number) && gops[number] == one;
    let b = choose|number: u32| #[trigger] gops.contains_key(number) && gops[number] == other;
    if a != b {
        assert(gops[a].covers(offset));
        assert(gops[b].covers(offset));
    }
}

/// A GOP covers the bytes from its start on, as many as it is long, and is
/// played from its time stamp on, for as long as it lasts.
pub proof fn law_gop_spans_its_length(gop: VideoGop, offset: u64)
    ensures
        gop.covers(offset) <==> 0 <= offset - gop.gop_start_byte < gop.gop_length,
        gop.end_byte() - gop.gop_start_byte == gop.gop_length,
        gop.end_time_stamp() - gop.gop_time_stamp == gop.gop_duration_time,
{
}

/// What a collection holds after an addition: an entry under a number that was
/// taken is the old one, under the number of the GOP it is the GOP, and under
/// any other number nothing has changed.
pub proof fn law_addition_by_number(gops: Map<u32, VideoGop>, gop: VideoGop, number: u32)
    ensures
        gops.contains_key(number) ==> with_gop(gops, gop).contains_key(number)
            && with_gop(gops, gop)[number] == gops[number],
        !gops.contains_key(number) ==> (with_gop(gops, gop).contains_key(number) <==> number
            == gop.gop_number),
        !gops.contains_key(gop.gop_number) ==> with_gop(gops, gop)[gop.gop_number] == gop,
        gops.contains_key(gop.gop_number) ==> with_gop(gops, gop) == gops,
{
}

/// A byte has a GOP if and only if it lies between the start and the end of one
/// that is held, and each of those is one of its GOPs.
pub proof fn law_gops_of_a_byte(gops: Map<u32, VideoGop>, offset: u64, gop: VideoGop)
    ensures
        some_gop_covers(gops, offset) <==> exists|number: u32| #[trigger]
            gops.contains_key(number) && gops[number].gop_start_byte <= offset
                < gops[number].gop_start_byte + gops[number].gop_length,
        is_gop_at(gops, offset, gop) <==> gop.gop_start_byte <= offset < gop.gop_start_byte
            + gop.gop_length && exists|number: u32| #[trigger]
            gops.contains_key(number) && gops[number] == gop,
{
    if exists|number: u32| #[trigger]
        gops.contains_key(number) && gops[number].gop_start_byte <= offset
            < gops[number].gop_start_byte + gops[number].gop_length {
        let number = choose|number: u32| #[trigger]
            gops.contains_key(number) && gops[number].gop_start_byte <= offset
                < gops[number].gop_start_byte + gops[number].gop_length;
        assert(gops.contains_key(number) && gops[number].covers(offset));
    }
}

/// A byte can be looked up if the GOPs that start at or before it end in range,
/// and its deadline can be computed if those that cover it do.
pub proof fn law_ranges_of_a_byte(gops: Map<u32, VideoGop>, offset: u64)
    ensures
        ends_fit(gops, offset) <==> forall|number: u32| #[trigger]
            gops.contains_key(number) && gops[number].gop_start_byte <= offset
                ==> gops[number].gop_start_byte + gops[number].gop_length <= u64::MAX,
        end_times_fit(gops, offset) <==> forall|number: u32| #[trigger]
            gops.contains_key(number) && gops[number].gop_start_byte <= offset
                < gops[number].gop_start_byte + gops[number].gop_length
                ==> gops[number].gop_time_stamp + gops[number].gop_duration_time <= u128::MAX,
{
    if end_times_fit(gops, offset) {
        assert forall|number: u32| #[trigger]
            gops.contains_key(number) && gops[number].gop_start_byte <= offset
                < gops[number].gop_start_byte + gops[number].gop_length implies gops[number].gop_time_stamp
            + gops[number].gop_duration_time <= u128::MAX by {
            assert(is_gop_at(gops, offset, gops[number]));
        }
    }
    if ends_fit(gops, offset) {
        assert forall|number: u32| #[trigger]
            gops.contains_key(number) && gops[number].gop_start_byte
                <= offset implies gops[number].gop_start_byte + gops[number].gop_length
            <= u64::MAX by {
            assert(gops[number].end_byte() <= u64::MAX);
        }
    }
}

/// A collection is indexed by number if and only if whatever stands under a
/// number carries that number.
pub proof fn law_gops_stand_under_their_numbers(gops: Map<u32, VideoGop>)
    ensures
        indexed_by_number(gops) <==> forall|number: u32| #[trigger]
            gops.contains_key(number) ==> gops[number].gop_number == number,
{
}

} // verus!
