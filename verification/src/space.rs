//! Packet number spaces and the frames that wait in them.

use std::collections::hash_map::Entry;
use std::collections::{HashMap, VecDeque};

use bytes::Bytes;
use vstd::prelude::*;

verus! {

broadcast use vstd::std_specs::hash::group_hash_axioms;

/// The buffer type of the `bytes` crate. Nothing is assumed of its fields.
#[verifier::external_type_specification]
#[verifier::external_body]
pub struct ExBytes(bytes::Bytes);

/// The bytes that a buffer of the `bytes` crate holds.
pub uninterp spec fn bytes_contents(buffer: bytes::Bytes) -> Seq<u8>;

/// `Bytes::copy_from_slice` copies the slice into a vector of its own and turns
/// that vector into a buffer: the new buffer holds the bytes of the slice, in
/// their order.
pub assume_specification[ bytes::Bytes::copy_from_slice ](data: &[u8]) -> (buffer: bytes::Bytes)
    ensures
        bytes_contents(buffer) == data@,
;

/// A frame that waits to be sent.
#[derive(Debug)]
pub enum Frame {
    /// A piece of a stream.
    Stream {
        /// The stream that the data belongs to.
        stream_id: u64,
        /// The position of the first byte in the stream.
        offset: u64,
        /// The number of bytes.
        length: usize,
        /// Whether the stream ends with this frame.
        fin: bool,
        /// The bytes themselves.
        data: Bytes,
    },
}

/// The mathematical content of a [`Frame::Stream`].
#[verifier::ext_equal]
pub struct StreamFrame {
    pub stream_id: int,
    pub offset: int,
    pub length: int,
    pub fin: bool,
    pub data: Seq<u8>,
}

impl View for Frame {
    type V = StreamFrame;

    open spec fn view(&self) -> StreamFrame {
        match *self {
            Frame::Stream { stream_id, offset, length, fin, data } => StreamFrame {
                stream_id: stream_id as int,
                offset: offset as int,
                length: length as int,
                fin,
                data: bytes_contents(data),
            },
        }
    }
}

/// A packet number space with the frames that are buffered for it.
#[derive(Debug)]
pub struct PacketNumSpace {
    /// The identifier of the space.
    pub id: u64,
    /// The frames buffered at high priority, the oldest first.
    pub high: VecDeque<Frame>,
}

impl PacketNumSpace {
    /// What is buffered at high priority, the oldest first.
    pub open spec fn high_frames(self) -> Seq<StreamFrame> {
        self.high@.map_values(|frame: Frame| frame@)
    }

    /// Creates a space with nothing buffered.
    pub fn new(id: u64) -> (space: Self)
        ensures
            space.id == id,
            space.high_frames() == Seq::<StreamFrame>::empty(),
    {
        PacketNumSpace { id, high: VecDeque::new() }
    }

    /// Buffers `frame` at high priority, behind what is already there.
    pub fn push_back_high(&mut self, frame: Frame)
        ensures
            final(self).id == old(self).id,
            final(self).high_frames() == old(self).high_frames().push(frame@),
            final(self).high@ == old(self).high@.push(frame),
    {
        self.high.push_back(frame);
        assert(self.high_frames() =~= old(self).high_frames().push(frame@));
    }
}

/// The packet number spaces of a connection by their identifiers.
#[derive(Debug)]
pub struct PacketNumSpaceMap {
    spaces: HashMap<u64, PacketNumSpace>,
}

impl View for PacketNumSpaceMap {
    type V = Map<u64, PacketNumSpace>;

    closed spec fn view(&self) -> Map<u64, PacketNumSpace> {
        self.spaces@
    }
}

impl PacketNumSpaceMap {
    /// Creates a map without spaces.
    pub fn new() -> (spaces: Self)
        ensures
            spaces@ == Map::<u64, PacketNumSpace>::empty(),
    {
        PacketNumSpaceMap { spaces: HashMap::new() }
    }

    /// Adds `space` under its identifier, in place of any space that stood there.
    pub fn insert(&mut self, space: PacketNumSpace)
        ensures
            final(self)@ == old(self)@.insert(space.id, space),
    {
        self.spaces.insert(space.id, space);
    }

    /// Returns the space of the identifier `space_id` for changes.
    pub fn get_mut(&mut self, space_id: u64) -> (space: Option<&mut PacketNumSpace>)
        ensures
            match space {
                Some(space) => {
                    &&& old(self)@.contains_key(space_id)
                    &&& *space == old(self)@[space_id]
                    &&& final(self)@ == old(self)@.insert(space_id, *final(space))
                },
                None => {
                    &&& !old(self)@.contains_key(space_id)
                    &&& final(self)@ == old(self)@
                },
            },
    {
        match self.spaces.entry(space_id) {
            Entry::Occupied(entry) => Some(entry.into_mut()),
            Entry::Vacant(_) => None,
        }
    }
}

/// The content of a frame is what its fields hold.
pub proof fn law_frame_shows_its_fields(
    stream_id: u64,
    offset: u64,
    length: usize,
    fin: bool,
    data: Bytes,
)
    ensures
        ({
            let shown = (Frame::Stream { stream_id, offset, length, fin, data })@;
            &&& shown.stream_id == stream_id
            &&& shown.offset == offset
            &&& shown.length == length
            &&& shown.fin == fin
            &&& shown.data == bytes_contents(data)
        }),
{
}

/// What is buffered at high priority is shown frame by frame, in order.
pub proof fn law_buffered_frames_are_shown_in_order(space: PacketNumSpace)
    ensures
        space.high_frames().len() == space.high@.len(),
        forall|i: int|
            0 <= i < space.high@.len() ==> #[trigger] space.high_frames()[i] == space.high@[i]@,
{
}

} // verus!
