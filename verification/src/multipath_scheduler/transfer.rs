//! The move of a part of a stream into the buffer of a path.

use bytes::Bytes;
use vstd::prelude::*;

use crate::error::Error;
use crate::multipath_scheduler::round::{Assignment, FirstFrame, FrameSplit, Segment};
use crate::space;
use crate::space::{Frame, PacketNumSpace, StreamFrame};

verus! {

/// The progress of a transfer.
#[verifier::ext_equal]
pub struct TransferState {
    /// The stream that is read from.
    pub stream_id: int,
    /// The offset in the stream that the next frame gets.
    pub offset: int,
    /// The bytes that are still to be moved.
    pub limit: int,
    /// Whether a read has failed.
    pub failed: bool,
}

/// What came of a read from the stream.
pub enum StreamRead {
    /// The stream could not be read.
    Failed,
    /// The stream gave `bytes`. `fin` tells whether it ends with them.
    Data { bytes: Seq<u8>, fin: bool },
}

/// What came of a read into `out` that was answered with `answer`.
pub open spec fn read_outcome(out: Seq<u8>, answer: Result<(usize, bool), Error>) -> StreamRead {
    match answer {
        Ok((len, fin)) => StreamRead::Data { bytes: out.take(len as int), fin },
        Err(_) => StreamRead::Failed,
    }
}

impl TransferState {
    /// Whether another read is needed.
    pub open spec fn reading(self) -> bool {
        !self.failed && self.limit > 0
    }

    /// Whether `read` is a possible answer to the read that is needed: it gives
    /// no more than was asked for, and no byte behind the last offset.
    pub open spec fn accepts(self, read: StreamRead) -> bool {
        &&& self.reading()
        &&& read matches StreamRead::Data { bytes, fin } ==> {
            &&& bytes.len() <= self.limit
            &&& self.offset + bytes.len() <= u64::MAX
        }
    }

    /// The progress after a read.
    pub open spec fn after(self, read: StreamRead) -> TransferState {
        match read {
            StreamRead::Failed => TransferState { failed: true, ..self },
            StreamRead::Data { bytes, fin } => TransferState {
                offset: self.offset + bytes.len(),
                limit: self.limit - bytes.len(),
                ..self
            },
        }
    }

    /// The frames that a read gives rise to: one for what was read, even if
    /// that is nothing, and none if the read failed.
    pub open spec fn frames_of(self, read: StreamRead) -> Seq<StreamFrame> {
        match read {
            StreamRead::Failed => Seq::empty(),
            StreamRead::Data { bytes, fin } => seq![
                StreamFrame {
                    stream_id: self.stream_id,
                    offset: self.offset,
                    length: bytes.len() as int,
                    fin,
                    data: bytes,
                },
            ],
        }
    }

    /// The progress after a sequence of reads.
    pub open spec fn after_all(self, reads: Seq<StreamRead>) -> TransferState
        decreases reads.len(),
    {
        if reads.len() == 0 {
            self
        } else {
            self.after_all(reads.drop_last()).after(reads.last())
        }
    }

    /// Whether each of `reads` is a possible answer in its place.
    pub open spec fn accepts_all(self, reads: Seq<StreamRead>) -> bool
        decreases reads.len(),
    {
        reads.len() > 0 ==> {
            &&& self.accepts_all(reads.drop_last())
            &&& self.after_all(reads.drop_last()).accepts(reads.last())
        }
    }

    /// The frames that a sequence of reads gives rise to.
    pub open spec fn frames_of_all(self, reads: Seq<StreamRead>) -> Seq<StreamFrame>
        decreases reads.len(),
    {
        if reads.len() == 0 {
            Seq::empty()
        } else {
            self.frames_of_all(reads.drop_last()) + self.after_all(reads.drop_last()).frames_of(
                reads.last(),
            )
        }
    }
}

/// Moves a part of a stream into the buffer of a path, read by read.
#[derive(Debug)]
pub struct FrameTransfer {
    stream_id: u64,
    offset: u64,
    limit: u64,
    failed: bool,
}

impl View for FrameTransfer {
    type V = TransferState;

    closed spec fn view(&self) -> TransferState {
        TransferState {
            stream_id: self.stream_id as int,
            offset: self.offset as int,
            limit: self.limit as int,
            failed: self.failed,
        }
    }
}

impl FrameTransfer {
    /// Starts to move `frame_len` bytes, beginning at `stream_offset`.
    pub fn new(stream_id: u64, stream_offset: u64, frame_len: u64) -> (transfer: Self)
        ensures
            transfer@ == (TransferState {
                stream_id: stream_id as int,
                offset: stream_offset as int,
                limit: frame_len as int,
                failed: false,
            }),
    {
        FrameTransfer { stream_id, offset: stream_offset, limit: frame_len, failed: false }
    }

    /// Returns how many bytes are to be read next, or `None` if the transfer
    /// has come to its end.
    pub fn next_read(&self) -> (limit: Option<u64>)
        ensures
            match limit {
                Some(limit) => self@.reading() && limit == self@.limit,
                None => !self@.reading(),
            },
    {
        if !self.failed && self.limit > 0 {
            Some(self.limit)
        } else {
            None
        }
    }

    /// Returns whether all bytes were moved, or `None` if the transfer has not
    /// come to its end.
    pub fn outcome(&self) -> (moved: Option<bool>)
        ensures
            moved == if self@.reading() {
                None
            } else {
                Some(!self@.failed)
            },
    {
        if self.failed {
            Some(false)
        } else if self.limit > 0 {
            None
        } else {
            Some(true)
        }
    }

    /// Checks that `answer` is a possible answer to the read that is needed, if
    /// that was made into `out`.
    pub fn check_read(&self, out: &[u8], answer: Result<(usize, bool), Error>) -> (possible: bool)
        ensures
            possible == {
                &&& answer matches Ok((len, _)) ==> len <= out@.len()
                &&& self@.accepts(read_outcome(out@, answer))
            },
    {
        if self.failed || self.limit == 0 {
            return false;
        }
        match answer {
            Ok((len, _)) => len <= out.len() && len as u64 <= self.limit && len as u64 <= u64::MAX
                - self.offset,
            Err(_) => true,
        }
    }

    /// Takes the answer to the read that was needed. What was read stands at
    /// the start of `out`, and is buffered as a frame at high priority.
    pub fn on_read(
        &mut self,
        space: &mut PacketNumSpace,
        out: &[u8],
        answer: Result<(usize, bool), Error>,
    )
        requires
            old(self)@.accepts(read_outcome(out@, answer)),
            answer matches Ok((len, _)) ==> len <= out@.len(),
        ensures
            final(self)@ == old(self)@.after(read_outcome(out@, answer)),
            final(space).id == old(space).id,
            final(space).high_frames() == old(space).high_frames() + old(self)@.frames_of(
                read_outcome(out@, answer),
            ),
            match answer {
                Ok((len, fin)) => {
                    &&& final(self)@.offset == old(self)@.offset + len
                    &&& final(self)@.limit == old(self)@.limit - len
                    &&& final(self)@.failed == old(self)@.failed
                    &&& final(space).high@.len() == old(space).high@.len() + 1
                    &&& final(space).high@.drop_last() == old(space).high@
                    &&& final(space).high@.last() matches Frame::Stream {
                        stream_id,
                        offset,
                        length,
                        fin: ends,
                        data,
                    } && {
                        &&& stream_id == old(self)@.stream_id
                        &&& offset == old(self)@.offset
                        &&& length == len
                        &&& ends == fin
                        &&& space::bytes_contents(data) == out@.take(len as int)
                    }
                },
                Err(_) => {
                    &&& final(self)@.offset == old(self)@.offset
                    &&& final(self)@.limit == old(self)@.limit
                    &&& final(self)@.failed
                    &&& *final(space) == *old(space)
                },
            },
            final(self)@.stream_id == old(self)@.stream_id,
    {
        let ghost read = read_outcome(out@, answer);
        let (length, fin) = match answer {
            Ok(answer) => answer,
            Err(_) => {
                self.failed = true;
                assert(space.high_frames() + old(self)@.frames_of(read) =~= space.high_frames());
                return;
            },
        };
        assert(out@.subrange(0, length as int) =~= out@.take(length as int));
        let frame = Frame::Stream {
            stream_id: self.stream_id,
            offset: self.offset,
            length,
            fin,
            data: Bytes::copy_from_slice(&out[0..length]),
        };
        assert(old(self)@.frames_of(read) =~= seq![frame@]);
        space.push_back_high(frame);
        self.offset = self.offset + length as u64;
        self.limit = self.limit - length as u64;
        assert(space.high@.drop_last() =~= old(space).high@);
    }
}

/// The bytes of `frames`, one frame behind the other.
pub open spec fn frame_bytes(frames: Seq<StreamFrame>) -> Seq<u8>
    decreases frames.len(),
{
    if frames.len() == 0 {
        Seq::empty()
    } else {
        frame_bytes(frames.drop_last()) + frames.last().data
    }
}

/// The bytes that `reads` gave, one read behind the other.
pub open spec fn read_bytes(reads: Seq<StreamRead>) -> Seq<u8>
    decreases reads.len(),
{
    if reads.len() == 0 {
        Seq::empty()
    } else {
        match reads.last() {
            StreamRead::Failed => read_bytes(reads.drop_last()),
            StreamRead::Data { bytes, fin } => read_bytes(reads.drop_last()) + bytes,
        }
    }
}

/// The frames of a transfer hold what was read, without a gap: each begins
/// where those before it end. Offset and limit have moved on by as much.
pub proof fn law_transfer_leaves_no_gap(start: TransferState, reads: Seq<StreamRead>)
    requires
        start.accepts_all(reads),
    ensures
        frame_bytes(start.frames_of_all(reads)) == read_bytes(reads),
        start.after_all(reads).offset == start.offset + read_bytes(reads).len(),
        start.after_all(reads).limit == start.limit - read_bytes(reads).len(),
        forall|i: int|
            0 <= i < start.frames_of_all(reads).len() ==> {
                let frame = #[trigger] start.frames_of_all(reads)[i];
                &&& frame.stream_id == start.stream_id
                &&& frame.length == frame.data.len()
                &&& frame.offset == start.offset + frame_bytes(
                    start.frames_of_all(reads).take(i),
                ).len()
            },
    decreases reads.len(),
{
    if reads.len() > 0 {
        let front = reads.drop_last();
        law_transfer_leaves_no_gap(start, front);
        lemma_transfer_keeps_its_stream(start, front);
        let before = start.frames_of_all(front);
        let added = start.after_all(front).frames_of(reads.last());
        let after = start.frames_of_all(reads);
        match reads.last() {
            StreamRead::Failed => {
                assert(after =~= before);
            },
            StreamRead::Data { bytes, fin } => {
                assert(after.drop_last() =~= before);
                assert(after.last() == added[0]);
                assert forall|i: int| 0 <= i < after.len() implies {
                    let frame = #[trigger] after[i];
                    &&& frame.stream_id == start.stream_id
                    &&& frame.length == frame.data.len()
                    &&& frame.offset == start.offset + frame_bytes(after.take(i)).len()
                } by {
                    if i < before.len() {
                        assert(after[i] == before[i]);
                        assert(after.take(i) =~= before.take(i));
                    } else {
                        assert(after.take(i) =~= before);
                    }
                }
            },
        }
    }
}

/// A transfer stays with its stream.
proof fn lemma_transfer_keeps_its_stream(start: TransferState, reads: Seq<StreamRead>)
    ensures
        start.after_all(reads).stream_id == start.stream_id,
    decreases reads.len(),
{
    if reads.len() > 0 {
        lemma_transfer_keeps_its_stream(start, reads.drop_last());
    }
}

/// A transfer that has come to its end without a failed read has moved as many
/// bytes as it was asked for.
pub proof fn law_finished_transfer_is_complete(start: TransferState, reads: Seq<StreamRead>)
    requires
        start.limit >= 0,
        start.accepts_all(reads),
        !start.after_all(reads).reading(),
        !start.after_all(reads).failed,
    ensures
        frame_bytes(start.frames_of_all(reads)).len() == start.limit,
{
    law_transfer_leaves_no_gap(start, reads);
    lemma_limit_stays_nonnegative(start, reads);
}

/// No read gives more than was asked for, so the limit does not fall below zero.
proof fn lemma_limit_stays_nonnegative(start: TransferState, reads: Seq<StreamRead>)
    requires
        start.limit >= 0,
        start.accepts_all(reads),
    ensures
        start.after_all(reads).limit >= 0,
    decreases reads.len(),
{
    if reads.len() > 0 {
        lemma_limit_stays_nonnegative(start, reads.drop_last());
    }
}

/// The start of a transfer that moves `segment` of a stream.
pub open spec fn segment_start(stream_id: u64, segment: Segment) -> TransferState {
    TransferState {
        stream_id: stream_id as int,
        offset: segment.offset as int,
        limit: segment.length as int,
        failed: false,
    }
}

/// Whether `reads` bring a transfer to its end without a failed read.
pub open spec fn completes(start: TransferState, reads: Seq<StreamRead>) -> bool {
    &&& start.accepts_all(reads)
    &&& !start.after_all(reads).reading()
    &&& !start.after_all(reads).failed
}

/// The frames that the segments of a first frame are moved in.
pub open spec fn first_frame_frames(
    frame: FirstFrame,
    assignment: Assignment,
    front_reads: Seq<StreamRead>,
    back_reads: Seq<StreamRead>,
) -> Seq<StreamFrame> {
    let front = segment_start(frame.stream_id, assignment.front).frames_of_all(front_reads);
    match assignment.back {
        Some(back) => front + segment_start(frame.stream_id, back).frames_of_all(back_reads),
        None => front,
    }
}

/// The bytes of two sequences of frames are those of the first, then those of
/// the second.
proof fn lemma_frame_bytes_of_both(one: Seq<StreamFrame>, other: Seq<StreamFrame>)
    ensures
        frame_bytes(one + other) == frame_bytes(one) + frame_bytes(other),
    decreases other.len(),
{
    if other.len() == 0 {
        assert(one + other =~= one);
        assert(frame_bytes(one) + frame_bytes(other) =~= frame_bytes(one));
    } else {
        lemma_frame_bytes_of_both(one, other.drop_last());
        assert((one + other).drop_last() =~= one + other.drop_last());
        assert((one + other).last() == other.last());
        assert(frame_bytes(one + other) =~= frame_bytes(one) + frame_bytes(other));
    }
}

/// A first frame is wholly buffered, however it is divided between the paths:
/// once its segments have been moved, the frames of both paths together hold as
/// many bytes as were left of it, and each begins where those before it end.
pub proof fn law_first_frame_is_wholly_buffered(
    frame: FirstFrame,
    split: FrameSplit,
    main_space: u64,
    backup_space: u64,
    front_reads: Seq<StreamRead>,
    back_reads: Seq<StreamRead>,
)
    requires
        frame.divisible(split),
        ({
            let assignment = frame.assignment(split, main_space, backup_space);
            &&& completes(segment_start(frame.stream_id, assignment.front), front_reads)
            &&& assignment.back matches Some(back) ==> completes(
                segment_start(frame.stream_id, back),
                back_reads,
            )
        }),
    ensures
        ({
            let frames = first_frame_frames(
                frame,
                frame.assignment(split, main_space, backup_space),
                front_reads,
                back_reads,
            );
            &&& frame_bytes(frames).len() == frame.remaining
            &&& forall|i: int|
                0 <= i < frames.len() ==> {
                    &&& (#[trigger] frames[i]).stream_id == frame.stream_id
                    &&& frames[i].length == frames[i].data.len()
                    &&& frames[i].offset == frame.stream_offset + frame_bytes(
                        frames.take(i),
                    ).len()
                }
        }),
{
    let assignment = frame.assignment(split, main_space, backup_space);
    let front_start = segment_start(frame.stream_id, assignment.front);
    let front = front_start.frames_of_all(front_reads);
    law_transfer_leaves_no_gap(front_start, front_reads);
    law_finished_transfer_is_complete(front_start, front_reads);
    if let Some(back_segment) = assignment.back {
        let back_start = segment_start(frame.stream_id, back_segment);
        let back = back_start.frames_of_all(back_reads);
        law_transfer_leaves_no_gap(back_start, back_reads);
        law_finished_transfer_is_complete(back_start, back_reads);
        lemma_frame_bytes_of_both(front, back);
        let frames = front + back;
        assert forall|i: int| 0 <= i < frames.len() implies {
            &&& (#[trigger] frames[i]).stream_id == frame.stream_id
            &&& frames[i].length == frames[i].data.len()
            &&& frames[i].offset == frame.stream_offset + frame_bytes(frames.take(i)).len()
        } by {
            if i < front.len() {
                assert(frames[i] == front[i]);
                assert(frames.take(i) =~= front.take(i));
            } else {
                let k = i - front.len();
                assert(frames[i] == back[k]);
                assert(frames.take(i) =~= front + back.take(k));
                lemma_frame_bytes_of_both(front, back.take(k));
            }
        }
    }
}

/// What a read gave is what stands at the start of the buffer, as far as the
/// answer says, with the mark of the end of the stream that the answer carries.
pub proof fn law_answer_tells_what_was_read(out: Seq<u8>, answer: Result<(usize, bool), Error>)
    requires
        answer matches Ok((len, _)) ==> len <= out.len(),
    ensures
        answer is Err <==> read_outcome(out, answer) is Failed,
        answer matches Ok((len, ends)) ==> {
            &&& read_outcome(out, answer) matches StreamRead::Data { bytes, fin }
            &&& fin == ends
            &&& bytes.len() == len
            &&& forall|i: int| 0 <= i < len ==> #[trigger] bytes[i] == out[i]
        },
{
}

/// A transfer goes on while bytes are missing and no read has failed. A read is
/// possible if it gives no more than is missing, and no byte behind the last
/// offset.
pub proof fn law_transfer_goes_on_while_bytes_are_missing(state: TransferState, read: StreamRead)
    ensures
        state.reading() <==> state.limit > 0 && !state.failed,
        read is Failed ==> (state.accepts(read) <==> state.limit > 0 && !state.failed),
        read matches StreamRead::Data { bytes, fin } ==> (state.accepts(read) <==> state.limit > 0
            && !state.failed && bytes.len() <= state.limit && state.offset + bytes.len()
            <= u64::MAX),
{
}

/// A read that gave data moves the offset on and the limit down by what it gave.
/// A failed read marks the transfer as failed and does nothing else.
pub proof fn law_read_moves_the_transfer_on(state: TransferState, read: StreamRead)
    ensures
        state.after(read).stream_id == state.stream_id,
        read is Failed ==> {
            &&& state.after(read).offset == state.offset
            &&& state.after(read).limit == state.limit
            &&& state.after(read).failed
            &&& state.frames_of(read).len() == 0
        },
        read matches StreamRead::Data { bytes, fin } ==> {
            &&& state.after(read).offset - state.offset == bytes.len()
            &&& state.limit - state.after(read).limit == bytes.len()
            &&& state.after(read).failed == state.failed
            &&& state.frames_of(read).len() == 1
            &&& state.frames_of(read)[0].stream_id == state.stream_id
            &&& state.frames_of(read)[0].offset == state.offset
            &&& state.frames_of(read)[0].length == bytes.len()
            &&& state.frames_of(read)[0].fin == fin
            &&& state.frames_of(read)[0].data == bytes
        },
{
}

/// Each read that gave data becomes one frame, in order, with the bytes and the
/// mark of the end of the stream that the read gave: `at` are the places of those
/// reads. The first frame begins at the offset of the transfer, and each other
/// one where the one before it ends.
pub proof fn law_frames_are_the_reads(
    start: TransferState,
    reads: Seq<StreamRead>,
    frames: Seq<StreamFrame>,
) -> (at: Seq<int>)
    requires
        frames == start.frames_of_all(reads),
    ensures
        at.len() == frames.len(),
        forall|k: int, l: int| 0 <= k < l < at.len() ==> at[k] < at[l],
        forall|k: int|
            0 <= k < frames.len() ==> {
                &&& 0 <= #[trigger] at[k] < reads.len()
                &&& reads[at[k]] matches StreamRead::Data { bytes, fin }
                &&& frames[k].fin == fin
                &&& frames[k].data == bytes
                &&& frames[k].length == bytes.len()
                &&& frames[k].stream_id == start.stream_id
            },
        forall|i: int| 0 <= i < reads.len() && #[trigger] reads[i] is Data ==> at.contains(i),
        frames.len() > 0 ==> frames[0].offset == start.offset,
        forall|k: int, l: int|
            0 <= k && l == k + 1 && l < frames.len() ==> (#[trigger] frames[l]).offset == (
            #[trigger] frames[k]).offset + frames[k].length,
        frames.len() == 0 ==> start.after_all(reads).offset == start.offset,
        frames.len() > 0 ==> start.after_all(reads).offset == frames.last().offset
            + frames.last().length,
        start.after_all(reads).offset + start.after_all(reads).limit == start.offset + start.limit,
        start.after_all(reads).failed <==> start.failed || exists|i: int|
            0 <= i < reads.len() && #[trigger] reads[i] is Failed,
    decreases reads.len(),
{
    if reads.len() == 0 {
        Seq::empty()
    } else {
        let front = reads.drop_last();
        let fewer = start.frames_of_all(front);
        let before = law_frames_are_the_reads(start, front, fewer);
        lemma_transfer_keeps_its_stream(start, front);
        let place: int = reads.len() - 1;
        assert(reads[place] == reads.last());
        if start.after_all(reads).failed && !start.failed {
            if reads.last() is Data {
                let i = choose|i: int| 0 <= i < front.len() && #[trigger] front[i] is Failed;
                assert(reads[i] is Failed);
            }
        }
        if exists|i: int| 0 <= i < reads.len() && #[trigger] reads[i] is Failed {
            let i = choose|i: int| 0 <= i < reads.len() && #[trigger] reads[i] is Failed;
            if i < place {
                assert(front[i] is Failed);
            }
        }
        let at = if reads.last() is Data {
            before.push(place)
        } else {
            before
        };
        assert forall|k: int| 0 <= k < frames.len() implies {
            &&& 0 <= #[trigger] at[k] < reads.len()
            &&& reads[at[k]] matches StreamRead::Data { bytes, fin }
            &&& frames[k].fin == fin
            &&& frames[k].data == bytes
            &&& frames[k].length == bytes.len()
            &&& frames[k].stream_id == start.stream_id
        } by {
            if k < before.len() {
                assert(at[k] == before[k]);
                assert(front[before[k]] == reads[at[k]]);
                assert(frames[k] == fewer[k]);
            }
        }
        assert forall|k: int, l: int| 0 <= k < l < at.len() implies at[k] < at[l] by {
            assert(at[k] == before[k]);
        }
        assert forall|i: int|
            0 <= i < reads.len() && #[trigger] reads[i] is Data implies at.contains(i) by {
            if i < place {
                assert(front[i] == reads[i]);
                assert(at[before.index_of(i)] == i);
            } else {
                assert(at[before.len() as int] == i);
            }
        }
        assert forall|k: int, l: int| 0 <= k && l == k + 1 && l < frames.len() implies (
        #[trigger] frames[l]).offset == (#[trigger] frames[k]).offset + frames[k].length by {
            assert(frames[k] == fewer[k]);
            if l < fewer.len() {
                assert(frames[l] == fewer[l]);
            }
        }
        if fewer.len() > 0 {
            assert(frames[0] == fewer[0]);
        }
        at
    }
}

} // verus!
