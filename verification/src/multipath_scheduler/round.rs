//! One round of path selection: what the streams ask for, and what follows
//! from it.

use vstd::prelude::*;

use crate::clock::Timestamp;
use crate::error::Error;
use crate::path::{Path, PathMap};
use crate::stream::{Stream, StreamContext, StreamEntry};
use crate::videogop;
use crate::videogop::{VideoGop, VideoGopCollection};

verus! {

/// What the bandwidth of a path is estimated from.
#[derive(Debug, Clone, Copy, PartialEq, Eq, Structural)]
pub struct PathEstimate {
    /// The packet number space that the path sends in.
    pub space_id: u64,
    /// The bytes that the path is expected to deliver in a round trip: its
    /// congestion window without the bytes lost, or zero if more was lost.
    pub deliverable: u64,
    /// The smoothed round trip time in whole milliseconds.
    pub srtt_millis: u128,
}

/// The estimate that `path` gives rise to.
pub open spec fn estimate_of(path: Path) -> PathEstimate {
    PathEstimate {
        space_id: path.space_id,
        deliverable: if path.congestion_window >= path.total_lost() {
            (path.congestion_window - path.total_lost()) as u64
        } else {
            0
        },
        srtt_millis: path.srtt_millis,
    }
}

impl PathEstimate {
    /// Returns the estimate that `path` gives rise to.
    pub fn of(path: &Path) -> (estimate: Self)
        requires
            path.total_lost() <= u64::MAX,
        ensures
            estimate == estimate_of(*path),
    {
        let lost: u64 = path.total_lost_bytes();
        PathEstimate {
            space_id: path.space_id,
            deliverable: path.congestion_window.saturating_sub(lost),
            srtt_millis: path.srtt_millis,
        }
    }
}

/// What is left of the first GOP of a video while nothing of the stream has to
/// be sent again. All of it is assigned to paths at once.
#[derive(Debug, Clone, Copy, PartialEq, Eq, Structural)]
pub struct FirstFrame {
    /// The stream that carries the video.
    pub stream_id: u64,
    /// The offset at which sending goes on.
    pub stream_offset: u64,
    /// The bytes from there to the end of the GOP.
    pub remaining: u64,
    /// Whether the main path is at least as fast as the backup path.
    pub main_faster: bool,
}

/// How soon the GOP at hand is needed.
#[derive(Debug, Clone, Copy, PartialEq, Eq, Structural)]
pub enum Urgency {
    /// Its play time is over.
    Overdue,
    /// `bytes` of it have to be sent within `millis` milliseconds.
    Due { bytes: u64, millis: u128 },
}

/// What a stream asks for in a round.
#[derive(Debug)]
pub struct Visit {
    /// The stream.
    pub stream_id: u64,
    /// The GOP that the stream sends next.
    pub gop: VideoGop,
    /// The first frame of the video, if it has to be assigned to paths now.
    pub first_frame: Option<FirstFrame>,
    /// How soon the GOP is needed.
    pub urgency: Urgency,
}

/// Why the walk over the streams came to its end.
#[derive(Debug, Clone, Copy, PartialEq, Eq, Structural)]
pub enum ScanEnd {
    /// All streams have been visited.
    Exhausted,
    /// A GOP is overdue. The streams behind it have not been visited.
    Overdue,
    /// The next byte of a stream lies in none of its GOPs. The streams behind
    /// it have not been visited.
    IllegalGops,
}

/// Whether a stream takes part in a round: it is not stopped, carries a video
/// and knows when the video was requested.
pub open spec fn takes_part(entry: StreamEntry) -> bool {
    &&& entry.stream matches Some(stream)
    &&& !stream.stopped
    &&& stream.context matches StreamContext::Video(gops)
    &&& gops.requested_at() is Some
}

/// The GOPs of a stream that takes part.
pub open spec fn gops_of(entry: StreamEntry) -> Map<u32, VideoGop>
    recommends
        takes_part(entry),
{
    entry.stream->0.context->Video_0@
}

/// The offset that a stream sends next when nothing has to be sent again.
pub open spec fn next_offset(entry: StreamEntry) -> u64
    recommends
        takes_part(entry),
{
    entry.stream->0.send_off_without_retrans
}

/// The whole milliseconds that have passed since the video was requested.
pub open spec fn elapsed(entry: StreamEntry, now: Timestamp) -> int
    recommends
        takes_part(entry),
{
    now.spec_millis_since(entry.stream->0.context->Video_0.requested_at()->0)
}

/// Whether `gop` is one that the stream may be said to send next.
pub open spec fn plays(entry: StreamEntry, gop: VideoGop) -> bool {
    videogop::is_gop_at(gops_of(entry), next_offset(entry), gop)
}

/// Whether the next byte of the stream lies in some GOP.
pub open spec fn has_gop(entry: StreamEntry) -> bool {
    videogop::some_gop_covers(gops_of(entry), next_offset(entry))
}

/// Whether the play time of `gop` is over.
pub open spec fn overdue(entry: StreamEntry, gop: VideoGop, now: Timestamp) -> bool {
    elapsed(entry, now) >= gop.end_time_stamp()
}

/// What a stream that sends `gop` next asks for.
pub open spec fn visit_of(
    entry: StreamEntry,
    gop: VideoGop,
    main_faster: bool,
    now: Timestamp,
) -> Visit {
    let remaining = (gop.end_byte() - next_offset(entry)) as u64;
    Visit {
        stream_id: entry.id,
        gop,
        first_frame: if gop.gop_number == 0 && next_offset(entry) == entry.stream->0.send_off {
            Some(
                FirstFrame {
                    stream_id: entry.id,
                    stream_offset: entry.stream->0.send_off,
                    remaining,
                    main_faster,
                },
            )
        } else {
            None
        },
        urgency: if overdue(entry, gop, now) {
            Urgency::Overdue
        } else {
            Urgency::Due {
                bytes: remaining,
                millis: (gop.end_time_stamp() - elapsed(entry, now)) as u128,
            }
        },
    }
}

/// Whether a walk over `entries` makes `visits` and comes to its end as `end`
/// says.
///
/// Streams that do not take part are passed over. The walk stops at a stream
/// without a GOP for its next byte, and behind a stream whose GOP is overdue.
pub open spec fn scanned(
    entries: Seq<StreamEntry>,
    main_faster: bool,
    now: Timestamp,
    visits: Seq<Visit>,
    end: ScanEnd,
) -> bool
    decreases entries.len(),
{
    if entries.len() == 0 {
        visits.len() == 0 && end == ScanEnd::Exhausted
    } else if !takes_part(entries[0]) {
        scanned(entries.skip(1), main_faster, now, visits, end)
    } else if !has_gop(entries[0]) {
        visits.len() == 0 && end == ScanEnd::IllegalGops
    } else {
        &&& visits.len() > 0
        &&& plays(entries[0], visits[0].gop)
        &&& visits[0] == visit_of(entries[0], visits[0].gop, main_faster, now)
        &&& if visits[0].urgency == Urgency::Overdue {
            visits.len() == 1 && end == ScanEnd::Overdue
        } else {
            scanned(entries.skip(1), main_faster, now, visits.skip(1), end)
        }
    }
}

/// Whether the positions and times of the GOPs that a visit looks at stay
/// within the range of their types.
pub open spec fn in_range(entry: StreamEntry) -> bool {
    takes_part(entry) ==> {
        &&& videogop::ends_fit(gops_of(entry), next_offset(entry))
        &&& videogop::end_times_fit(gops_of(entry), next_offset(entry))
    }
}

/// Whether the walk may go on behind a stream.
pub open spec fn may_pass(entry: StreamEntry, now: Timestamp) -> bool {
    takes_part(entry) ==> exists|gop: VideoGop| #[trigger]
        plays(entry, gop) && !overdue(entry, gop, now)
}

/// Whether the streams that a walk may reach are in range.
pub open spec fn reached_in_range(entries: Seq<StreamEntry>, now: Timestamp) -> bool {
    forall|i: int|
        0 <= i < entries.len() && (forall|j: int|
            0 <= j < i ==> may_pass(#[trigger] entries[j], now)) ==> in_range(
            #[trigger] entries[i],
        )
}

/// Returns the stream of an entry that takes part, with its GOP table and the
/// time of the request.
fn video_of(entry: &StreamEntry) -> (video: Option<(&Stream, &VideoGopCollection, Timestamp)>)
    ensures
        match video {
            Some((stream, gops, requested_at)) => {
                &&& takes_part(*entry)
                &&& *stream == entry.stream->0
                &&& *gops == stream.context->Video_0
                &&& gops.requested_at() == Some(requested_at)
            },
            None => !takes_part(*entry),
        },
{
    match &entry.stream {
        Some(stream) if !stream.stopped => match &stream.context {
            StreamContext::Video(gops) => match gops.get_request_timestamp() {
                Some(requested_at) => Some((stream, gops, requested_at)),
                None => None,
            },
            _ => None,
        },
        _ => None,
    }
}

/// Returns what a stream that sends `gop` next asks for.
fn visit(
    entry: &StreamEntry,
    stream: &Stream,
    gop: &VideoGop,
    requested_at: Timestamp,
    main_faster: bool,
    now: Timestamp,
) -> (visit: Visit)
    requires
        takes_part(*entry),
        *stream == entry.stream->0,
        stream.context->Video_0.requested_at() == Some(requested_at),
        gop.covers(next_offset(*entry)),
        gop.end_byte() <= u64::MAX,
        gop.end_time_stamp() <= u128::MAX,
    ensures
        visit == visit_of(*entry, *gop, main_faster, now),
{
    let remaining: u64 = gop.get_gop_end_byte() - stream.send_off_without_retrans;
    let first_frame = if gop.get_gop_number() == 0 && stream.send_off_without_retrans
        == stream.send_off {
        Some(
            FirstFrame {
                stream_id: entry.id,
                stream_offset: stream.send_off,
                remaining,
                main_faster,
            },
        )
    } else {
        None
    };
    let passed: u128 = now.millis_since(requested_at);
    let end: u128 = gop.get_gop_end_time_stamp();
    let urgency = if passed >= end {
        Urgency::Overdue
    } else {
        Urgency::Due { bytes: remaining, millis: end - passed }
    };
    Visit { stream_id: entry.id, gop: gop.clone(), first_frame, urgency }
}

/// Whether `visits` are those that a walk makes before it comes to `behind`:
/// what it adds from there on completes them.
spec fn leads_to(
    entries: Seq<StreamEntry>,
    behind: Seq<StreamEntry>,
    main_faster: bool,
    now: Timestamp,
    visits: Seq<Visit>,
) -> bool {
    forall|rest: Seq<Visit>, end: ScanEnd| #[trigger]
        scanned(behind, main_faster, now, rest, end) ==> scanned(
            entries,
            main_faster,
            now,
            visits + rest,
            end,
        )
}

/// Checks that the streams that a walk may reach are in range, so that
/// [`scan`] can walk over them.
pub fn check_streams(entries: &Vec<StreamEntry>, now: Timestamp) -> (fit: bool)
    ensures
        fit == reached_in_range(entries@, now),
{
    for i in 0..entries.len()
        invariant
            forall|j: int| 0 <= j < i ==> may_pass(#[trigger] entries@[j], now),
            forall|j: int| 0 <= j < i ==> in_range(#[trigger] entries@[j]),
    {
        let entry = &entries[i];
        if let Some((stream, gops, requested_at)) = video_of(entry) {
            let next: u64 = stream.send_off_without_retrans;
            if !gops.check_ends(next) || !gops.check_end_times(next) {
                assert(!in_range(entries@[i as int]));
                return false;
            }
            assert(in_range(entries@[i as int]));
            if !gops.check_plays_beyond(next, now.millis_since(requested_at)) {
                proof {
                    assert(!may_pass(entries@[i as int], now)) by {
                        if may_pass(entries@[i as int], now) {
                            let gop = choose|gop: VideoGop| #[trigger]
                                plays(*entry, gop) && !overdue(*entry, gop, now);
                            assert(videogop::is_gop_at(gops@, next, gop));
                        }
                    }
                }
                return true;
            }
            proof {
                let gop = choose|gop: VideoGop| #[trigger]
                    videogop::is_gop_at(gops@, next, gop) && elapsed(*entry, now)
                        < gop.end_time_stamp();
                assert(plays(*entry, gop) && !overdue(*entry, gop, now));
            }
        }
        assert(may_pass(entries@[i as int], now));
    }
    true
}

/// Walks over the streams and collects what they ask for.
pub fn scan(entries: &Vec<StreamEntry>, main_faster: bool, now: Timestamp) -> (result: (
    Vec<Visit>,
    ScanEnd,
))
    requires
        reached_in_range(entries@, now),
    ensures
        scanned(entries@, main_faster, now, result.0@, result.1),
{
    let mut visits: Vec<Visit> = Vec::new();
    proof {
        assert(entries@.skip(0) =~= entries@);
        assert forall|rest: Seq<Visit>| visits@ + rest == rest by {
            assert(visits@ + rest =~= rest);
        }
    }
    for i in 0..entries.len()
        invariant
            reached_in_range(entries@, now),
            forall|j: int| 0 <= j < i ==> may_pass(#[trigger] entries@[j], now),
            leads_to(entries@, entries@.skip(i as int), main_faster, now, visits@),
    {
        let entry = &entries[i];
        let ghost before = visits@;
        let ghost here = entries@.skip(i as int);
        let ghost behind = entries@.skip(i + 1);
        proof {
            assert(here[0] == *entry);
            assert(here.skip(1) =~= behind);
            assert(in_range(entries@[i as int]));
        }
        if let Some((stream, gops, requested_at)) = video_of(entry) {
            match gops.get_gop_by_stream_offset(stream.send_off_without_retrans) {
                Some(gop) => {
                    assert(plays(*entry, *gop));
                    let asked = visit(entry, stream, gop, requested_at, main_faster, now);
                    let stop = match asked.urgency {
                        Urgency::Overdue => true,
                        Urgency::Due { .. } => false,
                    };
                    visits.push(asked);
                    if stop {
                        proof {
                            let one = seq![asked];
                            assert(one[0] == asked);
                            assert(scanned(here, main_faster, now, one, ScanEnd::Overdue));
                            assert(before + one =~= visits@);
                        }
                        return (visits, ScanEnd::Overdue);
                    }
                    proof {
                        assert forall|rest: Seq<Visit>, end: ScanEnd| #[trigger]
                            scanned(behind, main_faster, now, rest, end) implies scanned(
                            entries@,
                            main_faster,
                            now,
                            visits@ + rest,
                            end,
                        ) by {
                            let longer = seq![asked] + rest;
                            assert(longer[0] == asked);
                            assert(longer.skip(1) =~= rest);
                            assert(scanned(here, main_faster, now, longer, end));
                            assert(before + longer =~= visits@ + rest);
                        }
                    }
                },
                None => {
                    proof {
                        let none = Seq::<Visit>::empty();
                        assert(scanned(here, main_faster, now, none, ScanEnd::IllegalGops));
                        assert(before + none =~= before);
                    }
                    return (visits, ScanEnd::IllegalGops);
                },
            }
        } else {
            proof {
                assert forall|rest: Seq<Visit>, end: ScanEnd| #[trigger]
                    scanned(behind, main_faster, now, rest, end) implies scanned(
                    entries@,
                    main_faster,
                    now,
                    visits@ + rest,
                    end,
                ) by {
                    assert(scanned(here, main_faster, now, rest, end));
                }
            }
        }
        assert(may_pass(entries@[i as int], now));
    }
    proof {
        let none = Seq::<Visit>::empty();
        let behind = entries@.skip(entries@.len() as int);
        assert(scanned(behind, main_faster, now, none, ScanEnd::Exhausted));
        assert(visits@ + none =~= visits@);
    }
    (visits, ScanEnd::Exhausted)
}

/// What a round of path selection has found out.
#[derive(Debug)]
pub struct Round {
    /// The main path.
    pub main_pid: usize,
    /// The backup path.
    pub backup_pid: usize,
    /// Whether the main path is active and able to send.
    pub main_usable: bool,
    /// What the bandwidth of the main path is estimated from.
    pub main: PathEstimate,
    /// What the bandwidth of the backup path is estimated from.
    pub backup: PathEstimate,
    /// What the streams ask for.
    pub visits: Vec<Visit>,
    /// Why the walk over the streams came to its end.
    pub end: ScanEnd,
}

/// How a selection of a path starts.
#[derive(Debug)]
pub enum Start {
    /// The main path sends, and there is no backup path to consider.
    Main(usize),
    /// There are two paths to choose from.
    Round(Round),
}

/// The error with which a selection is refused, given the paths that have the
/// roles of main and backup path.
///
/// The main path has to be known. Unless it is usable, there has to be a known
/// and usable backup path.
pub open spec fn refusal(
    main: Option<usize>,
    backup: Option<usize>,
    paths: Map<usize, Path>,
) -> Option<Error> {
    if main is None {
        Some(Error::Done)
    } else if !paths.contains_key(main->0) {
        Some(Error::InternalError)
    } else if paths[main->0].usable() {
        None
    } else if backup is None {
        Some(Error::Done)
    } else if !paths.contains_key(backup->0) {
        Some(Error::InternalError)
    } else if !paths[backup->0].usable() {
        Some(Error::Done)
    } else {
        None
    }
}

/// Whether the main path is known and usable while no backup path is known.
pub open spec fn alone(
    main: Option<usize>,
    backup: Option<usize>,
    paths: Map<usize, Path>,
) -> bool {
    &&& main is Some
    &&& paths.contains_key(main->0)
    &&& paths[main->0].usable()
    &&& backup is None || !paths.contains_key(backup->0)
}

/// Whether the sums that a round has to take stay within the range of their
/// types.
pub open spec fn round_in_range(
    main: Option<usize>,
    backup: Option<usize>,
    paths: Map<usize, Path>,
    entries: Seq<StreamEntry>,
    now: Timestamp,
) -> bool {
    &&& main is Some && paths.contains_key(main->0) ==> paths[main->0].total_lost() <= u64::MAX
    &&& refusal(main, backup, paths) is None && !alone(main, backup, paths) ==> {
        &&& paths[backup->0].total_lost() <= u64::MAX
        &&& reached_in_range(entries, now)
    }
}

/// Whether `round` is what a round finds out that is not refused, with two
/// paths to choose from.
pub open spec fn is_round(
    main: Option<usize>,
    backup: Option<usize>,
    paths: Map<usize, Path>,
    entries: Seq<StreamEntry>,
    now: Timestamp,
    round: Round,
) -> bool {
    &&& refusal(main, backup, paths) is None
    &&& !alone(main, backup, paths)
    &&& main == Some(round.main_pid)
    &&& backup == Some(round.backup_pid)
    &&& round.main_usable == paths[round.main_pid].usable()
    &&& round.main == estimate_of(paths[round.main_pid])
    &&& round.backup == estimate_of(paths[round.backup_pid])
    &&& scanned(
        entries,
        round.main.srtt_millis <= round.backup.srtt_millis,
        now,
        round.visits@,
        round.end,
    )
}

/// The outcome of a round: the path that sends next, and whether the backup
/// path may carry stream frames from now on (`None` leaves that as it is).
pub struct Selection {
    /// The path that sends next.
    pub pid: usize,
    /// Whether the backup path may carry stream frames.
    pub backup_stream_frames: Option<bool>,
}

/// The outcome of `round`. `demand_exceeds_main` tells whether the bandwidth
/// that the streams need together exceeds the estimate for the main path.
///
/// A usable main path always sends. Otherwise the backup path does, and it
/// carries stream frames if a GOP is overdue or the main path would not be
/// enough. A stream with illegal GOPs leaves the backup path out.
pub open spec fn selection(round: Round, demand_exceeds_main: bool) -> Result<Selection, Error> {
    if round.main_usable {
        Ok(Selection { pid: round.main_pid, backup_stream_frames: None })
    } else if round.end == ScanEnd::IllegalGops {
        Err(Error::Done)
    } else {
        Ok(
            Selection {
                pid: round.backup_pid,
                backup_stream_frames: Some(round.end == ScanEnd::Overdue || demand_exceeds_main),
            },
        )
    }
}

/// What the paths look like after a selection.
pub open spec fn paths_after(
    paths: Map<usize, Path>,
    backup_pid: usize,
    selection: Result<Selection, Error>,
) -> Map<usize, Path> {
    match selection {
        Ok(Selection { backup_stream_frames: Some(allow), .. }) => paths.insert(
            backup_pid,
            Path { allow_stream_frames: allow, ..paths[backup_pid] },
        ),
        _ => paths,
    }
}

impl Round {
    /// Ends the round: returns the path that sends next, and tells the backup
    /// path whether it may carry stream frames if it is the one.
    ///
    /// `demand_exceeds_main` tells whether the bandwidth that the streams need
    /// together exceeds the estimate for the main path.
    pub fn conclude(&self, paths: &mut PathMap, demand_exceeds_main: bool) -> (pid: Result<
        usize,
        Error,
    >)
        requires
            !self.main_usable && self.end != ScanEnd::IllegalGops ==> old(paths)@.contains_key(
                self.backup_pid,
            ),
        ensures
            match selection(*self, demand_exceeds_main) {
                Ok(selection) => pid == Ok::<usize, Error>(selection.pid),
                Err(error) => pid == Err::<usize, Error>(error),
            },
            final(paths)@ == paths_after(
                old(paths)@,
                self.backup_pid,
                selection(*self, demand_exceeds_main),
            ),
            final(paths).order() == old(paths).order(),
            old(paths).wf() ==> final(paths).wf(),
    {
        if self.main_usable {
            return Ok(self.main_pid);
        }
        let overdue = match self.end {
            ScanEnd::IllegalGops => {
                return Err(Error::Done);
            },
            ScanEnd::Overdue => true,
            ScanEnd::Exhausted => false,
        };
        let backup_path = paths.get_mut(self.backup_pid)?;
        backup_path.set_allow_stream_frames(overdue || demand_exceeds_main);
        Ok(self.backup_pid)
    }
}

/// How a first frame is divided between the two paths.
#[derive(Debug, Clone, Copy, PartialEq, Eq, Structural)]
pub enum FrameSplit {
    /// The faster path delivers all of it before the slower one could help.
    Whole,
    /// The faster path sends the first `front` bytes.
    Parts { front: u64 },
}

/// A part of a stream that is assigned to a path.
#[derive(Debug, Clone, Copy, PartialEq, Eq, Structural)]
pub struct Segment {
    /// The packet number space of the path.
    pub space_id: u64,
    /// The position of the first byte in the stream.
    pub offset: u64,
    /// The number of bytes.
    pub length: u64,
}

/// The segments that a first frame is sent in.
#[derive(Debug, Clone, Copy, PartialEq, Eq, Structural)]
pub struct Assignment {
    /// What the faster path sends.
    pub front: Segment,
    /// What the slower path sends, if it takes part.
    pub back: Option<Segment>,
}

impl FirstFrame {
    /// Whether the front segment lies within the frame and its end within the
    /// range of its type.
    pub open spec fn divisible(self, split: FrameSplit) -> bool {
        split matches FrameSplit::Parts { front } ==> {
            &&& self.stream_offset + front <= u64::MAX
            &&& front <= self.remaining
        }
    }

    /// The segments that the frame is sent in.
    ///
    /// The back segment starts where the front segment ends, and reaches to the
    /// end of the frame.
    pub open spec fn assignment(
        self,
        split: FrameSplit,
        main_space: u64,
        backup_space: u64,
    ) -> Assignment {
        let (fast, slow) = if self.main_faster {
            (main_space, backup_space)
        } else {
            (backup_space, main_space)
        };
        match split {
            FrameSplit::Whole => Assignment {
                front: Segment {
                    space_id: fast,
                    offset: self.stream_offset,
                    length: self.remaining,
                },
                back: None,
            },
            FrameSplit::Parts { front } => {
                let middle = (self.stream_offset + front) as u64;
                Assignment {
                    front: Segment { space_id: fast, offset: self.stream_offset, length: front },
                    back: Some(
                        Segment {
                            space_id: slow,
                            offset: middle,
                            length: (self.remaining - front) as u64,
                        },
                    ),
                }
            },
        }
    }

    /// Checks that [`assign`](Self::assign) can divide the frame in this way.
    pub fn check_split(&self, split: FrameSplit) -> (fit: bool)
        ensures
            fit == self.divisible(split),
    {
        match split {
            FrameSplit::Whole => true,
            FrameSplit::Parts { front } => front <= self.remaining && front <= u64::MAX
                - self.stream_offset,
        }
    }

    /// Returns the segments that the frame is sent in.
    pub fn assign(&self, split: FrameSplit, main_space: u64, backup_space: u64) -> (assignment:
        Assignment)
        requires
            self.divisible(split),
        ensures
            assignment == self.assignment(split, main_space, backup_space),
    {
        let (fast, slow): (u64, u64) = if self.main_faster {
            (main_space, backup_space)
        } else {
            (backup_space, main_space)
        };
        match split {
            FrameSplit::Whole => Assignment {
                front: Segment {
                    space_id: fast,
                    offset: self.stream_offset,
                    length: self.remaining,
                },
                back: None,
            },
            FrameSplit::Parts { front } => {
                let middle: u64 = self.stream_offset + front;
                let length: u64 = self.remaining - front;
                Assignment {
                    front: Segment { space_id: fast, offset: self.stream_offset, length: front },
                    back: Some(Segment { space_id: slow, offset: middle, length }),
                }
            },
        }
    }
}

/// The first frames among what the streams ask for, in the order of the visits.
pub open spec fn first_frames_of(visits: Seq<Visit>) -> Seq<FirstFrame>
    decreases visits.len(),
{
    if visits.len() == 0 {
        Seq::empty()
    } else {
        let before = first_frames_of(visits.drop_last());
        match visits.last().first_frame {
            Some(frame) => before.push(frame),
            None => before,
        }
    }
}

/// The segments that `frames` are sent in, each with its stream: frame by frame,
/// and the front segment of a frame before its back segment.
pub open spec fn segments_of(
    frames: Seq<FirstFrame>,
    splits: Seq<FrameSplit>,
    main_space: u64,
    backup_space: u64,
) -> Seq<(u64, Segment)>
    decreases frames.len(),
{
    if frames.len() == 0 {
        Seq::empty()
    } else {
        let before = segments_of(
            frames.drop_last(),
            splits.drop_last(),
            main_space,
            backup_space,
        );
        let frame = frames.last();
        let assignment = frame.assignment(splits.last(), main_space, backup_space);
        let with_front = before.push((frame.stream_id, assignment.front));
        match assignment.back {
            Some(back) => with_front.push((frame.stream_id, back)),
            None => with_front,
        }
    }
}

impl Round {
    /// Returns the first frames that have to be assigned to paths, in the order
    /// of the visits.
    pub fn first_frames(&self) -> (frames: Vec<FirstFrame>)
        ensures
            frames@ == first_frames_of(self.visits@),
    {
        let mut frames: Vec<FirstFrame> = Vec::new();
        assert(self.visits@.take(0) =~= Seq::empty());
        for i in 0..self.visits.len()
            invariant
                frames@ == first_frames_of(self.visits@.take(i as int)),
        {
            assert(self.visits@.take(i + 1).drop_last() =~= self.visits@.take(i as int));
            if let Some(frame) = self.visits[i].first_frame {
                frames.push(frame);
            }
        }
        assert(self.visits@.take(self.visits@.len() as int) =~= self.visits@);
        frames
    }

    /// Returns the segments that the first frames are sent in, each with its
    /// stream, in the order in which they are read from the streams. `splits`
    /// tells how each first frame is divided.
    pub fn segments(&self, splits: &Vec<FrameSplit>) -> (segments: Vec<(u64, Segment)>)
        requires
            splits@.len() == first_frames_of(self.visits@).len(),
            forall|i: int|
                0 <= i < splits@.len() ==> first_frames_of(self.visits@)[i].divisible(
                    #[trigger] splits@[i],
                ),
        ensures
            segments@ == segments_of(
                first_frames_of(self.visits@),
                splits@,
                self.main.space_id,
                self.backup.space_id,
            ),
    {
        let frames = self.first_frames();
        let mut segments: Vec<(u64, Segment)> = Vec::new();
        assert(frames@.take(0) =~= Seq::empty());
        for i in 0..frames.len()
            invariant
                frames@.len() == splits@.len(),
                forall|j: int|
                    0 <= j < splits@.len() ==> frames@[j].divisible(#[trigger] splits@[j]),
                segments@ == segments_of(
                    frames@.take(i as int),
                    splits@.take(i as int),
                    self.main.space_id,
                    self.backup.space_id,
                ),
        {
            proof {
                assert(frames@.take(i + 1).drop_last() =~= frames@.take(i as int));
                assert(splits@.take(i + 1).drop_last() =~= splits@.take(i as int));
                assert(frames@[i as int].divisible(splits@[i as int]));
            }
            let frame = frames[i];
            let assignment = frame.assign(splits[i], self.main.space_id, self.backup.space_id);
            segments.push((frame.stream_id, assignment.front));
            if let Some(back) = assignment.back {
                segments.push((frame.stream_id, back));
            }
        }
        proof {
            assert(frames@.take(frames@.len() as int) =~= frames@);
            assert(splits@.take(frames@.len() as int) =~= splits@);
        }
        segments
    }
}

/// A round that stays in range at the origin of the clock does so at all times:
/// the later it is, the fewer streams a walk may reach.
pub proof fn law_range_at_origin_is_range_at_all_times(
    main: Option<usize>,
    backup: Option<usize>,
    paths: Map<usize, Path>,
    entries: Seq<StreamEntry>,
    now: Timestamp,
)
    requires
        round_in_range(main, backup, paths, entries, Timestamp { nanos: 0 }),
    ensures
        round_in_range(main, backup, paths, entries, now),
{
    let origin = Timestamp { nanos: 0 };
    if refusal(main, backup, paths) is None && !alone(main, backup, paths) {
        assert forall|i: int|
            0 <= i < entries.len() && (forall|j: int|
                0 <= j < i ==> may_pass(#[trigger] entries[j], now)) implies in_range(
            #[trigger] entries[i],
        ) by {
            assert forall|j: int| 0 <= j < i implies may_pass(#[trigger] entries[j], origin) by {
                assert(may_pass(entries[j], now));
                if takes_part(entries[j]) {
                    let gop = choose|gop: VideoGop| #[trigger]
                        plays(entries[j], gop) && !overdue(entries[j], gop, now);
                    assert(plays(entries[j], gop) && !overdue(entries[j], gop, origin));
                }
            }
        }
    }
}

/// The path that is selected is active and able to send.
pub proof fn law_selected_path_is_usable(
    main: Option<usize>,
    backup: Option<usize>,
    paths: Map<usize, Path>,
    entries: Seq<StreamEntry>,
    now: Timestamp,
    round: Round,
    demand_exceeds_main: bool,
)
    requires
        is_round(main, backup, paths, entries, now, round),
    ensures
        selection(round, demand_exceeds_main) matches Ok(selection) ==> paths.contains_key(
            selection.pid,
        ) && paths[selection.pid].usable(),
{
}

/// A known and usable main path is never refused, whatever holds of the backup
/// path.
pub proof fn law_usable_main_path_is_not_refused(
    main: usize,
    backup: Option<usize>,
    paths: Map<usize, Path>,
)
    requires
        paths.contains_key(main),
        paths[main].usable(),
    ensures
        refusal(Some(main), backup, paths) is None,
{
}

/// A usable main path is selected whatever the streams ask for, and the paths
/// stay as they are.
pub proof fn law_usable_main_path_is_selected(
    main: Option<usize>,
    backup: Option<usize>,
    paths: Map<usize, Path>,
    entries: Seq<StreamEntry>,
    now: Timestamp,
    round: Round,
    demand_exceeds_main: bool,
)
    requires
        is_round(main, backup, paths, entries, now, round),
        paths[main->0].usable(),
    ensures
        selection(round, demand_exceeds_main) matches Ok(selection) && Some(selection.pid) == main,
        paths_after(paths, round.backup_pid, selection(round, demand_exceeds_main)) == paths,
{
}

/// A selection changes nothing but whether the backup path may carry stream
/// frames. It may if and only if the main path is not usable and a GOP is
/// overdue or the demand exceeds what the main path is estimated to carry.
pub proof fn law_backup_path_opens_on_demand(
    main: Option<usize>,
    backup: Option<usize>,
    paths: Map<usize, Path>,
    entries: Seq<StreamEntry>,
    now: Timestamp,
    round: Round,
    demand_exceeds_main: bool,
)
    requires
        is_round(main, backup, paths, entries, now, round),
        !paths[main->0].usable(),
        round.end != ScanEnd::IllegalGops,
    ensures
        ({
            let after = paths_after(
                paths,
                round.backup_pid,
                selection(round, demand_exceeds_main),
            );
            &&& after.dom() == paths.dom()
            &&& forall|pid: usize| #[trigger]
                after.contains_key(pid) && Some(pid) != backup ==> after[pid] == paths[pid]
            &&& after[backup->0] == (Path {
                allow_stream_frames: round.end == ScanEnd::Overdue || demand_exceeds_main,
                ..paths[backup->0]
            })
        }),
{
    let after = paths_after(paths, round.backup_pid, selection(round, demand_exceeds_main));
    assert(after.dom() =~= paths.dom());
}

/// What holds of a visit by itself.
pub open spec fn asks_for_something(visit: Visit) -> bool {
    &&& visit.urgency matches Urgency::Due { bytes, millis } ==> bytes > 0 && millis > 0
    &&& visit.first_frame matches Some(frame) ==> {
        &&& visit.gop.gop_number == 0
        &&& frame.stream_id == visit.stream_id
        &&& frame.remaining > 0
        &&& frame.stream_offset + frame.remaining == visit.gop.end_byte()
    }
}

/// What a stream asks for is never empty: there are bytes to send and, unless
/// the GOP is overdue, there is time left to send them. A first frame reaches
/// from the offset of its stream to the end of its GOP.
pub proof fn law_visits_ask_for_something(
    entries: Seq<StreamEntry>,
    main_faster: bool,
    now: Timestamp,
    visits: Seq<Visit>,
    end: ScanEnd,
)
    requires
        reached_in_range(entries, now),
        scanned(entries, main_faster, now, visits, end),
    ensures
        forall|i: int| 0 <= i < visits.len() ==> asks_for_something(#[trigger] visits[i]),
    decreases entries.len(),
{
    if entries.len() > 0 {
        let first = entries[0];
        assert(in_range(first));
        if !takes_part(first) {
            lemma_rest_in_range(entries, now);
            law_visits_ask_for_something(entries.skip(1), main_faster, now, visits, end);
        } else if has_gop(first) {
            let gop = visits[0].gop;
            assert(plays(first, gop));
            assert(asks_for_something(visits[0]));
            if visits[0].urgency != Urgency::Overdue {
                lemma_rest_in_range(entries, now);
                law_visits_ask_for_something(
                    entries.skip(1),
                    main_faster,
                    now,
                    visits.skip(1),
                    end,
                );
                assert forall|i: int| 0 <= i < visits.len() implies asks_for_something(
                    #[trigger] visits[i],
                ) by {
                    if i > 0 {
                        assert(visits.skip(1)[i - 1] == visits[i]);
                    }
                }
            }
        }
    }
}

/// What holds of the streams that a walk may reach holds of those behind the
/// first one, if the walk may pass it.
proof fn lemma_rest_in_range(entries: Seq<StreamEntry>, now: Timestamp)
    requires
        entries.len() > 0,
        reached_in_range(entries, now),
        may_pass(entries[0], now),
    ensures
        reached_in_range(entries.skip(1), now),
{
    let rest = entries.skip(1);
    assert forall|i: int|
        0 <= i < rest.len() && (forall|j: int|
            0 <= j < i ==> may_pass(#[trigger] rest[j], now)) implies in_range(
        #[trigger] rest[i],
    ) by {
        assert forall|j: int| 0 <= j < i + 1 implies may_pass(#[trigger] entries[j], now) by {
            if j > 0 {
                assert(may_pass(rest[j - 1], now));
            }
        }
        assert(in_range(entries[i + 1]));
    }
}

/// Only the last visit of a walk can be to an overdue GOP, and it is if and
/// only if the walk came to its end there.
pub proof fn law_walk_ends_at_overdue_gop(
    entries: Seq<StreamEntry>,
    main_faster: bool,
    now: Timestamp,
    visits: Seq<Visit>,
    end: ScanEnd,
)
    requires
        scanned(entries, main_faster, now, visits, end),
    ensures
        forall|i: int|
            0 <= i < visits.len() ==> ((#[trigger] visits[i]).urgency == Urgency::Overdue <==> i
                == visits.len() - 1 && end == ScanEnd::Overdue),
        end == ScanEnd::Overdue ==> visits.len() > 0,
    decreases entries.len(),
{
    if entries.len() > 0 {
        let first = entries[0];
        if !takes_part(first) {
            law_walk_ends_at_overdue_gop(entries.skip(1), main_faster, now, visits, end);
        } else if has_gop(first) && visits[0].urgency != Urgency::Overdue {
            law_walk_ends_at_overdue_gop(entries.skip(1), main_faster, now, visits.skip(1), end);
            assert forall|i: int| 0 <= i < visits.len() implies ((#[trigger] visits[i]).urgency
                == Urgency::Overdue <==> i == visits.len() - 1 && end == ScanEnd::Overdue) by {
                if i > 0 {
                    assert(visits.skip(1)[i - 1] == visits[i]);
                } else if end == ScanEnd::Overdue {
                    assert(visits.skip(1).len() > 0);
                }
            }
        }
    }
}

/// The back segment of a first frame begins where the front segment ends.
pub proof fn law_segments_are_adjacent(
    frame: FirstFrame,
    split: FrameSplit,
    main_space: u64,
    backup_space: u64,
)
    requires
        frame.divisible(split),
    ensures
        ({
            let assignment = frame.assignment(split, main_space, backup_space);
            &&& assignment.front.offset == frame.stream_offset
            &&& assignment.back matches Some(back) ==> back.offset == assignment.front.offset
                + assignment.front.length
        }),
{
}

/// Together the segments are as long as what is left of the frame.
pub proof fn law_segments_cover_the_frame(
    frame: FirstFrame,
    split: FrameSplit,
    main_space: u64,
    backup_space: u64,
)
    requires
        frame.divisible(split),
    ensures
        ({
            let assignment = frame.assignment(split, main_space, backup_space);
            let back_length = match assignment.back {
                Some(back) => back.length as int,
                None => 0,
            };
            assignment.front.length + back_length == frame.remaining
        }),
{
}

} // verus!
