//! What a round of path selection owes to the paths and the streams.

use vstd::prelude::*;

use crate::clock::Timestamp;
use crate::error::Error;
use crate::multipath_scheduler::round;
use crate::multipath_scheduler::round::{
    FirstFrame,
    FrameSplit,
    Round,
    ScanEnd,
    Segment,
    Urgency,
    Visit,
};
use crate::path;
use crate::path::Path;
use crate::stream::{StreamContext, StreamEntry};
use crate::videogop;
use crate::videogop::VideoGop;

verus! {

/// A backup path that is active and able to send stands in for a main path that
/// is not, whether the main path is inactive or merely unable to send.
pub proof fn law_backup_path_stands_in(main: usize, backup: usize, paths: Map<usize, Path>)
    requires
        paths.contains_key(main),
        paths.contains_key(backup),
        paths[backup].active,
        paths[backup].can_send,
    ensures
        round::refusal(Some(main), Some(backup), paths) is None,
        !round::alone(Some(main), Some(backup), paths),
{
}

/// A selection is refused if and only if no path with a role is there to send:
/// the main path has to be known, and it or a known backup path has to be active
/// and able to send. The refusal is an internal error if a path that had to be
/// looked at is not known.
pub proof fn law_refused_without_a_path_to_send(
    main: Option<usize>,
    backup: Option<usize>,
    paths: Map<usize, Path>,
)
    ensures
        main is None ==> round::refusal(main, backup, paths) == Some(Error::Done),
        main matches Some(pid) ==> {
            &&& !paths.contains_key(pid) ==> round::refusal(main, backup, paths) == Some(
                Error::InternalError,
            )
            &&& paths.contains_key(pid) && paths[pid].active && paths[pid].can_send
                ==> round::refusal(main, backup, paths) is None
            &&& paths.contains_key(pid) && !(paths[pid].active && paths[pid].can_send) ==> {
                &&& backup is None ==> round::refusal(main, backup, paths) == Some(Error::Done)
                &&& backup matches Some(other) ==> {
                    &&& !paths.contains_key(other) ==> round::refusal(main, backup, paths) == Some(
                        Error::InternalError,
                    )
                    &&& paths.contains_key(other) && paths[other].active && paths[other].can_send
                        ==> round::refusal(main, backup, paths) is None
                    &&& paths.contains_key(other) && !(paths[other].active
                        && paths[other].can_send) ==> round::refusal(main, backup, paths) == Some(
                        Error::Done,
                    )
                }
            }
        },
{
}

/// The main path sends by itself if and only if it is known, active and able to
/// send, and there is no known backup path.
pub proof fn law_main_path_alone(
    main: Option<usize>,
    backup: Option<usize>,
    paths: Map<usize, Path>,
)
    ensures
        round::alone(main, backup, paths) <==> {
            &&& main matches Some(pid) && paths.contains_key(pid) && paths[pid].active
                && paths[pid].can_send
            &&& backup matches Some(pid) ==> !paths.contains_key(pid)
        },
{
}

/// What a path is expected to deliver is its congestion window, less what it
/// has lost, and never below zero.
pub proof fn law_losses_narrow_the_window(path: Path)
    ensures
        ({
            let estimate = round::estimate_of(path);
            let lost = path::total(path.lost_bytes@);
            &&& estimate.space_id == path.space_id
            &&& estimate.srtt_millis == path.srtt_millis
            &&& lost <= path.congestion_window ==> estimate.deliverable + lost
                == path.congestion_window
            &&& lost >= path.congestion_window ==> estimate.deliverable == 0
        }),
{
    path::law_losses_are_recorded(path);
}

/// A round takes the two paths as they are.
pub proof fn law_round_shows_the_paths(
    main: usize,
    backup: usize,
    paths: Map<usize, Path>,
    entries: Seq<StreamEntry>,
    now: Timestamp,
    round: Round,
)
    requires
        round::is_round(Some(main), Some(backup), paths, entries, now, round),
    ensures
        round.main_pid == main,
        round.backup_pid == backup,
        paths.contains_key(main),
        paths.contains_key(backup),
        round.main_usable <==> paths[main].active && paths[main].can_send,
        round.main_usable || (paths[backup].active && paths[backup].can_send),
        round.main.space_id == paths[main].space_id,
        round.backup.space_id == paths[backup].space_id,
        round.main.srtt_millis == paths[main].srtt_millis,
        round.backup.srtt_millis == paths[backup].srtt_millis,
        ({
            let lost = path::total(paths[main].lost_bytes@);
            round.main.deliverable == if lost <= paths[main].congestion_window {
                paths[main].congestion_window - lost
            } else {
                0
            }
        }),
        ({
            let lost = path::total(paths[backup].lost_bytes@);
            round.backup.deliverable == if lost <= paths[backup].congestion_window {
                paths[backup].congestion_window - lost
            } else {
                0
            }
        }),
{
    path::law_losses_are_recorded(paths[main]);
    path::law_losses_are_recorded(paths[backup]);
}

/// The main path sends whenever it is active and able to. Otherwise the backup
/// path sends, unless the walk over the streams came upon illegal GOPs. Nothing
/// changes but whether the backup path, if it is the one that sends, may carry
/// stream frames: it may if a GOP is overdue or the demand exceeds what the main
/// path is estimated to carry.
pub proof fn law_path_that_sends(
    main: usize,
    backup: usize,
    paths: Map<usize, Path>,
    entries: Seq<StreamEntry>,
    now: Timestamp,
    round: Round,
    demand_exceeds_main: bool,
)
    requires
        round::is_round(Some(main), Some(backup), paths, entries, now, round),
    ensures
        ({
            let chosen = round::selection(round, demand_exceeds_main);
            let after = round::paths_after(paths, round.backup_pid, chosen);
            &&& paths[main].active && paths[main].can_send ==> {
                &&& chosen matches Ok(selection) && selection.pid == main
                &&& after == paths
            }
            &&& !(paths[main].active && paths[main].can_send) && round.end is IllegalGops ==> {
                &&& chosen matches Err(error) && error is Done
                &&& after == paths
            }
            &&& !(paths[main].active && paths[main].can_send) && !(round.end is IllegalGops) ==> {
                &&& chosen matches Ok(selection) && selection.pid == backup
                &&& after.dom() == paths.dom()
                &&& forall|pid: usize| #[trigger]
                    paths.contains_key(pid) && pid != backup ==> after[pid] == paths[pid]
                &&& after[backup].allow_stream_frames <==> round.end is Overdue
                    || demand_exceeds_main
                &&& after[backup].active == paths[backup].active
                &&& after[backup].can_send == paths[backup].can_send
                &&& after[backup].congestion_window == paths[backup].congestion_window
                &&& after[backup].srtt_millis == paths[backup].srtt_millis
                &&& after[backup].lost_bytes == paths[backup].lost_bytes
                &&& after[backup].space_id == paths[backup].space_id
            }
        }),
{
    let chosen = round::selection(round, demand_exceeds_main);
    assert(round::paths_after(paths, round.backup_pid, chosen).dom() =~= paths.dom());
}

/// How a round ends goes by what it has found out and nothing else: a usable
/// main path sends, illegal GOPs leave the backup path out, and otherwise the
/// backup path sends.
pub proof fn law_end_of_a_round(round: Round, demand_exceeds_main: bool, paths: Map<usize, Path>)
    ensures
        ({
            let chosen = round::selection(round, demand_exceeds_main);
            let after = round::paths_after(paths, round.backup_pid, chosen);
            &&& round.main_usable ==> {
                &&& chosen matches Ok(selection) && selection.pid == round.main_pid
                &&& after == paths
            }
            &&& !round.main_usable && round.end is IllegalGops ==> {
                &&& chosen matches Err(error) && error is Done
                &&& after == paths
            }
            &&& !round.main_usable && !(round.end is IllegalGops) ==> {
                &&& chosen matches Ok(selection) && selection.pid == round.backup_pid
                &&& after == paths.insert(
                    round.backup_pid,
                    Path {
                        allow_stream_frames: round.end is Overdue || demand_exceeds_main,
                        ..paths[round.backup_pid]
                    },
                )
            }
        }),
{
}

/// Whether an entry holds a stream that plays a video.
spec fn live(entry: StreamEntry) -> bool {
    &&& entry.stream matches Some(stream)
    &&& !stream.stopped
    &&& stream.context matches StreamContext::Video(gops)
    &&& gops.requested_at() is Some
}

/// Whether `at` are the places of the live entries before `stop`, in order.
spec fn places(entries: Seq<StreamEntry>, at: Seq<int>, stop: int) -> bool {
    &&& 0 <= stop <= entries.len()
    &&& forall|k: int, l: int| 0 <= k < l < at.len() ==> at[k] < at[l]
    &&& forall|k: int| 0 <= k < at.len() ==> 0 <= #[trigger] at[k] < stop && live(entries[at[k]])
    &&& forall|i: int| 0 <= i < stop && live(#[trigger] entries[i]) ==> at.contains(i)
}

/// Whether `visit` is one to `entry`.
spec fn visited(entry: StreamEntry, main_faster: bool, now: Timestamp, visit: Visit) -> bool {
    let stream = entry.stream->0;
    let gops = stream.context->Video_0;
    &&& visit.stream_id == entry.id
    &&& videogop::is_gop_at(gops@, stream.send_off_without_retrans, visit.gop)
    &&& visit == round::visit_of(entry, visit.gop, main_faster, now)
}

/// The places, one further on.
spec fn further(at: Seq<int>) -> Seq<int> {
    at.map_values(|i: int| i + 1)
}

/// The places of the live entries among all are those among the rest, one
/// further on, and the first if that one is live.
proof fn lemma_places_of_the_rest(entries: Seq<StreamEntry>, at: Seq<int>, stop: int)
    requires
        entries.len() > 0,
        places(entries.skip(1), at, stop),
    ensures
        !live(entries[0]) ==> places(entries, further(at), stop + 1),
        live(entries[0]) ==> places(entries, seq![0int] + further(at), stop + 1),
{
    let rest = entries.skip(1);
    let all = if live(entries[0]) {
        seq![0int] + further(at)
    } else {
        further(at)
    };
    let shift: int = all.len() - at.len();
    assert forall|k: int| 0 <= k < all.len() implies 0 <= #[trigger] all[k] < stop + 1 && live(
        entries[all[k]],
    ) by {
        if k >= shift {
            assert(all[k] == at[k - shift] + 1);
            assert(entries[all[k]] == rest[at[k - shift]]);
        }
    }
    assert forall|k: int, l: int| 0 <= k < l < all.len() implies all[k] < all[l] by {
        assert(all[l] == at[l - shift] + 1);
        if k >= shift {
            assert(all[k] == at[k - shift] + 1);
        }
    }
    assert forall|i: int| 0 <= i < stop + 1 && live(#[trigger] entries[i]) implies all.contains(
        i,
    ) by {
        if i == 0 {
            assert(all[0] == 0);
        } else {
            assert(rest[i - 1] == entries[i]);
            let k = at.index_of(i - 1);
            assert(all[k + shift] == i);
        }
    }
}

/// A walk visits the live entries before the place where it comes to its end.
proof fn lemma_walk(
    entries: Seq<StreamEntry>,
    main_faster: bool,
    now: Timestamp,
    visits: Seq<Visit>,
    end: ScanEnd,
) -> (walk: (Seq<int>, int))
    requires
        round::scanned(entries, main_faster, now, visits, end),
    ensures
        places(entries, walk.0, walk.1),
        walk.0.len() == visits.len(),
        forall|k: int|
            0 <= k < visits.len() ==> visited(
                entries[walk.0[k]],
                main_faster,
                now,
                #[trigger] visits[k],
            ),
        match end {
            ScanEnd::Exhausted => walk.1 == entries.len(),
            ScanEnd::Overdue => visits.len() > 0 && walk.1 == walk.0.last() + 1
                && visits.last().urgency is Overdue,
            ScanEnd::IllegalGops => {
                &&& walk.1 < entries.len()
                &&& live(entries[walk.1])
                &&& !videogop::some_gop_covers(
                    entries[walk.1].stream->0.context->Video_0@,
                    entries[walk.1].stream->0.send_off_without_retrans,
                )
            },
        },
    decreases entries.len(),
{
    let none = Seq::<int>::empty();
    if entries.len() == 0 {
        (none, 0int)
    } else if !live(entries[0]) {
        let (at, stop) = lemma_walk(entries.skip(1), main_faster, now, visits, end);
        lemma_places_of_the_rest(entries, at, stop);
        let all = further(at);
        assert forall|k: int| 0 <= k < visits.len() implies visited(
            entries[all[k]],
            main_faster,
            now,
            #[trigger] visits[k],
        ) by {
            assert(entries[all[k]] == entries.skip(1)[at[k]]);
        }
        (all, stop + 1)
    } else if !round::has_gop(entries[0]) {
        (none, 0int)
    } else if visits[0].urgency is Overdue {
        let all = seq![0int];
        assert(all.contains(0)) by {
            assert(all[0] == 0);
        }
        (all, 1int)
    } else {
        let (at, stop) = lemma_walk(entries.skip(1), main_faster, now, visits.skip(1), end);
        lemma_places_of_the_rest(entries, at, stop);
        let all = seq![0int] + further(at);
        assert forall|k: int| 0 <= k < visits.len() implies visited(
            entries[all[k]],
            main_faster,
            now,
            #[trigger] visits[k],
        ) by {
            if k > 0 {
                assert(visits[k] == visits.skip(1)[k - 1]);
                assert(entries[all[k]] == entries.skip(1)[at[k - 1]]);
            }
        }
        (all, stop + 1)
    }
}

/// A walk visits every stream that is present, not stopped, carries a GOP table
/// and knows when its video was requested, whatever its identifier, and no
/// other: `at` are the places of those entries before the walk came to its end
/// at `stop`, and the visits are to them, in order. A walk that is exhausted has
/// passed all entries. One that ends at an overdue GOP ends behind it, and no
/// GOP before it is overdue. One that ends at illegal GOPs ends at a stream none
/// of whose GOPs holds its next byte.
pub proof fn law_walk_visits_every_video(
    entries: Seq<StreamEntry>,
    main_faster: bool,
    now: Timestamp,
    visits: Seq<Visit>,
    end: ScanEnd,
) -> (walk: (Seq<int>, int))
    requires
        round::scanned(entries, main_faster, now, visits, end),
    ensures
        ({
            let (at, stop) = walk;
            &&& 0 <= stop <= entries.len()
            &&& at.len() == visits.len()
            &&& forall|k: int, l: int| 0 <= k < l < at.len() ==> at[k] < at[l]
            &&& forall|k: int|
                0 <= k < visits.len() ==> {
                    &&& (#[trigger] visits[k]).stream_id == entries[at[k]].id
                    &&& 0 <= at[k] < stop
                    &&& entries[at[k]].stream matches Some(stream)
                    &&& !stream.stopped
                    &&& stream.context matches StreamContext::Video(gops)
                    &&& gops.requested_at() is Some
                }
            &&& forall|i: int|
                0 <= i < stop && (#[trigger] entries[i]).stream is Some
                    && !entries[i].stream->0.stopped && entries[i].stream->0.context is Video
                    && entries[i].stream->0.context->Video_0.requested_at() is Some
                    ==> at.contains(i)
            &&& end is Exhausted ==> stop == entries.len()
            &&& end is Overdue ==> visits.len() > 0 && stop == at.last() + 1
                && visits.last().urgency is Overdue
            &&& end is IllegalGops ==> {
                &&& stop < entries.len()
                &&& entries[stop].stream matches Some(stream)
                &&& !stream.stopped
                &&& stream.context matches StreamContext::Video(gops)
                &&& gops.requested_at() is Some
                &&& forall|number: u32| #[trigger]
                    gops@.contains_key(number) ==> !(gops@[number].gop_start_byte
                        <= stream.send_off_without_retrans < gops@[number].gop_start_byte
                        + gops@[number].gop_length)
            }
            &&& forall|k: int|
                0 <= k < visits.len() && (#[trigger] visits[k]).urgency is Overdue ==> k
                    == visits.len() - 1 && end is Overdue
        }),
{
    let (at, stop) = lemma_walk(entries, main_faster, now, visits, end);
    assert forall|k: int| 0 <= k < visits.len() implies {
        &&& (#[trigger] visits[k]).stream_id == entries[at[k]].id
        &&& 0 <= at[k] < stop
        &&& entries[at[k]].stream matches Some(stream)
        &&& !stream.stopped
        &&& stream.context matches StreamContext::Video(gops)
        &&& gops.requested_at() is Some
    } by {
        assert(visited(entries[at[k]], main_faster, now, visits[k]));
        assert(live(entries[at[k]]));
    }
    assert forall|i: int|
        0 <= i < stop && (#[trigger] entries[i]).stream is Some && !entries[i].stream->0.stopped
            && entries[i].stream->0.context is Video
            && entries[i].stream->0.context->Video_0.requested_at() is Some implies at.contains(
        i,
    ) by {
        assert(live(entries[i]));
    }
    if end is IllegalGops {
        let stream = entries[stop].stream->0;
        let gops = stream.context->Video_0;
        assert forall|number: u32| #[trigger] gops@.contains_key(number) implies !(
        gops@[number].gop_start_byte <= stream.send_off_without_retrans
            < gops@[number].gop_start_byte + gops@[number].gop_length) by {
            videogop::law_gops_of_a_byte(
                gops@,
                stream.send_off_without_retrans,
                gops@[number],
            );
        }
    }
    round::law_walk_ends_at_overdue_gop(entries, main_faster, now, visits, end);
    (at, stop)
}

/// What a visit says follows from the stream at its place: the GOP is one that
/// the stream holds, and the next byte of the stream lies in it. There is a
/// first frame if and only if that is the GOP with number zero and nothing has
/// to be sent again. The bytes to send reach from the next byte to the end of
/// the GOP. The GOP is overdue once as many milliseconds have passed since the
/// request as lie before its end, and the time left is what is missing to them.
pub proof fn law_visits_follow_from_streams(
    entries: Seq<StreamEntry>,
    main_faster: bool,
    now: Timestamp,
    visits: Seq<Visit>,
    end: ScanEnd,
) -> (at: Seq<int>)
    requires
        round::scanned(entries, main_faster, now, visits, end),
    ensures
        at.len() == visits.len(),
        forall|k: int, l: int| 0 <= k < l < at.len() ==> at[k] < at[l],
        forall|k: int|
            0 <= k < visits.len() ==> 0 <= at[k] < entries.len() && {
                let visit = #[trigger] visits[k];
                let stream = entries[at[k]].stream->0;
                let gops = stream.context->Video_0;
                let next = stream.send_off_without_retrans;
                let end_byte = visit.gop.gop_start_byte + visit.gop.gop_length;
                let end_time = visit.gop.gop_time_stamp + visit.gop.gop_duration_time;
                let requested = gops.requested_at()->0.nanos;
                &&& visit.stream_id == entries[at[k]].id
                &&& exists|number: u32| #[trigger]
                    gops@.contains_key(number) && gops@[number] == visit.gop
                &&& visit.gop.gop_start_byte <= next < end_byte
                &&& visit.first_frame is Some <==> visit.gop.gop_number == 0 && next
                    == stream.send_off
                &&& visit.first_frame matches Some(frame) ==> {
                    &&& frame.stream_id == entries[at[k]].id
                    &&& frame.stream_offset == next
                    &&& frame.stream_offset + frame.remaining == end_byte
                    &&& frame.main_faster == main_faster
                }
                &&& visit.urgency is Overdue <==> end_time == 0 || now.nanos - requested
                    >= end_time * 1_000_000
                &&& visit.urgency matches Urgency::Due { bytes, millis } ==> {
                    &&& next + bytes == end_byte
                    &&& end_time <= u128::MAX && now.nanos <= requested ==> millis == end_time
                    &&& end_time <= u128::MAX && now.nanos >= requested ==> requested + (end_time
                        - millis) * 1_000_000 <= now.nanos < requested + (end_time - millis + 1)
                        * 1_000_000
                }
            },
{
    let (at, stop) = lemma_walk(entries, main_faster, now, visits, end);
    assert forall|k: int| 0 <= k < visits.len() implies 0 <= at[k] < entries.len() && {
        let visit = #[trigger] visits[k];
        let stream = entries[at[k]].stream->0;
        let gops = stream.context->Video_0;
        let next = stream.send_off_without_retrans;
        let end_byte = visit.gop.gop_start_byte + visit.gop.gop_length;
        let end_time = visit.gop.gop_time_stamp + visit.gop.gop_duration_time;
        let requested = gops.requested_at()->0.nanos;
        &&& visit.stream_id == entries[at[k]].id
        &&& exists|number: u32| #[trigger]
            gops@.contains_key(number) && gops@[number] == visit.gop
        &&& visit.gop.gop_start_byte <= next < end_byte
        &&& visit.first_frame is Some <==> visit.gop.gop_number == 0 && next == stream.send_off
        &&& visit.first_frame matches Some(frame) ==> {
            &&& frame.stream_id == entries[at[k]].id
            &&& frame.stream_offset == next
            &&& frame.stream_offset + frame.remaining == end_byte
            &&& frame.main_faster == main_faster
        }
        &&& visit.urgency is Overdue <==> end_time == 0 || now.nanos - requested >= end_time
            * 1_000_000
        &&& visit.urgency matches Urgency::Due { bytes, millis } ==> {
            &&& next + bytes == end_byte
            &&& end_time <= u128::MAX && now.nanos <= requested ==> millis == end_time
            &&& end_time <= u128::MAX && now.nanos >= requested ==> requested + (end_time - millis)
                * 1_000_000 <= now.nanos < requested + (end_time - millis + 1) * 1_000_000
        }
    } by {
        let entry = entries[at[k]];
        assert(visited(entry, main_faster, now, visits[k]));
        assert(live(entry));
    }
    at
}

/// The first frames are those of the visits that have one, in order: `at` are
/// the places of those visits.
pub proof fn law_first_frames_are_those_of_the_visits(visits: Seq<Visit>) -> (at: Seq<int>)
    ensures
        at.len() == round::first_frames_of(visits).len(),
        forall|k: int, l: int| 0 <= k < l < at.len() ==> at[k] < at[l],
        forall|k: int|
            0 <= k < at.len() ==> {
                &&& 0 <= #[trigger] at[k] < visits.len()
                &&& visits[at[k]].first_frame == Some(round::first_frames_of(visits)[k])
            },
        forall|i: int|
            0 <= i < visits.len() && (#[trigger] visits[i]).first_frame is Some ==> at.contains(i),
    decreases visits.len(),
{
    if visits.len() == 0 {
        Seq::empty()
    } else {
        let front = visits.drop_last();
        let before = law_first_frames_are_those_of_the_visits(front);
        let place: int = visits.len() - 1;
        let at = if visits.last().first_frame is Some {
            before.push(place)
        } else {
            before
        };
        let frames = round::first_frames_of(visits);
        assert forall|k: int| 0 <= k < at.len() implies {
            &&& 0 <= #[trigger] at[k] < visits.len()
            &&& visits[at[k]].first_frame == Some(frames[k])
        } by {
            if k < before.len() {
                assert(at[k] == before[k]);
                assert(front[before[k]] == visits[at[k]]);
            }
        }
        assert forall|k: int, l: int| 0 <= k < l < at.len() implies at[k] < at[l] by {
            assert(at[k] == before[k]);
        }
        assert forall|i: int|
            0 <= i < visits.len() && (#[trigger] visits[i]).first_frame is Some implies at.contains(
            i,
        ) by {
            if i < place {
                assert(front[i] == visits[i]);
                assert(at[before.index_of(i)] == i);
            } else {
                assert(at[before.len() as int] == i);
            }
        }
        at
    }
}

/// A frame can be divided if and only if the front segment lies within it and
/// ends within the range of offsets.
pub proof fn law_front_lies_within_the_frame(frame: FirstFrame, split: FrameSplit)
    ensures
        split is Whole ==> frame.divisible(split),
        split matches FrameSplit::Parts { front } ==> (frame.divisible(split) <==> front
            <= frame.remaining && frame.stream_offset + front <= u64::MAX),
{
}

/// Whether a frame is sent in the segments from place `start` to place `end`.
spec fn sent(
    frame: FirstFrame,
    split: FrameSplit,
    main_space: u64,
    backup_space: u64,
    segments: Seq<(u64, Segment)>,
    start: int,
    end: int,
) -> bool {
    let first = segments[start].1;
    let second = segments[start + 1].1;
    &&& 0 <= start < end <= segments.len()
    &&& segments[start].0 == frame.stream_id
    &&& frame.main_faster ==> first.space_id == main_space
    &&& !frame.main_faster ==> first.space_id == backup_space
    &&& first.offset == frame.stream_offset
    &&& split is Whole ==> {
        &&& end == start + 1
        &&& first.length == frame.remaining
    }
    &&& split matches FrameSplit::Parts { front } ==> {
        &&& end == start + 2
        &&& first.length == front
        &&& segments[start + 1].0 == frame.stream_id
        &&& frame.main_faster ==> second.space_id == backup_space
        &&& !frame.main_faster ==> second.space_id == main_space
        &&& second.offset == frame.stream_offset + front
        &&& second.length == frame.remaining - front
    }
}

/// The segments come frame by frame.
proof fn lemma_segments(
    frames: Seq<FirstFrame>,
    splits: Seq<FrameSplit>,
    main_space: u64,
    backup_space: u64,
) -> (at: Seq<int>)
    requires
        frames.len() == splits.len(),
        forall|i: int| 0 <= i < frames.len() ==> #[trigger] frames[i].divisible(splits[i]),
    ensures
        at.len() == frames.len() + 1,
        at[0] == 0,
        at.last() == round::segments_of(frames, splits, main_space, backup_space).len(),
        forall|i: int|
            0 <= i < frames.len() ==> sent(
                #[trigger] frames[i],
                splits[i],
                main_space,
                backup_space,
                round::segments_of(frames, splits, main_space, backup_space),
                at[i],
                at[i + 1],
            ),
    decreases frames.len(),
{
    let segments = round::segments_of(frames, splits, main_space, backup_space);
    if frames.len() == 0 {
        let at = seq![0int];
        assert(at.last() == segments.len());
        at
    } else {
        let front_frames = frames.drop_last();
        let front_splits = splits.drop_last();
        assert forall|i: int| 0 <= i < front_frames.len() implies #[trigger]
            front_frames[i].divisible(front_splits[i]) by {
            assert(frames[i].divisible(splits[i]));
        }
        let before = lemma_segments(front_frames, front_splits, main_space, backup_space);
        let fewer = round::segments_of(front_frames, front_splits, main_space, backup_space);
        let at = before.push(segments.len() as int);
        let last: int = frames.len() - 1;
        assert(segments.take(fewer.len() as int) =~= fewer);
        assert forall|i: int| 0 <= i < frames.len() implies sent(
            #[trigger] frames[i],
            splits[i],
            main_space,
            backup_space,
            segments,
            at[i],
            at[i + 1],
        ) by {
            assert(at[i] == before[i]);
            if i < last {
                assert(sent(
                    front_frames[i],
                    front_splits[i],
                    main_space,
                    backup_space,
                    fewer,
                    before[i],
                    before[i + 1],
                ));
                assert(at[i + 1] == before[i + 1]);
                assert(segments[at[i]] == fewer[at[i]]);
                if splits[i] is Parts {
                    assert(segments[at[i] + 1] == fewer[at[i] + 1]);
                }
            } else {
                assert(frames[i].divisible(splits[i]));
            }
        }
        assert(at[0] == before[0]);
        at
    }
}

/// The segments come frame by frame: `at` are the places of the front segments.
/// The front segment goes to the main path if that is the faster one, and else
/// to the backup path. It begins at the offset of the frame, and makes up all of
/// it unless the frame is divided. The back segment of a divided frame follows
/// it, goes to the other path and holds the rest.
pub proof fn law_segments_come_frame_by_frame(
    frames: Seq<FirstFrame>,
    splits: Seq<FrameSplit>,
    main_space: u64,
    backup_space: u64,
    segments: Seq<(u64, Segment)>,
) -> (at: Seq<int>)
    requires
        segments == round::segments_of(frames, splits, main_space, backup_space),
        frames.len() == splits.len(),
        forall|i: int|
            0 <= i < frames.len() ==> (#[trigger] splits[i] matches FrameSplit::Parts { front }
                ==> front <= frames[i].remaining && frames[i].stream_offset + front <= u64::MAX),
    ensures
        at.len() == frames.len() + 1,
        at[0] == 0,
        at.last() == segments.len(),
        forall|i: int| 0 <= i < frames.len() ==> 0 <= #[trigger] at[i] < segments.len(),
        forall|i: int|
            0 <= i < frames.len() ==> {
                &&& (#[trigger] segments[at[i]]).0 == frames[i].stream_id
                &&& segments[at[i]].1.space_id == if frames[i].main_faster {
                    main_space
                } else {
                    backup_space
                }
                &&& segments[at[i]].1.offset == frames[i].stream_offset
            },
        forall|i: int|
            0 <= i < frames.len() && #[trigger] splits[i] is Whole ==> {
                &&& at[i + 1] == at[i] + 1
                &&& segments[at[i]].1.length == frames[i].remaining
            },
        forall|i: int|
            0 <= i < frames.len() && #[trigger] splits[i] is Parts ==> {
                let front = splits[i]->front;
                let second = segments[at[i] + 1];
                &&& at[i + 1] == at[i] + 2
                &&& segments[at[i]].1.length == front
                &&& second.0 == frames[i].stream_id
                &&& second.1.space_id == if frames[i].main_faster {
                    backup_space
                } else {
                    main_space
                }
                &&& second.1.offset == frames[i].stream_offset + front
                &&& second.1.length == frames[i].remaining - front
            },
{
    assert forall|i: int| 0 <= i < frames.len() implies #[trigger] frames[i].divisible(
        splits[i],
    ) by {
        law_front_lies_within_the_frame(frames[i], splits[i]);
    }
    let at = lemma_segments(frames, splits, main_space, backup_space);
    assert forall|i: int| 0 <= i < frames.len() implies 0 <= #[trigger] at[i] < segments.len() by {
        assert(sent(frames[i], splits[i], main_space, backup_space, segments, at[i], at[i + 1]));
    }
    assert forall|i: int|
        0 <= i < frames.len() implies {
            &&& (#[trigger] segments[at[i]]).0 == frames[i].stream_id
            &&& segments[at[i]].1.space_id == if frames[i].main_faster {
                main_space
            } else {
                backup_space
            }
            &&& segments[at[i]].1.offset == frames[i].stream_offset
        } by {
        assert(sent(frames[i], splits[i], main_space, backup_space, segments, at[i], at[i + 1]));
    }
    assert forall|i: int|
        0 <= i < frames.len() && #[trigger] splits[i] is Whole implies {
            &&& at[i + 1] == at[i] + 1
            &&& segments[at[i]].1.length == frames[i].remaining
        } by {
        assert(sent(frames[i], splits[i], main_space, backup_space, segments, at[i], at[i + 1]));
    }
    assert forall|i: int|
        0 <= i < frames.len() && #[trigger] splits[i] is Parts implies {
            let front = splits[i]->front;
            let second = segments[at[i] + 1];
            &&& at[i + 1] == at[i] + 2
            &&& segments[at[i]].1.length == front
            &&& second.0 == frames[i].stream_id
            &&& second.1.space_id == if frames[i].main_faster {
                backup_space
            } else {
                main_space
            }
            &&& second.1.offset == frames[i].stream_offset + front
            &&& second.1.length == frames[i].remaining - front
        } by {
        assert(sent(frames[i], splits[i], main_space, backup_space, segments, at[i], at[i + 1]));
    }
    at
}

/// In a round the first part of each first frame goes to the path with the
/// smaller round trip time, to the main path if both have the same, and the
/// second part, if there is one, to the other path: `at` are the places of the
/// first parts in the list of segments.
pub proof fn law_faster_path_sends_first(
    main: usize,
    backup: usize,
    paths: Map<usize, Path>,
    entries: Seq<StreamEntry>,
    now: Timestamp,
    round: Round,
    frames: Seq<FirstFrame>,
    splits: Seq<FrameSplit>,
    segments: Seq<(u64, Segment)>,
) -> (at: Seq<int>)
    requires
        round::is_round(Some(main), Some(backup), paths, entries, now, round),
        frames == round::first_frames_of(round.visits@),
        segments == round::segments_of(
            frames,
            splits,
            round.main.space_id,
            round.backup.space_id,
        ),
        frames.len() == splits.len(),
        forall|i: int|
            0 <= i < frames.len() ==> (#[trigger] splits[i] matches FrameSplit::Parts { front }
                ==> front <= frames[i].remaining && frames[i].stream_offset + front <= u64::MAX),
    ensures
        at.len() == frames.len() + 1,
        at[0] == 0,
        at.last() == segments.len(),
        forall|i: int| 0 <= i < frames.len() ==> 0 <= #[trigger] at[i] < segments.len(),
        forall|i: int|
            0 <= i < frames.len() ==> {
                &&& (#[trigger] segments[at[i]]).0 == frames[i].stream_id
                &&& paths[main].srtt_millis <= paths[backup].srtt_millis
                    ==> segments[at[i]].1.space_id == paths[main].space_id
                &&& paths[main].srtt_millis > paths[backup].srtt_millis
                    ==> segments[at[i]].1.space_id == paths[backup].space_id
            },
        forall|i: int|
            0 <= i < frames.len() && #[trigger] splits[i] is Whole ==> at[i + 1] == at[i] + 1,
        forall|i: int|
            0 <= i < frames.len() && #[trigger] splits[i] is Parts ==> {
                let second = segments[at[i] + 1];
                &&& at[i + 1] == at[i] + 2
                &&& second.0 == frames[i].stream_id
                &&& paths[main].srtt_millis <= paths[backup].srtt_millis ==> second.1.space_id
                    == paths[backup].space_id
                &&& paths[main].srtt_millis > paths[backup].srtt_millis ==> second.1.space_id
                    == paths[main].space_id
            },
{
    let main_faster = paths[main].srtt_millis <= paths[backup].srtt_millis;
    let at = law_segments_come_frame_by_frame(
        frames,
        splits,
        round.main.space_id,
        round.backup.space_id,
        segments,
    );
    law_visits_follow_from_streams(entries, main_faster, now, round.visits@, round.end);
    let places = law_first_frames_are_those_of_the_visits(round.visits@);
    assert forall|i: int| 0 <= i < frames.len() implies (#[trigger] frames[i]).main_faster
        == main_faster by {
        assert(round.visits@[places[i]].first_frame == Some(frames[i]));
    }
    at
}

/// A walk may go on behind a stream that does not take part, and behind one that
/// holds a GOP with its next byte that is not overdue. It can compute with a
/// stream if the GOPs that start at or before its next byte end in range, and
/// those that hold that byte do so in time as well.
pub proof fn law_reach_of_a_walk(entry: StreamEntry, now: Timestamp)
    ensures
        ({
            let stream = entry.stream->0;
            let gops = stream.context->Video_0;
            let next = stream.send_off_without_retrans;
            let takes_part = entry.stream is Some && !stream.stopped && stream.context is Video
                && gops.requested_at() is Some;
            &&& !takes_part ==> round::may_pass(entry, now) && round::in_range(entry)
            &&& takes_part ==> {
                &&& round::may_pass(entry, now) <==> exists|number: u32| #[trigger]
                    gops@.contains_key(number) && gops@[number].gop_start_byte <= next
                        < gops@[number].gop_start_byte + gops@[number].gop_length && !(
                    gops@[number].gop_time_stamp + gops@[number].gop_duration_time == 0
                        || now.nanos - gops.requested_at()->0.nanos >= (
                    gops@[number].gop_time_stamp + gops@[number].gop_duration_time) * 1_000_000)
                &&& round::in_range(entry) <==> forall|number: u32| #[trigger]
                    gops@.contains_key(number) && gops@[number].gop_start_byte <= next ==> {
                        &&& gops@[number].gop_start_byte + gops@[number].gop_length <= u64::MAX
                        &&& next < gops@[number].gop_start_byte + gops@[number].gop_length
                            ==> gops@[number].gop_time_stamp + gops@[number].gop_duration_time
                            <= u128::MAX
                    }
            }
        }),
{
    let stream = entry.stream->0;
    let gops = stream.context->Video_0;
    let next = stream.send_off_without_retrans;
    if round::takes_part(entry) {
        videogop::law_ranges_of_a_byte(gops@, next);
        if round::may_pass(entry, now) {
            let gop = choose|gop: VideoGop| #[trigger]
                round::plays(entry, gop) && !round::overdue(entry, gop, now);
            let number = choose|number: u32| #[trigger]
                gops@.contains_key(number) && gops@[number] == gop;
            videogop::law_gops_of_a_byte(gops@, next, gop);
            assert(gops@.contains_key(number) && gops@[number] == gop);
        }
        if exists|number: u32| #[trigger]
            gops@.contains_key(number) && gops@[number].gop_start_byte <= next
                < gops@[number].gop_start_byte + gops@[number].gop_length && !(
            gops@[number].gop_time_stamp + gops@[number].gop_duration_time == 0 || now.nanos
                - gops.requested_at()->0.nanos >= (gops@[number].gop_time_stamp
                + gops@[number].gop_duration_time) * 1_000_000) {
            let number = choose|number: u32| #[trigger]
                gops@.contains_key(number) && gops@[number].gop_start_byte <= next
                    < gops@[number].gop_start_byte + gops@[number].gop_length && !(
                gops@[number].gop_time_stamp + gops@[number].gop_duration_time == 0 || now.nanos
                    - gops.requested_at()->0.nanos >= (gops@[number].gop_time_stamp
                    + gops@[number].gop_duration_time) * 1_000_000);
            videogop::law_gops_of_a_byte(gops@, next, gops@[number]);
            assert(round::plays(entry, gops@[number]));
            assert(!round::overdue(entry, gops@[number], now));
        }
    }
}

/// A round can be computed at any time if the losses of each path and the ends
/// of all GOPs stay in range.
pub proof fn law_ordinary_rounds_are_in_range(
    main: Option<usize>,
    backup: Option<usize>,
    paths: Map<usize, Path>,
    entries: Seq<StreamEntry>,
    now: Timestamp,
)
    requires
        forall|pid: usize| #[trigger]
            paths.contains_key(pid) ==> path::total(paths[pid].lost_bytes@) <= u64::MAX,
        forall|i: int, number: u32|
            0 <= i < entries.len() && (#[trigger] entries[i]).stream is Some
                && entries[i].stream->0.context is Video && #[trigger]
            entries[i].stream->0.context->Video_0@.contains_key(number) ==> {
                let gop = entries[i].stream->0.context->Video_0@[number];
                &&& gop.gop_start_byte + gop.gop_length <= u64::MAX
                &&& gop.gop_time_stamp + gop.gop_duration_time <= u128::MAX
            },
    ensures
        round::round_in_range(main, backup, paths, entries, now),
{
    assert forall|i: int| 0 <= i < entries.len() implies round::in_range(#[trigger] entries[i]) by {
        law_reach_of_a_walk(entries[i], now);
    }
}

/// A round that is refused, or that leaves the main path alone, does not look at
/// the streams nor at what the backup path has lost.
pub proof fn law_short_rounds_need_the_main_path_only(
    main: Option<usize>,
    backup: Option<usize>,
    paths: Map<usize, Path>,
    entries: Seq<StreamEntry>,
    now: Timestamp,
)
    requires
        round::refusal(main, backup, paths) is Some || round::alone(main, backup, paths),
    ensures
        round::round_in_range(main, backup, paths, entries, now) <==> (main matches Some(pid)
            ==> paths.contains_key(pid) ==> path::total(paths[pid].lost_bytes@) <= u64::MAX),
{
}

/// The streams behind one that a walk cannot pass need not be in range.
pub proof fn law_streams_out_of_reach_do_not_matter(
    entries: Seq<StreamEntry>,
    rest: Seq<StreamEntry>,
    now: Timestamp,
)
    requires
        entries.len() > 0,
        !round::may_pass(entries.last(), now),
    ensures
        round::reached_in_range(entries + rest, now) <==> round::reached_in_range(entries, now),
{
    let all = entries + rest;
    let last: int = entries.len() - 1;
    assert(all[last] == entries.last());
    if round::reached_in_range(entries, now) {
        assert forall|i: int|
            0 <= i < all.len() && (forall|j: int|
                0 <= j < i ==> round::may_pass(#[trigger] all[j], now)) implies round::in_range(
            #[trigger] all[i],
        ) by {
            if i > last {
                assert(round::may_pass(all[last], now));
            }
            assert forall|j: int| 0 <= j < i implies round::may_pass(
                #[trigger] entries[j],
                now,
            ) by {
                assert(round::may_pass(all[j], now));
            }
            assert(round::in_range(entries[i]));
        }
    }
    if round::reached_in_range(all, now) {
        assert forall|i: int|
            0 <= i < entries.len() && (forall|j: int|
                0 <= j < i ==> round::may_pass(#[trigger] entries[j], now)) implies round::in_range(
            #[trigger] entries[i],
        ) by {
            assert forall|j: int| 0 <= j < i implies round::may_pass(#[trigger] all[j], now) by {
                assert(round::may_pass(entries[j], now));
            }
            assert(round::in_range(all[i]));
        }
    }
}

} // verus!
