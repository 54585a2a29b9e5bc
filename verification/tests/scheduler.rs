use emvod::multipath_scheduler::round::{
    Assignment, FirstFrame, FrameSplit, PathEstimate, ScanEnd, Segment, Urgency,
};
use emvod::{
    Clock, EMVODScheduler, Error, MultipathConfig, Path, PathEvent, PathMap, Round, Start, Stream,
    StreamContext, StreamEntry, Timestamp, VideoGop, VideoGopCollection,
};

fn path(usable: bool, srtt_millis: u128, space_id: u64) -> Path {
    Path {
        active: usable,
        can_send: usable,
        congestion_window: 12000,
        srtt_millis,
        lost_bytes: vec![],
        space_id,
        allow_stream_frames: true,
    }
}

fn two_paths(main_usable: bool, backup_usable: bool) -> PathMap {
    let mut paths = PathMap::new();
    paths.insert(0, path(main_usable, 20, 100));
    paths.insert(1, path(backup_usable, 30, 101));
    paths
}

fn two_path_scheduler() -> EMVODScheduler {
    let mut scheduler = EMVODScheduler::new(&MultipathConfig {});
    scheduler.on_path_updated(&PathMap::new(), PathEvent::Validated(1));
    scheduler
}

fn at(millis: u128) -> Timestamp {
    Timestamp { nanos: millis * 1_000_000 }
}

/// Two GOPs of 100 bytes and 40 milliseconds each.
fn video(requested_at: Option<Timestamp>) -> VideoGopCollection {
    let mut gops = VideoGopCollection::new();
    gops.add_gop(VideoGop::new(0, 0, 100, 0, 40));
    gops.add_gop(VideoGop::new(1, 100, 100, 40, 40));
    if let Some(timestamp) = requested_at {
        gops.set_request_timestamp(timestamp);
    }
    gops
}

fn entry(id: u64, next: u64, send_off: u64, context: StreamContext) -> StreamEntry {
    let stream = Stream {
        stopped: false,
        send_off,
        send_off_without_retrans: next,
        context,
    };
    StreamEntry { id, stream: Some(stream) }
}

fn video_entry(id: u64, next: u64, send_off: u64) -> StreamEntry {
    entry(id, next, send_off, StreamContext::Video(video(Some(at(1000)))))
}

/// The round that a selection starts.
fn round_of(start: Result<Start, Error>) -> Round {
    match start {
        Ok(Start::Round(round)) => round,
        other => panic!("no round: {:?}", other),
    }
}

/// The main path that a selection returns at once.
fn lone_main(start: Result<Start, Error>) -> usize {
    match start {
        Ok(Start::Main(pid)) => pid,
        other => panic!("no main path: {:?}", other),
    }
}

/// The paths that hold the two roles, or the error that stands in the way.
fn roles(scheduler: &EMVODScheduler) -> Result<(usize, Option<usize>), Error> {
    let mut paths = PathMap::new();
    for pid in 0..10 {
        paths.insert(pid, path(true, 20, 0));
    }
    match scheduler.on_select_at(&paths, &vec![], at(0))? {
        Start::Main(pid) => Ok((pid, None)),
        Start::Round(round) => Ok((round.main_pid, Some(round.backup_pid))),
    }
}

#[test]
fn first_path_is_the_main_path() {
    let mut scheduler = EMVODScheduler::new(&MultipathConfig {});
    assert_eq!(roles(&scheduler), Ok((0, None)));
    scheduler.on_path_updated(&PathMap::new(), PathEvent::Validated(4));
    assert_eq!(roles(&scheduler), Ok((0, Some(4))));
}

#[test]
fn taken_roles_stay() {
    let mut scheduler = two_path_scheduler();
    let paths = two_paths(true, true);
    scheduler.on_path_updated(&paths, PathEvent::Validated(7));
    assert_eq!(roles(&scheduler), Ok((0, Some(1))));
    scheduler.try_update_main_backup(&paths);
    assert_eq!(roles(&scheduler), Ok((0, Some(1))));
    scheduler.on_path_updated(&paths, PathEvent::Abandoned(7));
    assert_eq!(roles(&scheduler), Ok((0, Some(1))));
}

#[test]
fn backup_path_takes_over_from_an_abandoned_main_path() {
    let mut scheduler = two_path_scheduler();
    scheduler.on_path_updated(&PathMap::new(), PathEvent::Abandoned(0));
    assert_eq!(roles(&scheduler), Ok((1, None)));
    scheduler.on_path_updated(&PathMap::new(), PathEvent::Validated(5));
    assert_eq!(roles(&scheduler), Ok((1, Some(5))));
}

#[test]
fn abandoned_backup_path_loses_its_role() {
    let mut scheduler = two_path_scheduler();
    scheduler.on_path_updated(&PathMap::new(), PathEvent::Abandoned(1));
    scheduler.on_path_updated(&PathMap::new(), PathEvent::Validated(6));
    assert_eq!(roles(&scheduler), Ok((0, Some(6))));
}

#[test]
fn validated_path_becomes_main_path_when_none_is_left() {
    let mut scheduler = two_path_scheduler();
    scheduler.on_path_updated(&PathMap::new(), PathEvent::Abandoned(0));
    scheduler.on_path_updated(&PathMap::new(), PathEvent::Abandoned(1));
    assert_eq!(roles(&scheduler), Err(Error::Done));
    scheduler.on_path_updated(&PathMap::new(), PathEvent::Validated(3));
    scheduler.on_path_updated(&PathMap::new(), PathEvent::Validated(2));
    assert_eq!(roles(&scheduler), Ok((3, Some(2))));
}

#[test]
fn path_with_both_roles_keeps_one_when_abandoned() {
    let mut scheduler = EMVODScheduler::new(&MultipathConfig {});
    scheduler.on_path_updated(&PathMap::new(), PathEvent::Validated(0));
    assert_eq!(roles(&scheduler), Ok((0, Some(0))));
    scheduler.on_path_updated(&PathMap::new(), PathEvent::Abandoned(0));
    scheduler.on_path_updated(&PathMap::new(), PathEvent::Validated(8));
    assert_eq!(roles(&scheduler), Ok((0, Some(8))));
}

#[test]
fn open_roles_are_filled_with_the_first_active_path() {
    let mut paths = PathMap::new();
    paths.insert(9, path(false, 20, 0));
    paths.insert(5, path(true, 20, 0));
    paths.insert(2, path(true, 20, 0));

    let mut scheduler = EMVODScheduler::new(&MultipathConfig {});
    scheduler.try_update_main_backup(&paths);
    assert_eq!(roles(&scheduler), Ok((0, Some(5))));

    let mut scheduler = EMVODScheduler::new(&MultipathConfig {});
    scheduler.on_path_updated(&paths, PathEvent::Abandoned(0));
    scheduler.try_update_main_backup(&paths);
    assert_eq!(roles(&scheduler), Ok((5, Some(5))));

    let mut scheduler = EMVODScheduler::new(&MultipathConfig {});
    scheduler.try_update_main_backup(&PathMap::new());
    assert_eq!(roles(&scheduler), Ok((0, None)));
}

#[test]
fn unknown_paths_are_an_internal_error() {
    let scheduler = two_path_scheduler();
    let mut paths = PathMap::new();
    assert_eq!(scheduler.on_select_at(&paths, &vec![], at(0)).unwrap_err(), Error::InternalError);
    paths.insert(0, path(false, 20, 100));
    assert_eq!(scheduler.on_select_at(&paths, &vec![], at(0)).unwrap_err(), Error::InternalError);
    paths.insert(1, path(true, 20, 100));
    assert!(scheduler.on_select_at(&paths, &vec![], at(0)).is_ok());
}

#[test]
fn selection_needs_a_usable_path() {
    let scheduler = two_path_scheduler();
    let paths = two_paths(false, false);
    assert_eq!(scheduler.on_select_at(&paths, &vec![], at(0)).unwrap_err(), Error::Done);
    round_of(scheduler.on_select_at(&two_paths(true, false), &vec![], at(0)));
    round_of(scheduler.on_select_at(&two_paths(false, true), &vec![], at(0)));

    let scheduler = EMVODScheduler::new(&MultipathConfig {});
    let paths = two_paths(false, true);
    assert_eq!(scheduler.on_select_at(&paths, &vec![], at(0)).unwrap_err(), Error::Done);
}

#[test]
fn usable_main_path_needs_no_backup_path() {
    let overdue = vec![video_entry(1, 0, 0)];
    let illegal = vec![video_entry(1, 500, 500)];
    let unset = EMVODScheduler::new(&MultipathConfig {});
    let unknown = two_path_scheduler();
    let mut paths = PathMap::new();
    paths.insert(0, path(true, 20, 100));
    for streams in [vec![], overdue, illegal] {
        assert_eq!(lone_main(unset.on_select_at(&paths, &streams, at(9000))), 0);
        assert_eq!(lone_main(unknown.on_select_at(&paths, &streams, at(9000))), 0);
        assert_eq!(lone_main(unset.on_select_at(&two_paths(true, true), &streams, at(9000))), 0);
    }
}

#[test]
fn estimate_leaves_out_what_was_lost() {
    let mut paths = PathMap::new();
    let mut main = path(true, 25, 100);
    main.lost_bytes = vec![1000, 500, 30];
    let mut backup = path(true, 15, 101);
    backup.lost_bytes = vec![12000, 1];
    paths.insert(0, main);
    paths.insert(1, backup);
    let round = round_of(two_path_scheduler().on_select_at(&paths, &vec![], at(0)));
    assert_eq!(
        round.main,
        PathEstimate { space_id: 100, deliverable: 10470, srtt_millis: 25 }
    );
    assert_eq!(round.backup, PathEstimate { space_id: 101, deliverable: 0, srtt_millis: 15 });
}

#[test]
fn streams_that_take_no_part_are_passed_over() {
    let mut stopped = video_entry(3, 150, 150);
    if let Some(stream) = &mut stopped.stream {
        stream.stopped = true;
    }
    let streams = vec![
        StreamEntry { id: 1, stream: None },
        entry(2, 150, 150, StreamContext::Absent),
        stopped,
        entry(4, 150, 150, StreamContext::Other),
        entry(5, 150, 150, StreamContext::Video(video(None))),
        video_entry(6, 150, 150),
    ];
    let round = round_of(two_path_scheduler().on_select_at(&two_paths(true, true), &streams, at(1010)));
    assert_eq!(round.end, ScanEnd::Exhausted);
    assert_eq!(round.visits.len(), 1);
    assert_eq!(round.visits[0].stream_id, 6);
    assert_eq!(round.visits[0].gop, VideoGop::new(1, 100, 100, 40, 40));
    assert_eq!(round.visits[0].first_frame, None);
    assert_eq!(round.visits[0].urgency, Urgency::Due { bytes: 50, millis: 70 });
}

#[test]
fn first_frame_is_assigned_at_once() {
    let streams = vec![video_entry(6, 30, 30)];
    let round = round_of(two_path_scheduler().on_select_at(&two_paths(true, true), &streams, at(1039)));
    assert_eq!(
        round.visits[0].first_frame,
        Some(FirstFrame { stream_id: 6, stream_offset: 30, remaining: 70, main_faster: true })
    );
    assert_eq!(round.visits[0].urgency, Urgency::Due { bytes: 70, millis: 1 });
}

#[test]
fn first_frame_is_not_assigned_while_data_is_sent_again() {
    let streams = vec![video_entry(6, 30, 10)];
    let round = round_of(two_path_scheduler().on_select_at(&two_paths(true, true), &streams, at(1000)));
    assert_eq!(round.visits[0].first_frame, None);
    assert_eq!(round.visits[0].urgency, Urgency::Due { bytes: 70, millis: 40 });
}

#[test]
fn slower_main_path_is_noticed() {
    let mut paths = PathMap::new();
    paths.insert(0, path(true, 31, 100));
    paths.insert(1, path(true, 30, 101));
    let streams = vec![video_entry(6, 0, 0)];
    let round = round_of(two_path_scheduler().on_select_at(&paths, &streams, at(1000)));
    assert!(!round.visits[0].first_frame.unwrap().main_faster);
    paths.insert(0, path(true, 30, 100));
    let round = round_of(two_path_scheduler().on_select_at(&paths, &streams, at(1000)));
    assert!(round.visits[0].first_frame.unwrap().main_faster);
}

#[test]
fn walk_ends_at_an_overdue_gop() {
    let streams = vec![video_entry(1, 150, 150), video_entry(2, 20, 20), video_entry(3, 150, 150)];
    let round = round_of(two_path_scheduler().on_select_at(&two_paths(true, true), &streams, at(1040)));
    assert_eq!(round.end, ScanEnd::Overdue);
    assert_eq!(round.visits.len(), 2);
    assert_eq!(round.visits[0].urgency, Urgency::Due { bytes: 50, millis: 40 });
    assert_eq!(round.visits[1].urgency, Urgency::Overdue);
    assert!(round.visits[1].first_frame.is_some());
}

#[test]
fn walk_ends_at_a_stream_with_illegal_gops() {
    let streams = vec![video_entry(1, 150, 150), video_entry(2, 200, 200), video_entry(3, 0, 0)];
    let round = round_of(two_path_scheduler().on_select_at(&two_paths(true, true), &streams, at(1000)));
    assert_eq!(round.end, ScanEnd::IllegalGops);
    assert_eq!(round.visits.len(), 1);
}

#[test]
fn video_requested_in_the_future_has_not_begun() {
    let streams = vec![video_entry(1, 150, 150)];
    let round = round_of(two_path_scheduler().on_select_at(&two_paths(true, true), &streams, at(1)));
    assert_eq!(round.visits[0].urgency, Urgency::Due { bytes: 50, millis: 80 });
}

fn conclude(
    paths: &mut PathMap,
    streams: Vec<StreamEntry>,
    now: Timestamp,
    demand_exceeds_main: bool,
) -> (Result<usize, Error>, bool) {
    let round = round_of(two_path_scheduler().on_select_at(paths, &streams, now));
    let pid = round.conclude(paths, demand_exceeds_main);
    (pid, paths.get(1).unwrap().allow_stream_frames)
}

#[test]
fn usable_main_path_is_selected_whatever_is_asked_for() {
    for demand_exceeds_main in [false, true] {
        let mut paths = two_paths(true, true);
        let overdue = vec![video_entry(1, 0, 0)];
        assert_eq!(
            conclude(&mut paths, overdue, at(9000), demand_exceeds_main),
            (Ok(0), true)
        );
        let illegal = vec![video_entry(1, 500, 500)];
        assert_eq!(
            conclude(&mut paths, illegal, at(1000), demand_exceeds_main),
            (Ok(0), true)
        );
        assert_eq!(conclude(&mut paths, vec![], at(1000), demand_exceeds_main), (Ok(0), true));
    }
}

#[test]
fn backup_path_carries_stream_frames_on_demand() {
    let mut paths = two_paths(false, true);
    assert_eq!(conclude(&mut paths, vec![], at(1000), false), (Ok(1), false));
    assert_eq!(conclude(&mut paths, vec![], at(1000), true), (Ok(1), true));
    let late = || vec![video_entry(1, 0, 0)];
    assert_eq!(conclude(&mut paths, late(), at(1000), false), (Ok(1), false));
    assert_eq!(conclude(&mut paths, late(), at(1040), false), (Ok(1), true));
    assert!(!paths.get(0).unwrap().active);
}

#[test]
fn illegal_gops_leave_the_backup_path_out() {
    let mut paths = two_paths(false, true);
    let illegal = vec![video_entry(1, 500, 500)];
    assert_eq!(conclude(&mut paths, illegal, at(1000), false), (Err(Error::Done), true));
}

#[test]
fn sums_beyond_their_types_are_noticed() {
    let scheduler = two_path_scheduler();
    let mut paths = two_paths(true, true);
    assert!(scheduler.check_select(&paths, &vec![], at(0)));
    for millis in [0, 1000, 1020, 5000] {
        assert!(scheduler.check_select(&paths, &vec![video_entry(1, 0, 0)], at(millis)));
    }
    let mut lossy = path(true, 20, 100);
    lossy.lost_bytes = vec![u64::MAX, 1];
    paths.insert(1, lossy);
    assert!(!scheduler.check_select(&paths, &vec![], at(0)));

    let mut gops = VideoGopCollection::new();
    gops.add_gop(VideoGop::new(0, 10, u64::MAX, 0, 40));
    gops.set_request_timestamp(at(0));
    let broken = entry(2, 20, 20, StreamContext::Video(gops));
    let streams = vec![video_entry(1, 0, 0), broken];
    let paths = two_paths(true, true);
    assert!(!scheduler.check_select(&paths, &streams, at(1039)));
    assert!(scheduler.check_select(&paths, &streams, at(1040)));
}

#[test]
fn whole_frame_goes_to_the_faster_path() {
    let mut frame = FirstFrame { stream_id: 6, stream_offset: 30, remaining: 70, main_faster: true };
    let segment = |space_id: u64| Segment { space_id, offset: 30, length: 70 };
    assert_eq!(
        frame.assign(FrameSplit::Whole, 100, 101),
        Assignment { front: segment(100), back: None }
    );
    frame.main_faster = false;
    assert_eq!(
        frame.assign(FrameSplit::Whole, 100, 101),
        Assignment { front: segment(101), back: None }
    );
}

#[test]
fn segments_cover_the_frame() {
    for main_faster in [true, false] {
        let frame = FirstFrame { stream_id: 6, stream_offset: 30, remaining: 70, main_faster };
        let (fast, slow) = if main_faster { (100, 101) } else { (101, 100) };
        assert_eq!(
            frame.assign(FrameSplit::Parts { front: 25 }, 100, 101),
            Assignment {
                front: Segment { space_id: fast, offset: 30, length: 25 },
                back: Some(Segment { space_id: slow, offset: 55, length: 45 }),
            }
        );
        assert_eq!(
            frame.assign(FrameSplit::Parts { front: 70 }, 100, 101).back,
            Some(Segment { space_id: slow, offset: 100, length: 0 })
        );
    }
    let frame = FirstFrame { stream_id: 6, stream_offset: 0, remaining: 100, main_faster: false };
    assert_eq!(
        frame.assign(FrameSplit::Parts { front: 10 }, 100, 101).back,
        Some(Segment { space_id: 100, offset: 10, length: 90 })
    );
}

#[test]
fn paths_keep_their_order() {
    let mut paths = PathMap::new();
    paths.insert(4, path(true, 20, 0));
    paths.insert(2, path(true, 20, 0));
    paths.insert(4, path(false, 20, 0));
    assert_eq!(paths.pids(), &vec![4, 2]);
    assert!(!paths.get(4).unwrap().is_usable());
    assert!(matches!(paths.get(3), Err(Error::InternalError)));
    assert!(matches!(paths.get_mut(3), Err(Error::InternalError)));
    paths.get_mut(2).unwrap().set_allow_stream_frames(false);
    assert!(!paths.get(2).unwrap().allow_stream_frames);
}

#[test]
fn clock_moves_on() {
    let clock = Clock::start();
    let first = clock.now();
    let mut later = clock.now();
    while later.nanos == first.nanos {
        later = clock.now();
    }
    assert!(later.nanos > first.nanos);
}

#[test]
fn round_can_start_at_the_present_time() {
    let clock = Clock::start();
    let mut gops = VideoGopCollection::new();
    gops.add_gop(VideoGop::new(0, 0, 100, 0, 3_600_000));
    gops.set_request_timestamp(clock.now());
    let streams = vec![entry(1, 40, 40, StreamContext::Video(gops))];
    let scheduler = two_path_scheduler();
    let round = round_of(scheduler.on_select(&two_paths(true, true), &streams, &clock));
    assert_eq!((round.main_pid, round.backup_pid), (0, 1));
    match round.visits[0].urgency {
        Urgency::Due { bytes, millis } => {
            assert_eq!(bytes, 60);
            assert!(millis <= 3_600_000 && millis > 3_000_000);
        }
        Urgency::Overdue => panic!("an hour has passed"),
    }
    assert_eq!(
        scheduler.on_select(&PathMap::new(), &streams, &clock).unwrap_err(),
        Error::InternalError
    );
    let scheduler = EMVODScheduler::new(&MultipathConfig {});
    assert_eq!(lone_main(scheduler.on_select(&two_paths(true, true), &streams, &clock)), 0);
}

#[test]
fn segments_follow_the_order_of_the_streams() {
    let streams = vec![video_entry(7, 30, 30), video_entry(8, 150, 150), video_entry(9, 0, 0)];
    let round = round_of(two_path_scheduler().on_select_at(&two_paths(true, true), &streams, at(1000)));
    let frames = round.first_frames();
    assert_eq!(frames.len(), 2);
    assert_eq!((frames[0].stream_id, frames[1].stream_id), (7, 9));
    let splits = vec![FrameSplit::Parts { front: 25 }, FrameSplit::Whole];
    assert_eq!(
        round.segments(&splits),
        vec![
            (7, Segment { space_id: 100, offset: 30, length: 25 }),
            (7, Segment { space_id: 101, offset: 55, length: 45 }),
            (9, Segment { space_id: 100, offset: 0, length: 100 }),
        ]
    );
}

#[test]
fn splits_beyond_the_frame_are_noticed() {
    for main_faster in [true, false] {
        let frame = FirstFrame { stream_id: 6, stream_offset: 30, remaining: 70, main_faster };
        assert!(frame.check_split(FrameSplit::Whole));
        assert!(frame.check_split(FrameSplit::Parts { front: 70 }));
        assert!(!frame.check_split(FrameSplit::Parts { front: 71 }));
    }
    let frame =
        FirstFrame { stream_id: 6, stream_offset: 30, remaining: u64::MAX, main_faster: true };
    assert!(frame.check_split(FrameSplit::Parts { front: u64::MAX - 30 }));
    assert!(!frame.check_split(FrameSplit::Parts { front: u64::MAX - 29 }));
}
