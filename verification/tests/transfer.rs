use emvod::multipath_scheduler::round::{FirstFrame, FrameSplit};
use emvod::{
    EMVODScheduler, Error, Frame, FrameTransfer, MultipathConfig, PacketNumSpace,
    PacketNumSpaceMap,
};

/// The fields of the frames that are buffered at high priority.
fn buffered(space: &PacketNumSpace) -> Vec<(u64, u64, usize, bool, Vec<u8>)> {
    space
        .high
        .iter()
        .map(|frame| match frame {
            Frame::Stream { stream_id, offset, length, fin, data } => {
                (*stream_id, *offset, *length, *fin, data.to_vec())
            }
        })
        .collect()
}

#[test]
fn unknown_stream_gives_no_transfer() {
    let scheduler = EMVODScheduler::new(&MultipathConfig {});
    assert!(scheduler.buffer_frame_to_path(false, 4, 10, 5).is_none());
    let transfer = scheduler.buffer_frame_to_path(true, 4, 10, 5).unwrap();
    assert_eq!(transfer.next_read(), Some(5));
}

#[test]
fn empty_transfer_is_complete() {
    let transfer = FrameTransfer::new(4, 10, 0);
    assert_eq!(transfer.next_read(), None);
    assert_eq!(transfer.outcome(), Some(true));
}

#[test]
fn frames_follow_each_other_without_a_gap() {
    let mut space = PacketNumSpace::new(2);
    let mut transfer = FrameTransfer::new(4, 10, 5);
    transfer.on_read(&mut space, &[1, 2, 3, 0, 0], Ok((3, false)));
    assert_eq!(transfer.next_read(), Some(2));
    assert_eq!(transfer.outcome(), None);
    transfer.on_read(&mut space, &[4, 5], Ok((2, true)));
    assert_eq!(transfer.next_read(), None);
    assert_eq!(transfer.outcome(), Some(true));
    assert_eq!(
        buffered(&space),
        vec![(4, 10, 3, false, vec![1, 2, 3]), (4, 13, 2, true, vec![4, 5])]
    );
    assert_eq!(space.id, 2);
}

#[test]
fn empty_read_gives_an_empty_frame() {
    let mut space = PacketNumSpace::new(2);
    let mut transfer = FrameTransfer::new(4, 10, 5);
    transfer.on_read(&mut space, &[0; 5], Ok((0, false)));
    assert_eq!(transfer.next_read(), Some(5));
    assert_eq!(buffered(&space), vec![(4, 10, 0, false, vec![])]);
}

#[test]
fn failed_read_ends_the_transfer() {
    let mut space = PacketNumSpace::new(2);
    let mut transfer = FrameTransfer::new(4, 10, 5);
    transfer.on_read(&mut space, &[9, 0, 0, 0, 0], Ok((1, false)));
    transfer.on_read(&mut space, &[0; 4], Err(Error::Done));
    assert_eq!(transfer.next_read(), None);
    assert_eq!(transfer.outcome(), Some(false));
    assert_eq!(buffered(&space), vec![(4, 10, 1, false, vec![9])]);
}

#[test]
fn frames_are_buffered_behind_older_ones() {
    let mut spaces = PacketNumSpaceMap::new();
    spaces.insert(PacketNumSpace::new(2));
    assert!(spaces.get_mut(3).is_none());
    let mut first = FrameTransfer::new(4, 0, 1);
    first.on_read(spaces.get_mut(2).unwrap(), &[7], Ok((1, false)));
    let mut second = FrameTransfer::new(8, 50, 1);
    second.on_read(spaces.get_mut(2).unwrap(), &[8], Ok((1, true)));
    assert_eq!(
        buffered(spaces.get_mut(2).unwrap()),
        vec![(4, 0, 1, false, vec![7]), (8, 50, 1, true, vec![8])]
    );
}

#[test]
fn impossible_answers_are_noticed() {
    let transfer = FrameTransfer::new(4, u64::MAX - 3, 5);
    assert!(transfer.check_read(&[0; 5], Ok((3, false))));
    assert!(!transfer.check_read(&[0; 5], Ok((4, false))));
    assert!(transfer.check_read(&[0; 5], Err(Error::Done)));
    let transfer = FrameTransfer::new(4, 10, 5);
    assert!(transfer.check_read(&[0; 9], Ok((5, false))));
    assert!(!transfer.check_read(&[0; 9], Ok((6, false))));
    assert!(!transfer.check_read(&[0; 2], Ok((3, false))));
    assert!(!FrameTransfer::new(4, 10, 0).check_read(&[], Ok((0, false))));
}

#[test]
fn first_frame_is_wholly_buffered() {
    let stream: Vec<u8> = (0..10).collect();
    for main_faster in [true, false] {
        let frame = FirstFrame { stream_id: 4, stream_offset: 2, remaining: 8, main_faster };
        let assignment = frame.assign(FrameSplit::Parts { front: 5 }, 100, 101);
        let mut frames = vec![];
        for segment in [assignment.front, assignment.back.unwrap()] {
            let mut space = PacketNumSpace::new(segment.space_id);
            let mut transfer = FrameTransfer::new(4, segment.offset, segment.length);
            let mut next = segment.offset as usize;
            while let Some(limit) = transfer.next_read() {
                let length = if limit > 3 { 3 } else { limit as usize };
                transfer.on_read(&mut space, &stream[next..next + length], Ok((length, false)));
                next += length;
            }
            assert_eq!(transfer.outcome(), Some(true));
            frames.extend(buffered(&space));
        }
        let mut position: u64 = 2;
        let mut data = vec![];
        for (stream_id, offset, length, _, bytes) in frames {
            assert_eq!((stream_id, offset, length), (4, position, bytes.len()));
            position += length as u64;
            data.extend(bytes);
        }
        assert_eq!(data, stream[2..].to_vec());
    }
}
