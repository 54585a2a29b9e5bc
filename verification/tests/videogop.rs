use emvod::{Timestamp, VideoGop, VideoGopCollection};

fn gop(number: u32, start: u64, length: u64) -> VideoGop {
    VideoGop::new(number, start, length, 100, 40)
}

#[test]
fn new_gop_keeps_its_metadata() {
    let gop = VideoGop::new(7, 1000, 250, 40, 60);
    assert_eq!(gop.get_gop_number(), 7);
    assert_eq!(gop.get_gop_start_byte(), 1000);
    assert_eq!(gop.get_gop_end_byte(), 1250);
    assert_eq!(gop.get_gop_start_time_stamp(), 40);
    assert_eq!(gop.get_gop_end_time_stamp(), 100);
}

#[test]
fn default_gop_is_all_zero() {
    assert_eq!(VideoGop::default(), VideoGop::new(0, 0, 0, 0, 0));
}

#[test]
fn gop_ends_at_the_top_of_its_types() {
    let gop = VideoGop::new(1, u64::MAX - 5, 5, u128::MAX - 2, 2);
    assert_eq!(gop.get_gop_end_byte(), u64::MAX);
    assert_eq!(gop.get_gop_end_time_stamp(), u128::MAX);
}

#[test]
fn cloned_gop_is_equal() {
    let gop = VideoGop::new(3, 5, 8, 13, 21);
    assert_eq!(gop.clone(), gop);
}

#[test]
fn new_collection_is_empty() {
    let collection = VideoGopCollection::new();
    assert!(collection.is_empty());
    assert_eq!(collection.len(), 0);
    assert_eq!(collection.get_request_timestamp(), None);
    let collection = VideoGopCollection::default();
    assert!(collection.is_empty());
    assert_eq!(collection.get_request_timestamp(), None);
}

#[test]
fn second_gop_of_a_number_is_refused() {
    let mut collection = VideoGopCollection::new();
    assert!(collection.add_gop(gop(1, 0, 10)));
    assert!(!collection.add_gop(gop(1, 10, 20)));
    assert_eq!(collection.len(), 1);
    assert_eq!(collection.get_gop(1), Some(&gop(1, 0, 10)));
}

#[test]
fn added_gop_is_found() {
    let mut collection = VideoGopCollection::new();
    assert!(collection.add_gop(gop(1, 0, 10)));
    assert!(collection.add_gop(gop(2, 10, 10)));
    assert!(!collection.is_empty());
    assert_eq!(collection.len(), 2);
    assert_eq!(collection.get_gop(2), Some(&gop(2, 10, 10)));
    assert_eq!(collection.get_gop(3), None);
}

#[test]
fn removal_undoes_addition() {
    let mut collection = VideoGopCollection::new();
    collection.add_gop(gop(1, 0, 10));
    collection.add_gop(gop(2, 10, 10));
    assert_eq!(collection.remove_gop(2), Some(gop(2, 10, 10)));
    assert_eq!(collection.remove_gop(2), None);
    assert_eq!(collection.len(), 1);
    assert_eq!(collection.get_gop(1), Some(&gop(1, 0, 10)));
    assert!(collection.add_gop(gop(2, 30, 10)));
    assert_eq!(collection.get_gop(2), Some(&gop(2, 30, 10)));
}

#[test]
fn gop_is_found_by_offset() {
    let mut collection = VideoGopCollection::new();
    collection.add_gop(gop(0, 0, 10));
    collection.add_gop(gop(1, 10, 10));
    collection.add_gop(gop(2, 30, 5));
    let number_at = |offset: u64| {
        collection.get_gop_by_stream_offset(offset).map(|gop| gop.get_gop_number())
    };
    assert_eq!(number_at(0), Some(0));
    assert_eq!(number_at(9), Some(0));
    assert_eq!(number_at(10), Some(1));
    assert_eq!(number_at(19), Some(1));
    assert_eq!(number_at(20), None);
    assert_eq!(number_at(29), None);
    assert_eq!(number_at(34), Some(2));
    assert_eq!(number_at(35), None);
}

#[test]
fn empty_gop_covers_nothing() {
    let mut collection = VideoGopCollection::new();
    collection.add_gop(gop(0, 4, 0));
    assert_eq!(collection.get_gop_by_stream_offset(4), None);
}

#[test]
fn overlapping_gops_give_one_of_them() {
    let mut collection = VideoGopCollection::new();
    collection.add_gop(gop(0, 0, 10));
    collection.add_gop(gop(1, 5, 10));
    let number = collection.get_gop_by_stream_offset(7).unwrap().get_gop_number();
    assert!(number == 0 || number == 1);
}

#[test]
fn gop_can_be_changed_in_place() {
    let mut collection = VideoGopCollection::new();
    collection.add_gop(gop(1, 0, 10));
    collection.add_gop(gop(2, 10, 10));
    collection.get_gop_mut(1).unwrap().gop_length = 8;
    assert!(collection.get_gop_mut(3).is_none());
    assert_eq!(collection.len(), 2);
    assert_eq!(collection.get_gop(1), Some(&gop(1, 0, 8)));
    assert_eq!(collection.get_gop(2), Some(&gop(2, 10, 10)));
}

#[test]
fn changed_number_does_not_move_a_gop() {
    let mut collection = VideoGopCollection::new();
    collection.add_gop(gop(1, 0, 10));
    collection.get_gop_mut(1).unwrap().gop_number = 2;
    assert_eq!(collection.get_gop(1), Some(&gop(2, 0, 10)));
    assert_eq!(collection.get_gop(2), None);
}

#[test]
fn request_timestamp_is_kept() {
    let mut collection = VideoGopCollection::new();
    collection.add_gop(gop(1, 0, 10));
    collection.set_request_timestamp(Timestamp { nanos: 17 });
    assert_eq!(collection.get_request_timestamp(), Some(Timestamp { nanos: 17 }));
    collection.set_request_timestamp(Timestamp { nanos: 18 });
    assert_eq!(collection.get_request_timestamp(), Some(Timestamp { nanos: 18 }));
    assert_eq!(collection.len(), 1);
}

#[test]
fn cloned_collection_is_independent() {
    let mut collection = VideoGopCollection::new();
    collection.add_gop(gop(1, 0, 10));
    collection.set_request_timestamp(Timestamp { nanos: 17 });
    let copy = collection.clone();
    collection.remove_gop(1);
    assert_eq!(copy.get_gop(1), Some(&gop(1, 0, 10)));
    assert_eq!(copy.get_request_timestamp(), Some(Timestamp { nanos: 17 }));
}

#[test]
fn ranges_beyond_their_types_are_noticed() {
    let mut collection = VideoGopCollection::new();
    collection.add_gop(VideoGop::new(0, 100, u64::MAX, 0, 1));
    collection.add_gop(VideoGop::new(1, 0, 50, u128::MAX, 1));
    assert!(collection.check_ends(99));
    assert!(!collection.check_ends(100));
    assert!(!collection.check_end_times(49));
    assert!(collection.check_end_times(50));
    assert!(collection.check_plays_beyond(49, u128::MAX));
    assert!(!collection.check_plays_beyond(50, 0));
    assert!(collection.check_plays_beyond(100, 0));
    assert!(!collection.check_plays_beyond(100, 1));
}

#[test]
fn elapsed_time_is_counted_in_whole_millis() {
    let start = Timestamp { nanos: 5_000_000 };
    assert_eq!(Timestamp { nanos: 5_000_000 }.millis_since(start), 0);
    assert_eq!(Timestamp { nanos: 5_999_999 }.millis_since(start), 0);
    assert_eq!(Timestamp { nanos: 6_000_000 }.millis_since(start), 1);
    assert_eq!(Timestamp { nanos: 47_900_000 }.millis_since(start), 42);
    assert_eq!(Timestamp { nanos: 0 }.millis_since(start), 0);
}
