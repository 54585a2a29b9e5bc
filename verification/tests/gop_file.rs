use emvod::gop_file::{parse_gop, relative_path};
use emvod::{VideoGop, VideoGopCollection};

fn lines(texts: &[&str]) -> Vec<String> {
    texts.iter().map(|text| text.to_string()).collect()
}

#[test]
fn record_is_read_back() {
    assert_eq!(parse_gop("3,1500,200,40,33"), Some(VideoGop::new(3, 1500, 200, 40, 33)));
    let gop = VideoGop::new(u32::MAX, u64::MAX, 0, u128::MAX, 10);
    let record = format!(
        "{},{},{},{},{}",
        gop.gop_number,
        gop.gop_start_byte,
        gop.gop_length,
        gop.gop_time_stamp,
        gop.gop_duration_time
    );
    assert_eq!(parse_gop(&record), Some(gop));
}

#[test]
fn line_needs_five_fields() {
    assert_eq!(parse_gop(""), None);
    assert_eq!(parse_gop("1,2,3,4"), None);
    assert_eq!(parse_gop("1,2,3,4,5,6"), None);
    assert_eq!(parse_gop("1,2,3,4,5,"), None);
    assert_eq!(parse_gop(",,,,"), Some(VideoGop::default()));
}

#[test]
fn field_that_is_no_number_counts_as_zero() {
    assert_eq!(parse_gop("x,2,3,4,5"), Some(VideoGop::new(0, 2, 3, 4, 5)));
    assert_eq!(parse_gop("1, 2,3 ,-4,5_0"), Some(VideoGop::new(1, 0, 0, 0, 0)));
    assert_eq!(parse_gop("+1,+,++3,+4,5+"), Some(VideoGop::new(1, 0, 0, 4, 0)));
    assert_eq!(parse_gop("\u{662},2\u{e9},3,4,5"), Some(VideoGop::new(0, 0, 3, 4, 5)));
}

#[test]
fn field_above_its_range_counts_as_zero() {
    assert_eq!(
        parse_gop("4294967295,18446744073709551615,18446744073709551616,340282366920938463463374607431768211455,340282366920938463463374607431768211456"),
        Some(VideoGop::new(u32::MAX, u64::MAX, 0, u128::MAX, 0))
    );
    assert_eq!(parse_gop("4294967296,1,1,1,1"), Some(VideoGop::new(0, 1, 1, 1, 1)));
}

#[test]
fn leading_zeros_do_not_count() {
    assert_eq!(
        parse_gop("00000000000000000000012,007,0,00,1"),
        Some(VideoGop::new(12, 7, 0, 0, 1))
    );
}

#[test]
fn fields_agree_with_the_standard_parser() {
    for text in ["0", "+", "-", "", "+0", "12a", "99999", "4294967295", "4294967296", "+4294967295"] {
        let line = format!("{},1,1,1,1", text);
        let number: u32 = text.parse().unwrap_or_default();
        assert_eq!(parse_gop(&line), Some(VideoGop::new(number, 1, 1, 1, 1)));
    }
}

#[test]
fn file_is_read_line_by_line() {
    let collection = VideoGopCollection::from_lines(&lines(&[
        "0,0,100,0,40",
        "malformed",
        "1,100,50,40,40",
        "",
        "2,150,50,80,40,7",
    ]));
    assert_eq!(collection.len(), 2);
    assert_eq!(collection.get_gop(0), Some(&VideoGop::new(0, 0, 100, 0, 40)));
    assert_eq!(collection.get_gop(1), Some(&VideoGop::new(1, 100, 50, 40, 40)));
    assert_eq!(collection.get_request_timestamp(), None);
}

#[test]
fn first_line_of_a_number_counts() {
    let collection = VideoGopCollection::from_lines(&lines(&[
        "5,0,1,0,1",
        "5,9,9,9,9",
        "bad,1,1,1,1",
        "0,2,2,2,2",
    ]));
    assert_eq!(collection.len(), 2);
    assert_eq!(collection.get_gop(5), Some(&VideoGop::new(5, 0, 1, 0, 1)));
    assert_eq!(collection.get_gop(0), Some(&VideoGop::new(0, 1, 1, 1, 1)));
}

#[test]
fn file_without_lines_is_empty() {
    assert!(VideoGopCollection::from_lines(&lines(&[])).is_empty());
}

#[test]
fn slash_in_front_is_dropped() {
    assert_eq!(relative_path("/videos/a.gop"), "videos/a.gop");
    assert_eq!(relative_path("videos/a.gop"), "videos/a.gop");
    assert_eq!(relative_path("//a"), "/a");
    assert_eq!(relative_path("/"), "");
    assert_eq!(relative_path(""), "");
    assert_eq!(relative_path("/\u{e9}t\u{e9}"), "\u{e9}t\u{e9}");
}
