use photo_sorter::scan::date_of_timestamp;
use photo_sorter::scan::is_image_file;
use photo_sorter::scan::media_from_entries;
use photo_sorter::scan::EARLIEST_PLACEABLE_SECS;
use photo_sorter::scan::LATEST_PLACEABLE_SECS;

#[test]
fn accepts_supported_extensions() {
    assert!(is_image_file("a.jpg"));
    assert!(is_image_file("holiday.jpeg"));
    assert!(is_image_file("clip.mp4"));
}

#[test]
fn accepts_supported_extensions_case_insensitively() {
    assert!(is_image_file("B.JPG"));
    assert!(is_image_file("photo.Jpeg"));
    assert!(is_image_file("MOVIE.MP4"));
}

#[test]
fn rejects_unsupported_extensions() {
    assert!(!is_image_file("notes.txt"));
    assert!(!is_image_file("archive.tar.gz"));
    assert!(!is_image_file("photo.jpgg"));
    assert!(!is_image_file("photo.jp"));
}

#[test]
fn rejects_names_without_an_extension() {
    assert!(!is_image_file("noext"));
    assert!(!is_image_file(""));
    assert!(!is_image_file("jpg"));
}

#[test]
fn rejects_hidden_files_without_an_extension() {
    assert!(!is_image_file(".jpg"));
    assert!(!is_image_file("."));
}

#[test]
fn accepts_extension_after_the_last_dot_only() {
    assert!(is_image_file("a.txt.jpg"));
    assert!(!is_image_file("a.jpg.txt"));
}

#[test]
fn timestamp_conversion_gives_a_plausible_date() {
    // 2024-06-01 00:00:00 UTC; any local time zone stays within a day.
    let d = date_of_timestamp(1717200000).expect("timestamp in range");
    assert_eq!(d.year, 2024);
    assert!(d.month == 5 || d.month == 6);
    assert!(1 <= d.day && d.day <= 31);
}

#[test]
fn timestamp_conversion_rejects_out_of_range_seconds() {
    assert!(date_of_timestamp(i64::MAX).is_none());
    assert!(date_of_timestamp(i64::MIN).is_none());
}

#[test]
fn timestamp_band_boundaries_decide_placement() {
    assert!(date_of_timestamp(EARLIEST_PLACEABLE_SECS).is_some());
    assert!(date_of_timestamp(EARLIEST_PLACEABLE_SECS - 1).is_none());
    assert!(date_of_timestamp(LATEST_PLACEABLE_SECS).is_some());
    assert!(date_of_timestamp(LATEST_PLACEABLE_SECS + 1).is_none());
}

#[test]
fn epoch_is_placed_on_the_calendar() {
    let d = date_of_timestamp(0).expect("the epoch is placeable");
    // 1970-01-01 00:00:00 UTC; any local time zone stays within a day
    assert!(d.year == 1969 || d.year == 1970);
}

#[test]
fn entries_keep_their_names_and_gain_dates() {
    let entries = vec![
        (String::from("a.jpg"), 1717200000_i64),
        (String::from("b.mp4"), 1717200000_i64 + 86400),
    ];
    let media = media_from_entries(entries);
    assert_eq!(media.len(), 2);
    assert_eq!(media[0].name.as_str(), "a.jpg");
    assert_eq!(media[1].name.as_str(), "b.mp4");
    assert!(media[0].date.month >= 1 && media[0].date.month <= 12);
}

#[test]
fn entries_with_unplaceable_timestamps_are_skipped() {
    let entries = vec![
        (String::from("a.jpg"), i64::MAX),
        (String::from("b.jpg"), 1717200000_i64),
    ];
    let media = media_from_entries(entries);
    assert_eq!(media.len(), 1);
    assert_eq!(media[0].name.as_str(), "b.jpg");
}
