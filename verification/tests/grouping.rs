use photo_sorter::Date;
use photo_sorter::MediaFile;
use photo_sorter::group::group_by_date;

fn date(year: u16, month: u8, day: u8) -> Date {
    Date { year, month, day }
}

fn media(name: &str, d: Date) -> MediaFile {
    MediaFile { name: String::from(name), date: d }
}

#[test]
fn groups_span_multiple_days_one_bucket_per_date() {
    let files = vec![
        media("c.jpg", date(2024, 1, 2)),
        media("a.jpg", date(2024, 1, 1)),
        media("d.mp4", date(2024, 1, 2)),
        media("b.jpeg", date(2024, 1, 1)),
        media("e.jpg", date(2023, 12, 31)),
    ];
    let grouped = group_by_date(files);
    assert_eq!(grouped.groups.len(), 3);
    // ascending date order
    assert_eq!(grouped.groups[0].date, date(2023, 12, 31));
    assert_eq!(grouped.groups[1].date, date(2024, 1, 1));
    assert_eq!(grouped.groups[2].date, date(2024, 1, 2));
    // each bucket holds exactly its files, in input order
    assert_eq!(grouped.groups[0].files, vec![String::from("e.jpg")]);
    assert_eq!(grouped.groups[1].files, vec![String::from("a.jpg"), String::from("b.jpeg")]);
    assert_eq!(grouped.groups[2].files, vec![String::from("c.jpg"), String::from("d.mp4")]);
}

#[test]
fn grouping_nothing_gives_no_groups() {
    let grouped = group_by_date(Vec::new());
    assert_eq!(grouped.groups.len(), 0);
}

#[test]
fn one_date_gives_one_group_in_scan_order() {
    let d = date(2022, 7, 14);
    let files = vec![media("x.jpg", d), media("y.jpg", d), media("z.mp4", d)];
    let grouped = group_by_date(files);
    assert_eq!(grouped.groups.len(), 1);
    assert_eq!(grouped.groups[0].date, d);
    assert_eq!(
        grouped.groups[0].files,
        vec![String::from("x.jpg"), String::from("y.jpg"), String::from("z.mp4")]
    );
}

#[test]
fn dates_differing_only_in_day_make_distinct_groups() {
    let files = vec![media("a.jpg", date(2024, 3, 2)), media("b.jpg", date(2024, 3, 1))];
    let grouped = group_by_date(files);
    assert_eq!(grouped.groups.len(), 2);
    assert_eq!(grouped.groups[0].date, date(2024, 3, 1));
    assert_eq!(grouped.groups[1].date, date(2024, 3, 2));
}

#[test]
fn date_formats_with_zero_padding() {
    assert_eq!(date(2024, 1, 1).format_dd_mm_yyyy().as_str(), "01-01-2024");
    assert_eq!(date(987, 12, 31).format_dd_mm_yyyy().as_str(), "31-12-0987");
    assert_eq!(date(2023, 11, 9).format_dd_mm_yyyy().as_str(), "09-11-2023");
}
