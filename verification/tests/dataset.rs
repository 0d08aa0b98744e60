use ncho::date::{date_scale, leap_year, month_days, plot_points, Date};
use ncho::response::{Color, GraphData};
use ncho::tsv::points_from_tsv;

#[test]
fn day_numbers_match_the_calendar_crate() {
    let zero = Date { year: 0, month: 1, day: 1 };
    assert_eq!(date_scale(&zero), 0);
    assert_eq!(date_scale(&Date { year: 0, month: 1, day: 2 }), 1);
    let epoch = Date { year: 1970, month: 1, day: 1 };
    let expect = (chrono::NaiveDate::from_ymd_opt(1970, 1, 1).unwrap()
        - chrono::NaiveDate::from_ymd_opt(0, 1, 1).unwrap())
        .num_days();
    assert_eq!(date_scale(&epoch), expect);
    assert_eq!(date_scale(&epoch), 719528);
}

#[test]
fn plotting_turns_dates_into_day_numbers() {
    let points = vec![
        (Date { year: 0, month: 1, day: 1 }, -5250),
        (Date { year: 0, month: 1, day: 3 }, 3000),
        (Date { year: 1970, month: 1, day: 1 }, 42),
    ];
    let plotted = plot_points(&points);
    assert_eq!(plotted, vec![(0, -5250), (2, 3000), (719528, 42)]);
}

#[test]
fn leap_years_follow_the_gregorian_rule() {
    assert!(leap_year(2000));
    assert!(!leap_year(1900));
    assert!(leap_year(2024));
    assert!(!leap_year(2023));
    assert_eq!(month_days(2024, 2), 29);
    assert_eq!(month_days(2023, 2), 28);
    assert_eq!(month_days(2023, 4), 30);
    assert_eq!(month_days(2023, 12), 31);
}

#[test]
fn extremes_scan_the_whole_series() {
    let g = GraphData {
        name: "g".to_owned(),
        color: Color { r: 1, g: 2, b: 3 },
        points: vec![
            (Date { year: 1880, month: 1, day: 15 }, -5250),
            (Date { year: 1880, month: 2, day: 15 }, 3000),
            (Date { year: 1880, month: 3, day: 15 }, -80),
        ],
    };
    assert_eq!(g.min_y(), -5250);
    assert_eq!(g.max_y(), 3000);
    assert_eq!(g.min_x(), Date { year: 1880, month: 1, day: 15 });
    assert_eq!(g.max_x(), Date { year: 1880, month: 3, day: 15 });
}

#[test]
fn extremes_of_nothing_are_the_fold_seeds() {
    let g = GraphData { name: "g".to_owned(), color: Color { r: 0, g: 0, b: 0 }, points: vec![] };
    assert_eq!(g.min_y(), i64::MAX);
    assert_eq!(g.max_y(), i64::MIN);
    assert_eq!(g.min_x(), Date { year: 1970, month: 1, day: 1 });
    assert_eq!(g.max_x(), Date { year: 1970, month: 1, day: 1 });
}

#[test]
fn tsv_rows_parse_to_dates_and_thousandths() {
    let bytes = b"Date\tValue\n1880-01-15\t-5.25\n1880-02-15\t3\n".to_vec();
    let points = points_from_tsv(&bytes).unwrap();
    assert_eq!(
        points,
        vec![
            (Date { year: 1880, month: 1, day: 15 }, -5250),
            (Date { year: 1880, month: 2, day: 15 }, 3000),
        ]
    );
}

#[test]
fn tsv_fractions_pad_to_three_places() {
    let bytes = b"Date\tValue\n2000-12-31\t1.5\n2001-01-01\t0.125\n".to_vec();
    let points = points_from_tsv(&bytes).unwrap();
    assert_eq!(points[0].1, 1500);
    assert_eq!(points[1].1, 125);
}

#[test]
fn tsv_skips_blank_lines_and_trailing_newline() {
    let bytes = b"Date\tValue\n\n1999-06-01\t42\n\n".to_vec();
    let points = points_from_tsv(&bytes).unwrap();
    assert_eq!(points, vec![(Date { year: 1999, month: 6, day: 1 }, 42000)]);
    let no_trailing = b"Date\tValue\n1999-06-01\t42".to_vec();
    assert_eq!(points_from_tsv(&no_trailing).unwrap(), points);
}

#[test]
fn tsv_header_alone_yields_no_points() {
    assert_eq!(points_from_tsv(&b"Date\tValue\n".to_vec()).unwrap(), vec![]);
    assert_eq!(points_from_tsv(&b"".to_vec()).unwrap(), vec![]);
}

#[test]
fn tsv_rejects_malformed_rows() {
    // A date that does not exist.
    assert!(points_from_tsv(&b"h\n2021-02-30\t1\n".to_vec()).is_none());
    // A month out of range.
    assert!(points_from_tsv(&b"h\n2021-13-01\t1\n".to_vec()).is_none());
    // Too many fraction digits.
    assert!(points_from_tsv(&b"h\n2021-01-01\t1.2345\n".to_vec()).is_none());
    // A fraction with no digits.
    assert!(points_from_tsv(&b"h\n2021-01-01\t1.\n".to_vec()).is_none());
    // No value at all.
    assert!(points_from_tsv(&b"h\n2021-01-01\t\n".to_vec()).is_none());
    // A comma where the tab belongs.
    assert!(points_from_tsv(&b"h\n2021-01-01,1\n".to_vec()).is_none());
    // An integer part too long to carry exactly.
    assert!(points_from_tsv(&b"h\n2021-01-01\t1234567890123\n".to_vec()).is_none());
    // Twelve digits still pass.
    let ok = points_from_tsv(&b"h\n2021-01-01\t123456789012\n".to_vec()).unwrap();
    assert_eq!(ok[0].1, 123_456_789_012_000);
}
