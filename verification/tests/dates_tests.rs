use junk_spider::dates::Date;
use junk_spider::errors::IngestError;
use junk_spider::stock::common::convert_date_type;
use junk_spider::stock::common::convert_timestamp;
use junk_spider::stock::common::pad_cik;
use junk_spider::stock::sec_metrics_transform::bucket_of;
use junk_spider::stock::sec_metrics_transform::AnnualMetric;
use junk_spider::stock::sec_metrics_transform::Observation;

fn date(year: i32, month: u8, day: u8) -> Date {
    Date { year, month, day }
}

#[test]
fn date_range_containment() {
    // a quarterly observation inside the annual bucket is contained;
    // one that ends the following January is not
    let annual = AnnualMetric {
        start_date: date(2023, 1, 1),
        end_date: date(2023, 12, 31),
    };
    let second_quarter = Observation {
        start_date: Some(date(2023, 4, 1)),
        end_date: date(2023, 6, 30),
    };
    assert!(annual.check(&second_quarter));

    let spills_over = Observation {
        start_date: Some(date(2023, 4, 1)),
        end_date: date(2024, 1, 15),
    };
    assert!(!annual.check(&spills_over));

    let incomplete = Observation {
        start_date: None,
        end_date: date(2023, 6, 30),
    };
    assert!(!annual.check(&incomplete));
}

#[test]
fn bucket_of_picks_first_containing_range() {
    let buckets = vec![
        AnnualMetric {
            start_date: date(2022, 1, 1),
            end_date: date(2022, 12, 31),
        },
        AnnualMetric {
            start_date: date(2023, 1, 1),
            end_date: date(2023, 12, 31),
        },
    ];
    let obs = Observation {
        start_date: Some(date(2023, 4, 1)),
        end_date: date(2023, 6, 30),
    };
    assert_eq!(bucket_of(&buckets, &obs), Some(1));

    let outside = Observation {
        start_date: Some(date(2024, 1, 1)),
        end_date: date(2024, 3, 31),
    };
    assert_eq!(bucket_of(&buckets, &outside), None);
}

#[test]
fn date_order_is_calendar_order() {
    assert!(date(2023, 4, 1).le(&date(2023, 4, 1)));
    assert!(date(2023, 4, 1).le(&date(2023, 4, 2)));
    assert!(date(2023, 4, 30).le(&date(2023, 5, 1)));
    assert!(date(2023, 12, 31).le(&date(2024, 1, 1)));
    assert!(!date(2024, 1, 1).le(&date(2023, 12, 31)));
}

#[test]
fn parses_well_formed_dates() {
    assert_eq!(
        convert_date_type(&"2023-04-01".to_string()),
        Ok(date(2023, 4, 1))
    );
    assert_eq!(
        convert_date_type(&"1999-12-31".to_string()),
        Ok(date(1999, 12, 31))
    );
    // leap day of a leap year and of a leap century
    assert_eq!(
        convert_date_type(&"2024-02-29".to_string()),
        Ok(date(2024, 2, 29))
    );
    assert_eq!(
        convert_date_type(&"2000-02-29".to_string()),
        Ok(date(2000, 2, 29))
    );
}

#[test]
fn rejects_malformed_dates() {
    for bad in [
        "20230401",
        "2023/04/01",
        "2023-4-01",
        "2023-00-10",
        "2023-13-01",
        "2023-04-31",
        "2023-02-29",
        "1900-02-29",
        "2023-04-00",
        "abcd-ef-gh",
        "",
        "2023-04-01x",
    ] {
        assert_eq!(
            convert_date_type(&bad.to_string()),
            Err(IngestError::DecodeError),
            "{bad} should not parse"
        );
    }
}

#[test]
fn pads_cik_codes_to_ten_digits() {
    assert_eq!(pad_cik(750004), "0000750004");
    assert_eq!(pad_cik(0), "0000000000");
    assert_eq!(pad_cik(320193), "0000320193");
    assert_eq!(pad_cik(9_999_999_999), "9999999999");
}

#[test]
fn timestamps_convert_to_civil_dates() {
    assert_eq!(convert_timestamp(0), date(1970, 1, 1));
    assert_eq!(convert_timestamp(86_400), date(1970, 1, 2));
    assert_eq!(convert_timestamp(86_399), date(1970, 1, 1));
    assert_eq!(convert_timestamp(1_734_700_773), date(2024, 12, 20));
}
