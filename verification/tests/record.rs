use eatmud::record::RecordSlice;
use eatmud::numeric::IrrError;
use eatmud::record::merge_records;
use eatmud::{ConciseRecord, Date, DetailedRecord, FIXED_SCALE};

fn date(s: &str) -> Date {
    let parts: Vec<&str> = s.split('-').collect();
    Date::from_ymd(
        parts[0].parse().unwrap(),
        parts[1].parse().unwrap(),
        parts[2].parse().unwrap(),
    )
    .unwrap()
}

/// Raw fixed-point value of a whole number.
fn fp(x: i64) -> i64 {
    x * FIXED_SCALE
}

#[test]
fn test_record_from() {
    let mut record = DetailedRecord::new("hs300", "123456");
    record.append(date("2024-01-01"), fp(10), fp(1), fp(10), "initial investment");
    // nav 1.2, share 8.3
    record.append(date("2024-02-01"), fp(10), 1_200_000, 8_300_000, "investment 2");
    let record2 = ConciseRecord::from(&record);
    assert_eq!(record2.records()[1].total_investment(), fp(20));
    // profit is exactly 1.96
    assert_eq!(record2.records()[1].profit(), 1_960_000);
}

#[test]
fn test_merge() {
    let mut record1 = ConciseRecord::new("hs300", "123456");
    record1.append(date("2024-01-01"), fp(10), fp(10), "investment 0");
    record1.append(date("2024-02-01"), fp(15), fp(25), "investment 3");

    let mut record2 = DetailedRecord::new("hs300", "123456");
    record2.append(date("2024-01-01"), fp(10), fp(1), fp(10), "investment 1");
    record2.append(date("2024-01-05"), fp(20), fp(1), fp(20), "investment 2");
    record2.append(date("2024-02-05"), fp(5), fp(1), fp(5), "investment 4");
    let merged = merge_records(&record1, &ConciseRecord::from(&record2));
    assert_eq!(merged.len(), 4);
    assert_eq!(merged.records()[3].total_investment(), fp(60));
    assert_eq!(merged.records()[0].comment(), "investment 0; investment 1");
    for i in 1..4 {
        assert_eq!(
            merged.records()[i].comment(),
            format!("investment {}; estimated", i + 1)
        );
    }
}

#[test]
fn test_merge_self_doubles() {
    // merging a ledger with itself doubles every investment and marks
    // nothing "estimated"
    let mut record = ConciseRecord::new("hs300", "123456");
    record.append(date("2024-01-01"), fp(10), fp(10), "a");
    record.append(date("2024-01-08"), fp(5), fp(16), "b");
    record.append(date("2024-02-01"), fp(-3), fp(14), "");
    let merged = merge_records(&record, &record);
    assert_eq!(merged.len(), 3);
    for i in 0..3 {
        assert_eq!(
            merged.records()[i].investment(),
            2 * record.records()[i].investment()
        );
        assert_eq!(
            merged.records()[i].present_value(),
            2 * record.records()[i].present_value()
        );
        assert!(!merged.records()[i].comment().contains("estimated"));
    }
    assert_eq!(merged.records()[0].comment(), "a; a");
    assert_eq!(merged.records()[2].comment(), "");
}

#[test]
fn test_running_totals() {
    // appending dated entries accumulates the total and the profit
    let mut record = ConciseRecord::new("hs300", "123456");
    record.append(date("2024-01-01"), fp(10), fp(10), "initial investment");
    record.append(date("2024-02-01"), fp(10), fp(21), "investment 2");
    assert_eq!(record.records()[1].total_investment(), fp(20));
    assert_eq!(record.records()[1].profit(), fp(1));
}

#[test]
fn test_clear_keeps_names() {
    let mut record = ConciseRecord::new_comment("hs300", "123456", "note");
    record.append(date("2024-01-01"), fp(1), fp(1), "x");
    record.clear();
    assert!(record.is_empty());
    assert_eq!(record.name(), "hs300");
    assert_eq!(record.code(), "123456");
    assert_eq!(record.comment(), "note");
}

#[test]
fn test_irr_round_trip() {
    // flows of 1 at 720 days and 2 at 360 days reaching 8 solve to a rate
    // of exactly 1: 1 * (1 + 1)^2 + 2 * (1 + 1)^1 = 8
    let mut record = ConciseRecord::new("hs300", "123456");
    record.append(date("2020-01-01"), fp(1), fp(1), "");
    record.append(date("2020-12-26"), fp(2), fp(4), "");
    record.append(date("2021-12-21"), fp(0), fp(8), "");
    let r = record
        .irr(None, None, Some(0), Some(fp(8)), None)
        .unwrap();
    assert!((r - fp(1)).abs() < 10_000);
}

#[test]
fn test_irr_degenerate_record() {
    let mut record = ConciseRecord::new("hs300", "123456");
    record.append(date("2024-01-01"), 0, fp(1), "");
    record.append(date("2024-02-01"), 0, fp(1), "");
    let r = record.irr(None, None, Some(0), Some(fp(1)), None);
    assert_eq!(r, Err(IrrError::DegenerateInput));
}

#[test]
fn test_irr_naive_defaults() {
    // 100 invested one year before a final value of 110 is a 10% rate; the
    // boundary dates and values all default
    let mut record = ConciseRecord::new("hs300", "123456");
    record.append(date("2020-01-01"), fp(100), fp(100), "");
    record.append(date("2020-12-26"), 0, fp(110), "");
    let r = record.irr_naive().unwrap();
    assert!((r - FIXED_SCALE / 10).abs() < 1_000);
}

#[test]
fn test_irr_nearest_date_imputation() {
    // an end date strictly between two entries takes the nearer entry's
    // present value: 2020-12-24 is nearer to 2020-12-26 than to 2020-01-01,
    // so the end value imputes to the later entry net of its investment
    let mut record = ConciseRecord::new("hs300", "123456");
    record.append(date("2020-01-01"), fp(100), fp(100), "");
    record.append(date("2020-12-26"), fp(50), fp(160), "");
    let with_imputed = record.irr(None, Some(date("2020-12-24")), None, None, None).unwrap();
    // the imputed end value is 160 - 50 = 110 at 358 days
    let mut explicit = ConciseRecord::new("hs300", "123456");
    explicit.append(date("2020-01-01"), fp(100), fp(100), "");
    let direct = explicit
        .irr(None, Some(date("2020-12-24")), None, Some(fp(110)), None)
        .unwrap();
    assert_eq!(with_imputed, direct);
}

#[test]
fn test_detailed_fee() {
    // fee = investment - nav * share
    let mut record = DetailedRecord::new("hs300", "123456");
    record.append(date("2024-01-01"), fp(10), fp(2), fp(4), "");
    assert_eq!(record.records()[0].fee(), fp(2));
    assert_eq!(record.records()[0].total_share(), fp(4));
    assert_eq!(record.records()[0].present_value(), fp(8));
}
