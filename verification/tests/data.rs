use eatmud::data::DataSlice;
use eatmud::{Date, Fund, Stock};

fn date(y: u32, m: u32, d: u32) -> Date {
    Date::from_ymd(y, m, d).unwrap()
}

#[test]
fn test_stock() {
    let mut stock = Stock::new("ndsd", "SZ300750");
    let d = date(2024, 1, 11);
    stock.append(d, 150_660_000, 151_370_000, 148_510_000, 154_820_000, 10_000_000_000);
    stock.append(
        date(2024, 1, 12),
        157_340_000,
        159_870_000,
        148_510_000,
        153_450_000,
        9_754_000_000,
    );
    assert_eq!(stock.len(), 2);
    assert_eq!(stock.data()[0].date, d);
    // a stock's value is its close
    assert_eq!(stock.data()[0].value(), 154_820_000);
}

#[test]
fn test_fund_from_stock() {
    let mut stock = Stock::new("hs300", "000300");
    stock.append(date(2024, 1, 2), 1, 2, 3, 982_790_000, 5);
    stock.append(date(2024, 1, 3), 1, 2, 3, 985_000_000, 5);
    let mut f = Fund::from(&stock);
    assert_eq!(f.name(), "hs300");
    assert_eq!(f.code(), "000300");
    assert_eq!(f.data()[0].value, 982_790_000);
    let n = f.len();
    let d = date(2024, 1, 4);
    f.append(d, 2_000_000);
    assert_eq!(f.data()[n].date, d);
    assert_eq!(f.data()[n].value, 2_000_000);
}
