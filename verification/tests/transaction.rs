use eatmud::record::RecordSlice;
use eatmud::transaction::TransactionError;
use eatmud::{Date, Fund, Transaction, Weekday, FIXED_SCALE};

fn date(s: &str) -> Date {
    let parts: Vec<&str> = s.split('-').collect();
    Date::from_ymd(
        parts[0].parse().unwrap(),
        parts[1].parse().unwrap(),
        parts[2].parse().unwrap(),
    )
    .unwrap()
}

fn fp(x: i64) -> i64 {
    x * FIXED_SCALE
}

fn fund(name: &str, code: &str, entries: &[(&str, i64)]) -> Fund {
    let mut f = Fund::new(name, code);
    for (d, v) in entries {
        f.append(date(d), *v);
    }
    f
}

fn three_day_fund() -> Fund {
    fund(
        "a",
        "1",
        &[
            ("2024-01-02", fp(100)),
            ("2024-01-03", fp(101)),
            ("2024-01-04", fp(102)),
        ],
    )
}

/// A calendar of navs `[100, 101, 102]`: a buy of 100 at the day-0 nav gives
/// exactly one share, worth 100 at the start of day 1 (still valued at the
/// day-0 nav) and 101 at the start of day 2.
#[test]
fn test_single_asset_scenario() {
    let f = three_day_fund();
    let funds = vec![&f];
    let t = Transaction::new(&funds, None, None);
    assert_eq!(t.ndays(), 3);
    let mut it = t.iter(false, false);
    it.inflow(fp(100)).unwrap();
    it.buy(0, fp(100), 0).unwrap();
    assert_eq!(it.asset(), 0);
    assert!(it.next_day().is_some());
    assert_eq!(it.share(0), fp(1));
    assert_eq!(it.cash(), 0);
    assert_eq!(it.asset(), fp(100));
    assert!(it.next_day().is_some());
    assert_eq!(it.asset(), fp(101));
    assert!(it.next_day().is_none());
}

/// `goto` past the last calendar day finishes the iteration and mutating
/// operations then report the terminal state.
#[test]
fn test_goto_past_end() {
    let f = three_day_fund();
    let funds = vec![&f];
    let t = Transaction::new(&funds, None, None);
    let mut it = t.iter(false, false);
    it.inflow(fp(10)).unwrap();
    assert!(it.goto(date("2030-01-01")).is_none());
    assert_eq!(it.today(), date("2024-01-04"));
    assert_eq!(it.inflow(fp(1)), Err(TransactionError::Finished));
    assert_eq!(it.sell(0, fp(1), 0), Err(TransactionError::Finished));
    // the committed state still shows the flushed inflow
    assert_eq!(it.cash(), fp(10));
}

#[test]
fn test_goto_lands_on_next_trading_day() {
    let f = fund(
        "a",
        "1",
        &[
            ("2024-01-02", fp(100)),
            ("2024-01-04", fp(101)),
            ("2024-01-15", fp(102)),
            ("2024-01-20", fp(103)),
        ],
    );
    let funds = vec![&f];
    let t = Transaction::new(&funds, None, None);
    let mut it = t.iter(true, false);
    it.inflow(fp(100)).unwrap();
    assert!(it.goto(date("2024-01-13")).is_some());
    assert_eq!(it.today(), date("2024-01-15"));
    // the skipped day carries the committed cash forward in the log
    let log = it.cash_log().unwrap();
    assert_eq!(log.len(), 2);
    assert_eq!(log[0], fp(100));
    assert_eq!(log[1], fp(100));
}

#[test]
fn test_next_weekday() {
    let f = fund(
        "a",
        "1",
        &[
            ("2024-01-01", fp(100)), // Monday
            ("2024-01-02", fp(100)),
            ("2024-01-03", fp(100)), // Wednesday
            ("2024-01-04", fp(100)),
            ("2024-01-05", fp(100)),
            ("2024-01-08", fp(100)),
            ("2024-01-10", fp(100)), // Wednesday
            ("2024-01-12", fp(100)),
        ],
    );
    let funds = vec![&f];
    let t = Transaction::new(&funds, None, None);
    let mut it = t.iter(false, false);
    assert!(it.next_weekday(Some(Weekday::Wed)).is_some());
    assert_eq!(it.today(), date("2024-01-03"));
    assert!(it.next_weekday(Some(Weekday::Wed)).is_some());
    assert_eq!(it.today(), date("2024-01-10"));
    // no Wednesday remains: the iteration runs to the end
    assert!(it.next_weekday(Some(Weekday::Wed)).is_none());
}

/// `next_month` with day 31 aimed at a 30-day month counts forward from the
/// month's first day and snaps to the next trading day in the window.
#[test]
fn test_next_month_clamps() {
    let f = fund(
        "a",
        "1",
        &[
            ("2024-03-29", fp(100)),
            ("2024-04-15", fp(101)),
            ("2024-04-30", fp(102)),
            ("2024-05-02", fp(103)),
            ("2024-05-10", fp(104)),
        ],
    );
    let funds = vec![&f];
    let t = Transaction::new(&funds, None, None);
    let mut it = t.iter(false, false);
    // April has 30 days; day 31 falls over to May 1, and the first trading
    // day at or after it is May 2
    assert!(it.next_month(Some(31)).is_some());
    assert_eq!(it.today(), date("2024-05-02"));
}

#[test]
fn test_next_month_regular() {
    let f = fund(
        "a",
        "1",
        &[
            ("2024-01-15", fp(100)),
            ("2024-02-14", fp(101)),
            ("2024-02-16", fp(102)),
            ("2024-03-15", fp(103)),
        ],
    );
    let funds = vec![&f];
    let t = Transaction::new(&funds, None, None);
    let mut it = t.iter(false, false);
    // day 15 of the following month does not trade; the next trading day is
    // the 16th
    assert!(it.next_month(None).is_some());
    assert_eq!(it.today(), date("2024-02-16"));
}

/// The present asset is invariant to the (logging, recording) flags: all
/// four combinations replay the same operations to the same final asset.
#[test]
fn test_flags_do_not_change_asset() {
    let hs = fund(
        "hs",
        "1",
        &[
            ("2024-01-02", fp(100)),
            ("2024-01-03", fp(102)),
            ("2024-01-04", fp(99)),
            ("2024-01-05", fp(103)),
            ("2024-01-08", fp(105)),
        ],
    );
    let gz = fund(
        "gz",
        "2",
        &[
            ("2024-01-02", fp(50)),
            ("2024-01-03", fp(51)),
            ("2024-01-04", fp(49)),
            ("2024-01-05", fp(52)),
            ("2024-01-08", fp(53)),
        ],
    );
    let funds = vec![&hs, &gz];
    let t = Transaction::new(&funds, None, None);
    let mut results: Vec<i64> = Vec::new();
    for save_log in [false, true] {
        for save_record in [false, true] {
            let mut it = t.iter(save_log, save_record);
            it.inflow(fp(1000)).unwrap();
            it.buy(0, fp(300), fp(1)).unwrap();
            it.buy(1, fp(200), 0).unwrap();
            it.next_day().unwrap();
            it.sell(0, it.share(0) / 2, fp(1)).unwrap();
            it.next_day().unwrap();
            it.buy_comment(1, fp(100), 0, "more").unwrap();
            while it.next_day().is_some() {}
            results.push(it.asset());
        }
    }
    assert_eq!(results[0], results[1]);
    assert_eq!(results[0], results[2]);
    assert_eq!(results[0], results[3]);
}

/// The recorded ledgers follow the flushed days, and the combined ledger
/// merges cash and assets date-wise.
#[test]
fn test_recording() {
    let f = three_day_fund();
    let funds = vec![&f];
    let t = Transaction::new(&funds, None, None);
    let mut it = t.iter(false, true);
    it.inflow_comment(fp(100), "seed").unwrap();
    it.buy_comment(0, fp(100), 0, "first buy").unwrap();
    it.next_day().unwrap();
    it.next_day().unwrap();
    let cash = it.cash_record().unwrap();
    assert_eq!(cash.len(), 2);
    assert_eq!(cash.records()[0].date(), date("2024-01-02"));
    assert_eq!(cash.records()[0].investment(), 0); // +100 inflow, -100 buy
    assert_eq!(cash.records()[0].comment(), "seed");
    let fr = it.fund_record(0).unwrap();
    assert_eq!(fr.len(), 2);
    assert_eq!(fr.records()[0].investment(), fp(100));
    assert_eq!(fr.records()[0].nav(), fp(100));
    assert_eq!(fr.records()[0].share(), fp(1));
    assert_eq!(fr.records()[0].comment(), "first buy");
    assert_eq!(fr.records()[1].present_value(), fp(101));
    let combined = it.record().unwrap();
    assert_eq!(combined.len(), 2);
    assert_eq!(combined.records()[0].investment(), fp(100));
    assert_eq!(combined.records()[1].total_investment(), fp(100));
    assert_eq!(combined.records()[1].present_value(), fp(101));
}

#[test]
fn test_aligned_window() {
    let hs = fund(
        "hs",
        "1",
        &[
            ("2023-12-29", fp(90)),
            ("2024-01-02", fp(100)),
            ("2024-01-03", fp(101)),
        ],
    );
    let gz = fund(
        "gz",
        "2",
        &[("2024-01-02", fp(50)), ("2024-01-03", fp(51)), ("2024-01-05", fp(52))],
    );
    let funds = vec![&hs, &gz];
    let t = Transaction::new(&funds, Some(date("2024-01-01")), Some(date("2024-01-04")));
    assert_eq!(t.ndays(), 2);
    assert_eq!(t.nfunds(), 2);
    assert_eq!(t.date()[0], date("2024-01-02"));
    assert_eq!(t.nav(0, 0), fp(100));
    assert_eq!(t.nav(0, 1), fp(50));
    assert_eq!(t.nav(1, 1), fp(51));
}

#[test]
fn test_default_window() {
    let hs = fund(
        "hs",
        "1",
        &[("2023-12-29", fp(90)), ("2024-01-02", fp(100)), ("2024-01-03", fp(101))],
    );
    let gz = fund(
        "gz",
        "2",
        &[("2024-01-02", fp(50)), ("2024-01-03", fp(51))],
    );
    let funds = vec![&hs, &gz];
    // start defaults to the latest first date, end to one past the earliest
    // last date
    let t = Transaction::from_funds(&funds);
    assert_eq!(t.start_date(), date("2024-01-02"));
    assert_eq!(t.end_date(), date("2024-01-04"));
    assert_eq!(t.ndays(), 2);
}

#[test]
fn test_buy_sell_round_trip() {
    let f = three_day_fund();
    let funds = vec![&f];
    let t = Transaction::new(&funds, None, None);
    let mut it = t.iter(false, false);
    it.inflow(fp(1000)).unwrap();
    it.buy(0, fp(100), fp(1)).unwrap();
    it.next_day().unwrap();
    // 99 / 100 shares, sold at 101 the next day
    let sh = it.share(0);
    assert_eq!(sh, 990_000);
    it.sell(0, sh, 0).unwrap();
    it.next_day().unwrap();
    assert_eq!(it.share(0), 0);
    // 900 kept + 0.99 * 101 = 999.99
    assert_eq!(it.cash(), fp(900) + 99_990_000);
    assert_eq!(it.asset(), it.cash());
}

#[test]
fn test_comments_join() {
    let f = three_day_fund();
    let funds = vec![&f];
    let t = Transaction::new(&funds, None, None);
    let mut it = t.iter(false, true);
    it.inflow_comment(fp(50), "first").unwrap();
    it.inflow_comment(fp(50), "second").unwrap();
    it.buy_comment(0, fp(10), 0, "one").unwrap();
    it.buy_comment(0, fp(10), 0, "two").unwrap();
    it.next_day().unwrap();
    let cash = it.cash_record().unwrap();
    assert_eq!(cash.records()[0].comment(), "first; second");
    let fr = it.fund_record(0).unwrap();
    assert_eq!(fr.records()[0].comment(), "one; two");
    assert_eq!(fr.records()[0].investment(), fp(20));
}

#[test]
fn test_logs() {
    let f = three_day_fund();
    let funds = vec![&f];
    let t = Transaction::new(&funds, None, None);
    let mut it = t.iter(true, false);
    it.inflow(fp(200)).unwrap();
    it.buy(0, fp(100), 0).unwrap();
    it.next_day().unwrap();
    it.next_day().unwrap();
    let cash_log = it.cash_log().unwrap();
    assert_eq!(cash_log, vec![fp(100), fp(100)]);
    let share_log = it.share_log(0).unwrap();
    assert_eq!(share_log, vec![fp(1), fp(1)]);
    // one share valued at each day's own nav
    let fa_log = it.fund_asset_log(0).unwrap();
    assert_eq!(fa_log, vec![fp(100), fp(101)]);
    let asset_log = it.asset_log().unwrap();
    assert_eq!(asset_log, vec![fp(200), fp(201)]);
    // the present state still values shares at the previous day's nav
    assert_eq!(it.asset(), fp(201));
}

#[test]
fn test_next_weekday_default() {
    let f = fund(
        "a",
        "1",
        &[
            ("2024-01-01", fp(100)), // Monday
            ("2024-01-03", fp(100)),
            ("2024-01-08", fp(100)), // Monday
            ("2024-01-09", fp(100)),
        ],
    );
    let funds = vec![&f];
    let t = Transaction::new(&funds, None, None);
    let mut it = t.iter(false, false);
    // the default weekday is today's
    assert!(it.next_weekday(None).is_some());
    assert_eq!(it.today(), date("2024-01-08"));
}
