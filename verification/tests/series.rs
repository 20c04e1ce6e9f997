use flowsurface::aggr::gap::fetch_range;
use flowsurface::aggr::time::DataPoint;
use flowsurface::aggr::time::TimeSeries;
use flowsurface::chart::kline::ClusterKind;
use flowsurface::chart::kline::KlineDataPoint;
use flowsurface::chart::kline::KlineTrades;
use flowsurface::chart::kline::NPoc;
use flowsurface::market::Kline;
use flowsurface::market::Timeframe;
use flowsurface::market::Trade;
use flowsurface::price::Price;
use flowsurface::price::PriceStep;

fn p(units: i64) -> Price {
    Price { units }
}

fn step(units: i64) -> PriceStep {
    PriceStep { units }
}

fn buy(time: u64, price: i64, qty: u64) -> Trade {
    Trade { time, is_sell: false, price: p(price), qty }
}

fn sell(time: u64, price: i64, qty: u64) -> Trade {
    Trade { time, is_sell: true, price: p(price), qty }
}

fn candle(time: u64, open: i64, high: i64, low: i64, close: i64) -> Kline {
    Kline { time, open: p(open), high: p(high), low: p(low), close: p(close), volume: (0, 0) }
}

fn seconds(klines: &[Kline]) -> TimeSeries<KlineDataPoint> {
    TimeSeries::<KlineDataPoint>::new(Timeframe::MS1000, step(10), klines)
}

fn keys(series: &TimeSeries<KlineDataPoint>) -> Vec<u64> {
    series.datapoints.keys().copied().collect()
}

fn bin_prices(series: &TimeSeries<KlineDataPoint>, key: u64) -> Vec<i64> {
    let mut prices: Vec<i64> = series.datapoints[&key].footprint.trades.keys().copied().collect();
    prices.sort();
    prices
}

/// The point of control of a footprint, found over its bins sorted by price.
fn poc_by_hand(footprint: &KlineTrades) -> Option<(i64, u64)> {
    let mut bins: Vec<(i64, u64)> =
        footprint.trades.iter().map(|(price, bin)| (*price, bin.total_qty())).collect();
    bins.sort();
    let mut best: Option<(i64, u64)> = None;
    for (price, total) in bins {
        match best {
            Some((_, volume)) if total <= volume => {}
            _ => best = Some((price, total)),
        }
    }
    best
}

#[test]
fn an_empty_series_answers_with_neutral_values() {
    let series = seconds(&[]);
    assert!(series.datapoints.is_empty());
    assert_eq!(series.base_price(), p(0));
    assert_eq!(series.latest_timestamp(), None);
    assert!(series.latest_kline().is_none());
    assert_eq!(series.price_scale(10), (p(0), p(0)));
    assert_eq!(series.timerange(), (0, 0));
    assert_eq!(series.min_max_price_in_range_prices(0, u64::MAX), None);
    assert_eq!(series.check_kline_integrity(0, 0, 1000), None);
    assert_eq!(series.suggest_trade_fetch_range(0, u64::MAX), None);
    assert_eq!(series.find_trade_gap(), None);
    assert_eq!(series.max_qty_ts_range(ClusterKind::BidAsk, 0, u64::MAX, p(1000), p(0)), 0);
    assert!(series.volume_data().is_empty());
}

#[test]
fn a_new_series_holds_its_candles() {
    let series = seconds(&[candle(2000, 1, 4, 0, 3), candle(1000, 5, 8, 2, 6)]);
    assert_eq!(series.interval, Timeframe::MS1000);
    assert_eq!(series.tick_size, step(10));
    assert_eq!(keys(&series), vec![1000, 2000]);
    assert_eq!(series.datapoints[&1000].kline, candle(1000, 5, 8, 2, 6));
    assert_eq!(series.datapoints[&2000].kline, candle(2000, 1, 4, 0, 3));
    assert!(series.datapoints[&1000].footprint.trades.is_empty());
    assert!(series.datapoints[&1000].footprint.poc.is_none());
}

#[test]
fn base_price_and_latest_come_from_the_last_bucket() {
    let series = seconds(&[candle(3000, 1, 4, 0, 33), candle(1000, 5, 8, 2, 6)]);
    assert_eq!(series.base_price(), p(33));
    assert_eq!(series.latest_timestamp(), Some(3000));
    assert_eq!(series.latest_kline(), Some(&candle(3000, 1, 4, 0, 33)));
    assert_eq!(series.timerange(), (1000, 3000));
}

#[test]
fn the_greatest_key_is_found() {
    let series = seconds(&[candle(u64::MAX, 1, 4, 0, 33), candle(0, 5, 8, 2, 6)]);
    assert_eq!(series.latest_timestamp(), Some(u64::MAX));
    assert_eq!(series.timerange(), (0, u64::MAX));
    assert_eq!(series.base_price(), p(33));
    assert_eq!(series.min_max_price_in_range_prices(0, u64::MAX), Some((p(0), p(8))));
    assert_eq!(series.price_scale(5), (p(8), p(0)));
}

#[test]
fn a_later_candle_replaces_an_earlier_one_and_keeps_the_footprint() {
    let mut series = seconds(&[candle(1000, 5, 8, 2, 6)]);
    series.insert_trades_existing_buckets(&[buy(1500, 104, 3)]);
    series.insert_klines(&[candle(1000, 5, 9, 1, 7), candle(1000, 5, 10, 1, 8)]);
    assert_eq!(keys(&series), vec![1000]);
    assert_eq!(series.datapoints[&1000].kline, candle(1000, 5, 10, 1, 8));
    assert_eq!(bin_prices(&series, 1000), vec![100]);
    assert_eq!(series.datapoints[&1000].poc_price(), Some(p(100)));
}

#[test]
fn price_scale_looks_back_over_the_last_buckets() {
    let series = seconds(&[
        candle(1000, 0, 90, 10, 0),
        candle(2000, 0, 50, 5, 0),
        candle(3000, 0, 60, 20, 0),
        candle(4000, 0, 40, 30, 0),
    ]);
    assert_eq!(series.price_scale(1), (p(40), p(30)));
    assert_eq!(series.price_scale(2), (p(60), p(20)));
    assert_eq!(series.price_scale(3), (p(60), p(5)));
    assert_eq!(series.price_scale(4), (p(90), p(5)));
}

#[test]
fn price_scale_with_a_long_lookback_scans_the_whole_series() {
    let series = seconds(&[
        candle(1000, 0, 90, 10, 0),
        candle(2000, 0, 50, 5, 0),
        candle(3000, 0, 60, 20, 0),
    ]);
    let whole = series.min_max_price_in_range_prices(0, u64::MAX).unwrap();
    for lookback in [3, 4, 100, usize::MAX] {
        let (high, low) = series.price_scale(lookback);
        assert_eq!((low, high), whole);
        assert_eq!((high, low), (p(90), p(5)));
    }
}

#[test]
fn price_scale_without_lookback_is_zero() {
    let series = seconds(&[candle(1000, 0, 90, 10, 0)]);
    assert_eq!(series.price_scale(0), (p(0), p(0)));
    assert_eq!(seconds(&[]).price_scale(0), (p(0), p(0)));
    assert_eq!(seconds(&[]).price_scale(7), (p(0), p(0)));
}

#[test]
fn min_and_max_over_a_range_of_buckets() {
    let series = seconds(&[
        candle(1000, 0, 90, 10, 0),
        candle(2000, 0, 50, 5, 0),
        candle(3000, 0, 60, 20, 0),
        candle(4000, 0, 40, 30, 0),
    ]);
    assert_eq!(series.min_max_price_in_range_prices(2000, 3000), Some((p(5), p(60))));
    assert_eq!(series.min_max_price_in_range_prices(2001, 4000), Some((p(20), p(60))));
    assert_eq!(series.min_max_price_in_range_prices(1000, 1000), Some((p(10), p(90))));
    assert_eq!(series.min_max_price_in_range_prices(0, 999), None);
    assert_eq!(series.min_max_price_in_range_prices(4001, u64::MAX), None);
    assert_eq!(series.min_max_price_in_range_prices(1001, 1999), None);
    assert_eq!(series.min_max_price_in_range_prices(3000, 2000), None);
    assert_eq!(series.min_max_price_in_range_prices(0, u64::MAX), Some((p(5), p(90))));
}

#[test]
fn a_dense_series_has_no_gap() {
    let series = seconds(&[
        candle(1000, 0, 1, 0, 0),
        candle(2000, 0, 1, 0, 0),
        candle(3000, 0, 1, 0, 0),
        candle(4000, 0, 1, 0, 0),
    ]);
    assert_eq!(series.check_kline_integrity(1000, 5000, 1000), None);
    assert_eq!(series.check_kline_integrity(1000, 4000, 1000), None);
    assert_eq!(series.check_kline_integrity(2000, 4001, 1000), None);
    assert_eq!(series.check_kline_integrity(1000, 5000, 3000), None);
    assert_eq!(series.check_kline_integrity(5000, 5000, 1000), None);
    assert_eq!(series.check_kline_integrity(5000, 1000, 1000), None);
}

#[test]
fn one_missing_bucket_is_reported_alone() {
    for gone in [1000u64, 2000, 3000, 4000] {
        let klines: Vec<Kline> = [1000u64, 2000, 3000, 4000]
            .iter()
            .filter(|time| **time != gone)
            .map(|time| candle(*time, 0, 1, 0, 0))
            .collect();
        let series = seconds(&klines);
        assert_eq!(series.check_kline_integrity(1000, 5000, 1000), Some(vec![gone]));
    }
}

#[test]
fn missing_buckets_are_reported_in_order() {
    let series = seconds(&[candle(2000, 0, 1, 0, 0), candle(5000, 0, 1, 0, 0)]);
    assert_eq!(
        series.check_kline_integrity(1000, 7000, 1000),
        Some(vec![1000, 3000, 4000, 6000])
    );
    assert_eq!(
        series.check_kline_integrity(1000, 7001, 1000),
        Some(vec![1000, 3000, 4000, 6000, 7000])
    );
    assert_eq!(series.check_kline_integrity(2000, 5001, 3000), None);
    assert_eq!(series.check_kline_integrity(1500, 3000, 1000), Some(vec![1500, 2500]));
    assert_eq!(seconds(&[]).check_kline_integrity(0, 2500, 1000), Some(vec![0, 1000, 2000]));
}

#[test]
fn the_latest_time_is_not_expected() {
    let series = seconds(&[candle(1000, 0, 1, 0, 0)]);
    assert_eq!(series.check_kline_integrity(1000, 2000, 1000), None);
    assert_eq!(series.check_kline_integrity(1000, 2001, 1000), Some(vec![2000]));
}

#[test]
fn an_interval_of_zero_expects_the_earliest_time_alone() {
    let series = seconds(&[candle(1000, 0, 1, 0, 0)]);
    assert_eq!(series.check_kline_integrity(1000, 5000, 0), None);
    assert_eq!(series.check_kline_integrity(2000, 5000, 0), Some(vec![2000]));
    assert_eq!(series.check_kline_integrity(2000, 2000, 0), None);
}

#[test]
fn the_integrity_walk_ends_at_the_end_of_time() {
    let series = seconds(&[candle(u64::MAX - 10, 0, 1, 0, 0)]);
    assert_eq!(series.check_kline_integrity(u64::MAX - 10, u64::MAX, 8), Some(vec![u64::MAX - 2]));
    assert_eq!(series.check_kline_integrity(u64::MAX - 10, u64::MAX, 20), None);
    assert_eq!(
        series.check_kline_integrity(u64::MAX - 5, u64::MAX, u64::MAX),
        Some(vec![u64::MAX - 5])
    );
}

#[test]
fn trades_open_buckets_at_the_start_of_their_interval() {
    let mut series = seconds(&[]);
    series.insert_trades_or_create_bucket(&[
        buy(1250, 104, 3),
        sell(1999, 96, 4),
        buy(2000, 120, 5),
        sell(4321, 200, 1),
    ]);
    assert_eq!(keys(&series), vec![1000, 2000, 4000]);
    assert_eq!(
        series.datapoints[&1000].kline,
        Kline { time: 1000, open: p(104), high: p(104), low: p(104), close: p(104), volume: (0, 0) }
    );
    assert_eq!(
        series.datapoints[&4000].kline,
        Kline { time: 4000, open: p(200), high: p(200), low: p(200), close: p(200), volume: (0, 0) }
    );
    assert_eq!(bin_prices(&series, 1000), vec![100]);
    let bin = series.datapoints[&1000].footprint.trades[&100];
    assert_eq!((bin.buy_qty, bin.sell_qty), (3, 4));
    assert_eq!((bin.first_time, bin.last_time), (1250, 1999));
    assert_eq!(bin_prices(&series, 2000), vec![120]);
    assert_eq!(bin_prices(&series, 4000), vec![200]);
}

#[test]
fn trades_do_not_change_the_candle_of_a_bucket_that_is_there() {
    let mut series = seconds(&[candle(1000, 5, 8, 2, 6)]);
    series.insert_trades_or_create_bucket(&[buy(1250, 104, 3), buy(1300, 1, 3)]);
    assert_eq!(series.datapoints[&1000].kline, candle(1000, 5, 8, 2, 6));
    assert_eq!(bin_prices(&series, 1000), vec![0, 100]);
}

#[test]
fn every_bucket_that_took_a_trade_has_its_point_of_control() {
    let mut series = seconds(&[candle(7000, 1, 2, 0, 1)]);
    let batch = [
        buy(1250, 104, 3),
        sell(1999, 96, 4),
        buy(1500, 118, 7),
        buy(2000, 120, 5),
        sell(2100, 131, 5),
        buy(2200, 140, 4),
        sell(2300, 141, 1),
        sell(4321, 200, 1),
        buy(1600, 121, 10),
    ];
    series.insert_trades_or_create_bucket(&batch);
    assert_eq!(keys(&series), vec![1000, 2000, 4000, 7000]);
    for key in [1000u64, 2000, 4000] {
        let footprint = &series.datapoints[&key].footprint;
        let poc = footprint.poc.unwrap();
        assert_eq!(Some((poc.price.units, poc.volume)), poc_by_hand(footprint));
        assert_eq!(poc.status, NPoc::Unset);
    }
    assert_eq!(series.datapoints[&1000].poc_price(), Some(p(120)));
    assert_eq!(series.datapoints[&1000].footprint.poc.unwrap().volume, 17);
    assert_eq!(series.datapoints[&2000].poc_price(), Some(p(120)));
    assert_eq!(series.datapoints[&2000].footprint.poc.unwrap().volume, 5);
    assert_eq!(series.datapoints[&4000].poc_price(), Some(p(200)));
    assert!(series.datapoints[&7000].footprint.poc.is_none());
}

#[test]
fn a_bucket_that_took_no_trade_keeps_its_point_of_control() {
    let mut series = seconds(&[]);
    series.insert_trades_or_create_bucket(&[buy(1250, 104, 3)]);
    series.update_poc_status();
    assert_eq!(series.datapoints[&1000].footprint.poc.unwrap().status, NPoc::Naked);
    series.insert_trades_or_create_bucket(&[buy(2250, 300, 3)]);
    assert_eq!(series.datapoints[&1000].footprint.poc.unwrap().status, NPoc::Naked);
    assert_eq!(series.datapoints[&2000].footprint.poc.unwrap().status, NPoc::Unset);
}

#[test]
fn an_empty_batch_changes_nothing() {
    let mut series = seconds(&[candle(1000, 5, 8, 2, 6)]);
    series.insert_trades_or_create_bucket(&[]);
    series.insert_trades_existing_buckets(&[]);
    assert_eq!(keys(&series), vec![1000]);
    assert!(series.datapoints[&1000].footprint.trades.is_empty());
    assert!(series.datapoints[&1000].footprint.poc.is_none());
}

#[test]
fn trades_for_buckets_that_are_not_there_are_dropped() {
    let mut series = seconds(&[candle(1000, 5, 8, 2, 6), candle(3000, 5, 8, 2, 6)]);
    series.insert_trades_existing_buckets(&[
        buy(1250, 104, 3),
        buy(2250, 104, 3),
        sell(3999, 96, 4),
        sell(4000, 96, 4),
        buy(999, 96, 4),
    ]);
    assert_eq!(keys(&series), vec![1000, 3000]);
    assert_eq!(bin_prices(&series, 1000), vec![100]);
    assert_eq!(bin_prices(&series, 3000), vec![100]);
    assert_eq!(series.datapoints[&1000].footprint.trades[&100].buy_qty, 3);
    assert_eq!(series.datapoints[&3000].footprint.trades[&100].sell_qty, 4);
    assert_eq!(series.datapoints[&1000].poc_price(), Some(p(100)));
    assert_eq!(series.datapoints[&3000].poc_price(), Some(p(100)));
}

#[test]
fn with_trades_leaves_the_series_as_it_is() {
    let series = seconds(&[candle(1000, 5, 8, 2, 6)]);
    let copy = series.with_trades(&[buy(1250, 104, 3), buy(2250, 104, 3)]);
    assert_eq!(keys(&series), vec![1000]);
    assert!(series.datapoints[&1000].footprint.trades.is_empty());
    assert_eq!(keys(&copy), vec![1000, 2000]);
    assert_eq!(bin_prices(&copy, 1000), vec![100]);
    assert_eq!(copy.datapoints[&1000].kline, candle(1000, 5, 8, 2, 6));
    assert_eq!(copy.interval, Timeframe::MS1000);
    assert_eq!(copy.tick_size, step(10));
}

#[test]
fn clearing_keeps_the_candles() {
    let mut series = seconds(&[candle(1000, 5, 8, 2, 6), candle(2000, 5, 8, 2, 6)]);
    series.insert_trades_or_create_bucket(&[buy(1250, 104, 3), buy(2250, 104, 3), buy(3250, 1, 3)]);
    series.clear_trades();
    assert_eq!(keys(&series), vec![1000, 2000, 3000]);
    for key in [1000u64, 2000, 3000] {
        assert!(series.datapoints[&key].footprint.trades.is_empty());
        assert!(series.datapoints[&key].footprint.poc.is_none());
    }
    assert_eq!(series.datapoints[&1000].kline, candle(1000, 5, 8, 2, 6));
    assert_eq!(series.datapoints[&3000].kline.open, p(1));
}

#[test]
fn a_changed_tick_size_gives_the_bins_of_a_series_built_with_it() {
    let klines = [candle(1000, 5, 8, 2, 6), candle(2000, 5, 8, 2, 6), candle(3000, 5, 8, 2, 6)];
    let trades = [
        buy(1250, 104, 3),
        sell(1300, 111, 2),
        buy(1400, 126, 3),
        buy(2250, 149, 3),
        sell(2260, 151, 3),
        buy(5000, 100, 1),
    ];
    let mut changed = seconds(&klines);
    changed.insert_trades_existing_buckets(&trades);
    assert_eq!(bin_prices(&changed, 1000), vec![100, 110, 130]);
    changed.change_tick_size(step(50), &trades);

    let mut fresh = TimeSeries::<KlineDataPoint>::new(Timeframe::MS1000, step(50), &klines);
    fresh.insert_trades_existing_buckets(&trades);

    assert_eq!(changed.tick_size, step(50));
    assert_eq!(keys(&changed), keys(&fresh));
    for key in keys(&changed) {
        assert_eq!(bin_prices(&changed, key), bin_prices(&fresh, key));
        assert_eq!(changed.datapoints[&key].kline, fresh.datapoints[&key].kline);
        assert_eq!(changed.datapoints[&key].poc_price(), fresh.datapoints[&key].poc_price());
    }
    assert_eq!(bin_prices(&changed, 1000), vec![100, 150]);
    assert_eq!(bin_prices(&changed, 2000), vec![150]);
    assert_eq!(bin_prices(&changed, 3000), Vec::<i64>::new());
    assert_eq!(changed.datapoints[&1000].footprint.trades[&100].buy_qty, 3);
    assert_eq!(changed.datapoints[&1000].footprint.trades[&100].sell_qty, 2);
}

#[test]
fn a_changed_tick_size_gives_the_bins_of_a_series_opened_by_the_trades() {
    let trades = [
        buy(1250, 104, 3),
        sell(1300, 111, 2),
        buy(1400, 126, 3),
        buy(2250, 149, 3),
        sell(2260, 151, 3),
        buy(5000, 100, 1),
    ];
    let mut changed = seconds(&[]);
    changed.insert_trades_or_create_bucket(&trades);
    changed.change_tick_size(step(25), &trades);

    let mut fresh = TimeSeries::<KlineDataPoint>::new(Timeframe::MS1000, step(25), &[]);
    fresh.insert_trades_or_create_bucket(&trades);

    assert_eq!(keys(&changed), vec![1000, 2000, 5000]);
    assert_eq!(keys(&changed), keys(&fresh));
    for key in keys(&changed) {
        assert_eq!(bin_prices(&changed, key), bin_prices(&fresh, key));
        assert_eq!(changed.datapoints[&key].poc_price(), fresh.datapoints[&key].poc_price());
    }
    assert_eq!(bin_prices(&changed, 1000), vec![100, 125]);
    assert_eq!(bin_prices(&changed, 2000), vec![150]);
    assert_eq!(bin_prices(&changed, 5000), vec![100]);
}

#[test]
fn a_changed_tick_size_without_trades_leaves_empty_footprints() {
    let mut series = seconds(&[candle(1000, 5, 8, 2, 6)]);
    series.insert_trades_or_create_bucket(&[buy(1250, 104, 3), buy(2250, 104, 3)]);
    series.change_tick_size(step(50), &[]);
    assert_eq!(series.tick_size, step(50));
    assert_eq!(keys(&series), vec![1000, 2000]);
    assert!(series.datapoints[&1000].footprint.trades.is_empty());
    assert!(series.datapoints[&2000].footprint.poc.is_none());
    assert_eq!(series.datapoints[&1000].kline, candle(1000, 5, 8, 2, 6));
}

#[test]
fn the_first_later_bucket_that_covers_the_price_fills_it() {
    let mut series = seconds(&[]);
    series.insert_trades_or_create_bucket(&[buy(1100, 500, 9)]);
    series.insert_klines(&[
        candle(2000, 600, 700, 600, 650),
        candle(3000, 450, 550, 450, 500),
        candle(4000, 400, 600, 400, 500),
    ]);
    assert_eq!(series.datapoints[&1000].poc_price(), Some(p(500)));
    assert_eq!(series.datapoints[&1000].footprint.poc.unwrap().status, NPoc::Filled { at: 3000 });
    series.insert_klines(&[candle(5000, 300, 900, 300, 500)]);
    assert_eq!(series.datapoints[&1000].footprint.poc.unwrap().status, NPoc::Filled { at: 3000 });
    series.update_poc_status();
    assert_eq!(series.datapoints[&1000].footprint.poc.unwrap().status, NPoc::Filled { at: 3000 });
}

#[test]
fn a_price_that_no_later_bucket_covers_stays_naked() {
    let mut series = seconds(&[]);
    series.insert_trades_or_create_bucket(&[buy(1100, 500, 9), buy(3100, 800, 9)]);
    series.insert_klines(&[candle(2000, 600, 700, 600, 650)]);
    assert_eq!(series.datapoints[&1000].footprint.poc.unwrap().status, NPoc::Naked);
    assert_eq!(series.datapoints[&3000].footprint.poc.unwrap().status, NPoc::Naked);
    assert!(series.datapoints[&2000].footprint.poc.is_none());
}

#[test]
fn an_earlier_bucket_does_not_fill() {
    let mut series = seconds(&[candle(1000, 400, 600, 400, 500)]);
    series.insert_trades_or_create_bucket(&[buy(2100, 500, 9)]);
    series.update_poc_status();
    assert_eq!(series.datapoints[&2000].footprint.poc.unwrap().status, NPoc::Naked);
}

#[test]
fn low_and_high_are_rounded_outward_before_they_cover() {
    let mut series = seconds(&[]);
    series.insert_trades_or_create_bucket(&[buy(1100, 500, 9), buy(1200, 520, 10)]);
    assert_eq!(series.datapoints[&1000].poc_price(), Some(p(520)));
    series.insert_klines(&[candle(2000, 521, 529, 521, 525)]);
    assert_eq!(series.datapoints[&1000].footprint.poc.unwrap().status, NPoc::Filled { at: 2000 });

    let mut series = seconds(&[]);
    series.insert_trades_or_create_bucket(&[buy(1200, 520, 10)]);
    series.insert_klines(&[candle(2000, 511, 519, 511, 515)]);
    assert_eq!(series.datapoints[&1000].footprint.poc.unwrap().status, NPoc::Filled { at: 2000 });

    let mut series = seconds(&[]);
    series.insert_trades_or_create_bucket(&[buy(1200, 520, 10)]);
    series.insert_klines(&[candle(2000, 531, 539, 531, 535)]);
    assert_eq!(series.datapoints[&1000].footprint.poc.unwrap().status, NPoc::Naked);
}

#[test]
fn the_status_keeps_price_and_volume() {
    let mut series = seconds(&[]);
    series.insert_trades_or_create_bucket(&[buy(1100, 500, 9), sell(1200, 500, 2)]);
    series.insert_klines(&[candle(2000, 450, 550, 450, 500)]);
    let poc = series.datapoints[&1000].footprint.poc.unwrap();
    assert_eq!(poc.price, p(500));
    assert_eq!(poc.volume, 11);
    assert_eq!(poc.status, NPoc::Filled { at: 2000 });
    assert_eq!(bin_prices(&series, 1000), vec![500]);
}

#[test]
fn the_gap_is_fetched_up_to_the_first_trade_after_it() {
    let mut series = seconds(&[
        candle(1000, 5, 8, 2, 6),
        candle(2000, 5, 8, 2, 6),
        candle(3000, 5, 8, 2, 6),
    ]);
    series.insert_trades_existing_buckets(&[buy(2000, 104, 3), buy(2500, 104, 3), buy(3100, 1, 1)]);
    assert_eq!(series.find_trade_gap(), Some((None, Some(2000))));
    assert_eq!(series.suggest_trade_fetch_range(500, 3500), Some((1000, 1999)));
    assert_eq!(series.suggest_trade_fetch_range(1200, 1700), Some((1200, 1700)));
    assert_eq!(series.suggest_trade_fetch_range(1999, 3500), None);
    assert_eq!(series.suggest_trade_fetch_range(2000, 3500), None);
}

#[test]
fn the_gap_is_fetched_from_the_last_trade_before_it() {
    let mut series = seconds(&[
        candle(1000, 5, 8, 2, 6),
        candle(2000, 5, 8, 2, 6),
        candle(3000, 5, 8, 2, 6),
        candle(4000, 5, 8, 2, 6),
    ]);
    series.insert_trades_existing_buckets(&[buy(1100, 104, 3), buy(1700, 104, 3), buy(4200, 1, 1)]);
    assert_eq!(series.find_trade_gap(), Some((Some(1700), Some(4200))));
    assert_eq!(series.suggest_trade_fetch_range(0, u64::MAX), Some((1701, 4199)));
    assert_eq!(series.suggest_trade_fetch_range(2000, 3000), Some((2000, 3000)));
    assert_eq!(series.suggest_trade_fetch_range(4199, 9000), None);
}

#[test]
fn a_gap_at_the_end_is_fetched_up_to_the_last_bucket() {
    let mut series = seconds(&[candle(1000, 5, 8, 2, 6), candle(2000, 5, 8, 2, 6)]);
    series.insert_trades_existing_buckets(&[buy(1100, 104, 3)]);
    assert_eq!(series.find_trade_gap(), Some((Some(1100), None)));
    assert_eq!(series.suggest_trade_fetch_range(0, u64::MAX), Some((1101, 2000)));
}

#[test]
fn without_a_trade_on_either_side_there_is_nothing_to_fetch() {
    let series = seconds(&[candle(1000, 5, 8, 2, 6), candle(2000, 5, 8, 2, 6)]);
    assert_eq!(series.find_trade_gap(), Some((None, None)));
    assert_eq!(series.suggest_trade_fetch_range(0, u64::MAX), None);
}

#[test]
fn without_an_empty_bucket_there_is_nothing_to_fetch() {
    let mut series = seconds(&[]);
    series.insert_trades_or_create_bucket(&[buy(1100, 104, 3), buy(2100, 104, 3)]);
    assert_eq!(series.find_trade_gap(), None);
    assert_eq!(series.suggest_trade_fetch_range(0, u64::MAX), None);
}

#[test]
fn fetch_range_by_its_formula() {
    assert_eq!(fetch_range((None, None), 0, 100, 0, 100), None);
    assert_eq!(fetch_range((Some(10), Some(20)), 0, 100, 0, 100), Some((11, 19)));
    assert_eq!(fetch_range((Some(10), Some(12)), 0, 100, 0, 100), None);
    assert_eq!(fetch_range((Some(10), Some(13)), 0, 100, 0, 100), Some((11, 12)));
    assert_eq!(fetch_range((None, Some(20)), 5, 100, 0, 100), Some((5, 19)));
    assert_eq!(fetch_range((Some(10), None), 5, 90, 0, 100), Some((11, 90)));
    assert_eq!(fetch_range((Some(10), Some(20)), 0, 100, 15, 17), Some((15, 17)));
    assert_eq!(fetch_range((Some(u64::MAX), None), 0, u64::MAX, 0, u64::MAX), None);
    assert_eq!(fetch_range((None, Some(0)), 0, 100, 0, 100), None);
    assert_eq!(fetch_range((Some(u64::MAX - 1), Some(0)), 0, 100, 0, u64::MAX), None);
}

#[test]
fn the_greatest_cluster_quantity_over_buckets_and_prices() {
    let mut series = seconds(&[]);
    series.insert_trades_or_create_bucket(&[
        buy(1100, 100, 3),
        sell(1200, 100, 9),
        buy(2100, 200, 20),
        sell(2200, 200, 15),
        buy(3100, 300, 50),
    ]);
    let all = (0u64, u64::MAX);
    assert_eq!(series.max_qty_ts_range(ClusterKind::BidAsk, all.0, all.1, p(300), p(100)), 50);
    assert_eq!(series.max_qty_ts_range(ClusterKind::BidAsk, 1000, 2000, p(300), p(100)), 20);
    assert_eq!(series.max_qty_ts_range(ClusterKind::VolumeProfile, 1000, 2000, p(300), p(0)), 35);
    assert_eq!(series.max_qty_ts_range(ClusterKind::DeltaProfile, 1000, 2000, p(300), p(0)), 6);
    assert_eq!(series.max_qty_ts_range(ClusterKind::BidAsk, 1000, 2000, p(150), p(100)), 9);
    assert_eq!(series.max_qty_ts_range(ClusterKind::BidAsk, 1001, 1999, p(300), p(100)), 0);
    assert_eq!(series.max_qty_ts_range(ClusterKind::BidAsk, 3000, 1000, p(300), p(100)), 0);
    assert_eq!(series.max_qty_ts_range(ClusterKind::BidAsk, all.0, all.1, p(100), p(300)), 0);
}

#[test]
fn volume_data_lists_the_volume_of_every_candle() {
    let mut first = candle(1000, 5, 8, 2, 6);
    first.volume = (7, 9);
    let mut second = candle(2000, 5, 8, 2, 6);
    second.volume = (1, 0);
    let series = seconds(&[first, second]);
    let volumes = series.volume_data();
    assert_eq!(volumes.len(), 2);
    assert_eq!(volumes[&1000], (7, 9));
    assert_eq!(volumes[&2000], (1, 0));
    let converted = std::collections::BTreeMap::<u64, (u64, u64)>::from(&series);
    assert_eq!(converted, volumes);
}

#[test]
fn a_candle_bucket_as_a_data_point() {
    let mut dp = KlineDataPoint { kline: candle(0, 10, 40, 5, 30), footprint: KlineTrades::new() };
    assert_eq!(DataPoint::last_price(&dp), p(30));
    assert_eq!(DataPoint::value_high(&dp), p(40));
    assert_eq!(DataPoint::value_low(&dp), p(5));
    assert_eq!(DataPoint::kline(&dp), Some(&candle(0, 10, 40, 5, 30)));
    assert_eq!(DataPoint::first_trade_time(&dp), None);
    DataPoint::add_trade(&mut dp, &sell(7, 96, 2), step(10));
    DataPoint::add_trade(&mut dp, &sell(3, 104, 2), step(10));
    assert_eq!(DataPoint::first_trade_time(&dp), Some(7));
    assert_eq!(DataPoint::last_trade_time(&dp), Some(3));
    assert_eq!(dp.footprint.trades[&100].sell_qty, 4);
    DataPoint::clear_trades(&mut dp);
    assert_eq!(DataPoint::last_trade_time(&dp), None);
    assert_eq!(DataPoint::last_price(&dp), p(30));
}
