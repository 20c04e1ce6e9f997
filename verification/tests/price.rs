use flowsurface::market::bucket_time;
use flowsurface::market::Timeframe;
use flowsurface::price::Price;
use flowsurface::price::PriceStep;

fn p(units: i64) -> Price {
    Price { units }
}

fn s(units: i64) -> PriceStep {
    PriceStep { units }
}

#[test]
fn zero_price_has_no_units() {
    assert_eq!(Price::zero(), p(0));
}

#[test]
fn nearest_rounding_goes_to_the_closer_multiple() {
    assert_eq!(p(14).round_to_step(s(10)), p(10));
    assert_eq!(p(16).round_to_step(s(10)), p(20));
    assert_eq!(p(20).round_to_step(s(10)), p(20));
    assert_eq!(p(0).round_to_step(s(10)), p(0));
    assert_eq!(p(4).round_to_step(s(10)), p(0));
}

#[test]
fn nearest_rounding_sends_a_tie_up() {
    assert_eq!(p(15).round_to_step(s(10)), p(20));
    assert_eq!(p(5).round_to_step(s(10)), p(10));
    assert_eq!(p(-5).round_to_step(s(10)), p(0));
    assert_eq!(p(-15).round_to_step(s(10)), p(-10));
    assert_eq!(p(2).round_to_step(s(4)), p(4));
}

#[test]
fn nearest_rounding_with_an_odd_step() {
    assert_eq!(p(1).round_to_step(s(3)), p(0));
    assert_eq!(p(2).round_to_step(s(3)), p(3));
    assert_eq!(p(4).round_to_step(s(3)), p(3));
    assert_eq!(p(5).round_to_step(s(3)), p(6));
    assert_eq!(p(-1).round_to_step(s(3)), p(0));
    assert_eq!(p(-2).round_to_step(s(3)), p(-3));
}

#[test]
fn nearest_rounding_of_negative_prices() {
    assert_eq!(p(-14).round_to_step(s(10)), p(-10));
    assert_eq!(p(-16).round_to_step(s(10)), p(-20));
}

#[test]
fn a_step_of_one_or_less_leaves_the_price() {
    assert_eq!(p(1234).round_to_step(s(1)), p(1234));
    assert_eq!(p(1234).round_to_step(s(0)), p(1234));
    assert_eq!(p(1234).round_to_step(s(-7)), p(1234));
    assert_eq!(p(-1234).round_to_side_step(true, s(1)), p(-1234));
    assert_eq!(p(-1234).round_to_side_step(false, s(0)), p(-1234));
}

#[test]
fn nearest_rounding_is_held_within_the_range() {
    assert_eq!(p(i64::MAX).round_to_step(s(10)), p(i64::MAX));
    assert_eq!(p(i64::MAX - 2).round_to_step(s(10)), p(i64::MAX));
    assert_eq!(p(i64::MAX - 3).round_to_step(s(10)), p(9223372036854775800));
    assert_eq!(p(i64::MAX - 8).round_to_step(s(10)), p(9223372036854775800));
    assert_eq!(p(i64::MIN).round_to_step(s(10)), p(i64::MIN));
    assert_eq!(p(i64::MIN).round_to_step(s(3)), p(i64::MIN));
    assert_eq!(p(i64::MIN).round_to_step(s(i64::MAX)), p(-i64::MAX));
    assert_eq!(p(i64::MAX).round_to_step(s(i64::MAX)), p(i64::MAX));
}

#[test]
fn side_rounding_sends_a_sell_down() {
    assert_eq!(p(19).round_to_side_step(true, s(10)), p(10));
    assert_eq!(p(10).round_to_side_step(true, s(10)), p(10));
    assert_eq!(p(11).round_to_side_step(true, s(10)), p(10));
    assert_eq!(p(-1).round_to_side_step(true, s(10)), p(-10));
    assert_eq!(p(-15).round_to_side_step(true, s(10)), p(-20));
}

#[test]
fn side_rounding_sends_a_buy_up() {
    assert_eq!(p(11).round_to_side_step(false, s(10)), p(20));
    assert_eq!(p(10).round_to_side_step(false, s(10)), p(10));
    assert_eq!(p(19).round_to_side_step(false, s(10)), p(20));
    assert_eq!(p(-1).round_to_side_step(false, s(10)), p(0));
    assert_eq!(p(-11).round_to_side_step(false, s(10)), p(-10));
}

#[test]
fn side_rounding_is_held_within_the_range() {
    assert_eq!(p(i64::MAX).round_to_side_step(false, s(10)), p(i64::MAX));
    assert_eq!(p(i64::MIN).round_to_side_step(true, s(10)), p(i64::MIN));
    assert_eq!(p(i64::MAX).round_to_side_step(true, s(10)), p(9223372036854775800));
    assert_eq!(p(i64::MIN).round_to_side_step(false, s(10)), p(-9223372036854775800));
}

#[test]
fn timeframes_in_milliseconds() {
    assert_eq!(Timeframe::MS100.to_milliseconds(), 100);
    assert_eq!(Timeframe::MS200.to_milliseconds(), 200);
    assert_eq!(Timeframe::MS300.to_milliseconds(), 300);
    assert_eq!(Timeframe::MS500.to_milliseconds(), 500);
    assert_eq!(Timeframe::MS1000.to_milliseconds(), 1_000);
    assert_eq!(Timeframe::M1.to_milliseconds(), 60_000);
    assert_eq!(Timeframe::M3.to_milliseconds(), 180_000);
    assert_eq!(Timeframe::M5.to_milliseconds(), 300_000);
    assert_eq!(Timeframe::M15.to_milliseconds(), 900_000);
    assert_eq!(Timeframe::M30.to_milliseconds(), 1_800_000);
    assert_eq!(Timeframe::H1.to_milliseconds(), 3_600_000);
    assert_eq!(Timeframe::H2.to_milliseconds(), 7_200_000);
    assert_eq!(Timeframe::H4.to_milliseconds(), 14_400_000);
    assert_eq!(Timeframe::H12.to_milliseconds(), 43_200_000);
    assert_eq!(Timeframe::D1.to_milliseconds(), 86_400_000);
}

#[test]
fn bucket_time_rounds_down_to_the_interval() {
    assert_eq!(bucket_time(0, 1000), 0);
    assert_eq!(bucket_time(999, 1000), 0);
    assert_eq!(bucket_time(1000, 1000), 1000);
    assert_eq!(bucket_time(2750, 1000), 2000);
    assert_eq!(bucket_time(u64::MAX, 1000), 18446744073709551000);
    assert_eq!(bucket_time(123, 1), 123);
}
