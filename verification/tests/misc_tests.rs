use fssm::agents::make_market;
use fssm::agents::tick_interval;
use fssm::agents::Operation;
use fssm::agents::Pace;
use fssm::agents::Task;
use fssm::globals::granularity_index;
use fssm::globals::granularity_max_measurements;
use fssm::globals::next_granularity;
use fssm::globals::ACCELERATION_PARAMETER;
use fssm::globals::GRANULARITY;
use fssm::order::Order;
use fssm::order::OrderDetails;
use fssm::order::OrderType;
use fssm::order::OrderVariant;
use fssm::order::Stock;
use fssm::price::Price;
use fssm::record::drain_whole_seconds;
use fssm::record::StockRecord;
use fssm::time::MTime;
use fssm::transaction::Transaction;

fn price(value: f64) -> Price {
    Price::from_bits(value.to_bits())
}

fn value(p: Price) -> f64 {
    f64::from_bits(p.to_bits())
}

#[test]
fn price_keys_round_trip() {
    for x in [0.0, 1.0, -1.0, 9.5, 100.9, f64::MIN, f64::MAX, f64::MIN_POSITIVE, 1e-300, -1e300] {
        assert_eq!(value(price(x)).to_bits(), x.to_bits());
    }
    for bits in [0u64, 1, u64::MAX, (1 << 63) - 1, (1 << 63) + 1] {
        assert_eq!(Price::from_bits(bits).to_bits(), bits);
    }
    assert_eq!(Price::from_bits(0).key, 1 << 63);
    assert_eq!(Price::from_bits((1 << 63) + 1).key, (1 << 63) - 2);
    assert_eq!(Price::from_bits(u64::MAX).key, 0);
    assert_eq!(Price { key: 0 }.to_bits(), u64::MAX);
    assert_eq!(Price { key: u64::MAX }.to_bits(), (1 << 63) - 1);
}

#[test]
fn the_two_zeros_are_one_price() {
    assert_eq!(price(-0.0), price(0.0));
    assert_eq!(Price::from_bits(1 << 63).key, 1 << 63);
    assert_eq!(value(price(-0.0)).to_bits(), 0.0f64.to_bits());
    assert!(price(-f64::MIN_POSITIVE).key < price(-0.0).key);
    assert!(price(-0.0).key < price(f64::MIN_POSITIVE).key);
}

#[test]
fn price_keys_order_as_the_numbers_do() {
    let ladder = [
        f64::NEG_INFINITY,
        f64::MIN,
        -1e10,
        -100.9,
        -1.0,
        -f64::MIN_POSITIVE,
        -0.0,
        0.0,
        f64::MIN_POSITIVE,
        0.5,
        9.5,
        10.0,
        100.9,
        1e10,
        f64::MAX,
        f64::INFINITY,
    ];
    for a in ladder.iter() {
        for b in ladder.iter() {
            assert_eq!(price(*a).key < price(*b).key, a < b, "{a} and {b}");
            assert_eq!(price(*a) == price(*b), a == b, "{a} and {b}");
            assert_eq!(Some(price(*a).key.cmp(&price(*b).key)), a.partial_cmp(b));
        }
    }
    // what is no number lies beyond the infinities
    assert!(price(f64::NAN).key > price(f64::INFINITY).key);
    assert!(price(-f64::NAN).key < price(f64::NEG_INFINITY).key);
}

#[test]
fn price_sentinels_and_extremes() {
    assert_eq!(Price::zero(), price(0.0));
    assert_eq!(Price::lowest(), price(f64::MIN));
    assert_eq!(Price::highest(), price(f64::MAX));
    assert_eq!(price(3.0).max(price(4.0)), price(4.0));
    assert_eq!(price(3.0).min(price(4.0)), price(3.0));
    assert_eq!(price(-3.0).max(price(-4.0)), price(-3.0));
    assert_eq!(price(-3.0).min(price(-4.0)), price(-4.0));
    assert_eq!(price(2.0).max(price(2.0)), price(2.0));
    assert_eq!(Price::lowest().max(price(-7.0)), price(-7.0));
    assert_eq!(Price::highest().min(price(7.0)), price(7.0));
}

#[test]
fn seconds_are_counted_in_real_nanoseconds() {
    assert_eq!(MTime::which_second(0), 0);
    assert_eq!(MTime::which_second(1), 0);
    assert_eq!(MTime::which_second(277_776), 0);
    assert_eq!(MTime::which_second(277_777), 1);
    assert_eq!(MTime::which_second(555_553), 1);
    assert_eq!(MTime::which_second(555_554), 2);
    assert_eq!(MTime::which_second(i64::MAX), (i64::MAX / 277_777) as u64);
    // before the epoch the quotient is rounded towards zero and wraps
    assert_eq!(MTime::which_second(-1), 0);
    assert_eq!(MTime::which_second(-277_776), 0);
    assert_eq!(MTime::which_second(-277_777), u64::MAX);
    assert_eq!(MTime::which_second(-555_554), u64::MAX - 1);
    assert_eq!(MTime::which_second(i64::MIN), (i64::MIN / 277_777) as u64);
}

#[test]
fn market_time_is_wall_time_since_the_epoch() {
    let clock = MTime::new(1_000);
    assert_eq!(clock.epoch, 1_000);
    assert_eq!(clock.since_epoch(1_500), Some(500));
    assert_eq!(clock.since_epoch(400), Some(-600));
    assert_eq!(MTime::new(-1).since_epoch(i64::MAX), None);
    assert_eq!(MTime::new(1).since_epoch(i64::MIN), None);
    assert_eq!(MTime::new(i64::MIN).since_epoch(-1), Some(i64::MAX));
}

#[test]
fn the_clock_runs() {
    let clock = MTime::start().unwrap();
    let first = clock.now().unwrap();
    assert!(first >= 0 && first < 60_000_000_000);
    let mut later = clock.now().unwrap();
    while later == first {
        later = clock.now().unwrap();
    }
    assert!(later > first);
    let second = clock.current_second().unwrap();
    assert!(second >= MTime::which_second(first));
    // the wall clock is far from the beginning of 1970
    assert!(MTime::new(0).now().unwrap() > 1_600_000_000_000_000_000);
}

#[test]
fn granularities_chain_up_to_days() {
    assert_eq!(ACCELERATION_PARAMETER, 3600);
    assert_eq!(GRANULARITY::INSTANT.nanos(), 0);
    assert_eq!(GRANULARITY::SECOND.nanos(), (1e9 / 3600.0) as u64);
    assert_eq!(GRANULARITY::MINUTE.nanos(), (60.0 * 1e9 / 3600.0) as u64);
    assert_eq!(GRANULARITY::HOUR.nanos(), ((60.0 * 60.0 * 1e9) / 3600.0) as u64);
    assert_eq!(GRANULARITY::DAY.nanos(), ((24.0 * 60.0 * 60.0 * 1e9) / 3600.0) as u64);
    assert_eq!(GRANULARITY::SECOND.nanos(), 277_777);
    assert_eq!(GRANULARITY::DAY.nanos(), 24_000_000_000);
    assert_eq!(next_granularity(GRANULARITY::SECOND), GRANULARITY::MINUTE);
    assert_eq!(next_granularity(GRANULARITY::MINUTE), GRANULARITY::HOUR);
    assert_eq!(next_granularity(GRANULARITY::HOUR), GRANULARITY::DAY);
    assert_eq!(next_granularity(GRANULARITY::DAY), GRANULARITY::INSTANT);
    assert_eq!(next_granularity(GRANULARITY::INSTANT), GRANULARITY::INSTANT);
    assert_eq!(granularity_index(GRANULARITY::SECOND), 0);
    assert_eq!(granularity_index(GRANULARITY::MINUTE), 1);
    assert_eq!(granularity_index(GRANULARITY::HOUR), 2);
    assert_eq!(granularity_index(GRANULARITY::DAY), 3);
    assert_eq!(granularity_max_measurements(GRANULARITY::SECOND), 60);
    assert_eq!(granularity_max_measurements(GRANULARITY::MINUTE), 60);
    assert_eq!(granularity_max_measurements(GRANULARITY::HOUR), 24);
    assert_eq!(granularity_max_measurements(GRANULARITY::DAY), 0);
}

#[test]
fn instruments_have_distinct_numbers() {
    assert_eq!(Stock::AAPL.code(), 0);
    assert_eq!(Stock::GOOGL.code(), 1);
    assert_eq!(Stock::MSFT.code(), 2);
}

fn order(side: OrderType, variant: OrderVariant, time: i64) -> Order {
    Order {
        id: None,
        order_type: side,
        variant,
        details: OrderDetails { time, stock: Stock::AAPL, amount: 1, lifetime_nanos: None },
    }
}

#[test]
fn orders_compare_by_rank_alone() {
    let a = order(OrderType::Buy, OrderVariant::Limit { price: price(5.0) }, 3);
    let mut b = a;
    b.details.amount = 99;
    b.id = Some(4);
    assert!(a == b);
    assert!(!(a > b) && !(a < b));
    assert!(a.partial_cmp(&b) == Some(std::cmp::Ordering::Equal));
    let m = order(OrderType::Buy, OrderVariant::Market, 3);
    assert!(a != m);
    assert!(m.is_market() && !a.is_market());
    assert!(m.outranks(&a) && !a.outranks(&m));
    let earlier = order(OrderType::Buy, OrderVariant::Market, 2);
    assert!(earlier > m && earlier.outranks(&m));
    let cheaper = order(OrderType::Sell, OrderVariant::Limit { price: price(4.0) }, 9);
    let dearer = order(OrderType::Sell, OrderVariant::Limit { price: price(4.5) }, 1);
    assert!(cheaper.outranks(&dearer) && dearer < cheaper);
    let low_bid = order(OrderType::Buy, OrderVariant::Limit { price: price(4.0) }, 1);
    let high_bid = order(OrderType::Buy, OrderVariant::Limit { price: price(4.5) }, 9);
    assert!(high_bid.outranks(&low_bid) && !low_bid.outranks(&high_bid));
}

#[test]
fn default_transaction_is_blank() {
    let t = Transaction::default();
    assert_eq!(
        t,
        Transaction {
            transaction_id: None,
            buy_id: None,
            sell_id: None,
            price: price(0.0),
            volume: 0,
            timestamp: 0
        }
    );
}

fn at(timestamp: i64, id: Option<u64>) -> Transaction {
    Transaction {
        transaction_id: None,
        buy_id: id,
        sell_id: None,
        price: price(1.0),
        volume: 1,
        timestamp,
    }
}

#[test]
fn draining_takes_the_seconds_that_are_over() {
    let mut ledger: Vec<Transaction> = Vec::new();
    assert!(drain_whole_seconds(&mut ledger).is_empty());

    let stamps = [10, 277_000, 277_777, 300_000, 555_554, 555_555, 600_000];
    let mut ledger: Vec<Transaction> = stamps.iter().map(|t| at(*t, None)).collect();
    let drained = drain_whole_seconds(&mut ledger);
    // the last trade is in the second that starts at 555554: its trades stay
    assert_eq!(drained.iter().map(|t| t.timestamp).collect::<Vec<i64>>(), stamps[..4].to_vec());
    assert_eq!(ledger.iter().map(|t| t.timestamp).collect::<Vec<i64>>(), stamps[4..].to_vec());
    // nothing more leaves until a later second begins
    let again = drain_whole_seconds(&mut ledger);
    assert!(again.is_empty());
    assert_eq!(ledger.len(), 3);

    // a trade at the very start of the open second stays with the others of it
    let mut two = vec![at(277_777, None), at(277_778, None)];
    assert!(drain_whole_seconds(&mut two).is_empty());
    assert_eq!(two.len(), 2);

    let mut one = vec![at(555_554, None)];
    assert!(drain_whole_seconds(&mut one).is_empty());
    assert_eq!(one.len(), 1);

    // the first trade of the open second ends the run, whatever follows it
    let mut mixed = vec![at(1, None), at(900_000, None), at(2, None), at(833_400, None)];
    let drained = drain_whole_seconds(&mut mixed);
    assert_eq!(drained.len(), 1);
    assert_eq!(mixed.len(), 3);

    // before market time began the seconds count towards zero
    let mut early = vec![at(-600_000, None), at(-300_000, None), at(-5, None), at(5, None)];
    let drained = drain_whole_seconds(&mut early);
    assert_eq!(drained.iter().map(|t| t.timestamp).collect::<Vec<i64>>(), vec![-600_000, -300_000]);
}

#[test]
fn the_recent_window_holds_the_last_hundred() {
    let mut record = StockRecord::new(Stock::AAPL);
    // one trade in each second; the last one stays in the ledger
    for i in 0..152u64 {
        record
            .order_book
            .transaction_record
            .push(at(i as i64 * 300_000, if i % 3 == 0 { None } else { Some(i) }));
    }
    let drained = record.report_transactions();
    assert_eq!(drained.len(), 151);
    assert_eq!(record.order_book.transaction_record.len(), 1);
    let held = record.recent_transactions.to_vec();
    assert_eq!(held.len(), 100);
    // every third trade carries no id and is passed over
    assert_eq!(held[0].buy_id, Some(1));
    assert_eq!(held[99].buy_id, Some(149));
    assert!(held.windows(2).all(|w| w[0].timestamp < w[1].timestamp));
    assert_eq!(record.search_transaction_buffer(149, OrderType::Buy), vec![price(1.0)]);
    assert!(record.search_transaction_buffer(149, OrderType::Sell).is_empty());
    assert!(record.search_transaction_buffer(3, OrderType::Buy).is_empty());
    assert!(record.search_transaction_buffer(151, OrderType::Buy).is_empty());

    // sixty more slide the window on
    record.order_book.transaction_record.truncate(0);
    for i in 200..261u64 {
        record.order_book.transaction_record.push(at(i as i64 * 300_000, Some(i)));
    }
    assert_eq!(record.report_transactions().len(), 60);
    let held = record.recent_transactions.to_vec();
    assert_eq!(held.len(), 100);
    assert_eq!(held[99].buy_id, Some(259));
    assert_eq!(held[40].buy_id, Some(200));
    assert_eq!(held[39].buy_id, Some(149));
    assert_eq!(held[0].buy_id, Some(91));
}

#[test]
fn a_report_passes_trades_of_both_sides() {
    let mut record = StockRecord::new(Stock::AAPL);
    let mut sold = at(5, None);
    sold.sell_id = Some(8);
    sold.price = price(2.5);
    record.order_book.transaction_record.push(sold);
    record.order_book.transaction_record.push(at(300_005, Some(8)));
    record.order_book.transaction_record.push(at(900_000, Some(9)));
    assert_eq!(record.report_transactions().len(), 2);
    assert_eq!(record.search_transaction_buffer(8, OrderType::Sell), vec![price(2.5)]);
    assert_eq!(record.search_transaction_buffer(8, OrderType::Buy), vec![price(1.0)]);
    assert!(record.search_transaction_buffer(9, OrderType::Buy).is_empty());
    assert!(!record.search_orderbook(8, OrderType::Buy));
    assert!(!record.search_orderbook(8, OrderType::Sell));
    // the bars hold what left the ledger
    assert_eq!(record.history._live_data[0].len(), 2);
    assert_eq!(record.history._live_data[0][0].high, price(2.5));
    assert_eq!(record.history._live_data[0][1].tick, 1);
}

#[test]
fn a_report_of_an_empty_ledger_does_nothing() {
    let mut record = StockRecord::new(Stock::AAPL);
    assert!(record.report_transactions().is_empty());
    assert!(record.recent_transactions.to_vec().is_empty());
    assert!(record.history._live_data.iter().all(|level| level.is_empty()));
}

#[test]
fn a_market_has_six_tasks_for_an_instrument() {
    let tasks = make_market(Stock::MSFT);
    let expected = vec![
        Task { operation: Operation::GenerateTrend, stock: Stock::MSFT, tickrate: 10_000 },
        Task { operation: Operation::Straddle, stock: Stock::MSFT, tickrate: 10_000 },
        Task { operation: Operation::FindTrades, stock: Stock::MSFT, tickrate: 10_000 },
        Task { operation: Operation::CleanBooks, stock: Stock::MSFT, tickrate: 100 },
        Task { operation: Operation::ProcessTransactions, stock: Stock::MSFT, tickrate: 1_000 },
        Task { operation: Operation::UpdateStats, stock: Stock::MSFT, tickrate: 1_000 },
    ];
    assert_eq!(tasks, expected);
}

#[test]
fn tick_intervals_divide_a_second() {
    assert_eq!(tick_interval(10_000), 100_000);
    assert_eq!(tick_interval(100), 10_000_000);
    assert_eq!(tick_interval(1_000), 1_000_000);
    assert_eq!(tick_interval(3), 333_333_333);
    assert_eq!(tick_interval(1), 1_000_000_000);
    assert_eq!(tick_interval(u32::MAX), 0);
    assert_eq!(tick_interval(0), u32::MAX);
    for rate in [1u32, 3, 7, 100, 1_000, 10_000, 123_457] {
        assert_eq!(tick_interval(rate), (1_000_000_000.0 / rate as f64) as u32);
    }
}

#[test]
fn a_task_sleeps_until_the_next_scheduled_instant() {
    let mut pace = Pace::start(1_000, 10_000);
    assert_eq!(pace, Pace { last_tick: 1_000, tick_interval: 100_000 });
    // a quick run sleeps for the rest of the interval
    assert_eq!(pace.after_tick(1_500), 99_500);
    assert_eq!(pace.last_tick, 101_000);
    // a run that ends on the instant does not sleep
    assert_eq!(pace.after_tick(201_000), 0);
    assert_eq!(pace.last_tick, 201_000);
    // a slow run does not sleep, and the schedule does not drift
    assert_eq!(pace.after_tick(900_000), 0);
    assert_eq!(pace.last_tick, 301_000);
    assert_eq!(pace.after_tick(0), 401_000);
    assert_eq!(pace.last_tick, 401_000);
}

#[test]
fn the_current_second_is_that_of_market_time() {
    let clock = MTime::start().unwrap();
    let before = clock.now().unwrap();
    let second = clock.current_second().unwrap();
    let after = clock.now().unwrap();
    assert!(MTime::which_second(before) <= second && second <= MTime::which_second(after));
    // a later epoch sets market time back by as much
    let shifted = MTime::new(clock.epoch + 277_777 * 1_000_000);
    assert!(shifted.now().unwrap() < before);
    assert!(shifted.current_second().unwrap() >= u64::MAX - 1_000_000);
}
