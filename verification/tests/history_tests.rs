use fssm::globals::GRANULARITY;
use fssm::history::downgrade_granularity;
use fssm::history::HistoryBuffer;
use fssm::history::ObStat;
use fssm::price::Price;
use fssm::transaction::Transaction;

fn price(value: f64) -> Price {
    Price::from_bits(value.to_bits())
}

fn second_bar(tick: u64) -> ObStat {
    ObStat {
        tick,
        granularity: GRANULARITY::SECOND,
        volume: 100,
        high: price(10.0),
        low: price(1.0),
        open: price(0.0),
        close: price(0.0),
    }
}

fn trade_at_one(i: u64) -> Transaction {
    Transaction {
        transaction_id: None,
        buy_id: None,
        sell_id: None,
        price: price(i as f64),
        volume: 10,
        timestamp: 1,
    }
}

fn check_live_data_initializes_empty() {
    let hist = HistoryBuffer::new();

    let hist_len = hist._live_data.len();
    assert!(hist_len == 4, "Expected 4 _live_data, but found {} histories", hist_len);

    for (i, h) in hist._live_data.iter().enumerate() {
        assert!(
            h.len() == 0,
            "Expected new history to be empty, found len {}, at _live_data {}",
            h.len(),
            i
        )
    }
}

#[test]
fn test__live_data_intializes_empty() {
    check_live_data_initializes_empty();
}

#[test]
fn tests_test__live_data_intializes_empty() {
    check_live_data_initializes_empty();
}

fn check_process_transaction_updates_seconds() {
    let mut h = HistoryBuffer::new();

    let vals = 0..10;
    h.process_transactions(&vals.map(trade_at_one).collect::<Vec<Transaction>>());
    h.compress();

    assert!(
        h._live_data[0].len() != 0,
        "Expected process_transactions to append to h[0] (Seconds history)"
    );
    assert!(
        h._live_data[1..4].iter().map(|x| x.len()).sum::<usize>() == 0,
        "Expected all histories apart from seconds to be empty"
    );

    let ob_stat = h._live_data[0][0];
    assert!(ob_stat.volume == 100);
    assert!(ob_stat.tick == 0);
    assert!(ob_stat.high == price(9.0));
    assert!(ob_stat.low == price(0.0));
}

#[test]
fn test_process_transaction_updates_seconds() {
    check_process_transaction_updates_seconds();
}

#[test]
fn tests_test_process_transaction_updates_seconds() {
    check_process_transaction_updates_seconds();
}

fn check_compress_correctly_compresses() {
    let mut h = HistoryBuffer::new();

    // one hour one day one minute and one second, in seconds
    let magic = 86400 + 3661;
    for i in 0..magic {
        h._live_data[0].push(second_bar(i as u64));
    }

    h.compress();

    let s = &h._live_data[0];
    let m = &h._live_data[1];
    let hr = &h._live_data[2];
    let d = &h._live_data[3];

    assert!(
        s.len() == 1,
        "Expected 1 element in Seconds, got s, m, h, d, {}, {}, {}, {}",
        s.len(),
        m.len(),
        hr.len(),
        d.len()
    );
    assert!(
        m.len() == 1,
        "Expected 1 element in Minutes, got s, m, h, d, {}, {}, {}, {}",
        s.len(),
        m.len(),
        hr.len(),
        d.len()
    );
    assert!(
        hr.len() == 1,
        "Expected 1 element in Hours, got s, m, h, d, {}, {}, {}, {}",
        s.len(),
        m.len(),
        hr.len(),
        d.len()
    );
    assert!(
        d.len() == 1,
        "Expected 1 element in Days, got s, m, h, d, {}, {}, {}, {}",
        s.len(),
        m.len(),
        hr.len(),
        d.len()
    );

    assert!(
        d[0].volume == 100 * 86400,
        "Expected 100 volume per second for a day 8,640,000 total, found {}",
        d[0].volume
    );
    assert!(d[0].high == price(10.0));
    assert!(d[0].low == price(1.0));
}

#[test]
fn test_compress_correctly_compresses() {
    check_compress_correctly_compresses();
}

#[test]
fn tests_test_compress_correctly_compresses() {
    check_compress_correctly_compresses();
}

fn check_compress_handles_gaps() {
    let mut h = HistoryBuffer::new();

    let magic = 31;
    for i in 0..magic {
        h._live_data[0].push(second_bar(i as u64 * 2));
    }

    h.compress();

    let s = &h._live_data[0];
    let m = &h._live_data[1];

    assert!(s.len() == 1, "Expected 1 element in Seconds, got s, m, {}, {}", s.len(), m.len());
    assert!(m.len() == 1);

    assert!(m[0].volume == 3000);
}

#[test]
fn test_compress_handles_gaps() {
    check_compress_handles_gaps();
}

#[test]
fn tests_test_compress_handles_gaps() {
    check_compress_handles_gaps();
}

fn check_reporting_open_close_prices() {
    let mut h = HistoryBuffer::new();

    let vals = 0..10;
    h.process_transactions(&vals.map(trade_at_one).collect::<Vec<Transaction>>());
    h.compress();

    let ob_stat = h._live_data[0][0];
    assert!(ob_stat.volume == 100);
    assert!(ob_stat.tick == 0);
    assert!(ob_stat.high == price(9.0));
    assert!(ob_stat.low == price(0.0));
    assert!(ob_stat.open == price(0.0));
    assert!(ob_stat.close == price(9.0));
}

#[test]
fn test_reporting_open_close_prices() {
    check_reporting_open_close_prices();
}

#[test]
fn tests_test_reporting_open_close_prices() {
    check_reporting_open_close_prices();
}

#[test]
fn test_historical_data_populated_correctly() {
    let mut h = HistoryBuffer::new();

    let magic = 90;
    for i in 0..magic {
        h._live_data[0].push(second_bar(i));
    }

    h.compress();

    let l_s = &h._live_data[0];
    let l_m = &h._live_data[1];

    let h_s = &h._historic_data[0];
    let h_m = &h._historic_data[1];

    assert!(l_s.len() == 30, "Expected 30 live seconds, found: {}", l_s.len());
    assert!(l_m.len() == 1);
    assert!(h_s.len() == 60);
    assert!(h_m.len() == 0)
}

#[test]
fn compress_twice_changes_nothing_more() {
    let mut h = HistoryBuffer::new();
    for i in 0..4000u64 {
        h._live_data[0].push(second_bar(i * 3));
    }
    h._live_data[1].push(ObStat { granularity: GRANULARITY::MINUTE, ..second_bar(7) });
    h.compress();
    let live_once = h._live_data.clone();
    let historic_once = h._historic_data.clone();
    h.compress();
    assert_eq!(h._live_data, live_once);
    assert_eq!(h._historic_data, historic_once);
}

#[test]
fn folding_conserves_volume_across_gaps() {
    let ticks: Vec<u64> = vec![0, 1, 5, 59, 60, 61, 200, 201, 1000, 1003, 5000];
    let mut bars: Vec<ObStat> = Vec::new();
    let mut total: u64 = 0;
    for (i, tick) in ticks.iter().enumerate() {
        let volume = 10 + i as u64;
        total += volume;
        bars.push(ObStat { volume, ..second_bar(*tick) });
    }
    let (parents, last_run) = downgrade_granularity(&mut bars, GRANULARITY::SECOND);
    let folded: u64 = parents.iter().map(|p| p.volume).sum();
    let left: u64 = bars.iter().map(|b| b.volume).sum();
    assert_eq!(folded + left, total);
    // windows [0,59] [60,119] [180,239] [960,1019]; the bar at 5000 stays live
    assert_eq!(parents.len(), 4);
    assert_eq!(parents[0].volume, 10 + 11 + 12 + 13);
    assert_eq!(parents[1].volume, 14 + 15);
    assert_eq!(parents[2].volume, 16 + 17);
    assert_eq!(parents[3].volume, 18 + 19);
    assert_eq!(parents.iter().map(|p| p.tick).collect::<Vec<u64>>(), vec![0, 1, 3, 16]);
    assert!(parents.iter().all(|p| p.granularity == GRANULARITY::MINUTE));
    assert_eq!(bars.len(), 1);
    assert_eq!(bars[0].tick, 5000);
    assert_eq!(last_run.iter().map(|b| b.tick).collect::<Vec<u64>>(), vec![1000, 1003]);
}

#[test]
fn windows_are_the_ranges_of_parent_buckets() {
    let mut bars: Vec<ObStat> = vec![second_bar(30), second_bar(70), second_bar(89), second_bar(95)];
    let (parents, last_run) = downgrade_granularity(&mut bars, GRANULARITY::SECOND);
    // the first window is 0..=59; the bars from 70 on lie in the next, which is not over
    assert_eq!(parents.len(), 1);
    assert_eq!(parents[0].tick, 0);
    assert_eq!(parents[0].volume, 100);
    assert_eq!(last_run.len(), 1);
    assert_eq!(bars.iter().map(|b| b.tick).collect::<Vec<u64>>(), vec![70, 89, 95]);
}

#[test]
fn a_minute_takes_the_seconds_of_its_bucket_only() {
    let mut h = HistoryBuffer::new();
    for tick in 30..=100u64 {
        h._live_data[0].push(second_bar(tick));
    }
    h.compress();
    assert_eq!(h._live_data[1].len(), 1);
    assert_eq!(h._live_data[1][0].tick, 0);
    assert_eq!(h._live_data[1][0].volume, 3000);
    assert_eq!(h._live_data[1][0].granularity, GRANULARITY::MINUTE);
    assert_eq!(h._live_data[0].iter().map(|b| b.tick).collect::<Vec<u64>>(), (60..=100).collect::<Vec<u64>>());
    assert_eq!(h._historic_data[0].iter().map(|b| b.tick).collect::<Vec<u64>>(), (30..=59).collect::<Vec<u64>>());
}

#[test]
fn no_two_parents_share_a_bucket() {
    let mut bars: Vec<ObStat> = vec![second_bar(30), second_bar(125), second_bar(150), second_bar(210)];
    let (parents, last_run) = downgrade_granularity(&mut bars, GRANULARITY::SECOND);
    assert_eq!(parents.iter().map(|p| p.tick).collect::<Vec<u64>>(), vec![0, 2]);
    assert_eq!(parents.iter().map(|p| p.volume).collect::<Vec<u64>>(), vec![100, 200]);
    assert_eq!(last_run.iter().map(|b| b.tick).collect::<Vec<u64>>(), vec![125, 150]);
    assert_eq!(bars.iter().map(|b| b.tick).collect::<Vec<u64>>(), vec![210]);
    // the bar at 210 joins its minute once the minute is over
    bars.push(second_bar(239));
    bars.push(second_bar(240));
    let (parents, _) = downgrade_granularity(&mut bars, GRANULARITY::SECOND);
    assert_eq!(parents.iter().map(|p| p.tick).collect::<Vec<u64>>(), vec![3]);
    assert_eq!(parents[0].volume, 200);
    assert_eq!(bars.len(), 1);
}

#[test]
fn folding_takes_extremes_open_and_close() {
    let mut bars: Vec<ObStat> = Vec::new();
    for i in 0..61u64 {
        bars.push(ObStat {
            tick: i,
            granularity: GRANULARITY::SECOND,
            volume: 1,
            high: price(10.0 + i as f64),
            low: price(5.0 - i as f64),
            open: price(100.0 + i as f64),
            close: price(200.0 + i as f64),
        });
    }
    let (parents, _) = downgrade_granularity(&mut bars, GRANULARITY::SECOND);
    assert_eq!(parents.len(), 1);
    assert_eq!(parents[0].high, price(69.0));
    assert_eq!(parents[0].low, price(-54.0));
    assert_eq!(parents[0].open, price(100.0));
    assert_eq!(parents[0].close, price(259.0));
    assert_eq!(parents[0].volume, 60);
}

#[test]
fn folding_hours_takes_twenty_four() {
    let mut bars: Vec<ObStat> = Vec::new();
    for i in 0..49u64 {
        bars.push(ObStat { granularity: GRANULARITY::HOUR, ..second_bar(i) });
    }
    let (parents, _) = downgrade_granularity(&mut bars, GRANULARITY::HOUR);
    assert_eq!(parents.len(), 2);
    assert_eq!(parents[0].volume, 2400);
    assert_eq!(parents[1].tick, 1);
    assert!(parents.iter().all(|p| p.granularity == GRANULARITY::DAY));
    assert_eq!(bars.len(), 1);
}

#[test]
fn folding_nothing_gives_nothing() {
    let mut bars: Vec<ObStat> = Vec::new();
    let (parents, last_run) = downgrade_granularity(&mut bars, GRANULARITY::MINUTE);
    assert!(parents.is_empty() && last_run.is_empty() && bars.is_empty());
    let mut one = vec![second_bar(7)];
    let (parents, last_run) = downgrade_granularity(&mut one, GRANULARITY::SECOND);
    assert!(parents.is_empty() && last_run.is_empty());
    assert_eq!(one.len(), 1);
}

#[test]
fn folded_volume_stops_at_the_largest_number() {
    let mut bars: Vec<ObStat> = vec![
        ObStat { volume: u64::MAX - 1, ..second_bar(0) },
        ObStat { volume: 5, ..second_bar(1) },
        ObStat { volume: 1, ..second_bar(60) },
    ];
    let (parents, _) = downgrade_granularity(&mut bars, GRANULARITY::SECOND);
    assert_eq!(parents.len(), 1);
    assert_eq!(parents[0].volume, u64::MAX);
}

#[test]
fn compress_keeps_historic_where_nothing_folds() {
    let mut h = HistoryBuffer::new();
    for i in 0..90u64 {
        h._live_data[0].push(second_bar(i));
    }
    h.compress();
    assert_eq!(h._historic_data[0].len(), 60);
    h._live_data[0].push(second_bar(100));
    h.compress();
    assert_eq!(h._historic_data[0].len(), 60);
    assert_eq!(h._historic_data[0][0].tick, 0);
    assert_eq!(h._live_data[0].len(), 31);
}

#[test]
fn ingest_makes_one_bar_for_each_run_of_a_second() {
    let mut h = HistoryBuffer::new();
    let stamps: Vec<i64> = vec![0, 1, 277_776, 277_777, 300_000, 555_554, 100, 277_778];
    let trades: Vec<Transaction> = stamps
        .iter()
        .enumerate()
        .map(|(i, t)| Transaction {
            transaction_id: None,
            buy_id: None,
            sell_id: None,
            price: price(1.0 + i as f64),
            volume: 1 + i as u64,
            timestamp: *t,
        })
        .collect();
    h.process_transactions(&trades);
    let bars = &h._live_data[0];
    // runs: [0, 1, 277776] in second 0, [277777, 300000] in 1, [555554] in 2, [100] in 0, [277778] in 1
    assert_eq!(bars.iter().map(|b| b.tick).collect::<Vec<u64>>(), vec![0, 1, 2, 0, 1]);
    assert_eq!(bars.iter().map(|b| b.volume).collect::<Vec<u64>>(), vec![6, 9, 6, 7, 8]);
    assert_eq!(bars[0].open, price(1.0));
    assert_eq!(bars[0].close, price(3.0));
    assert_eq!(bars[0].high, price(3.0));
    assert_eq!(bars[0].low, price(1.0));
    assert_eq!(bars[1].open, price(4.0));
    assert_eq!(bars[1].close, price(5.0));
    assert!(bars.iter().all(|b| b.granularity == GRANULARITY::SECOND));
    assert!(h._live_data[1].is_empty() && h._historic_data[0].is_empty());
}

#[test]
fn ingest_of_nothing_changes_nothing() {
    let mut h = HistoryBuffer::new();
    h._live_data[0].push(second_bar(3));
    h.process_transactions(&Vec::new());
    assert_eq!(h._live_data[0].len(), 1);
}

#[test]
fn ingest_appends_behind_live_seconds() {
    let mut h = HistoryBuffer::new();
    h._live_data[0].push(second_bar(3));
    h.process_transactions(&vec![trade_at_one(4), trade_at_one(2)]);
    assert_eq!(h._live_data[0].len(), 2);
    assert_eq!(h._live_data[0][1].volume, 20);
    assert_eq!(h._live_data[0][1].high, price(4.0));
    assert_eq!(h._live_data[0][1].low, price(2.0));
    assert_eq!(h._live_data[0][1].open, price(4.0));
    assert_eq!(h._live_data[0][1].close, price(2.0));
}

#[test]
fn default_bar_has_sentinel_extremes() {
    let bar = ObStat::default();
    assert_eq!(bar.tick, 0);
    assert_eq!(bar.granularity, GRANULARITY::INSTANT);
    assert_eq!(bar.volume, 0);
    assert_eq!(bar.high, price(f64::MIN));
    assert_eq!(bar.low, price(f64::MAX));
    assert_eq!(bar.open, price(0.0));
    assert_eq!(bar.close, price(0.0));
}

#[test]
fn folding_crosses_a_gap_of_any_width() {
    let far = u64::MAX - 100;
    let mut bars: Vec<ObStat> =
        vec![second_bar(0), second_bar(1), second_bar(far), second_bar(far + 1), second_bar(u64::MAX)];
    let (parents, last_run) = downgrade_granularity(&mut bars, GRANULARITY::SECOND);
    // windows are counted from tick 0: the one that holds `far` ends at far + 24
    assert_eq!(far % 60, 35);
    assert_eq!(parents.len(), 2);
    assert_eq!(parents[0].tick, 0);
    assert_eq!(parents[0].volume, 200);
    assert_eq!(parents[1].tick, far / 60);
    assert_eq!(parents[1].volume, 200);
    assert_eq!(last_run.len(), 2);
    assert_eq!(bars.len(), 1);
    assert_eq!(bars[0].tick, u64::MAX);
}

#[test]
fn folding_stops_at_the_last_tick_even_where_bars_are_out_of_order() {
    let mut bars: Vec<ObStat> = vec![second_bar(500), second_bar(3), second_bar(700), second_bar(4)];
    let (parents, last_run) = downgrade_granularity(&mut bars, GRANULARITY::SECOND);
    // the last tick seen is 4, before the end of the first window
    assert!(parents.is_empty() && last_run.is_empty());
    assert_eq!(bars.len(), 4);
}

#[test]
fn a_window_folds_once_a_later_bar_is_seen() {
    let mut bars: Vec<ObStat> = (0..60u64).map(second_bar).collect();
    let (parents, last_run) = downgrade_granularity(&mut bars, GRANULARITY::SECOND);
    // the last bar lies in the window, not beyond it
    assert!(parents.is_empty() && last_run.is_empty());
    assert_eq!(bars.len(), 60);
    bars.push(second_bar(60));
    let (parents, last_run) = downgrade_granularity(&mut bars, GRANULARITY::SECOND);
    assert_eq!(parents.len(), 1);
    assert_eq!(parents[0].volume, 6000);
    assert_eq!(last_run.len(), 60);
    assert_eq!(bars.len(), 1);
}
