use pool_data_rs::parsers::uniswap_v4::{ProcessedTick, ScanStep, TickOutOfRange, TickScan};
use pool_data_rs::ticks::TickBitmap;

fn low(bits: u128) -> TickBitmap {
    TickBitmap { low: bits, high: 0 }
}

/// Runs a scan against given bitmaps and liquidities, as the fetching loop does.
fn run_scan(
    tick_spacing: i32,
    bitmap_of: impl Fn(i16) -> TickBitmap,
    liquidity_of: impl Fn(i32) -> Option<(u128, i128)>,
) -> (Vec<ProcessedTick>, Vec<i16>) {
    let mut scan = TickScan::new(tick_spacing);
    let mut words = Vec::new();
    loop {
        match scan.next_step() {
            ScanStep::FetchBitmap(word) => {
                words.push(word);
                scan.on_bitmap(bitmap_of(word)).unwrap();
            }
            ScanStep::FetchLiquidity(tick) => scan.on_liquidity(liquidity_of(tick)),
            ScanStep::Done => break,
        }
    }
    (scan.into_ticks(), words)
}

#[test]
fn scan_visits_every_word_once_in_order() {
    let (ticks, words) = run_scan(60, |_| low(0), |_| None);
    assert!(ticks.is_empty());
    let expected: Vec<i16> = (-58..=57).collect();
    assert_eq!(words, expected);
}

#[test]
fn scan_collects_ticks_with_their_liquidity() {
    let bitmap_of = |word: i16| match word {
        -1 => TickBitmap { low: 1u128 << 127, high: 1u128 << 127 },
        0 => low(0b11),
        3 => low(1u128 << 5),
        _ => low(0),
    };
    let liquidity_of = |tick: i32| if tick == 60 { None } else { Some((tick.unsigned_abs() as u128 + 1, tick as i128)) };
    let (ticks, _) = run_scan(60, bitmap_of, liquidity_of);
    assert_eq!(
        ticks,
        vec![
            ProcessedTick { index: -7740, liquidity_gross: 7741, liquidity_net: -7740 },
            ProcessedTick { index: -60, liquidity_gross: 61, liquidity_net: -60 },
            ProcessedTick { index: 0, liquidity_gross: 1, liquidity_net: 0 },
            ProcessedTick { index: 60, liquidity_gross: 0, liquidity_net: 0 },
            ProcessedTick { index: 46380, liquidity_gross: 46381, liquidity_net: 46380 },
        ]
    );
    for pair in ticks.windows(2) {
        assert!(pair[0].index < pair[1].index);
    }
}

#[test]
fn scan_asks_for_pending_ticks_before_the_next_word() {
    let mut scan = TickScan::new(200);
    assert_eq!(scan.next_step(), ScanStep::FetchBitmap(-18));
    scan.on_bitmap(low(0b110)).unwrap();
    assert_eq!(scan.next_step(), ScanStep::FetchLiquidity((-18 * 256 + 1) * 200));
    scan.on_liquidity(Some((5, -5)));
    assert_eq!(scan.next_step(), ScanStep::FetchLiquidity((-18 * 256 + 2) * 200));
    scan.on_liquidity(None);
    assert_eq!(scan.next_step(), ScanStep::FetchBitmap(-17));
}

#[test]
fn scan_with_negative_spacing_has_no_word() {
    let mut scan = TickScan::new(-60);
    assert_eq!(scan.next_step(), ScanStep::Done);
    assert!(scan.into_ticks().is_empty());
}

#[test]
fn scan_refuses_ticks_out_of_int24() {
    let mut scan = TickScan::new(8_000_000);
    assert_eq!(scan.next_step(), ScanStep::FetchBitmap(-1));
    assert_eq!(scan.on_bitmap(low(1)), Err(TickOutOfRange));
    assert_eq!(scan.next_step(), ScanStep::FetchBitmap(-1));
    scan.on_bitmap(low(0)).unwrap();
    assert_eq!(scan.next_step(), ScanStep::FetchBitmap(0));
}
