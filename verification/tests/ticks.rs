use pool_data_rs::ticks::{compress_tick, get_word_positions, ticks_in_word, TickBitmap, MAX_TICK, MIN_TICK};

fn low(bits: u128) -> TickBitmap {
    TickBitmap { low: bits, high: 0 }
}


#[test]
fn compress_tick_rounds_toward_negative_infinity() {
    assert_eq!(compress_tick(100, 10), 10);
    assert_eq!(compress_tick(105, 10), 10);
    assert_eq!(compress_tick(0, 60), 0);
    assert_eq!(compress_tick(-5, 10), -1);
    assert_eq!(compress_tick(-10, 10), -1);
    assert_eq!(compress_tick(-11, 10), -2);
    assert_eq!(compress_tick(MIN_TICK, 1), MIN_TICK);
    assert_eq!(compress_tick(MAX_TICK, 1), MAX_TICK);
}

#[test]
fn compress_tick_with_negative_spacing() {
    assert_eq!(compress_tick(7, -2), -3);
    assert_eq!(compress_tick(-7, -2), 2);
    assert_eq!(compress_tick(-8, -2), 4);
}

#[test]
fn compress_tick_undoes_multiplication_by_spacing() {
    for spacing in [1, 10, 60, 200, -3, -60] {
        for index in [-14788, -1, 0, 1, 7, 14787] {
            assert_eq!(compress_tick(index * spacing, spacing), index);
        }
    }
}

#[test]
fn word_positions_of_common_spacings() {
    assert_eq!(get_word_positions(1), (-3466, 3465));
    assert_eq!(get_word_positions(10), (-347, 346));
    assert_eq!(get_word_positions(60), (-58, 57));
    assert_eq!(get_word_positions(200), (-18, 17));
}

#[test]
fn word_positions_cover_every_tick() {
    for spacing in [1, 10, 60, 200] {
        let (lower, upper) = get_word_positions(spacing);
        for tick in [MIN_TICK, -1, 0, 1, MAX_TICK] {
            let word = compress_tick(tick, spacing) >> 8;
            assert!(lower as i32 <= word && word <= upper as i32);
        }
    }
}

#[test]
fn ticks_of_a_word_follow_its_set_bits() {
    assert_eq!(ticks_in_word(0, low(0b101), 60), Some(vec![0, 120]));
    assert_eq!(ticks_in_word(1, low(1), 10), Some(vec![2560]));
    assert_eq!(ticks_in_word(-1, low(1u128 << 127), 1), Some(vec![-129]));
    assert_eq!(ticks_in_word(-1, low(0b11), -2), Some(vec![512, 510]));
    assert_eq!(ticks_in_word(5, low(0), 60), Some(vec![]));
}

#[test]
fn ticks_of_a_word_are_ordered_and_compress_back() {
    let spacing = 60;
    let bitmap = TickBitmap { low: 0x8000_0000_0000_0001_0000_0000_0000_0301, high: 0x11 };
    let ticks = ticks_in_word(-3, bitmap, spacing).unwrap();
    assert_eq!(ticks.len(), 7);
    for pair in ticks.windows(2) {
        assert!(pair[0] < pair[1]);
    }
    for t in ticks {
        assert_eq!(t % spacing, 0);
        assert_eq!(compress_tick(t, spacing) >> 8, -3);
        let bit = compress_tick(t, spacing) & 255;
        let set = if bit < 128 { bitmap.low & (1u128 << bit) } else { bitmap.high & (1u128 << (bit - 128)) };
        assert!(set != 0);
    }
}

#[test]
fn ticks_out_of_int24_are_refused() {
    assert_eq!(ticks_in_word(100, low(1), 60000), None);
    assert_eq!(ticks_in_word(32767, low(1), 32767), None);
    assert_eq!(ticks_in_word(32767, low(0), 32767), Some(vec![]));
}

#[test]
fn ticks_of_the_upper_half_of_a_word() {
    let full = TickBitmap { low: 1, high: (1u128 << 127) | 1 };
    assert_eq!(ticks_in_word(0, full, 1), Some(vec![0, 128, 255]));
    assert_eq!(ticks_in_word(-1, TickBitmap { low: 0, high: 1u128 << 127 }, 60), Some(vec![-60]));
    let all = TickBitmap { low: u128::MAX, high: u128::MAX };
    let ticks = ticks_in_word(2, all, 10).unwrap();
    let expected: Vec<i32> = (0..256).map(|b| (2 * 256 + b) * 10).collect();
    assert_eq!(ticks, expected);
    assert_eq!(ticks_in_word(0, TickBitmap { low: 0, high: 4 }, 8_000_000), None);
}

#[test]
fn compressing_keeps_the_order_of_ticks() {
    let ticks = [MIN_TICK, -121, -120, -61, -60, -1, 0, 59, 60, MAX_TICK];
    for pair in ticks.windows(2) {
        assert!(compress_tick(pair[0], 60) <= compress_tick(pair[1], 60));
    }
}
