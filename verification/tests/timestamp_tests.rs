use audio_checker::timestamp::{
    decode_bits, format_clock_time, marker_bits, marker_samples, symbol_samples, TimestampMark,
    DATA_BITS, PREAMBLE_BITS,
};

#[test]
fn marker_length_at_both_rates() {
    assert_eq!(symbol_samples(16_000), 320);
    assert_eq!(symbol_samples(48_000), 960);
    assert_eq!(marker_samples(16_000), 35 * 320 + 3_200);
    assert_eq!(marker_samples(48_000), 35 * 960 + 9_600);
    assert_eq!(marker_samples(48_000), 3 * marker_samples(16_000));
}

#[test]
fn mark_bits_layout() {
    let bits = marker_bits(1000);
    assert_eq!(bits.len(), PREAMBLE_BITS + DATA_BITS);
    assert_eq!(&bits[..8], &[true, false, true, false, true, false, true, false]);
    // 1000 = 0b1111101000, written in the last 10 of the 27 data bits.
    let data: Vec<bool> = bits[8..].to_vec();
    assert!(data[..17].iter().all(|bit| !bit));
    assert_eq!(&data[17..], &[true, true, true, true, true, false, true, false, false, false]);
}

#[test]
fn decoded_time_of_day_roundtrip() {
    for millis in [0u32, 1000, 36_123_456, 86_399_999] {
        let mark = decode_bits(&marker_bits(millis), 14_400);
        assert_eq!(mark, Some(TimestampMark { millis_of_day: millis, marker_samples: 14_400 }));
    }
}

#[test]
fn decoding_beyond_one_day_fails() {
    assert_eq!(decode_bits(&marker_bits(86_400_000), 14_400), None);
    assert_eq!(decode_bits(&marker_bits(134_217_727), 14_400), None);
}

#[test]
fn encoding_keeps_low_27_bits() {
    let millis = (1u32 << 27) + 5;
    let mark = decode_bits(&marker_bits(millis), 1).unwrap();
    assert_eq!(mark.millis_of_day, 5);
}

#[test]
fn one_wrong_preamble_bit_is_tolerated() {
    let mut bits = marker_bits(42);
    bits[3] = !bits[3];
    assert_eq!(decode_bits(&bits, 7).unwrap().millis_of_day, 42);
    bits[6] = !bits[6];
    assert_eq!(decode_bits(&bits, 7), None);
}

#[test]
fn clock_time_text() {
    assert_eq!(format_clock_time(36_123_456), "10:02:03.456");
    assert_eq!(format_clock_time(0), "00:00:00.000");
    assert_eq!(format_clock_time(86_400_000 + 61_001), "00:01:01.001");
    assert_eq!(format_clock_time(86_399_999), "23:59:59.999");
}
