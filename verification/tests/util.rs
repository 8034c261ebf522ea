use udps::util::{
    conv_slice_to_u32, conv_u32_to_bytes, generate_random_bytes, loop_at_sleep, period_sleep,
    same_bytes,
};

#[test]
fn conv_slice_reads_little_endian() {
    assert_eq!(conv_slice_to_u32(&[0x78, 0x56, 0x34, 0x12]), 0x1234_5678);
}

#[test]
fn conv_slice_reads_only_the_first_four_bytes() {
    assert_eq!(conv_slice_to_u32(&[1, 0, 0, 0, 0xff, 0xff]), 1);
}

#[test]
fn conv_slice_reads_the_extremes() {
    assert_eq!(conv_slice_to_u32(&[0, 0, 0, 0]), 0);
    assert_eq!(conv_slice_to_u32(&[0xff, 0xff, 0xff, 0xff]), u32::MAX);
}

#[test]
fn conv_u32_writes_little_endian() {
    assert_eq!(conv_u32_to_bytes(&0x1234_5678), [0x78, 0x56, 0x34, 0x12]);
    assert_eq!(conv_u32_to_bytes(&0), [0, 0, 0, 0]);
    assert_eq!(conv_u32_to_bytes(&u32::MAX), [0xff, 0xff, 0xff, 0xff]);
    assert_eq!(conv_u32_to_bytes(&256), [0, 1, 0, 0]);
}

#[test]
fn conv_u32_agrees_with_std() {
    for x in [0u32, 1, 255, 256, 65535, 65536, 0xdead_beef, u32::MAX] {
        assert_eq!(conv_u32_to_bytes(&x), x.to_le_bytes());
        assert_eq!(conv_slice_to_u32(&x.to_le_bytes()), x);
    }
}

#[test]
fn conv_round_trips() {
    for x in [0u32, 7, 0x0102_0304, 0xffff_0000, u32::MAX] {
        assert_eq!(conv_slice_to_u32(&conv_u32_to_bytes(&x)), x);
    }
}

#[test]
fn random_bytes_have_the_length_asked_for() {
    assert_eq!(generate_random_bytes(0).len(), 0);
    assert_eq!(generate_random_bytes(1).len(), 1);
    assert_eq!(generate_random_bytes(32).len(), 32);
}

#[test]
fn random_bytes_stay_below_the_limit() {
    let bytes = generate_random_bytes(20_000);
    assert_eq!(bytes.len(), 20_000);
    assert!(bytes.iter().all(|b| *b < 255));
}

#[test]
fn random_bytes_are_not_constant() {
    let bytes = generate_random_bytes(4096);
    let first = bytes[0];
    assert!(bytes.iter().any(|b| *b != first));
}

#[test]
fn loop_sleeps_for_what_is_left_of_the_period() {
    assert_eq!(loop_at_sleep(10, 30), 70);
    assert_eq!(loop_at_sleep(1, 0), 1000);
    assert_eq!(loop_at_sleep(60, 0), 16);
    assert_eq!(loop_at_sleep(60, 16), 0);
}

#[test]
fn loop_does_not_catch_up_after_a_slow_round() {
    assert_eq!(loop_at_sleep(10, 100), 0);
    assert_eq!(loop_at_sleep(10, 101), 0);
    assert_eq!(loop_at_sleep(10, u64::MAX), 0);
}

#[test]
fn loop_faster_than_a_millisecond_never_sleeps() {
    assert_eq!(loop_at_sleep(1001, 0), 0);
    assert_eq!(loop_at_sleep(u64::MAX, 5), 0);
}

#[test]
fn same_bytes_compares_length_and_content() {
    assert!(same_bytes(&[], &[]));
    assert!(same_bytes(&[1, 2, 3], &[1, 2, 3]));
    assert!(!same_bytes(&[1, 2, 3], &[1, 2]));
    assert!(!same_bytes(&[1, 2], &[1, 2, 3]));
    assert!(!same_bytes(&[1, 2, 3], &[1, 2, 4]));
    assert!(!same_bytes(&[0, 2, 3], &[1, 2, 3]));
}

#[test]
fn period_sleep_is_what_is_left_of_the_period() {
    assert_eq!(period_sleep(100, 0), 100);
    assert_eq!(period_sleep(100, 30), 70);
    assert_eq!(period_sleep(100, 100), 0);
    assert_eq!(period_sleep(2000, 1), 1999);
    assert_eq!(period_sleep(u64::MAX, 0), u64::MAX);
}

#[test]
fn period_sleep_is_nothing_after_a_slow_round() {
    assert_eq!(period_sleep(100, 101), 0);
    assert_eq!(period_sleep(0, 0), 0);
    assert_eq!(period_sleep(0, 7), 0);
    assert_eq!(period_sleep(5, u64::MAX), 0);
}

#[test]
fn loop_at_sleeps_as_its_period_does() {
    for frequency in [1u64, 3, 10, 60, 1000] {
        for elapsed in [0u64, 1, 16, 333, 1000] {
            assert_eq!(
                loop_at_sleep(frequency, elapsed),
                period_sleep(1000 / frequency, elapsed)
            );
        }
    }
}
