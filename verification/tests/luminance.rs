use ddcd::luminance::{
    brightness_level, decreased, gain_level, increased, LUMINANCE_MAX, LUMINANCE_MIN,
    LUMINANCE_STEP,
};

#[test]
fn step_is_five_within_plus_minus_hundred() {
    assert_eq!(LUMINANCE_STEP, 5);
    assert_eq!(LUMINANCE_MIN, -100);
    assert_eq!(LUMINANCE_MAX, 100);
}

#[test]
fn increase_from_98_stops_at_100() {
    assert_eq!(increased(98), 100);
}

#[test]
fn decrease_from_minus_98_stops_at_minus_100() {
    assert_eq!(decreased(-98), -100);
}

#[test]
fn steps_move_by_five_inside_the_range() {
    assert_eq!(increased(0), 5);
    assert_eq!(decreased(0), -5);
    assert_eq!(increased(-5), 0);
    assert_eq!(decreased(5), 0);
    assert_eq!(increased(95), 100);
    assert_eq!(decreased(-95), -100);
    assert_eq!(increased(-100), -95);
    assert_eq!(decreased(100), 95);
}

#[test]
fn steps_stay_at_the_ends() {
    assert_eq!(increased(100), 100);
    assert_eq!(decreased(-100), -100);
    assert_eq!(increased(96), 100);
    assert_eq!(decreased(-96), -100);
}

#[test]
fn steps_never_overflow() {
    assert_eq!(increased(127), 100);
    assert_eq!(decreased(-128), -100);
    assert_eq!(increased(-128), -100);
    assert_eq!(decreased(127), 100);
}

#[test]
fn brightness_is_the_percentage_of_max() {
    assert_eq!(brightness_level(100, 5), 5);
    assert_eq!(brightness_level(100, 0), 0);
    assert_eq!(brightness_level(100, 100), 100);
    assert_eq!(brightness_level(255, 100), 255);
    assert_eq!(brightness_level(65_535, 100), 65_535);
    assert_eq!(brightness_level(65_535, 0), 0);
    assert_eq!(brightness_level(0, 50), 0);
}

#[test]
fn brightness_rounds_to_nearest() {
    // 255 * 20 / 100 = 51 exactly, 255 * 33 / 100 = 84.15, 255 * 35 / 100 = 89.25
    assert_eq!(brightness_level(255, 20), 51);
    assert_eq!(brightness_level(255, 33), 84);
    assert_eq!(brightness_level(255, 35), 89);
    // 255 * 45 / 100 = 114.75
    assert_eq!(brightness_level(255, 45), 115);
    // 65535 * 1 / 100 = 655.35, 65535 * 99 / 100 = 64879.65
    assert_eq!(brightness_level(65_535, 1), 655);
    assert_eq!(brightness_level(65_535, 99), 64_880);
}

#[test]
fn brightness_rounds_a_half_up() {
    // 10 * 5 / 100 = 0.5, 10 * 15 / 100 = 1.5, 255 * 50 / 100 = 127.5
    assert_eq!(brightness_level(10, 5), 1);
    assert_eq!(brightness_level(10, 15), 2);
    assert_eq!(brightness_level(255, 50), 128);
    // 1 * 50 / 100 = 0.5, 1 * 49 / 100 = 0.49
    assert_eq!(brightness_level(1, 50), 1);
    assert_eq!(brightness_level(1, 49), 0);
}

#[test]
fn brightness_never_falls_as_luminance_rises() {
    for max in [0u16, 1, 7, 100, 255, 1000, 65_535] {
        let mut last = 0u16;
        for l in 0i8..=100 {
            let b = brightness_level(max, l);
            assert!(b >= last, "max {max} luminance {l}");
            assert!(b <= max);
            last = b;
        }
        assert_eq!(last, max);
    }
}

#[test]
fn gain_scales_by_factor_and_share() {
    // 100 * 215 * 95 / (100 * 219) = 93.26, with 219: 95, with 210: 91.096
    assert_eq!(gain_level(100, 215, 219, -5), 93);
    assert_eq!(gain_level(100, 219, 219, -5), 95);
    assert_eq!(gain_level(100, 210, 219, -5), 91);
    // at half: 49.087, 50, 47.945
    assert_eq!(gain_level(100, 215, 219, -50), 49);
    assert_eq!(gain_level(100, 219, 219, -50), 50);
    assert_eq!(gain_level(100, 210, 219, -50), 48);
    // near the bottom: 4.909, 5, 4.795
    assert_eq!(gain_level(100, 215, 219, -95), 5);
    assert_eq!(gain_level(100, 219, 219, -95), 5);
    assert_eq!(gain_level(100, 210, 219, -95), 5);
}

#[test]
fn gain_is_rounded_once() {
    // 1000 * 215 * 95 / (100 * 219) = 932.648: rounding 215 * 95 / 100 first
    // would give 1000 * 204 / 219 = 931.5
    assert_eq!(gain_level(1000, 215, 219, -5), 933);
}

#[test]
fn gain_rounds_a_half_up() {
    // 1 * 1 * 50 / (100 * 1) = 0.5
    assert_eq!(gain_level(1, 1, 1, -50), 1);
    // 1 * 1 * 49 / 100 = 0.49
    assert_eq!(gain_level(1, 1, 1, -51), 0);
    // 3 * 1 * 50 / (100 * 1) = 1.5
    assert_eq!(gain_level(3, 1, 1, -50), 2);
}

#[test]
fn gain_is_zero_at_minus_100() {
    assert_eq!(gain_level(100, 215, 219, -100), 0);
    assert_eq!(gain_level(65_535, 65_535, 1, -100), 0);
    assert_eq!(gain_level(0, 0, 1, -100), 0);
}

#[test]
fn gain_never_falls_as_luminance_rises() {
    for (gain_max, factor, factor_max) in
        [(100u16, 215u16, 219u16), (100, 210, 219), (65_535, 219, 219), (255, 1, 219), (7, 3, 2)]
    {
        let mut last = 0u16;
        for l in -100i8..=-1 {
            let g = gain_level(gain_max, factor, factor_max, l);
            assert!(g >= last, "{gain_max} {factor} {factor_max} luminance {l}");
            last = g;
        }
    }
}

#[test]
fn gain_stays_within_max_for_a_factor_within_its_max() {
    for l in -100i8..=-1 {
        assert!(gain_level(100, 219, 219, l) <= 100);
        assert!(gain_level(65_535, 65_535, 65_535, l) <= 65_535);
        assert!(gain_level(255, 210, 219, l) <= 255);
    }
    assert_eq!(gain_level(65_535, 219, 219, -1), 64_880);
}

#[test]
fn gain_of_a_factor_above_its_max_stops_at_the_largest_value() {
    // 65535 * 300 * 99 / (100 * 100) = 194638.95
    assert_eq!(gain_level(65_535, 300, 100, -1), 65_535);
    // 100 * 300 * 99 / (100 * 100) = 297: above the register's max, passed on
    assert_eq!(gain_level(100, 300, 100, -1), 297);
    assert_eq!(gain_level(65_535, 65_535, 1, -99), 65_535);
}
