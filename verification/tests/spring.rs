use spring_layout::fixed::{Fixed, SCALE};
use spring_layout::spring::{advance, fps, Spring, GAIN_LIMIT};

fn raw(n: i64) -> Fixed {
    Fixed::from_raw(n)
}

fn tuned(damping_ratio: i64) -> Spring {
    Spring::new(raw(SCALE / 60), Fixed::from_int(20), raw(damping_ratio)).unwrap()
}

const ONE: i128 = SCALE as i128;

#[test]
fn fps_is_the_length_of_one_frame() {
    assert_eq!(fps(60), Some(raw(279620)));
    assert_eq!(fps(1), Some(Fixed::one()));
    assert_eq!(fps(u32::MAX), Some(raw(0)));
}

#[test]
fn fps_of_zero_is_none() {
    assert_eq!(fps(0), None);
}

#[test]
fn new_keeps_a_valid_tuning() {
    let spring = Spring::new(raw(279620), Fixed::from_int(20), raw(11744051)).unwrap();
    assert_eq!(spring.delta_time, raw(279620));
    assert_eq!(spring.angular_frequency, Fixed::from_int(20));
    assert_eq!(spring.damping_ratio, raw(11744051));
    assert!(Spring::new(raw(1), raw(1), raw(0)).is_some());
}

#[test]
fn new_refuses_a_time_step_that_is_not_positive() {
    assert_eq!(Spring::new(raw(0), Fixed::from_int(20), Fixed::one()), None);
    assert_eq!(Spring::new(raw(-1), Fixed::from_int(20), Fixed::one()), None);
}

#[test]
fn new_refuses_an_angular_frequency_that_is_not_positive() {
    assert_eq!(Spring::new(raw(279620), raw(0), Fixed::one()), None);
    assert_eq!(Spring::new(raw(279620), Fixed::from_int(-20), Fixed::one()), None);
}

#[test]
fn new_refuses_a_negative_damping_ratio() {
    assert_eq!(Spring::new(raw(279620), Fixed::from_int(20), raw(-1)), None);
}

#[test]
fn new_refuses_an_angle_per_step_beyond_the_range() {
    // 2^19 radians per second over 2^19 seconds is 2^38 radians, the largest that fits.
    assert!(Spring::new(raw(1 << 43), raw(1 << 43), raw(i64::MAX)).is_some());
    assert_eq!(Spring::new(raw(1 << 44), raw(1 << 43), raw(0)), None);
    assert_eq!(Spring::new(raw(i64::MAX), raw(i64::MAX), raw(0)), None);
}

#[test]
fn default_is_sixty_frames_twenty_radians_and_seven_tenths() {
    assert_eq!(Spring::default(), tuned(11744051));
    assert_eq!(Some(Spring::default().delta_time), fps(60));
    assert_eq!(Some(Spring::default().damping_ratio), Fixed::from_ratio(7, 10));
}

#[test]
fn gains_of_the_default_spring() {
    // stiffness 20 * 20 / 60; resistance 1 + 2 * 0.7 * 20 / 60 + (20 / 60)^2
    assert_eq!(Spring::default().gains(), (raw(111848000), 26470708));
}

#[test]
fn gains_round_the_stiffness_down_and_the_resistance_up() {
    let least = Spring::new(raw(1), raw(1), raw(1)).unwrap();
    assert_eq!(least.gains(), (raw(0), ONE + 3));
    let undamped = Spring::new(raw(1), raw(1), raw(0)).unwrap();
    assert_eq!(undamped.gains(), (raw(0), ONE + 1));
    assert_eq!(tuned(0).gains(), (raw(111848000), 18641348));
    assert_eq!(tuned(SCALE).gains(), (raw(111848000), 29826148));
    let unit = Spring::new(Fixed::one(), Fixed::one(), Fixed::one()).unwrap();
    assert_eq!(unit.gains(), (Fixed::one(), 4 * ONE));
}

#[test]
fn gains_hold_the_stiffness_to_its_limit() {
    let spring = Spring::new(raw(1 << 43), raw(1 << 43), raw(i64::MAX)).unwrap();
    assert_eq!(GAIN_LIMIT, 1 << 62);
    assert_eq!(spring.gains(), (raw(GAIN_LIMIT), 6338253001141147006933776990208));
}

#[test]
fn update_takes_one_step_from_rest() {
    let spring = Spring::default();
    let target = Fixed::from_int(100);
    // The velocity is the pull 6.666 * 100 over the resistance 1.5777; the position moves by
    // a sixtieth of that.
    assert_eq!(
        spring.update(Fixed::zero(), Fixed::zero(), target),
        (raw(118149230), raw(7088960579))
    );
}

#[test]
fn update_follows_the_trajectory() {
    let spring = Spring::default();
    let target = Fixed::from_int(100);
    let mut state = (Fixed::zero(), Fixed::zero());
    let expected = [
        (118149230, 7088960579),
        (302861449, 11082743736),
        (516753612, 12833542030),
    ];
    for step in expected {
        state = spring.update(state.0, state.1, target);
        assert_eq!(state, (raw(step.0), raw(step.1)));
    }
}

#[test]
fn update_is_odd_in_the_distance() {
    let spring = Spring::default();
    assert_eq!(
        spring.update(Fixed::zero(), Fixed::zero(), Fixed::from_int(-100)),
        (raw(-118149230), raw(-7088960579))
    );
}

#[test]
fn update_at_rest_on_the_target_stays() {
    let spring = Spring::default();
    let at = raw(123456789);
    assert_eq!(spring.update(at, Fixed::zero(), at), (at, Fixed::zero()));
}

#[test]
fn update_agrees_with_advance_on_the_gains() {
    let spring = tuned(SCALE);
    let (stiffness, resistance) = spring.gains();
    let (x, v, t) = (raw(-5_000_000), raw(77_000_000), raw(900_000_000));
    assert_eq!(
        spring.update(x, v, t),
        advance(stiffness, resistance, spring.delta_time, x, v, t)
    );
}

#[test]
fn advance_divides_the_velocity_by_the_resistance() {
    let zero = Fixed::zero();
    // No pull, no time: 10 over a resistance of 4 is 2.5.
    assert_eq!(
        advance(zero, 4 * ONE, zero, zero, Fixed::from_int(10), zero),
        (zero, raw(5 * SCALE / 2))
    );
    // A pull of 1 * 10 over a resistance of 3, moved for one second.
    assert_eq!(
        advance(Fixed::one(), 3 * ONE, Fixed::one(), zero, zero, raw(10)),
        (raw(3), raw(3))
    );
}

#[test]
fn advance_rounds_the_velocity_toward_zero() {
    let zero = Fixed::zero();
    // 3 raw units over a resistance of 2 are 1.5 raw units.
    assert_eq!(advance(zero, 2 * ONE, zero, zero, raw(3), zero), (zero, raw(1)));
    assert_eq!(advance(zero, 2 * ONE, zero, zero, raw(-3), zero), (zero, raw(-1)));
    // A pull of half of 3 raw units.
    let half = raw(SCALE / 2);
    assert_eq!(advance(half, ONE, half, zero, zero, raw(3)), (zero, raw(1)));
    assert_eq!(advance(half, ONE, half, zero, zero, raw(-3)), (zero, raw(-1)));
}

#[test]
fn advance_rounds_the_displacement_toward_zero() {
    let zero = Fixed::zero();
    let half = raw(SCALE / 2);
    // Half a second at 3 raw units per second is 1.5 raw units.
    assert_eq!(advance(zero, ONE, half, zero, raw(3), zero), (raw(1), raw(3)));
    assert_eq!(advance(zero, ONE, half, zero, raw(-3), zero), (raw(-1), raw(-3)));
}

#[test]
fn update_saturates_instead_of_overflowing() {
    let spring = Spring::default();
    let (least, greatest) = (raw(i64::MIN), raw(i64::MAX));
    assert_eq!(
        spring.update(least, least, greatest),
        (raw(-9069649316175413249), greatest)
    );
    assert_eq!(
        spring.update(greatest, greatest, least),
        (raw(9069649316175413247), least)
    );
    let limit = raw(GAIN_LIMIT);
    assert_eq!(advance(limit, ONE, greatest, least, greatest, greatest), (greatest, greatest));
    assert_eq!(advance(limit, ONE, greatest, greatest, least, least), (least, least));
    assert_eq!(
        advance(raw(-GAIN_LIMIT), 1, greatest, greatest, greatest, least),
        (greatest, greatest)
    );
}

#[test]
fn a_critically_damped_spring_never_overshoots() {
    let spring = tuned(SCALE);
    for target in [Fixed::from_int(100), Fixed::from_int(3), raw(1), raw(i64::MAX)] {
        let start = raw(-12345);
        let mut state = (start, Fixed::zero());
        for _ in 0..2000 {
            let next = spring.update(state.0, state.1, target);
            assert!(state.0.raw() <= next.0.raw());
            assert!(next.0.raw() <= target.raw());
            assert!(next.1.raw() >= 0);
            state = next;
        }
    }
}

#[test]
fn a_critically_damped_spring_approaches_from_above_too() {
    let spring = tuned(SCALE);
    let target = Fixed::from_int(-40);
    let mut state = (Fixed::from_int(60), Fixed::zero());
    for _ in 0..2000 {
        let next = spring.update(state.0, state.1, target);
        assert!(target.raw() <= next.0.raw());
        assert!(next.0.raw() <= state.0.raw());
        state = next;
    }
    // What is left is the few raw units over which rounding holds the spring back.
    assert_eq!(state, (raw(-40 * SCALE + 5), raw(-42)));
}

#[test]
fn a_heavily_damped_spring_creeps_without_overshoot() {
    let spring = tuned(10 * SCALE);
    assert_eq!(spring.gains(), (raw(111848000), 130489348));
    let target = Fixed::from_int(100);
    let mut state = (Fixed::zero(), Fixed::zero());
    for _ in 0..3000 {
        let next = spring.update(state.0, state.1, target);
        assert!(state.0.raw() <= next.0.raw());
        assert!(next.0.raw() <= target.raw());
        state = next;
    }
    assert_eq!(state.0.raw(), 100 * SCALE - 62);
}

#[test]
fn an_undamped_spring_swings_past_its_target_and_dies_down() {
    let spring = tuned(0);
    let target = Fixed::from_int(100);
    let mut state = (Fixed::zero(), Fixed::zero());
    let mut highest = 0;
    let mut steps = 0;
    while state.0.abs_diff(target) > SCALE as u64 || state.1.abs_diff(Fixed::zero()) > 100 * SCALE as u64 {
        state = spring.update(state.0, state.1, target);
        highest = highest.max(state.0.raw());
        steps += 1;
        assert!(steps < 1000);
    }
    assert_eq!(steps, 63);
    assert!(highest > 150 * SCALE);
    assert_eq!(state, (raw(1668641953), raw(1200829522)));
}
