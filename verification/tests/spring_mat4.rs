use spring_layout::fixed::{Fixed, SCALE};
use spring_layout::mat4::Mat4;
use spring_layout::spring::Spring;
use spring_layout::spring_mat4::SpringMat4;

fn shift(x: i64) -> Mat4 {
    Mat4::from_translation(Fixed::from_int(x), Fixed::zero(), Fixed::zero())
}

fn x_of(m: Mat4) -> i64 {
    m.to_cols_array()[12].raw()
}

#[test]
fn default_rests_at_the_identity() {
    let transform: SpringMat4<u8> = SpringMat4::default();
    assert_eq!(transform.current(), Mat4::identity());
    assert_eq!(transform.target(), Mat4::identity());
    assert_eq!(transform.velocity(), Mat4::zero());
    assert!(!transform.is_animating());
}

#[test]
fn new_rests_where_it_is_put() {
    let transform: SpringMat4<u8> = SpringMat4::new(Spring::default(), shift(7));
    assert_eq!(transform.current(), shift(7));
    assert_eq!(transform.target(), shift(7));
    assert_eq!(transform.velocity(), Mat4::zero());
    assert!(!transform.is_animating());
}

#[test]
fn update_at_rest_is_done_and_changes_nothing() {
    let mut transform: SpringMat4<u8> = SpringMat4::default();
    let mut completions = Vec::new();
    assert!(transform.update(&mut completions));
    assert_eq!(transform.current(), Mat4::identity());
    assert_eq!(transform.velocity(), Mat4::zero());
    assert!(!transform.is_animating());
    assert!(completions.is_empty());
}

#[test]
fn spring_to_takes_the_first_step_at_once() {
    let mut transform: SpringMat4<&str> = SpringMat4::default();
    let mut completions = Vec::new();
    let done = transform.spring_to(shift(100), "arrived", &mut completions);
    assert!(!done);
    assert!(transform.is_animating());
    assert_eq!(transform.target(), shift(100));
    assert_eq!(x_of(transform.current()), 118149230);
    assert_eq!(x_of(transform.velocity()), 7088960579);
    assert!(completions.is_empty());
}

#[test]
fn spring_to_moves_only_the_cells_that_differ() {
    let mut transform: SpringMat4<u8> = SpringMat4::default();
    let mut completions = Vec::new();
    transform.spring_to(shift(100), 1, &mut completions);
    let mut expected = Mat4::identity().to_cols_array();
    expected[12] = Fixed::from_raw(118149230);
    assert_eq!(transform.current().to_cols_array(), expected);
    let mut speed = [Fixed::zero(); 16];
    speed[12] = Fixed::from_raw(7088960579);
    assert_eq!(transform.velocity().to_cols_array(), speed);
}

#[test]
fn translation_by_a_hundred_settles_within_the_tolerance() {
    let mut transform: SpringMat4<&str> = SpringMat4::default();
    let mut completions = Vec::new();
    let target = shift(100);
    let mut done = transform.spring_to(target, "arrived", &mut completions);
    let mut ticks = 1;
    while ticks < 120 {
        done = transform.update(&mut completions);
        ticks += 1;
    }
    assert!(done);
    assert!(!transform.is_animating());
    assert!(transform.current().abs_diff_eq(&target, Fixed::one()));
    assert_eq!(transform.velocity(), Mat4::zero());
    assert_eq!(completions, vec!["arrived"]);
}

#[test]
fn the_default_spring_is_done_at_the_thirteenth_tick() {
    let mut transform: SpringMat4<u8> = SpringMat4::default();
    let mut completions = Vec::new();
    assert!(!transform.spring_to(shift(100), 9, &mut completions));
    for _ in 2..13 {
        assert!(!transform.update(&mut completions));
        assert!(transform.is_animating());
        assert!(completions.is_empty());
    }
    assert!(transform.update(&mut completions));
    assert!(!transform.is_animating());
    assert_eq!(x_of(transform.current()), 1693735623);
    assert_eq!(completions, vec![9]);
}

#[test]
fn done_stays_done() {
    let mut transform: SpringMat4<u8> = SpringMat4::default();
    let mut completions = Vec::new();
    let mut done = transform.spring_to(shift(100), 9, &mut completions);
    while !done {
        done = transform.update(&mut completions);
    }
    let current = transform.current();
    for _ in 0..50 {
        assert!(transform.update(&mut completions));
        assert_eq!(transform.current(), current);
        assert_eq!(transform.velocity(), Mat4::zero());
        assert!(!transform.is_animating());
    }
    assert_eq!(completions, vec![9]);
}

#[test]
fn on_complete_fires_once_per_spring_to() {
    let mut transform: SpringMat4<u32> = SpringMat4::default();
    let mut completions = Vec::new();
    for round in 0..5u32 {
        let mut done = transform.spring_to(shift(100 * (round as i64 % 2)), round, &mut completions);
        let mut ticks = 1;
        while !done {
            done = transform.update(&mut completions);
            ticks += 1;
            assert!(ticks < 1000);
        }
        for _ in 0..10 {
            transform.update(&mut completions);
        }
        assert_eq!(completions.len() as u32, round + 1);
    }
    assert_eq!(completions, vec![0, 1, 2, 3, 4]);
}

#[test]
fn spring_to_the_place_where_it_rests_is_done_at_once() {
    let mut transform: SpringMat4<u8> = SpringMat4::new(Spring::default(), shift(5));
    let mut completions = Vec::new();
    assert!(transform.spring_to(shift(5), 3, &mut completions));
    assert!(!transform.is_animating());
    assert_eq!(transform.current(), shift(5));
    assert_eq!(completions, vec![3]);
}

#[test]
fn spring_to_within_the_tolerance_is_done_at_once() {
    let mut transform: SpringMat4<u8> = SpringMat4::default();
    let mut completions = Vec::new();
    let near = Mat4::from_translation(Fixed::from_raw(SCALE / 2), Fixed::zero(), Fixed::zero());
    assert!(transform.spring_to(near, 3, &mut completions));
    assert_eq!(transform.target(), near);
    assert_eq!(transform.velocity(), Mat4::zero());
    assert_eq!(completions, vec![3]);
}

#[test]
fn a_redirect_keeps_the_velocity() {
    let mut transform: SpringMat4<&str> = SpringMat4::default();
    let mut completions = Vec::new();
    transform.spring_to(shift(100), "first", &mut completions);
    transform.update(&mut completions);
    transform.update(&mut completions);
    assert_eq!(x_of(transform.current()), 516753612);
    assert_eq!(x_of(transform.velocity()), 12833542030);
    let done = transform.spring_to(shift(-50), "second", &mut completions);
    assert!(!done);
    // One step from the velocity it had; from rest it would be at 421287953, -5727945046.
    assert_eq!(x_of(transform.current()), 556853461);
    assert_eq!(x_of(transform.velocity()), 2405993293);
    assert_eq!(transform.target(), shift(-50));
    assert!(completions.is_empty());
}

#[test]
fn a_redirect_replaces_the_completion_event() {
    let mut transform: SpringMat4<&str> = SpringMat4::default();
    let mut completions = Vec::new();
    transform.spring_to(shift(100), "first", &mut completions);
    transform.update(&mut completions);
    transform.update(&mut completions);
    let mut done = transform.spring_to(shift(-50), "second", &mut completions);
    let mut ticks = 4;
    while !done {
        done = transform.update(&mut completions);
        ticks += 1;
    }
    assert_eq!(ticks, 17);
    assert_eq!(x_of(transform.current()), -846832994);
    assert!(transform.current().abs_diff_eq(&shift(-50), Fixed::one()));
    assert_eq!(completions, vec!["second"]);
}

#[test]
fn tolerances_decide_when_the_transform_is_done() {
    let tight: SpringMat4<u8> = SpringMat4::default();
    let mut tight = tight.with_tolerances(Fixed::from_raw(16), Fixed::from_raw(1024));
    let mut completions = Vec::new();
    let target = shift(100);
    let mut done = tight.spring_to(target, 1, &mut completions);
    let mut ticks = 1;
    while !done {
        done = tight.update(&mut completions);
        ticks += 1;
        assert!(ticks < 3000);
    }
    assert_eq!(ticks, 77);
    assert!(tight.current().abs_diff_eq(&target, Fixed::from_raw(16)));
    assert!(!tight.current().abs_diff_eq(&target, Fixed::from_raw(0)));
}

#[test]
fn a_negative_tolerance_never_lets_the_transform_rest() {
    let never: SpringMat4<u8> = SpringMat4::default();
    let mut never = never.with_tolerances(Fixed::from_raw(-1), Fixed::from_int(100));
    let mut completions = Vec::new();
    assert!(!never.spring_to(Mat4::identity(), 1, &mut completions));
    for _ in 0..100 {
        assert!(!never.update(&mut completions));
    }
    assert!(never.is_animating());
    assert!(completions.is_empty());
}

#[test]
fn an_undamped_transform_completes_too() {
    let spring = Spring::new(Fixed::from_raw(SCALE / 60), Fixed::from_int(20), Fixed::zero());
    let mut transform: SpringMat4<u8> = SpringMat4::new(spring.unwrap(), Mat4::identity());
    let mut completions = Vec::new();
    let mut done = transform.spring_to(shift(100), 1, &mut completions);
    let mut ticks = 1;
    while !done {
        done = transform.update(&mut completions);
        ticks += 1;
        assert!(ticks < 1000);
    }
    assert_eq!(ticks, 63);
    assert_eq!(x_of(transform.current()), 1668641953);
    assert_eq!(completions, vec![1]);
}

#[test]
fn a_critically_damped_transform_completes() {
    let spring = Spring::new(Fixed::from_raw(SCALE / 60), Fixed::from_int(20), Fixed::one());
    let mut transform: SpringMat4<u8> = SpringMat4::new(spring.unwrap(), Mat4::identity());
    let mut completions = Vec::new();
    let target = shift(100);
    let mut done = transform.spring_to(target, 1, &mut completions);
    let mut ticks = 1;
    let mut last = x_of(transform.current());
    while !done {
        done = transform.update(&mut completions);
        ticks += 1;
        let now = x_of(transform.current());
        assert!(last <= now && now <= x_of(target));
        last = now;
    }
    assert_eq!(ticks, 23);
    assert_eq!(last, 1662570815);
    assert_eq!(completions, vec![1]);
}

#[test]
fn a_default_transform_arrives_whatever_it_was_doing() {
    let mut transform: SpringMat4<u32> = SpringMat4::default();
    let mut completions = Vec::new();
    let mut seed: u64 = 0x9e3779b97f4a7c15;
    let mut sent = 0;
    for round in 0..200u32 {
        // A new target in every cell, before the last transition has ended.
        let cells: [Fixed; 16] = core::array::from_fn(|_| {
            seed = seed.wrapping_mul(6364136223846793005).wrapping_add(1442695040888963407);
            Fixed::from_raw((seed >> 20) as i64 - (1 << 43))
        });
        let target = Mat4::from_cols_array(cells);
        let before = completions.len();
        let mut done = transform.spring_to(target, round, &mut completions);
        sent = round;
        let pause = (seed >> 60) as usize;
        for _ in 0..pause {
            if !done {
                done = transform.update(&mut completions);
            }
        }
        assert_eq!(completions.len(), before + done as usize);
        if done {
            assert_eq!(completions[before], round);
            assert!(transform.current().abs_diff_eq(&target, Fixed::one()));
        }
    }
    let mut ticks = 0;
    while transform.is_animating() {
        transform.update(&mut completions);
        ticks += 1;
        assert!(ticks < 1000);
    }
    assert_eq!(completions.last(), Some(&sent));
    let mut sorted = completions.clone();
    sorted.dedup();
    assert_eq!(sorted, completions);
}
