use spring_layout::display::{get_scale, FITTED_LENGTH};
use spring_layout::fixed::Fixed;
use spring_layout::mat4::Mat4;
use spring_layout::vec2::Vec2;

fn extent(x: i64, y: i64) -> Vec2 {
    Vec2::new(Fixed::from_int(x), Fixed::from_int(y))
}

fn scale(x: i64, y: i64) -> Option<Mat4> {
    Some(Mat4::from_scale(Fixed::from_raw(x), Fixed::from_raw(y), Fixed::one()))
}

#[test]
fn the_longer_side_is_shown_at_twelve_hundred_pixels() {
    assert_eq!(FITTED_LENGTH, 1200);
    // ratio 1200 / 800 = 1.5, so 3 / 1600 across and -3 / 1200 down
    assert_eq!(get_scale(1600, 1200, extent(800, 600)), scale(31457, -41943));
}

#[test]
fn get_scale_goes_by_the_longer_side_whichever_it_is() {
    assert_eq!(get_scale(800, 600, extent(100, 400)), scale(125829, -167772));
    assert_eq!(get_scale(800, 600, extent(400, 100)), scale(125829, -167772));
    assert_eq!(get_scale(800, 600, extent(400, 400)), scale(125829, -167772));
}

#[test]
fn get_scale_of_a_window_without_extent_is_none() {
    assert_eq!(get_scale(0, 1200, extent(800, 600)), None);
    assert_eq!(get_scale(1600, 0, extent(800, 600)), None);
    assert_eq!(get_scale(0, 0, extent(800, 600)), None);
}

#[test]
fn get_scale_of_a_drawing_without_extent_is_none() {
    assert_eq!(get_scale(1600, 1200, extent(0, 0)), None);
    assert_eq!(get_scale(1600, 1200, extent(0, -3)), None);
    assert!(get_scale(1600, 1200, extent(-3, 0)).is_none());
}

#[test]
fn get_scale_saturates() {
    let thin = Vec2::new(Fixed::from_raw(1), Fixed::from_raw(0));
    assert_eq!(get_scale(1, 1, thin), scale(675539944105574400, -675539944105574400));
    let vast = Vec2::new(Fixed::from_raw(i64::MAX), Fixed::from_raw(i64::MIN));
    assert_eq!(get_scale(u32::MAX, u32::MAX, vast), scale(0, 0));
}

#[test]
fn get_scale_of_a_negative_extent_turns_the_drawing_over() {
    assert_eq!(get_scale(3, 7, extent(-5, -9)), scale(-2684354560, 1150437668));
}
