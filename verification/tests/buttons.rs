use rosu_ur_calc::{Buttons, InputError};

#[test]
fn key_press_clears_the_mouse_bit_reported_with_it() {
    let keys = Buttons::from_bits(5);
    assert!(keys.k1());
    assert!(!keys.m1());
    assert!(!keys.m2());
    assert!(!keys.k2());
    assert_eq!(keys.to_bits(), 4);
}

#[test]
fn second_key_clears_the_second_mouse_bit() {
    let keys = Buttons::from_bits(10);
    assert!(keys.k2());
    assert!(!keys.m2());
    assert_eq!(keys.to_bits(), 8);
}

#[test]
fn mouse_buttons_alone_stay_as_they_are() {
    let keys = Buttons::from_bits(3);
    assert!(keys.m1());
    assert!(keys.m2());
    assert!(!keys.k1());
    assert!(!keys.k2());
}

#[test]
fn bits_above_the_four_buttons_are_kept() {
    assert_eq!(Buttons::from_bits(0x15).to_bits(), 0x14);
}

#[test]
fn default_buttons_hold_nothing() {
    let keys = Buttons::default();
    assert_eq!(keys.to_bits(), 0);
    assert!(!keys.m1() && !keys.m2() && !keys.k1() && !keys.k2());
}

#[test]
fn new_press_needs_a_button_that_was_up() {
    let none = Buttons::default();
    let left = Buttons::from_bits(1);
    let both = Buttons::from_bits(3);
    assert!(left.is_new_press(none));
    assert!(both.is_new_press(left));
    assert!(!left.is_new_press(both));
    assert!(!left.is_new_press(left));
    assert!(!none.is_new_press(left));
}

#[test]
fn switching_from_mouse_to_key_is_a_new_press() {
    let mouse = Buttons::from_bits(1);
    let key = Buttons::from_bits(5);
    assert!(key.is_new_press(mouse));
}

#[test]
fn double_press_needs_a_left_and_a_right_button() {
    let none = Buttons::default();
    assert!(Buttons::from_bits(3).is_double_press(none));
    assert!(Buttons::from_bits(15).is_double_press(none));
    assert!(Buttons::from_bits(6).is_double_press(none));
    assert!(!Buttons::from_bits(1).is_double_press(none));
    assert!(!Buttons::from_bits(3).is_double_press(Buttons::from_bits(1)));
}

#[test]
fn key_bit_without_its_mouse_bit_is_malformed() {
    assert_eq!(Buttons::checked_from_bits(4), Err(InputError::MalformedButtonState));
    assert_eq!(Buttons::checked_from_bits(8), Err(InputError::MalformedButtonState));
    assert_eq!(Buttons::checked_from_bits(9), Err(InputError::MalformedButtonState));
}

#[test]
fn well_paired_bits_are_read_as_from_bits_reads_them() {
    assert_eq!(Buttons::checked_from_bits(5), Ok(Buttons::from_bits(5)));
    assert_eq!(Buttons::checked_from_bits(15), Ok(Buttons::from_bits(15)));
    assert_eq!(Buttons::checked_from_bits(0), Ok(Buttons::default()));
    assert_eq!(Buttons::checked_from_bits(3), Ok(Buttons::from_bits(3)));
}
