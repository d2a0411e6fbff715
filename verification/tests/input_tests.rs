use rollback_core::input::{
    sample_input, KeyState, PlayerInputFrame, ALL_BITS, DOWN_BITS, LEFT_BITS, RIGHT_BITS, UP_BITS,
};
use rollback_core::player::PlayerHandle;

fn keys(left: bool, right: bool, up: bool, down: bool) -> KeyState {
    KeyState { left, right, up, down }
}

#[test]
fn flag_bits_are_the_low_four() {
    assert_eq!(UP_BITS, 1);
    assert_eq!(DOWN_BITS, 2);
    assert_eq!(LEFT_BITS, 4);
    assert_eq!(RIGHT_BITS, 8);
    assert_eq!(ALL_BITS, 15);
    assert_eq!(PlayerInputFrame::up().bits(), 1);
    assert_eq!(PlayerInputFrame::down().bits(), 2);
    assert_eq!(PlayerInputFrame::left().bits(), 4);
    assert_eq!(PlayerInputFrame::right().bits(), 8);
}

#[test]
fn empty_and_default_set_no_flag() {
    assert_eq!(PlayerInputFrame::empty().bits(), 0);
    assert!(PlayerInputFrame::empty().is_empty());
    assert_eq!(PlayerInputFrame::default(), PlayerInputFrame::empty());
    assert!(!PlayerInputFrame::left().is_empty());
}

#[test]
fn insert_sets_flags_and_keeps_the_others() {
    let mut input = PlayerInputFrame::empty();
    input.insert(PlayerInputFrame::left());
    assert_eq!(input.bits(), 4);
    input.insert(PlayerInputFrame::up());
    assert_eq!(input.bits(), 5);
    input.insert(PlayerInputFrame::left());
    assert_eq!(input.bits(), 5);
}

#[test]
fn contains_asks_for_every_flag() {
    let input = PlayerInputFrame::from_bits(5).unwrap();
    assert!(input.contains(PlayerInputFrame::left()));
    assert!(input.contains(PlayerInputFrame::up()));
    assert!(!input.contains(PlayerInputFrame::right()));
    assert!(!input.contains(PlayerInputFrame::down()));
    assert!(input.contains(PlayerInputFrame::empty()));
    assert!(!PlayerInputFrame::left().contains(input));
}

#[test]
fn from_bits_refuses_reserved_bits() {
    assert_eq!(PlayerInputFrame::from_bits(0), Some(PlayerInputFrame::empty()));
    assert_eq!(PlayerInputFrame::from_bits(15).map(|i| i.bits()), Some(15));
    assert_eq!(PlayerInputFrame::from_bits(16), None);
    assert_eq!(PlayerInputFrame::from_bits(0x8000_0004), None);
    assert_eq!(PlayerInputFrame::from_bits(u32::MAX), None);
}

#[test]
fn sampling_no_key_gives_the_empty_input() {
    let input = sample_input(PlayerHandle(0), &keys(false, false, false, false));
    assert_eq!(input.bits(), 0);
}

#[test]
fn sampling_single_keys() {
    assert_eq!(sample_input(PlayerHandle(0), &keys(true, false, false, false)).bits(), 4);
    assert_eq!(sample_input(PlayerHandle(0), &keys(false, true, false, false)).bits(), 8);
    assert_eq!(sample_input(PlayerHandle(0), &keys(false, false, true, false)).bits(), 1);
    assert_eq!(sample_input(PlayerHandle(0), &keys(false, false, false, true)).bits(), 2);
}

#[test]
fn sampling_left_wins_over_right_and_up_over_down() {
    assert_eq!(sample_input(PlayerHandle(0), &keys(true, true, false, false)).bits(), 4);
    assert_eq!(sample_input(PlayerHandle(0), &keys(false, false, true, true)).bits(), 1);
    assert_eq!(sample_input(PlayerHandle(0), &keys(true, true, true, true)).bits(), 5);
}

#[test]
fn sampling_combines_one_flag_of_each_axis() {
    assert_eq!(sample_input(PlayerHandle(1), &keys(true, false, false, true)).bits(), 6);
    assert_eq!(sample_input(PlayerHandle(1), &keys(false, true, true, false)).bits(), 9);
    assert_eq!(sample_input(PlayerHandle(1), &keys(false, true, false, true)).bits(), 10);
}

#[test]
fn sampling_does_not_depend_on_the_handle() {
    let k = keys(true, false, true, false);
    assert_eq!(sample_input(PlayerHandle(0), &k), sample_input(PlayerHandle(1), &k));
}
