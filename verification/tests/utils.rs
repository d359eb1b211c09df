use chess_core::utils::bit;
use chess_core::utils::byte_mask;
use chess_core::utils::col_mask;
use chess_core::utils::diag_ray_between_incl;
use chess_core::utils::fill_between_excl;
use chess_core::utils::fill_between_incl;
use chess_core::utils::fill_left_excl;
use chess_core::utils::fill_left_incl;
use chess_core::utils::fill_right_excl;
use chess_core::utils::fill_right_incl;
use chess_core::utils::flatten_bit;
use chess_core::utils::neg_diag_through;
use chess_core::utils::ortho_ray_between_incl;
use chess_core::utils::pos_diag_through;
use chess_core::utils::unflatten_bit;
use chess_core::utils::BitIterator;

#[test]
fn bit_iterator() {
    let mut it = BitIterator::new(0b101110);
    assert_eq!(it.next(), Some(0b000010));
    assert_eq!(it.next(), Some(0b000100));
    assert_eq!(it.next(), Some(0b001000));
    assert_eq!(it.next(), Some(0b100000));
    assert_eq!(it.next(), None);
}

#[test]
fn fill() {
    let x = 0x00_00_00_00_0a_00_00_00;
    let v = fill_left_incl(x);
    let e = 0xff_ff_ff_ff_fe_00_00_00;
    println!("x: {:#066b}\nv: {:#066b}\ne: {:#066b}", x, v, e);
    assert_eq!(v, e);
    let v = fill_left_excl(x);
    let e = 0xff_ff_ff_ff_fc_00_00_00;
    println!("x: {:#066b}\nv: {:#066b}\ne: {:#066b}", x, v, e);
    assert_eq!(v, e);
    let v = fill_right_incl(x);
    let e = 0x00_00_00_00_0f_ff_ff_ff;
    println!("x: {:#066b}\nv: {:#066b}\ne: {:#066b}", x, v, e);
    assert_eq!(v, e);
    let v = fill_right_excl(x);
    let e = 0x00_00_00_00_07_ff_ff_ff;
    println!("x: {:#066b}\nv: {:#066b}\ne: {:#066b}", x, v, e);
    assert_eq!(v, e);
}

#[test]
fn flatten() {
    let x = 2;
    let y = 1;
    assert_eq!(flatten_bit(x, y), 0b100_00000000);
}

#[test]
fn unflatten() {
    let b = 0b100_00000000;
    assert_eq!(unflatten_bit(b), (2, 1));
}

#[test]
fn bytemask() {
    let i = 10;
    assert_eq!(byte_mask(i), 0xff00);
}

#[test]
fn fill_between_() {
    let b1 = 0b000010000;
    let b2 = 0b100000000;
    let e = 0b111110000;
    assert_eq!(fill_between_incl(b1, b2), e);
}

#[test]
fn ortho_ray_between_() {
    let b1 = 0x000002;
    let b2 = 0x020000;
    let e = 0x020202;
    assert_eq!(ortho_ray_between_incl(b1, b2), e);
    let b2 = 0x040000;
    assert_eq!(ortho_ray_between_incl(b1, b2), 0);
}

#[test]
fn fill_of_empty_board_is_fully_open() {
    // the policy for "no blocker found": every fill of an empty mask is the
    // all-ones board, never all-zero
    assert_eq!(fill_left_incl(0), u64::MAX);
    assert_eq!(fill_left_excl(0), u64::MAX);
    assert_eq!(fill_right_incl(0), u64::MAX);
    assert_eq!(fill_right_excl(0), u64::MAX);
}

#[test]
fn fill_at_board_edges() {
    assert_eq!(fill_left_excl(1u64 << 63), 0);
    assert_eq!(fill_right_excl(1u64 << 0), 0);
    assert_eq!(fill_left_incl(1u64 << 63), 1u64 << 63);
    assert_eq!(fill_right_incl(1u64 << 0), 1);
}

#[test]
fn diagonals_through_a_square() {
    // d1 lies on the a4-d1 rising diagonal and the d1-h5 falling diagonal
    let b = flatten_bit(3, 0);
    assert_eq!(
        neg_diag_through(b),
        bit(3) | bit(12) | bit(21) | bit(30) | bit(39)
    );
    assert_eq!(pos_diag_through(b), bit(3) | bit(10) | bit(17) | bit(24));
}

#[test]
fn diag_ray_between_squares() {
    // c1 to f4, endpoints included
    let b1 = flatten_bit(2, 0);
    let b2 = flatten_bit(5, 3);
    assert_eq!(
        diag_ray_between_incl(b1, b2),
        bit(2) | bit(11) | bit(20) | bit(29)
    );
    // not colinear
    assert_eq!(diag_ray_between_incl(b1, flatten_bit(5, 4)), 0);
}

#[test]
fn fill_between_excl_drops_endpoints() {
    let b1 = 0b000010000;
    let b2 = 0b100000000;
    assert_eq!(fill_between_excl(b1, b2), 0b011100000);
}

#[test]
fn col_mask_is_one_file() {
    assert_eq!(col_mask(10), 0x0404_0404_0404_0404);
}
