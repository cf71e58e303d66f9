use spear::base_structures::castle_rights::{ROOK_POSITIONS, WHITE_KING_BIT};
use spear::{CastleRight, Square};

#[test]
fn rights_text_lists_held_rights_in_order() {
    assert_eq!(CastleRight::from_raw(0b1111).to_string(), "KQkq");
    assert_eq!(CastleRight::from_raw(0b0100).to_string(), "K");
    assert_eq!(CastleRight::from_raw(0b1000).to_string(), "Q");
    assert_eq!(CastleRight::from_raw(0b0001).to_string(), "k");
    assert_eq!(CastleRight::from_raw(0b0010).to_string(), "q");
    assert_eq!(CastleRight::from_raw(0b1100).to_string(), "KQ");
    assert_eq!(CastleRight::from_raw(0b0011).to_string(), "kq");
    assert_eq!(CastleRight::from_raw(0b0101).to_string(), "Kk");
    assert_eq!(CastleRight::from_raw(0b1010).to_string(), "Qq");
    assert_eq!(CastleRight::from_raw(0b0110).to_string(), "Kq");
    assert_eq!(CastleRight::from_raw(0b1001).to_string(), "Qk");
    assert_eq!(CastleRight::from_raw(0b1101).to_string(), "KQk");
    assert_eq!(CastleRight::from_raw(0b1110).to_string(), "KQq");
    assert_eq!(CastleRight::from_raw(0b0111).to_string(), "Kkq");
    assert_eq!(CastleRight::from_raw(0b1011).to_string(), "Qkq");
}

#[test]
fn rights_text_of_no_right_is_a_dash() {
    assert_eq!(CastleRight::null().to_string(), "-");
    assert_eq!(CastleRight::from_raw(0b1_0000).to_string(), "-");
    assert_eq!(CastleRight::default().to_string(), "-");
}

#[test]
fn rights_are_set_and_removed_one_by_one() {
    let mut rights = CastleRight::null();
    assert!(!rights.has_right(CastleRight::white_king()));
    rights.set_right(CastleRight::white_king());
    rights.set_right(CastleRight::black_queen());
    assert!(rights.has_right(CastleRight::white_king()));
    assert!(rights.has_right(CastleRight::black_queen()));
    assert!(!rights.has_right(CastleRight::white_queen()));
    assert!(!rights.has_right(CastleRight::black_king()));
    assert_eq!(rights.get_value(), 0b0110);
    rights.remove_right(CastleRight::white_king());
    assert!(!rights.has_right(CastleRight::white_king()));
    assert_eq!(rights.get_value(), 0b0010);
    rights.remove_right(CastleRight::white_king());
    assert_eq!(rights.get_value(), 0b0010);
}

#[test]
fn has_right_asks_for_any_of_the_flags() {
    let rights = CastleRight::from_raw(0b0100);
    assert!(rights.has_right(CastleRight::from_raw(0b1100)));
    assert!(!rights.has_right(CastleRight::from_raw(0b1011)));
    assert!(!rights.has_right(CastleRight::null()));
}

#[test]
fn index_is_the_place_of_the_lowest_flag() {
    assert_eq!(CastleRight::black_king().get_index(), 0);
    assert_eq!(CastleRight::black_queen().get_index(), 1);
    assert_eq!(CastleRight::white_king().get_index(), 2);
    assert_eq!(CastleRight::white_queen().get_index(), 3);
    assert_eq!(CastleRight::from_raw(0b1100).get_index(), 2);
    assert_eq!(CastleRight::null().get_index(), 8);
}

#[test]
fn rights_convert_to_numbers() {
    let rights = CastleRight::from_raw(0b1001);
    assert_eq!(u8::from(rights), 9);
    assert_eq!(usize::from(rights), 9);
    assert_eq!(rights.get_value(), 9);
    assert_eq!(WHITE_KING_BIT, 4);
    assert_eq!(ROOK_POSITIONS, [0, 7]);
}

#[test]
fn corner_and_king_squares_revoke_rights() {
    assert_eq!(CastleRight::rook_mask(Square::from_raw(0)).get_value(), 0b1000);
    assert_eq!(CastleRight::rook_mask(Square::from_raw(4)).get_value(), 0b1100);
    assert_eq!(CastleRight::rook_mask(Square::from_raw(7)).get_value(), 0b0100);
    assert_eq!(CastleRight::rook_mask(Square::from_raw(56)).get_value(), 0b0010);
    assert_eq!(CastleRight::rook_mask(Square::from_raw(60)).get_value(), 0b0011);
    assert_eq!(CastleRight::rook_mask(Square::from_raw(63)).get_value(), 0b0001);
    for raw in 0..64u8 {
        if ![0u8, 4, 7, 56, 60, 63].contains(&raw) {
            assert_eq!(CastleRight::rook_mask(Square::from_raw(raw)).get_value(), 0);
        }
    }
}
