use therook::{Bitboard, SquareError};

#[test]
fn clockwise() {
    assert_eq!(
        Bitboard::from(0xFF888C92610000u64),
        Bitboard::from(0x1E2222120E0A1222u64).clockwise()
    );
}

#[test]
fn anticlockwise() {
    assert_eq!(
        Bitboard::from(0x86493111FF00u64),
        Bitboard::from(0x1E2222120E0A1222u64).anticlockwise()
    );
}

#[test]
fn shifts_drop_what_leaves_the_board() {
    let h1 = Bitboard::from_square(7);
    let a1 = Bitboard::from_square(0);
    let a8 = Bitboard::from_square(56);
    assert!(h1.east().is_none());
    assert!(h1.north_east().is_none());
    assert!(h1.south_east().is_none());
    assert!(a1.west().is_none());
    assert!(a1.south_west().is_none());
    assert!(a1.south().is_none());
    assert!(a8.north().is_none());
    assert!(a8.north_west().is_none());
    assert_eq!(a1.north(), Bitboard::from_square(8));
    assert_eq!(a1.north_east(), Bitboard::from_square(9));
    assert_eq!(a1.east(), Bitboard::from_square(1));
    assert_eq!(a8.south_east(), Bitboard::from_square(49));
    assert_eq!(h1.north_west(), Bitboard::from_square(14));
    assert_eq!(h1.west(), Bitboard::from_square(6));
}

#[test]
fn next_takes_the_least_square() {
    let mut set = Bitboard::from(0b1010_0100u64);
    assert_eq!(set.next(), Some(2));
    assert_eq!(set.next(), Some(5));
    assert_eq!(set.next(), Some(7));
    assert_eq!(set.next(), None);
    assert!(set.is_none());
}

#[test]
fn squares_and_count() {
    let set = Bitboard::from(0x8000_0000_0000_0101u64);
    assert_eq!(set.squares(), vec![0, 8, 63]);
    assert_eq!(set.count(), 3);
    assert_eq!(Bitboard::new().count(), 0);
}

#[test]
fn to_square_wants_one_member() {
    assert_eq!(Bitboard::new().to_square(), Err(SquareError::Empty));
    assert_eq!(Bitboard::from(3u64).to_square(), Err(SquareError::Multiple));
    assert_eq!(Bitboard::from_square(42).to_square(), Ok(42));
    assert!(Bitboard::from_square(42).has_square(42));
    assert!(!Bitboard::from_square(42).has_square(41));
}

#[test]
fn operators() {
    let a = Bitboard::from(0b1100u64);
    let b = Bitboard::from(0b1010u64);
    assert_eq!(a & b, Bitboard::from(0b1000u64));
    assert_eq!(a | b, Bitboard::from(0b1110u64));
    assert_eq!(a ^ b, Bitboard::from(0b0110u64));
    assert_eq!(!a, Bitboard::from(!0b1100u64));
    assert_eq!(a << 2u8, Bitboard::from(0b110000u64));
    assert_eq!(a >> 2u8, Bitboard::from(0b11u64));
    assert_eq!(a | 0u8, Bitboard::from(0b1101u64));
    assert_eq!(a & 2u8, Bitboard::from(0b0100u64));
    assert_eq!(a ^ 0b1111u64, Bitboard::from(0b0011u64));
    assert_eq!(u64::from(a), 0b1100u64);
}
