use therook::SingleRankAttack;

#[test]
fn examples() {
    let computed = SingleRankAttack::new();

    assert_eq!(0b01111011u8, computed.get(0b11000101u8, 0b00000100u8));
    assert_eq!(0b01110110u8, computed.get(0b01001010u8, 0b00001000u8));
}

#[test]
fn reverse_turns_a_byte_round() {
    assert_eq!(SingleRankAttack::reverse(0b0000_0001), 0b1000_0000);
    assert_eq!(SingleRankAttack::reverse(0b0001_0110), 0b0110_1000);
    assert_eq!(SingleRankAttack::reverse(0xFF), 0xFF);
}
