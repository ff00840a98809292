use chaum_pedersen::natural::Natural;

#[test]
fn from_u32_writes_big_endian_bytes() {
    assert_eq!(Natural::from_u32(0x01020304).to_bytes_be(), vec![1, 2, 3, 4]);
    assert_eq!(Natural::from_u32(u32::MAX).to_bytes_be(), vec![0xff, 0xff, 0xff, 0xff]);
    assert_eq!(Natural::from_u32(65536), Natural::from_bytes_be(&[1, 0, 0]));
    assert_eq!(Natural::from_u32(255), Natural::from_bytes_be(&[255]));
    assert_eq!(Natural::from_u32(256), Natural::from_bytes_be(&[1, 0]));
}

#[test]
fn from_bytes_be_reads_the_first_byte_as_the_most_significant() {
    assert_eq!(Natural::from_bytes_be(b"A"), Natural::from_u32(65));
    assert_eq!(Natural::from_bytes_be(b"AA"), Natural::from_u32(16705));
    assert_eq!(Natural::from_bytes_be(b"AB"), Natural::from_u32(16706));
    assert_eq!(Natural::from_bytes_be(&[4, 101]), Natural::from_u32(1125));
}

#[test]
fn leading_zero_bytes_do_not_change_a_number() {
    assert_eq!(Natural::from_bytes_be(&[0, 0, 7]), Natural::from_u32(7));
    assert_eq!(Natural::from_bytes_be(&[]), Natural::from_u32(0));
    assert_eq!(Natural::from_bytes_be(&[0, 0]), Natural::from_bytes_be(&[0]));
    assert_ne!(Natural::from_bytes_be(&[7, 0]), Natural::from_u32(7));
}

#[test]
fn is_zero_holds_for_zero_only() {
    assert!(Natural::from_u32(0).is_zero());
    assert!(Natural::from_bytes_be(&[]).is_zero());
    assert!(Natural::from_bytes_be(&[0, 0, 0]).is_zero());
    assert!(!Natural::from_u32(1).is_zero());
    assert!(!Natural::from_bytes_be(&[1, 0, 0, 0, 0, 0, 0, 0, 0]).is_zero());
}

#[test]
fn to_bytes_be_is_the_shortest_spelling() {
    assert_eq!(Natural::from_u32(0).to_bytes_be(), vec![0]);
    assert_eq!(Natural::from_bytes_be(&[]).to_bytes_be(), vec![0]);
    assert_eq!(Natural::from_bytes_be(&[0, 0, 0, 0, 0]).to_bytes_be(), vec![0]);
    assert_eq!(Natural::from_u32(1).to_bytes_be(), vec![1]);
    assert_eq!(Natural::from_u32(1125).to_bytes_be(), vec![4, 101]);
    assert_eq!(Natural::from_u32(256).to_bytes_be(), vec![1, 0]);
    assert_eq!(Natural::from_bytes_be(&[0, 0, 7, 0, 9]).to_bytes_be(), vec![7, 0, 9]);
    assert_eq!(Natural::from_bytes_be(&[0, 255]).to_bytes_be(), vec![255]);
}

#[test]
fn to_bytes_be_round_trips() {
    let bytes = [0x12u8, 0x34, 0x56, 0x78, 0x9a, 0xbc, 0xde, 0xf0, 0x11];
    let number = Natural::from_bytes_be(&bytes);
    assert_eq!(number.to_bytes_be(), bytes.to_vec());
    assert_eq!(Natural::from_bytes_be(&number.to_bytes_be()), number);
}

#[test]
fn clone_keeps_the_value() {
    let number = Natural::from_bytes_be(&[9, 8, 7, 6, 5, 4, 3, 2, 1]);
    assert_eq!(number.clone(), number);
}
