use atrac3_rs::mdct::build_bit_reverse_table;

#[test]
fn bit_reverse_matches_binary_prefix() {
    let bit_reverse = build_bit_reverse_table();
    let expected = [0usize, 64, 32, 96, 16, 80, 48, 112];
    assert_eq!(&bit_reverse[..expected.len()], &expected);
}

#[test]
fn bit_reverse_is_an_involution() {
    let table = build_bit_reverse_table();
    assert_eq!(table[127], 127);
    assert_eq!(table[1], 64);
    for i in 0..128 {
        assert_eq!(table[table[i]], i);
    }
}
