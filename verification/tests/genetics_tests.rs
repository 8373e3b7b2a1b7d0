use kitties::genetics::combine_genetics;

#[test]
fn combine_is_bitwise_mask_choice() {
    let g1 = vec![0b1010_1010u8; 16];
    let g2 = vec![0b0101_0101u8; 16];
    let sel = vec![0b1111_0000u8; 16];
    // selector bit set -> parent 1's bit, clear -> parent 2's bit
    let expected = vec![0b1010_0101u8; 16];
    assert_eq!(combine_genetics(&g1, &g2, &sel), expected);
}

#[test]
fn all_ones_selector_yields_first_parent() {
    let g1: Vec<u8> = (0u8..16).collect();
    let g2 = vec![0x5au8; 16];
    let sel = vec![0xffu8; 16];
    assert_eq!(combine_genetics(&g1, &g2, &sel), g1);
}

#[test]
fn all_zeros_selector_yields_second_parent() {
    let g1 = vec![0x5au8; 16];
    let g2: Vec<u8> = (16u8..32).collect();
    let sel = vec![0u8; 16];
    assert_eq!(combine_genetics(&g1, &g2, &sel), g2);
}

#[test]
fn combine_is_deterministic() {
    let g1 = vec![0x12u8; 16];
    let g2 = vec![0x34u8; 16];
    let sel = vec![0xabu8; 16];
    let a = combine_genetics(&g1, &g2, &sel);
    let b = combine_genetics(&g1, &g2, &sel);
    assert_eq!(a, b);
}

#[test]
fn combine_mixes_per_byte() {
    let mut g1 = vec![0u8; 16];
    let mut g2 = vec![0u8; 16];
    let mut sel = vec![0u8; 16];
    g1[0] = 0xf0;
    g2[0] = 0x0f;
    sel[0] = 0xff;
    g1[15] = 0xf0;
    g2[15] = 0x0f;
    sel[15] = 0x00;
    let r = combine_genetics(&g1, &g2, &sel);
    assert_eq!(r[0], 0xf0);
    assert_eq!(r[15], 0x0f);
    assert_eq!(r[7], 0);
}
