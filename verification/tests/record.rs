use switcheroo::record::{
    key_window_record, le_bytes32, le_bytes64, probe_token, Flavor, FLAVOR_DOWN, FLAVOR_UP,
    RECORD_LEN, TOKEN_LEN,
};

fn captured_record(window: u32, flavor: u8) -> [u8; 0xf8] {
    let mut bytes = [0u8; 0xf8];
    bytes[0x04] = 0xf8;
    bytes[0x3a] = 0x10;
    let id = window.to_le_bytes();
    bytes[0x3c] = id[0];
    bytes[0x3d] = id[1];
    bytes[0x3e] = id[2];
    bytes[0x3f] = id[3];
    bytes[0x20..0x30].fill(0xff);
    bytes[0x08] = flavor;
    bytes
}

#[test]
fn down_record_matches_known_good_bytes() {
    let record = key_window_record(0x1234_5678, Flavor::Down);
    assert_eq!(record.len(), RECORD_LEN);
    assert_eq!(record, captured_record(0x1234_5678, 0x01));
    assert_eq!(record[0x04], 0xf8);
    assert_eq!(record[0x08], 0x01);
    assert_eq!(record[0x3a], 0x10);
    assert_eq!(&record[0x3c..0x40], &[0x78, 0x56, 0x34, 0x12]);
    assert_eq!(&record[0x20..0x30], &[0xff; 16]);
    assert_eq!(record[0x1f], 0);
    assert_eq!(record[0x30], 0);
}

#[test]
fn up_record_differs_in_the_flavor_byte_only() {
    let down = key_window_record(77, Flavor::Down);
    let up = key_window_record(77, Flavor::Up);
    assert_eq!(up, captured_record(77, 0x02));
    for i in 0..RECORD_LEN {
        if i == 0x08 {
            assert_eq!(down[i], 1);
            assert_eq!(up[i], 2);
        } else {
            assert_eq!(down[i], up[i]);
        }
    }
}

#[test]
fn record_of_extreme_window_ids() {
    assert_eq!((FLAVOR_DOWN, FLAVOR_UP), (1, 2));
    assert_eq!(key_window_record(0, Flavor::Down), captured_record(0, 1));
    assert_eq!(key_window_record(u32::MAX, Flavor::Up), captured_record(u32::MAX, 2));
}

#[test]
fn probe_token_layout() {
    let token = probe_token(1234, 5);
    assert_eq!(token.len(), TOKEN_LEN);
    assert_eq!(
        token,
        [
            0xd2, 0x04, 0x00, 0x00, 0, 0, 0, 0, 0x6f, 0x63, 0x6f, 0x63, 5, 0, 0, 0, 0, 0, 0, 0
        ]
    );
}

#[test]
fn probe_token_agrees_with_native_byte_order_encoding() {
    for &(pid, index) in &[(0i32, 0u64), (1, 99), (-1, 7), (i32::MIN, u64::MAX), (i32::MAX, 1 << 40)] {
        let mut expected = [0u8; 20];
        expected[0..4].copy_from_slice(&pid.to_le_bytes());
        expected[4..8].copy_from_slice(&0i32.to_le_bytes());
        expected[8..12].copy_from_slice(&0x636f636fu32.to_le_bytes());
        expected[12..20].copy_from_slice(&index.to_le_bytes());
        assert_eq!(probe_token(pid, index), expected);
    }
}

#[test]
fn little_endian_bytes() {
    assert_eq!(le_bytes32(0x0102_0304), [4, 3, 2, 1]);
    assert_eq!(le_bytes32(0xdead_beef), 0xdead_beefu32.to_le_bytes());
    assert_eq!(le_bytes64(0x0102_0304_0506_0708), [8, 7, 6, 5, 4, 3, 2, 1]);
    assert_eq!(le_bytes64(u64::MAX), [0xff; 8]);
}
