use param_sfo::{ParamSFO, Value};

const LICENSE: &str = "Library programs ©Sony Computer Entertainment Inc. Licensed for play on the PLAYSTATION®3 Computer Entertainment System or authorized PLAYSTATION®3 format systems. For full terms and conditions see the user's manual. This product is authorized and produced under license from Sony Computer Entertainment Inc. Use is subject to the copyright laws and the terms and conditions of the user's license.";

fn padded(mut bytes: Vec<u8>, len: usize) -> Vec<u8> {
    bytes.resize(len, 0);
    bytes
}

/// The file of a disc game, put together from the offsets and lengths of its tables.
fn disc_game_file() -> Vec<u8> {
    let records: [(u16, u16, u32, u32, u32); 12] = [
        (0, 0x204, 6, 8, 0),
        (8, 0x404, 4, 4, 8),
        (18, 0x404, 4, 4, 12),
        (27, 0x204, 3, 4, 16),
        (36, 0x204, 401, 512, 20),
        (44, 0x404, 4, 4, 532),
        (59, 0x204, 8, 8, 536),
        (74, 0x404, 4, 4, 544),
        (85, 0x404, 4, 4, 548),
        (98, 0x204, 18, 128, 552),
        (104, 0x204, 10, 16, 680),
        (113, 0x204, 6, 8, 696),
    ];
    let mut file = b"\0PSF\x01\x01\0\0".to_vec();
    file.extend(212u32.to_le_bytes());
    file.extend(336u32.to_le_bytes());
    file.extend(12u32.to_le_bytes());
    for (key_offset, fmt, len, max_len, data_offset) in records {
        file.extend(key_offset.to_le_bytes());
        file.extend(fmt.to_le_bytes());
        file.extend(len.to_le_bytes());
        file.extend(max_len.to_le_bytes());
        file.extend(data_offset.to_le_bytes());
    }
    file.extend(b"APP_VER\0ATTRIBUTE\0BOOTABLE\0CATEGORY\0LICENSE\0PARENTAL_LEVEL\0");
    file.extend(b"PS3_SYSTEM_VER\0RESOLUTION\0SOUND_FORMAT\0TITLE\0TITLE_ID\0VERSION\0");
    file.extend([0, 0, 0]);
    file.extend(padded(b"01.00".to_vec(), 8));
    file.extend([165, 0, 0, 0]);
    file.extend([1, 0, 0, 0]);
    file.extend(padded(b"DG".to_vec(), 4));
    file.extend(padded(LICENSE.as_bytes().to_vec(), 512));
    file.extend([9, 0, 0, 0]);
    file.extend(padded(b"04.1100".to_vec(), 8));
    file.extend([55, 0, 0, 0]);
    file.extend([7, 1, 0, 0]);
    file.extend(padded(b"LOLLIPOP CHAINSAW".to_vec(), 128));
    file.extend(padded(b"BLES01525".to_vec(), 16));
    file.extend(padded(b"01.01".to_vec(), 8));
    file
}

#[test]
fn disc_game_sfo() {
    let original_bytes = disc_game_file();
    let original = ParamSFO::from_bytes(&original_bytes).unwrap();

    let key = "APP_VER";
    let val = "01.00";

    let parts: Vec<(&str, Value, u32)> = vec![
        ("SOUND_FORMAT", 263.into(), 4), // test the automatic alphabetical order
        (key, val.into(), 8),
        ("ATTRIBUTE", 165.into(), 4),
        ("BOOTABLE", 1.into(), 4),
        ("CATEGORY", "DG".into(), 4),
        ("LICENSE", LICENSE.into(), 512),
        ("PARENTAL_LEVEL", 9.into(), 4),
        ("PS3_SYSTEM_VER", "04.1100".into(), 8),
        ("RESOLUTION", 55.into(), 4),
        ("TITLE", "LOLLIPOP CHAINSAW".into(), 128),
        ("TITLE_ID", "BLES01525".into(), 16),
        ("VERSION", "01.01".into(), 8),
    ];
    let mut keys = vec![];
    let mut values = vec![];
    let mut max_lens = vec![];
    for (k, v, l) in parts {
        keys.push(k.to_string());
        values.push(v);
        max_lens.push(l);
    }
    let custom = ParamSFO::from_parts(keys, values, max_lens).unwrap();

    assert_eq!(original, custom);
    assert_eq!(original_bytes, custom.to_bytes().unwrap());
    assert_eq!(original_bytes.len(), 1040);
}
