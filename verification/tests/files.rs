use param_sfo::{Data, Error, FormatError, IoError, Key, ParamSFO, Value};

/// A file with one record, its key table at 36 and its data table at 40.
fn one_entry(fmt: u16, len: u32, max_len: u32, key: &[u8], data: &[u8]) -> Vec<u8> {
    let mut file = b"\0PSF\x01\x01\0\0".to_vec();
    file.extend(36u32.to_le_bytes());
    file.extend(40u32.to_le_bytes());
    file.extend(1u32.to_le_bytes());
    file.extend(0u16.to_le_bytes());
    file.extend(fmt.to_le_bytes());
    file.extend(len.to_le_bytes());
    file.extend(max_len.to_le_bytes());
    file.extend(0u32.to_le_bytes());
    file.extend(key);
    file.resize(40, 0);
    file.extend(data);
    file
}

fn only(sfo: &ParamSFO) -> &Data {
    assert_eq!(sfo.entries().len(), 1);
    sfo.entries().data_at(0)
}

#[test]
fn reads_each_format() {
    let sfo = ParamSFO::from_bytes(&one_entry(0x204, 3, 4, b"ab\0", b"xy\0\0")).unwrap();
    assert_eq!(sfo.entries().key_at(0).as_str(), "AB");
    assert_eq!(only(&sfo).value(), &Value::Utf8("xy".to_string()));
    assert_eq!(only(&sfo).max_len(), 4);
    let sfo = ParamSFO::from_bytes(&one_entry(0x4, 3, 4, b"ab\0", b"xy\0\0")).unwrap();
    assert_eq!(only(&sfo).value(), &Value::Bytes(b"xy\0".to_vec()));
    let sfo = ParamSFO::from_bytes(&one_entry(0x404, 4, 4, b"ab\0", &[1, 2, 3, 4])).unwrap();
    assert_eq!(only(&sfo).value(), &Value::Int(0x0403_0201));
    let sfo = ParamSFO::from_bytes(&one_entry(0x404, 5, 8, b"ab\0", &[1, 2, 3, 4, 5])).unwrap();
    assert_eq!(only(&sfo).value(), &Value::Int(0x0403_0201));
}

#[test]
fn reads_empty_data() {
    for data in [&[][..], &[1u8, 2][..]] {
        let sfo = ParamSFO::from_bytes(&one_entry(0x204, 0, 4, b"A\0", data)).unwrap();
        assert_eq!(only(&sfo).value(), &Value::Utf8(String::new()));
        let sfo = ParamSFO::from_bytes(&one_entry(0x404, 0, 4, b"A\0", data)).unwrap();
        assert_eq!(only(&sfo).value(), &Value::Int(0));
        let sfo = ParamSFO::from_bytes(&one_entry(0x4, 0, 4, b"A\0", data)).unwrap();
        assert_eq!(only(&sfo).value(), &Value::Bytes(vec![]));
    }
}

#[test]
fn a_string_gives_up_its_last_byte() {
    let sfo = ParamSFO::from_bytes(&one_entry(0x204, 2, 4, b"A\0", b"xy")).unwrap();
    assert_eq!(only(&sfo).value(), &Value::Utf8("x".to_string()));
}

#[test]
fn bad_header() {
    let eof = Err(Error::InvalidFormat(FormatError::UnexpectedEof));
    assert_eq!(ParamSFO::from_bytes(b""), eof);
    assert_eq!(ParamSFO::from_bytes(b"\0PS"), eof);
    assert_eq!(ParamSFO::from_bytes(b"\0PSF\x01\x01\0\0"), eof);
    assert_eq!(
        ParamSFO::from_bytes(b"PSF\0"),
        Err(Error::InvalidFormat(FormatError::BadMagic { pos: 0, found: *b"PSF\0" }))
    );
}

#[test]
fn bad_index() {
    let file = one_entry(0x204, 3, 4, b"A\0", b"xy\0\0");
    let eof = Err(Error::InvalidFormat(FormatError::UnexpectedEof));
    assert_eq!(ParamSFO::from_bytes(&file[..20]), eof);
    assert_eq!(ParamSFO::from_bytes(&file[..23]), eof);
    assert_eq!(ParamSFO::from_bytes(&file[..35]), eof);
    let unknown = one_entry(0x1234, 3, 4, b"A\0", b"xy\0\0");
    let no_variant = Err(Error::InvalidFormat(FormatError::NoVariantMatch { pos: 22 }));
    assert_eq!(ParamSFO::from_bytes(&unknown), no_variant);
    assert_eq!(ParamSFO::from_bytes(&unknown[..24]), no_variant);
}

#[test]
fn bad_tables() {
    let file = one_entry(0x204, 3, 4, b"ABCD", b"EFGH");
    let eof = Err(Error::IO(IoError::UnexpectedEof));
    assert_eq!(ParamSFO::from_bytes(&file), eof);
    assert_eq!(ParamSFO::from_bytes(&file[..36]), eof);
    let file = one_entry(0x204, 5, 8, b"A\0", b"xy\0\0");
    assert_eq!(ParamSFO::from_bytes(&file), eof);
    let file = one_entry(0x204, 3, 4, b"\xff\0", b"xy\0\0");
    assert_eq!(ParamSFO::from_bytes(&file), Err(Error::FromUtf8Error(vec![0xff])));
    let file = one_entry(0x204, 3, 4, b"A\0", b"x\xc3\0\0");
    assert_eq!(ParamSFO::from_bytes(&file), Err(Error::FromUtf8Error(vec![b'x', 0xc3])));
}

#[test]
fn an_integer_has_four_bytes_or_none() {
    for len in 1..4u32 {
        let file = one_entry(0x404, len, 4, b"A\0", &[1, 2, 3, 4]);
        let short = Error::InvalidFormat(FormatError::ShortInteger { pos: 40 + len as u64 });
        assert_eq!(ParamSFO::from_bytes(&file), Err(short));
    }
}

#[test]
fn positions_beyond_32_bits() {
    let unaddressable = Err(Error::InvalidFormat(FormatError::Unaddressable));
    let mut far = one_entry(0x204, 3, 4, b"A\0", b"xy\0\0");
    far[12..16].copy_from_slice(&[0xff; 4]);
    let eof = Err(Error::IO(IoError::UnexpectedEof));
    assert_eq!(ParamSFO::from_bytes(&far), eof);
    far[32] = 1;
    assert_eq!(ParamSFO::from_bytes(&far), unaddressable);
    let mut far = one_entry(0x204, 3, 4, b"A\0", b"xy\0\0");
    far[8..12].copy_from_slice(&[0xff; 4]);
    assert_eq!(ParamSFO::from_bytes(&far), eof);
    far[20] = 1;
    assert_eq!(ParamSFO::from_bytes(&far), unaddressable);
}

#[test]
fn bytes_behind_the_file_change_nothing() {
    let file = one_entry(0x204, 3, 4, b"A\0", b"xy\0\0");
    let mut longer = file.clone();
    longer.extend([1, 2, 3]);
    assert!(ParamSFO::from_bytes(&file).is_ok());
    assert_eq!(ParamSFO::from_bytes(&longer), ParamSFO::from_bytes(&file));
}

#[test]
fn data_longer_than_their_room_cannot_be_written() {
    let sfo = ParamSFO::from_bytes(&one_entry(0x204, 3, 1, b"A\0", b"xy\0\0")).unwrap();
    assert_eq!(only(&sfo).max_len(), 1);
    assert_eq!(sfo.checked_to_bytes(), None);
    let sfo = ParamSFO::from_bytes(&one_entry(0x204, 3, 4, b"A\0", b"xy\0\0")).unwrap();
    assert_eq!(sfo.checked_to_bytes(), Some(sfo.to_bytes()));
}

#[test]
fn of_the_same_key_the_last_counts() {
    let mut file = b"\0PSF\x01\x01\0\0".to_vec();
    file.extend(52u32.to_le_bytes());
    file.extend(56u32.to_le_bytes());
    file.extend(2u32.to_le_bytes());
    for (key_offset, data_offset) in [(0u16, 0u32), (2, 4)] {
        file.extend(key_offset.to_le_bytes());
        file.extend(0x404u16.to_le_bytes());
        file.extend(4u32.to_le_bytes());
        file.extend(4u32.to_le_bytes());
        file.extend(data_offset.to_le_bytes());
    }
    file.extend(b"a\0A\0");
    file.extend([1, 0, 0, 0, 2, 0, 0, 0]);
    let sfo = ParamSFO::from_bytes(&file).unwrap();
    assert_eq!(only(&sfo).value(), &Value::Int(2));
}

fn put(sfo: &mut ParamSFO, key: &str, value: Value, max_len: u32) {
    let data = Data::new(value, max_len).unwrap();
    sfo.entries_mut().insert(Key::new(key).unwrap(), data);
}

#[test]
fn what_is_written_is_read_back() {
    let mut sfo = ParamSFO::new();
    sfo.set_version([9, 8, 7, 6]);
    put(&mut sfo, "title", "Ünïcode".into(), 64);
    put(&mut sfo, "nothing", "".into(), 4);
    put(&mut sfo, "no_room", "".into(), 0);
    put(&mut sfo, "inner", "a\0b".into(), 4);
    put(&mut sfo, "raw", vec![0u8, 255, 0].into(), 7);
    put(&mut sfo, "none", Value::Bytes(vec![]), 0);
    put(&mut sfo, "number", u32::MAX.into(), 4);
    put(&mut sfo, "größe", 1.into(), 4);
    let bytes = sfo.to_bytes().unwrap();
    assert_eq!(ParamSFO::from_bytes(&bytes).unwrap(), sfo);
}

#[test]
fn an_empty_string_takes_its_room() {
    let mut sfo = ParamSFO::new();
    put(&mut sfo, "A", "".into(), 4);
    put(&mut sfo, "B", 258.into(), 4);
    let bytes = sfo.to_bytes().unwrap();
    let mut expected = b"\0PSF\x01\x01\0\0".to_vec();
    expected.extend([52, 0, 0, 0, 60, 0, 0, 0, 2, 0, 0, 0]);
    expected.extend([0, 0, 0x04, 2, 0, 0, 0, 0, 4, 0, 0, 0, 0, 0, 0, 0]);
    expected.extend([2, 0, 0x04, 4, 4, 0, 0, 0, 4, 0, 0, 0, 4, 0, 0, 0]);
    expected.extend(b"A\0B\0");
    expected.extend([0, 0, 0, 0]);
    expected.extend([0, 0, 0, 0, 2, 1, 0, 0]);
    assert_eq!(bytes.len(), 68);
    assert_eq!(bytes, expected);
}

#[test]
fn every_entry_takes_its_room() {
    let values: [Value; 5] = ["".into(), "ab".into(), vec![].into(), vec![1].into(), 7.into()];
    for value in values {
        let mut sfo = ParamSFO::new();
        put(&mut sfo, "A", value, 9);
        put(&mut sfo, "B", "".into(), 0);
        let room = sfo.entries().data_at(0).max_len();
        let bytes = sfo.to_bytes().unwrap();
        assert_eq!(&bytes[48..52], &room.to_le_bytes());
        assert_eq!(bytes.len(), 60 + room as usize);
    }
}

#[test]
fn tables_start_at_multiples_of_four() {
    for len in 0..9 {
        let mut sfo = ParamSFO::new();
        put(&mut sfo, &"K".repeat(len), 1.into(), 4);
        let bytes = sfo.to_bytes().unwrap();
        let keys = 36 + len + 1;
        let padding = 4 - keys % 4;
        assert_eq!(bytes.len(), keys + padding + 4);
        assert_eq!(bytes[8], 36);
        assert_eq!(bytes[12] as usize, keys + padding);
        assert_eq!(bytes[12] % 4, 0);
    }
}

#[test]
fn different_contents_have_different_files() {
    let mut a = ParamSFO::new();
    put(&mut a, "A", "x".into(), 4);
    let mut b = ParamSFO::new();
    put(&mut b, "A", vec![b'x', 0].into(), 4);
    assert_ne!(a.to_bytes(), b.to_bytes());
}

#[test]
fn key_offsets_fit_in_sixteen_bits() {
    let mut sfo = ParamSFO::new();
    put(&mut sfo, &"A".repeat(65534), 1.into(), 4);
    put(&mut sfo, "B", 2.into(), 4);
    let bytes = sfo.to_bytes().unwrap();
    assert_eq!(&bytes[36..38], &[0xff, 0xff]);
    assert_eq!(ParamSFO::from_bytes(&bytes).unwrap(), sfo);

    let mut sfo = ParamSFO::new();
    put(&mut sfo, &"A".repeat(65535), 1.into(), 4);
    assert_eq!(ParamSFO::from_bytes(&sfo.to_bytes().unwrap()).unwrap(), sfo);
    put(&mut sfo, "B", 2.into(), 4);
    let unaddressable = Err(Error::InvalidFormat(FormatError::Unaddressable));
    assert_eq!(sfo.to_bytes(), unaddressable);
    assert_eq!(sfo.checked_to_bytes(), Some(unaddressable));
}

#[test]
fn data_offsets_fit_in_32_bits() {
    let mut sfo = ParamSFO::new();
    put(&mut sfo, "A", "x".into(), u32::MAX);
    put(&mut sfo, "B", "".into(), 1);
    put(&mut sfo, "C", 1.into(), 4);
    assert_eq!(
        sfo.to_bytes(),
        Err(Error::InvalidFormat(FormatError::Unaddressable))
    );
    assert!(!sfo.reads_back());
}

#[test]
fn which_files_are_read_back() {
    let mut sfo = ParamSFO::new();
    assert!(sfo.reads_back());
    put(&mut sfo, "a", "größe".into(), u32::MAX);
    assert!(sfo.reads_back());
    let mut far = sfo.clone();
    put(&mut far, "b", 1.into(), 4);
    assert!(!far.reads_back());
    put(&mut sfo, "größe", 1.into(), 4);
    assert!(!sfo.reads_back());

    let mut sfo = ParamSFO::new();
    put(&mut sfo, "größe", 1.into(), 4);
    assert!(sfo.reads_back());
    assert_eq!(ParamSFO::from_bytes(&sfo.to_bytes().unwrap()).unwrap(), sfo);
    let long = ParamSFO::from_bytes(&one_entry(0x204, 3, 1, b"A\0", b"xy\0\0")).unwrap();
    assert!(!long.reads_back());
}

#[test]
fn what_was_written_is_written_the_same_again() {
    let mut sfo = ParamSFO::new();
    put(&mut sfo, "title", "abc".into(), 8);
    put(&mut sfo, "empty", "".into(), 3);
    let bytes = sfo.to_bytes().unwrap();
    let again = ParamSFO::from_bytes(&bytes).unwrap().to_bytes().unwrap();
    assert_eq!(again, bytes);
}

#[test]
fn what_was_read_can_be_written_anew() {
    let file = one_entry(0x404, 8, 16, b"ab\0", &[1, 2, 3, 4, 5, 6, 7, 8]);
    let sfo = ParamSFO::from_bytes(&file).unwrap();
    let anew = sfo.to_bytes().unwrap();
    assert_ne!(anew, file);
    assert_eq!(ParamSFO::from_bytes(&anew).unwrap(), sfo);
}
