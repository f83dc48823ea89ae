use param_sfo::ParamSFO;

#[test]
fn empty() {
    let sfo = ParamSFO::from_parts(vec![], vec![], vec![]).unwrap();
    let bytes = sfo.to_bytes().unwrap();
    let empty = ParamSFO::from_bytes(&bytes).unwrap();
    assert_eq!(empty.entries().len(), 0)
}

#[test]
fn empty_file_is_header_and_padding() {
    let bytes = ParamSFO::new().to_bytes().unwrap();
    assert_eq!(
        bytes,
        vec![
            0, b'P', b'S', b'F', 1, 1, 0, 0, 0x14, 0, 0, 0, 0x18, 0, 0, 0, 0, 0, 0, 0, 0, 0, 0, 0
        ]
    );
    assert_eq!(ParamSFO::from_bytes(&bytes).unwrap(), ParamSFO::default());
}
