use param_sfo::{Data, DataFmt, Error, Value};

#[test]
fn lengths_of_values() {
    assert_eq!(Value::Bytes(vec![1, 2, 3]).len(), 3);
    assert_eq!(Value::Bytes(vec![]).len(), 0);
    assert_eq!(Value::Utf8("abc".to_string()).len(), 4);
    assert_eq!(Value::Utf8("é".to_string()).len(), 3);
    assert_eq!(Value::Utf8(String::new()).len(), 0);
    assert_eq!(Value::Int(0).len(), 4);
}

#[test]
fn formats_of_values() {
    assert_eq!(Value::Bytes(vec![]).data_fmt(), DataFmt::Bytes);
    assert_eq!(Value::Utf8(String::new()).data_fmt(), DataFmt::Utf8);
    assert_eq!(Value::Int(1).data_fmt(), DataFmt::Int);
    assert_eq!(DataFmt::Bytes.code(), 0x4);
    assert_eq!(DataFmt::Utf8.code(), 0x204);
    assert_eq!(DataFmt::Int.code(), 0x404);
    assert_eq!(DataFmt::from_code(0x204), Some(DataFmt::Utf8));
    assert_eq!(DataFmt::from_code(0x205), None);
}

#[test]
fn values_from_plain_things() {
    assert_eq!(Value::from("a"), Value::Utf8("a".to_string()));
    assert_eq!(Value::from("a".to_string()), Value::Utf8("a".to_string()));
    assert_eq!(Value::from(vec![1u8]), Value::Bytes(vec![1]));
    assert_eq!(Value::from(7u32), Value::Int(7));
    let v = Value::from(vec![1u8, 2]);
    assert_eq!(v.clone(), v);
}

#[test]
fn data_new_checks_the_length() {
    let d = Data::new("Value".into(), 6).unwrap();
    assert_eq!(d.value(), &Value::Utf8("Value".to_string()));
    assert_eq!(d.max_len(), 6);
    assert_eq!(Data::new("Value".into(), 5), Err(Error::MaxLenExceeded));
    assert_eq!(Data::new(vec![1u8, 2, 3].into(), 2), Err(Error::MaxLenExceeded));
    assert_eq!(Data::new("".into(), 0).unwrap().max_len(), 0);
}

#[test]
fn data_new_ignores_max_len_of_an_integer() {
    assert_eq!(Data::new(123.into(), 0).unwrap().max_len(), 4);
    assert_eq!(Data::new(123.into(), 100).unwrap().max_len(), 4);
}

#[test]
fn set_value_keeps_the_room() {
    let mut d = Data::new("ab".into(), 8).unwrap();
    d.set_value("1234567".into()).unwrap();
    assert_eq!(d.value(), &Value::Utf8("1234567".to_string()));
    assert_eq!(d.max_len(), 8);
    assert_eq!(d.set_value("12345678".into()), Err(Error::MaxLenExceeded));
    assert_eq!(d.value(), &Value::Utf8("1234567".to_string()));
    d.set_value(5.into()).unwrap();
    assert_eq!(d.max_len(), 4);
    assert_eq!(d.set_value(vec![0u8; 5].into()), Err(Error::MaxLenExceeded));
    assert_eq!(d.value(), &Value::Int(5));
    assert_eq!(d.max_len(), 4);
}

#[test]
fn set_max_len_keeps_the_value() {
    let mut d = Data::new("ab".into(), 8).unwrap();
    d.set_max_len(3).unwrap();
    assert_eq!(d.max_len(), 3);
    assert_eq!(d.set_max_len(2), Err(Error::MaxLenExceeded));
    assert_eq!(d.max_len(), 3);
    d.set_max_len(100).unwrap();
    assert_eq!(d.max_len(), 100);
    let mut n = Data::new(1.into(), 4).unwrap();
    n.set_max_len(1).unwrap();
    n.set_max_len(50).unwrap();
    assert_eq!(n.max_len(), 4);
}
