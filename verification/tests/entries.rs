use param_sfo::{Data, Entries, Error, Key, ParamSFO, Value, VERSION_1_1};

fn key(s: &str) -> Key {
    Key::new(s).unwrap()
}

fn number(n: u32) -> Data {
    Data::new(Value::Int(n), 4).unwrap()
}

#[test]
fn keys_are_upper_case() {
    assert_eq!(key("title_id").as_str(), "TITLE_ID");
    assert_eq!(key("tschüß").as_str(), "TSCHÜSS");
    assert_eq!(key("abc"), key("ABC"));
    assert_eq!(key("abc").into_inner(), "ABC".to_string());
    assert_eq!(key("a1").starts_with("A"), true);
    assert_eq!(Key::try_from("x").unwrap(), key("X"));
    assert_eq!(Key::try_from("x".to_string()).unwrap(), key("X"));
}

#[test]
fn case_does_not_tell_keys_apart() {
    assert_eq!(key("Title_Id"), key("tITLE_iD"));
    assert_eq!(key("größe"), key("GRÖSSE"));
    assert_eq!(key("größe").as_str(), "GRÖSSE");
    for k in [key("title"), key("größe"), key("")] {
        assert!(k.is_stable());
        assert_eq!(key(k.as_str()), k);
    }
}

#[test]
fn keys_have_no_zero() {
    assert_eq!(Key::new("a\0b"), Err(Error::InvalidKey));
    assert_eq!(Key::try_from("\0"), Err(Error::InvalidKey));
    assert_eq!(Key::new("").unwrap().as_str(), "");
}

#[test]
fn keys_stay_what_they_are() {
    for c in '\u{1}'..=char::MAX {
        let once = key(c.encode_utf8(&mut [0; 4]));
        assert_eq!(key(once.as_str()), once);
        assert_eq!(once.contains('\0'), false);
    }
}

#[test]
fn entries_are_sorted_and_replaced() {
    let mut e = Entries::new();
    assert_eq!(e.is_empty(), true);
    assert_eq!(e.insert(key("B"), number(1)), None);
    assert_eq!(e.insert(key("A"), number(2)), None);
    assert_eq!(e.insert(key("AA"), number(3)), None);
    assert_eq!(e.insert(key("b"), number(4)), Some(number(1)));
    assert_eq!(e.len(), 3);
    assert_eq!(e.key_at(0).as_str(), "A");
    assert_eq!(e.key_at(1).as_str(), "AA");
    assert_eq!(e.key_at(2).as_str(), "B");
    assert_eq!(e.data_at(2), &number(4));
    assert_eq!(e.get(&key("B")), Some(&number(4)));
    assert_eq!(e.get(&key("C")), None);
    assert_eq!(e.contains_key(&key("AA")), true);
    assert_eq!(e.clone(), e);
}

#[test]
fn entries_can_be_changed_and_removed() {
    let mut e = Entries::default();
    e.insert(key("A"), number(1));
    e.insert(key("B"), number(2));
    e.get_mut(&key("A")).unwrap().set_value(9.into()).unwrap();
    assert_eq!(e.get(&key("A")), Some(&number(9)));
    assert_eq!(e.get_mut(&key("C")), None);
    assert_eq!(e.remove(&key("A")), Some(number(9)));
    assert_eq!(e.remove(&key("A")), None);
    assert_eq!(e.len(), 1);
    assert_eq!(e.get(&key("B")), Some(&number(2)));
}

#[test]
fn inserting_and_removing_gives_back_what_was_there() {
    let mut e = Entries::new();
    e.insert(key("A"), number(1));
    e.insert(key("C"), number(3));
    let before = e.clone();
    e.insert(key("B"), number(2));
    e.remove(&key("B"));
    assert_eq!(e, before);
}

#[test]
fn sfo_getters_and_setters() {
    let mut e = Entries::new();
    e.insert(key("A"), number(1));
    let mut sfo = ParamSFO::with_entries(e.clone());
    assert_eq!(sfo.version(), VERSION_1_1);
    assert_eq!(sfo.version(), [1, 1, 0, 0]);
    assert_eq!(sfo.entries(), &e);
    sfo.set_version([1, 2, 3, 4]);
    assert_eq!(sfo.version(), [1, 2, 3, 4]);
    assert_eq!(sfo.entries().len(), 1);
    sfo.entries_mut().insert(key("B"), number(2));
    assert_eq!(sfo.entries().len(), 2);
    let copy = sfo.clone();
    assert_eq!(copy, sfo);
    sfo.set_entries(Entries::new());
    assert_eq!(sfo.entries().len(), 0);
    assert_eq!(sfo.version(), [1, 2, 3, 4]);
    assert_eq!(ParamSFO::default(), ParamSFO::new());
}

fn parts(list: &[(&str, Value, u32)]) -> Result<ParamSFO, Error> {
    ParamSFO::from_parts(
        list.iter().map(|p| p.0.to_string()).collect(),
        list.iter().map(|p| p.1.clone()).collect(),
        list.iter().map(|p| p.2).collect(),
    )
}

#[test]
fn parts_may_come_in_any_order() {
    let a = parts(&[("A", "x".into(), 4), ("B", 2.into(), 4), ("C", vec![1u8].into(), 1)]);
    let b = parts(&[("C", vec![1u8].into(), 1), ("A", "x".into(), 4), ("B", 2.into(), 4)]);
    assert_eq!(a, b);
    assert_eq!(a.unwrap().entries().len(), 3);
}

#[test]
fn later_parts_count() {
    let sfo = parts(&[("A", 1.into(), 4), ("a", 2.into(), 4)]).unwrap();
    assert_eq!(sfo.entries().len(), 1);
    assert_eq!(sfo.entries().get(&key("A")), Some(&number(2)));
}

#[test]
fn parts_must_be_valid() {
    assert_eq!(
        ParamSFO::from_parts(vec!["A".to_string()], vec![], vec![]),
        Err(Error::InvalidParts)
    );
    assert_eq!(
        ParamSFO::from_parts(vec!["A".to_string()], vec![1.into()], vec![4, 4]),
        Err(Error::InvalidParts)
    );
    assert_eq!(
        parts(&[("STRINGKEY", "Value".into(), 4), ("B\0", 1.into(), 4)]),
        Err(Error::MaxLenExceeded)
    );
    assert_eq!(
        parts(&[("B\0", 1.into(), 4), ("STRINGKEY", "Value".into(), 4)]),
        Err(Error::InvalidKey)
    );
}

#[test]
fn entries_stand_in_the_order_of_keys() {
    let names = ["b", "", "é", "aa", "z", "_", "a", "0", "\u{10000}", "\u{ffff}", "ab", "a b"];
    let mut e = Entries::new();
    for name in names {
        e.insert(key(name), number(0));
    }
    let mut sorted: Vec<Key> = names.iter().map(|n| key(n)).collect();
    sorted.sort();
    assert_eq!(e.len(), sorted.len());
    for i in 0..sorted.len() {
        assert_eq!(e.key_at(i), &sorted[i]);
    }
}
