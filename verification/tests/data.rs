use allay::data::{AllayData, AllayObject};

#[test]
fn test_basic_types() {
    let string_data = AllayData::from("hello");
    assert!(string_data.is_str());

    let int_data = AllayData::from(42);
    assert!(int_data.is_int());

    let bool_data = AllayData::from(true);
    assert!(bool_data.is_bool());
}

#[test]
fn test_list_operations() {
    let mut list = AllayData::List(vec![AllayData::from(1), AllayData::from("test")]);
    if let AllayData::List(list) = &mut list {
        assert_eq!(list.len(), 2);
        list.push(AllayData::Bool(true));
        assert_eq!(list.len(), 3);
    } else {
        panic!("not a list");
    }
}

#[test]
fn test_object_operations() {
    let mut obj = AllayObject::new();
    obj.insert("key1".to_string(), AllayData::from("value1"));
    obj.insert("key2".to_string(), AllayData::from(42));

    let mut data = AllayData::from(obj);
    if let AllayData::Object(data) = &mut data {
        assert!(data.contains_key("key1"));

        data.insert("key3".to_string(), AllayData::Bool(true));
        assert!(data.contains_key("key3"));
    } else {
        panic!("not an object");
    }
}

#[test]
fn test_from_traits() {
    let from_str: AllayData = "hello".into();
    assert!(from_str.is_str());

    let from_i32: AllayData = 42.into();
    assert!(from_i32.is_int());

    let from_bool: AllayData = true.into();
    assert!(from_bool.is_bool());
}
