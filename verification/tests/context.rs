use node_pipeline::context::{get_any, handle_any, set_any, Kind, Storable, TypedContext, Value};

#[test]
fn struct_to_struct() {
    let name = Value::Text("test".to_string());
    let age = Value::Integer(18);

    let b = handle_any::<String>(name);
    let c = handle_any::<i64>(age);
    if let (Some(name), Some(age)) = (b, c) {
        assert_eq!(name, "test");
        assert_eq!(age, 18);
    } else {
        panic!("not ok");
    }
}

#[test]
fn handle_any_rejects_other_types() {
    assert_eq!(handle_any::<i64>(Value::Text("18".to_string())), None);
    assert_eq!(handle_any::<u64>(Value::Integer(18)), None);
    assert_eq!(handle_any::<i64>(Value::Unsigned(18)), None);
    assert_eq!(handle_any::<bool>(Value::Integer(1)), None);
    assert_eq!(handle_any::<String>(Value::Bytes(vec![116, 101])), None);
    assert_eq!(handle_any::<Vec<u8>>(Value::Text("te".to_string())), None);
}

#[test]
fn handle_any_gives_each_type_back() {
    assert_eq!(handle_any::<bool>(Value::Flag(true)), Some(true));
    assert_eq!(handle_any::<i64>(Value::Integer(-7)), Some(-7));
    assert_eq!(handle_any::<u64>(Value::Unsigned(u64::MAX)), Some(u64::MAX));
    assert_eq!(handle_any::<String>(Value::Text("héllo".to_string())), Some("héllo".to_string()));
    assert_eq!(handle_any::<Vec<u8>>(Value::Bytes(vec![0, 255])), Some(vec![0, 255]));
}

#[test]
fn value_kinds() {
    assert_eq!(Value::Flag(false).kind(), Kind::Flag);
    assert_eq!(Value::Integer(0).kind(), Kind::Integer);
    assert_eq!(Value::Unsigned(0).kind(), Kind::Unsigned);
    assert_eq!(Value::Text(String::new()).kind(), Kind::Text);
    assert_eq!(Value::Bytes(Vec::new()).kind(), Kind::Bytes);
}

#[test]
fn into_value_tags_with_the_type() {
    assert_eq!(true.into_value().kind(), Kind::Flag);
    assert_eq!((-1i64).into_value().kind(), Kind::Integer);
    assert_eq!(1u64.into_value().kind(), Kind::Unsigned);
    assert_eq!("a".to_string().into_value().kind(), Kind::Text);
    assert_eq!(vec![1u8].into_value().kind(), Kind::Bytes);
    assert_eq!(<i64 as Storable>::peek(&5i64.into_value()), Some(&5));
    assert_eq!(<u64 as Storable>::peek(&5i64.into_value()), None);
}

#[test]
fn fresh_context_is_empty() {
    let context = TypedContext::new();
    assert_eq!(get_any::<String>(&context, "x"), None);
    assert_eq!(get_any::<u64>(&context, ""), None);
}

#[test]
fn get_after_set_round_trips() {
    let mut context = TypedContext::new();
    set_any(&mut context, "text", "hello".to_string());
    set_any(&mut context, "flag", true);
    set_any(&mut context, "int", -42i64);
    set_any(&mut context, "uint", 42u64);
    set_any(&mut context, "bytes", vec![1u8, 2, 3]);

    assert_eq!(get_any::<String>(&context, "text"), Some(&"hello".to_string()));
    assert_eq!(get_any::<bool>(&context, "flag"), Some(&true));
    assert_eq!(get_any::<i64>(&context, "int"), Some(&-42));
    assert_eq!(get_any::<u64>(&context, "uint"), Some(&42));
    assert_eq!(get_any::<Vec<u8>>(&context, "bytes"), Some(&vec![1u8, 2, 3]));
}

#[test]
fn get_with_other_type_is_absent() {
    let mut context = TypedContext::new();
    set_any(&mut context, "n", 42u64);

    assert_eq!(get_any::<i64>(&context, "n"), None);
    assert_eq!(get_any::<bool>(&context, "n"), None);
    assert_eq!(get_any::<String>(&context, "n"), None);
    assert_eq!(get_any::<Vec<u8>>(&context, "n"), None);
    assert_eq!(get_any::<u64>(&context, "n"), Some(&42));
}

#[test]
fn text_and_bytes_do_not_coerce() {
    let mut context = TypedContext::new();
    set_any(&mut context, "t", "ab".to_string());
    set_any(&mut context, "b", vec![97u8, 98]);

    assert_eq!(get_any::<Vec<u8>>(&context, "t"), None);
    assert_eq!(get_any::<String>(&context, "b"), None);
}

#[test]
fn last_write_wins() {
    let mut context = TypedContext::new();
    set_any(&mut context, "k", 1u64);
    set_any(&mut context, "k", 2u64);
    assert_eq!(get_any::<u64>(&context, "k"), Some(&2));

    set_any(&mut context, "k", "two".to_string());
    assert_eq!(get_any::<u64>(&context, "k"), None);
    assert_eq!(get_any::<String>(&context, "k"), Some(&"two".to_string()));
}

#[test]
fn write_leaves_other_keys() {
    let mut context = TypedContext::new();
    set_any(&mut context, "a", 1u64);
    set_any(&mut context, "b", "x".to_string());
    set_any(&mut context, "a", 9u64);

    assert_eq!(get_any::<String>(&context, "b"), Some(&"x".to_string()));
    assert_eq!(get_any::<u64>(&context, "c"), None);
}

#[test]
fn empty_key_is_a_key() {
    let mut context = TypedContext::new();
    set_any(&mut context, "", 7i64);
    assert_eq!(get_any::<i64>(&context, ""), Some(&7));
    assert_eq!(get_any::<i64>(&context, " "), None);
}
