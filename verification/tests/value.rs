use msi::stringpool::StringPool;
use msi::value::{Value, ValueRef};
use uuid::Uuid;

#[test]
fn format_value() {
    assert_eq!(format!("{}", Value::Null.to_text()), "NULL".to_string());
    assert_eq!(format!("{}", Value::Int(42).to_text()), "42".to_string());
    assert_eq!(format!("{}", Value::Int(-137).to_text()), "-137".to_string());
    assert_eq!(format!("{}", Value::Str("Hello, world!".to_string()).to_text()),
               "\"Hello, world!\"".to_string());

    assert_eq!(format!("{:>6}", Value::Null.to_text()), "  NULL".to_string());
    assert_eq!(format!("[{:<4}]", Value::Int(42).to_text()), "[42  ]".to_string());
    assert_eq!(format!("foo{:~>8}", Value::Str("bar".to_string()).to_text()),
               "foo~~~\"bar\"".to_string());
}

#[test]
fn value_from() {
    assert_eq!(Value::from(-47i16), Value::Int(-47i32));
    assert_eq!(Value::from(47u16), Value::Int(47i32));
    assert_eq!(Value::from("foobar"), Value::Str("foobar".to_string()));
    assert_eq!(Value::from("foobar".to_string()),
               Value::Str("foobar".to_string()));
    assert_eq!(
        Value::from(Uuid::parse_str(
            "34ab5c53-9b30-4e14-aef0-2c1c7ba826c0").unwrap()),
        Value::Str("{34AB5C53-9B30-4E14-AEF0-2C1C7BA826C0}".to_string()));
}

#[test]
fn create_value_ref() {
    let mut string_pool = StringPool::new();

    let value = Value::Null;
    let value_ref = ValueRef::create(value.clone(), &mut string_pool);
    assert_eq!(value_ref.to_value(&string_pool), value);

    let value = Value::Int(1234567);
    let value_ref = ValueRef::create(value.clone(), &mut string_pool);
    assert_eq!(value_ref.to_value(&string_pool), value);

    let value = Value::Str("Hello, world!".to_string());
    let value_ref = ValueRef::create(value.clone(), &mut string_pool);
    assert_eq!(value_ref.to_value(&string_pool), value);
}

#[test]
fn value_from_i32() {
    assert_eq!(Value::from(-2147483648i32), Value::Int(-2147483648));
}

#[test]
fn value_kinds() {
    assert!(Value::Null.is_null());
    assert!(!Value::Int(0).is_null());
    assert!(Value::Int(7).is_int());
    assert!(!Value::Str("7".to_string()).is_int());
    assert!(Value::Str(String::new()).is_str());
    assert!(!Value::Null.is_str());
    assert_eq!(Value::Int(-5).as_int(), Some(-5));
    assert_eq!(Value::Null.as_int(), None);
    assert_eq!(Value::Str("5".to_string()).as_int(), None);
    assert_eq!(Value::Str("abc".to_string()).as_str(), Some("abc"));
    assert_eq!(Value::Int(1).as_str(), None);
    assert_eq!(Value::Null.as_str(), None);
}

#[test]
fn value_booleans() {
    assert_eq!(Value::from_bool(true), Value::Int(1));
    assert_eq!(Value::from_bool(false), Value::Int(0));
    assert!(!Value::Null.to_bool());
    assert!(!Value::Int(0).to_bool());
    assert!(Value::Int(-3).to_bool());
    assert!(!Value::Str(String::new()).to_bool());
    assert!(Value::Str("no".to_string()).to_bool());
    assert!(Value::from_bool(true).to_bool());
    assert!(!Value::from_bool(false).to_bool());
}

#[test]
fn text_of_extreme_integers() {
    assert_eq!(Value::Int(0).to_text(), "0");
    assert_eq!(Value::Int(2147483647).to_text(), "2147483647");
    assert_eq!(Value::Int(-2147483648).to_text(), "-2147483648");
}

#[test]
fn text_of_string_is_escaped() {
    assert_eq!(Value::Str("a\"b\n".to_string()).to_text(), "\"a\\\"b\\n\"");
}

#[test]
fn uuid_text_is_upper_case_in_braces() {
    let uuid = Uuid::from_bytes([
        0x00, 0x01, 0x02, 0xab, 0xcd, 0xef, 0x10, 0x9a, 0xff, 0xfe, 0x0a, 0xa0, 0x12, 0x34, 0x56,
        0x78,
    ]);
    assert_eq!(
        Value::from(uuid),
        Value::Str("{000102AB-CDEF-109A-FFFE-0AA012345678}".to_string())
    );
}

#[test]
fn remove_releases_string() {
    let mut pool = StringPool::new();
    let first = ValueRef::create(Value::Str("x".to_string()), &mut pool);
    let second = ValueRef::create(Value::Str("x".to_string()), &mut pool);
    assert_eq!(first, second);
    assert_eq!(pool.uses(&"x".to_string()), 2);
    first.remove(&mut pool);
    assert_eq!(pool.uses(&"x".to_string()), 1);
    assert_eq!(second.to_value(&pool), Value::Str("x".to_string()));
    second.remove(&mut pool);
    assert_eq!(pool.uses(&"x".to_string()), 0);
    ValueRef::Null.remove(&mut pool);
    ValueRef::Int(3).remove(&mut pool);
    assert_eq!(pool.num_slots(), 1);
}
