use compact_ser::{to_string, Error, Serializer, Value};

fn encode(v: &Value) -> String {
    to_string(v).unwrap()
}

#[test]
fn test_bool_true() {
    assert_eq!("true", encode(&Value::Bool(true)));
}

#[test]
fn test_bool_false() {
    assert_eq!("false", encode(&Value::Bool(false)));
}

#[test]
fn test_uint_zero() {
    assert_eq!("0", encode(&Value::UInt(0)));
}

#[test]
fn test_uint_47() {
    assert_eq!("47", encode(&Value::UInt(47)));
}

#[test]
fn test_uint_max() {
    assert_eq!("18446744073709551615", encode(&Value::UInt(u64::MAX)));
}

#[test]
fn test_int_negative() {
    assert_eq!("-47", encode(&Value::Int(-47)));
}

#[test]
fn test_int_min() {
    assert_eq!("-9223372036854775808", encode(&Value::Int(i64::MIN)));
}

#[test]
fn test_int_max() {
    assert_eq!("9223372036854775807", encode(&Value::Int(i64::MAX)));
}

#[test]
fn test_str_plain() {
    assert_eq!("\"hlp\"", encode(&Value::Str(String::from("hlp"))));
}

#[test]
fn test_str_empty() {
    assert_eq!("\"\"", encode(&Value::Str(String::new())));
}

#[test]
fn test_str_with_spaces_and_brackets() {
    let v = Value::Str(String::from("a [b] {c},d"));
    assert_eq!("\"a [b] {c},d\"", encode(&v));
}

#[test]
fn test_char() {
    assert_eq!("\"D\"", encode(&Value::Char('D')));
}

#[test]
fn test_none() {
    assert_eq!("null", encode(&Value::Absent));
}

#[test]
fn test_unit() {
    assert_eq!("null", encode(&Value::Unit));
}

#[test]
fn test_some_transparent() {
    let v = Value::Present(Box::new(Value::UInt(47)));
    assert_eq!("47", encode(&v));
}

#[test]
fn test_some_of_none() {
    let v = Value::Present(Box::new(Value::Absent));
    assert_eq!("null", encode(&v));
}

#[test]
fn test_bytes() {
    assert_eq!("[1 2 3]", encode(&Value::Bytes(vec![1, 2, 3])));
}

#[test]
fn test_bytes_empty() {
    assert_eq!("[]", encode(&Value::Bytes(Vec::new())));
}

#[test]
fn test_empty_seq() {
    assert_eq!("[]", encode(&Value::List(Vec::new())));
}

#[test]
fn test_empty_tuple() {
    assert_eq!("[]", encode(&Value::Tuple(Vec::new())));
}

#[test]
fn test_empty_map() {
    assert_eq!("{}", encode(&Value::Dict(Vec::new())));
}

#[test]
fn test_empty_struct() {
    assert_eq!("{}", encode(&Value::Struct(Vec::new())));
}

#[test]
fn test_empty_tuple_struct() {
    assert_eq!("{[]}", encode(&Value::TupleStruct(Vec::new())));
}

#[test]
fn test_single_element_seq() {
    assert_eq!("[47]", encode(&Value::List(vec![Value::UInt(47)])));
}

#[test]
fn test_nested_composites() {
    let v = Value::Struct(vec![
        (
            String::from("a"),
            Value::List(vec![Value::Int(1), Value::Int(2)]),
        ),
        (
            String::from("b"),
            Value::Struct(vec![(String::from("x"), Value::Int(1))]),
        ),
    ]);
    assert_eq!("{a:[1 2] b:{x:1}}", encode(&v));
}

#[test]
fn test_map_with_string_keys() {
    let v = Value::Dict(vec![
        (Value::Str(String::from("k")), Value::UInt(1)),
        (Value::Str(String::from("l")), Value::UInt(2)),
    ]);
    assert_eq!("{\"k\":1 \"l\":2}", encode(&v));
}

#[test]
fn test_deterministic() {
    let v = Value::Struct(vec![
        (String::from("r"), Value::UInt(1)),
        (String::from("g"), Value::UInt(2)),
    ]);
    let first = encode(&v);
    let second = encode(&v);
    assert_eq!(first, second);
}

#[test]
fn test_error_message() {
    let e = Error::custom(String::from("value refused to serialize"));
    assert_eq!("value refused to serialize", e.message().as_str());
}

#[test]
fn test_incremental_seq() {
    let mut s = Serializer::new();
    s.begin_seq();
    s.begin_seq_element();
    s.serialize_u64(1);
    s.begin_seq_element();
    s.serialize_u64(2);
    s.end_seq();
    assert_eq!("[1 2]", s.finish().as_str());
}

#[test]
fn test_incremental_number_token() {
    let mut s = Serializer::new();
    s.begin_seq();
    s.begin_seq_element();
    let t = format!("{}", 4.5f64);
    s.append_number_token(t.as_str());
    s.begin_seq_element();
    s.serialize_u64(2);
    s.end_seq();
    assert_eq!("[4.5 2]", s.finish().as_str());
}

#[test]
fn test_incremental_struct_fields() {
    let mut s = Serializer::new();
    s.begin_map();
    s.begin_struct_field("r");
    s.serialize_u64(1);
    s.begin_struct_field("g");
    s.serialize_u64(2);
    s.end_map();
    assert_eq!("{r:1 g:2}", s.finish().as_str());
}
