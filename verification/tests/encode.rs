use compact_ser::{to_string, Value};

fn encode(v: &Value) -> String {
    to_string(v).unwrap()
}

#[test]
fn test_unit_struct() {
    let v = Value::UnitStruct;

    assert_eq!("null", encode(&v));
}

#[test]
fn test_unit_variant() {
    let v = Value::UnitVariant(String::from("A"));

    assert_eq!("A", encode(&v));
}

#[test]
fn test_newtype_struct() {
    let v = Value::NewtypeStruct(Box::new(Value::UInt(47)));

    assert_eq!("47", encode(&v));
}

#[test]
fn test_newtype_variant() {
    let v = Value::NewtypeVariant(String::from("Dp"), Box::new(Value::UInt(47)));

    assert_eq!("{Dp:47}", encode(&v));
}

#[test]
fn test_seq_with_numbers() {
    let v = Value::List(vec![
        Value::Int(1),
        Value::Int(2),
        Value::Int(3),
        Value::Int(4),
        Value::Int(5),
        Value::Int(6),
        Value::Int(7),
        Value::Int(8),
        Value::Int(9),
        Value::Int(10),
    ]);

    assert_eq!("[1 2 3 4 5 6 7 8 9 10]", encode(&v));
}

#[test]
fn test_seq_with_strings() {
    let v = Value::List(vec![
        Value::Str(String::from("1")),
        Value::Str(String::from("2")),
        Value::Str(String::from("3")),
        Value::Str(String::from("4")),
        Value::Str(String::from("5")),
        Value::Str(String::from("6")),
        Value::Str(String::from("7")),
        Value::Str(String::from("8")),
        Value::Str(String::from("9")),
        Value::Str(String::from("10")),
    ]);

    assert_eq!(
        "[\"1\" \"2\" \"3\" \"4\" \"5\" \"6\" \"7\" \"8\" \"9\" \"10\"]",
        encode(&v)
    );
}

#[test]
fn test_tuple() {
    let v = Value::Tuple(vec![
        Value::Str(String::from("hlp")),
        Value::List(vec![
            Value::Str(String::from("D")),
            Value::Str(String::from("p")),
        ]),
        Value::Int(47),
    ]);

    assert_eq!("[\"hlp\" [\"D\" \"p\"] 47]", encode(&v));
}

#[test]
fn test_tuple_struct() {
    let v = Value::TupleStruct(vec![Value::UInt(47), Value::Str(String::from("Dp"))]);

    assert_eq!("{[47,\"Dp\"]}", encode(&v));
}

#[test]
fn test_tuple_variant() {
    let v = Value::TupleVariant(
        String::from("S"),
        vec![Value::Str(String::from("Dp")), Value::UInt(47)],
    );

    assert_eq!("{\"S\":[\"Dp\" 47]}", encode(&v));
}

#[test]
fn test_map() {
    let v = Value::Dict(vec![
        (Value::Int(1), Value::Str(String::from("6,5"))),
        (Value::Int(47), Value::Str(String::from("Dp"))),
    ]);

    assert_eq!("{1:\"6,5\" 47:\"Dp\"}", encode(&v));
}

#[test]
fn test_struct() {
    let v = Value::Struct(vec![
        (String::from("r"), Value::UInt(1)),
        (String::from("g"), Value::UInt(2)),
        (String::from("b"), Value::UInt(4)),
    ]);

    assert_eq!("{r:1 g:2 b:4}", encode(&v));
}

#[test]
fn test_struct_variant() {
    let v = Value::StructVariant(
        String::from("S"),
        vec![
            (String::from("r"), Value::UInt(1)),
            (String::from("g"), Value::UInt(2)),
            (String::from("b"), Value::UInt(4)),
        ],
    );

    assert_eq!("{S:{r:1 g:2 b:4}}", encode(&v));
}
