use clwm::codec::i64_to_string;
use clwm::codec::parse_data_object;
use clwm::codec::parse_data_type_definition;
use clwm::codec::serialize_data_object;
use clwm::codec::serialize_data_type_definition;
use clwm::codec::u64_to_string;
use clwm::model::CustomDataObject;
use clwm::model::CustomDataTypeDefinition;
use clwm::model::DataObject;
use clwm::model::DataTypeDefinition;

fn value_round_trip(v: DataObject) {
    let text = serialize_data_object(&v);
    let back = parse_data_object(text.as_str()).expect("serialized value must parse");
    assert_eq!(back, v);
}

fn definition_round_trip(d: DataTypeDefinition) {
    let text = serialize_data_type_definition(&d);
    let back = parse_data_type_definition(text.as_str()).expect("serialized definition must parse");
    assert_eq!(back, d);
}

#[test]
fn number_strings_are_decimal() {
    assert_eq!(u64_to_string(0), "0");
    assert_eq!(u64_to_string(30), "30");
    assert_eq!(u64_to_string(u64::MAX), "18446744073709551615");
    assert_eq!(i64_to_string(0), "0");
    assert_eq!(i64_to_string(-5), "-5");
    assert_eq!(i64_to_string(i64::MIN), "-9223372036854775808");
    assert_eq!(i64_to_string(i64::MAX), "9223372036854775807");
}

#[test]
fn serialized_forms_are_exact() {
    assert_eq!(serialize_data_object(&DataObject::Null), "N");
    assert_eq!(serialize_data_object(&DataObject::Integer(30)), "I+30:");
    assert_eq!(serialize_data_object(&DataObject::Integer(-7)), "I-7:");
    assert_eq!(serialize_data_object(&DataObject::Boolean(true)), "B1");
    assert_eq!(serialize_data_object(&DataObject::Text("hi".to_string())), "T2:hi");
    assert_eq!(
        serialize_data_object(&DataObject::Array(vec![
            DataObject::Integer(1),
            DataObject::Null
        ])),
        "A2:I+1:N"
    );
    assert_eq!(serialize_data_type_definition(&DataTypeDefinition::Integer), "i");
    assert_eq!(
        serialize_data_type_definition(&DataTypeDefinition::Array(Box::new(
            DataTypeDefinition::Float
        ))),
        "af"
    );
}

#[test]
fn primitive_values_round_trip() {
    value_round_trip(DataObject::Null);
    value_round_trip(DataObject::Boolean(true));
    value_round_trip(DataObject::Boolean(false));
    value_round_trip(DataObject::Integer(0));
    value_round_trip(DataObject::Integer(-1));
    value_round_trip(DataObject::Integer(i64::MIN));
    value_round_trip(DataObject::Integer(i64::MAX));
    value_round_trip(DataObject::NounReference(42));
    value_round_trip(DataObject::Float(0.0f64.to_bits()));
    value_round_trip(DataObject::Float((-2.75f64).to_bits()));
    value_round_trip(DataObject::Float(f64::NAN.to_bits()));
}

#[test]
fn string_values_round_trip() {
    value_round_trip(DataObject::Text(String::new()));
    value_round_trip(DataObject::Text("plain ascii".to_string()));
    value_round_trip(DataObject::Text("with: colons :: and 123 digits".to_string()));
    value_round_trip(DataObject::LongText("line one\nline two\n".to_string()));
    value_round_trip(DataObject::Text("unicode \u{00e9}\u{0142}\u{4e16}\u{754c}".to_string()));
}

#[test]
fn nested_values_round_trip() {
    value_round_trip(DataObject::Array(vec![]));
    value_round_trip(DataObject::Array(vec![
        DataObject::Integer(1),
        DataObject::Text("two".to_string()),
        DataObject::Array(vec![DataObject::Null]),
    ]));
    value_round_trip(DataObject::Custom(CustomDataObject(vec![
        ("name".to_string(), DataObject::Text("Alice".to_string())),
        (
            "tags".to_string(),
            DataObject::Array(vec![DataObject::Text("a".to_string())]),
        ),
        (
            "inner".to_string(),
            DataObject::Custom(CustomDataObject(vec![(
                "age".to_string(),
                DataObject::Integer(30),
            )])),
        ),
    ])));
}

#[test]
fn definitions_round_trip() {
    definition_round_trip(DataTypeDefinition::Text);
    definition_round_trip(DataTypeDefinition::LongText);
    definition_round_trip(DataTypeDefinition::Boolean);
    definition_round_trip(DataTypeDefinition::Integer);
    definition_round_trip(DataTypeDefinition::Float);
    definition_round_trip(DataTypeDefinition::NounReference);
    definition_round_trip(DataTypeDefinition::Array(Box::new(DataTypeDefinition::Array(
        Box::new(DataTypeDefinition::Integer),
    ))));
    definition_round_trip(DataTypeDefinition::Custom(CustomDataTypeDefinition(vec![
        ("name".to_string(), DataTypeDefinition::Text),
        (
            "scores".to_string(),
            DataTypeDefinition::Array(Box::new(DataTypeDefinition::Float)),
        ),
        (
            "address".to_string(),
            DataTypeDefinition::Custom(CustomDataTypeDefinition(vec![(
                "street".to_string(),
                DataTypeDefinition::Text,
            )])),
        ),
    ])));
}

#[test]
fn malformed_texts_do_not_parse() {
    assert!(parse_data_object("").is_none());
    assert!(parse_data_object("X").is_none());
    assert!(parse_data_object("I30:").is_none());
    assert!(parse_data_object("I+30").is_none());
    assert!(parse_data_object("T5:ab").is_none());
    assert!(parse_data_object("A2:I+1:").is_none());
    assert!(parse_data_object("NN").is_none());
    assert!(parse_data_type_definition("z").is_none());
    assert!(parse_data_type_definition("ii").is_none());
    assert!(parse_data_type_definition("a").is_none());
}
