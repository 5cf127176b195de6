use clwm::model::CustomDataObject;
use clwm::model::CustomDataTypeDefinition;
use clwm::model::DataObject;
use clwm::model::DataTypeDefinition;
use clwm::validate::is_data_of_data_def;

#[test]
fn primitive_tags_must_match() {
    assert!(is_data_of_data_def(
        &DataObject::Text("hello".to_string()),
        &DataTypeDefinition::Text,
        false
    ));
    assert!(is_data_of_data_def(
        &DataObject::LongText("body".to_string()),
        &DataTypeDefinition::LongText,
        false
    ));
    assert!(is_data_of_data_def(
        &DataObject::Boolean(true),
        &DataTypeDefinition::Boolean,
        false
    ));
    assert!(is_data_of_data_def(
        &DataObject::Integer(30),
        &DataTypeDefinition::Integer,
        false
    ));
    assert!(is_data_of_data_def(
        &DataObject::Float(2.5f64.to_bits()),
        &DataTypeDefinition::Float,
        false
    ));
    assert!(is_data_of_data_def(
        &DataObject::NounReference(7),
        &DataTypeDefinition::NounReference,
        false
    ));
}

#[test]
fn no_coercion_between_primitives() {
    assert!(!is_data_of_data_def(
        &DataObject::Integer(30),
        &DataTypeDefinition::Float,
        true
    ));
    assert!(!is_data_of_data_def(
        &DataObject::Float(30.0f64.to_bits()),
        &DataTypeDefinition::Integer,
        true
    ));
    assert!(!is_data_of_data_def(
        &DataObject::Text("30".to_string()),
        &DataTypeDefinition::Integer,
        true
    ));
    assert!(!is_data_of_data_def(
        &DataObject::Text("t".to_string()),
        &DataTypeDefinition::LongText,
        true
    ));
}

#[test]
fn null_is_valid_only_when_allowed() {
    assert!(is_data_of_data_def(&DataObject::Null, &DataTypeDefinition::Integer, true));
    assert!(!is_data_of_data_def(&DataObject::Null, &DataTypeDefinition::Integer, false));
    assert!(is_data_of_data_def(&DataObject::Null, &DataTypeDefinition::Text, true));
}

#[test]
fn array_checks_every_element() {
    let def = DataTypeDefinition::Array(Box::new(DataTypeDefinition::Integer));
    let ok = DataObject::Array(vec![DataObject::Integer(1), DataObject::Integer(2)]);
    let bad = DataObject::Array(vec![
        DataObject::Integer(1),
        DataObject::Text("x".to_string()),
    ]);
    assert!(is_data_of_data_def(&ok, &def, false));
    assert!(!is_data_of_data_def(&bad, &def, false));
    assert!(is_data_of_data_def(&DataObject::Array(vec![]), &def, false));
    assert!(!is_data_of_data_def(&DataObject::Integer(1), &def, false));
}

#[test]
fn array_propagates_allow_nulls() {
    let def = DataTypeDefinition::Array(Box::new(DataTypeDefinition::Integer));
    let with_null = DataObject::Array(vec![DataObject::Integer(1), DataObject::Null]);
    assert!(is_data_of_data_def(&with_null, &def, true));
    assert!(!is_data_of_data_def(&with_null, &def, false));
}

#[test]
fn custom_value_keys_must_exist_in_definition() {
    let def = DataTypeDefinition::Custom(CustomDataTypeDefinition(vec![
        ("name".to_string(), DataTypeDefinition::Text),
        ("age".to_string(), DataTypeDefinition::Integer),
    ]));
    let ok = DataObject::Custom(CustomDataObject(vec![
        ("name".to_string(), DataObject::Text("Alice".to_string())),
        ("age".to_string(), DataObject::Integer(30)),
    ]));
    let unknown_key = DataObject::Custom(CustomDataObject(vec![(
        "height".to_string(),
        DataObject::Integer(170),
    )]));
    let wrong_type = DataObject::Custom(CustomDataObject(vec![(
        "age".to_string(),
        DataObject::Text("thirty".to_string()),
    )]));
    assert!(is_data_of_data_def(&ok, &def, false));
    assert!(!is_data_of_data_def(&unknown_key, &def, false));
    assert!(!is_data_of_data_def(&wrong_type, &def, false));
}

#[test]
fn custom_value_may_omit_definition_fields() {
    // Only the keys present in the value are checked; a definition field
    // absent from the value is not flagged.
    let def = DataTypeDefinition::Custom(CustomDataTypeDefinition(vec![
        ("name".to_string(), DataTypeDefinition::Text),
        ("age".to_string(), DataTypeDefinition::Integer),
    ]));
    let partial = DataObject::Custom(CustomDataObject(vec![(
        "name".to_string(),
        DataObject::Text("Alice".to_string()),
    )]));
    let empty = DataObject::Custom(CustomDataObject(vec![]));
    assert!(is_data_of_data_def(&partial, &def, false));
    assert!(is_data_of_data_def(&empty, &def, false));
}

#[test]
fn custom_allows_nulled_fields_when_nulls_allowed() {
    let def = DataTypeDefinition::Custom(CustomDataTypeDefinition(vec![(
        "age".to_string(),
        DataTypeDefinition::Integer,
    )]));
    let nulled = DataObject::Custom(CustomDataObject(vec![(
        "age".to_string(),
        DataObject::Null,
    )]));
    assert!(is_data_of_data_def(&nulled, &def, true));
    assert!(!is_data_of_data_def(&nulled, &def, false));
}

#[test]
fn nested_structures_validate_recursively() {
    let def = DataTypeDefinition::Custom(CustomDataTypeDefinition(vec![(
        "tags".to_string(),
        DataTypeDefinition::Array(Box::new(DataTypeDefinition::Text)),
    )]));
    let ok = DataObject::Custom(CustomDataObject(vec![(
        "tags".to_string(),
        DataObject::Array(vec![DataObject::Text("a".to_string())]),
    )]));
    let bad = DataObject::Custom(CustomDataObject(vec![(
        "tags".to_string(),
        DataObject::Array(vec![DataObject::Integer(1)]),
    )]));
    assert!(is_data_of_data_def(&ok, &def, false));
    assert!(!is_data_of_data_def(&bad, &def, false));
}
