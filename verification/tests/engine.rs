use clwm::clwm_error::ClwmError;
use clwm::model::CustomDataObject;
use clwm::model::CustomDataTypeDefinition;
use clwm::model::is_well_formed_data_object;
use clwm::model::is_well_formed_definition;
use clwm::model::Attribute;
use clwm::model::DataObject;
use clwm::model::DataTypeDefinition;
use clwm::model::Noun;
use clwm::model::NounType;
use clwm::world::World;

fn world_with_person() -> World {
    let mut world = World::new();
    world
        .new_noun_type("Person".to_string(), "".to_string())
        .expect("creating a fresh noun type succeeds");
    world
}

#[test]
fn create_noun_with_known_type_succeeds() {
    let mut world = world_with_person();
    let noun = world
        .new_noun("Alice".to_string(), "Person".to_string(), "".to_string())
        .expect("noun under an existing type");
    assert_eq!(noun.noun_id, Some(1));
    assert_eq!(noun.name, "Alice");
    assert_eq!(noun.noun_type, "Person");
    let fetched = world.get_noun_by_id(1).expect("stored noun is fetchable");
    assert_eq!(fetched.name, "Alice");
}

#[test]
fn create_noun_with_unknown_type_fails() {
    let mut world = world_with_person();
    let err = world
        .new_noun("Casper".to_string(), "Ghost".to_string(), "".to_string())
        .unwrap_err();
    assert_eq!(err, ClwmError::NounTypeNotFound);
    assert!(world.get_all_nouns().is_empty());
    assert!(world.get_all_noun_histories().is_empty());
}

#[test]
fn duplicate_noun_type_fails() {
    let mut world = world_with_person();
    let err = world
        .new_noun_type("Person".to_string(), "again".to_string())
        .unwrap_err();
    assert_eq!(
        err,
        ClwmError::NounTypeAlreadyExists {
            noun_type: "Person".to_string()
        }
    );
    assert_eq!(world.get_all_noun_types().len(), 1);
}

#[test]
fn noun_creation_writes_one_history_row() {
    let mut world = world_with_person();
    world
        .new_noun("Alice".to_string(), "Person".to_string(), "meta".to_string())
        .unwrap();
    let histories = world.get_all_noun_histories();
    assert_eq!(histories.len(), 1);
    assert_eq!(histories[0].noun_id, 1);
    // The diff fields hold textual patches from the empty text, not the
    // raw values.
    assert!(histories[0].diff_name.starts_with("--- original"));
    assert!(histories[0].diff_name.contains("+Alice"));
    assert_ne!(histories[0].diff_name, "Alice");
}

#[test]
fn noun_update_diffs_old_to_new() {
    let mut world = world_with_person();
    let noun = world
        .new_noun("Alice".to_string(), "Person".to_string(), "".to_string())
        .unwrap();
    let updated = world
        .update_noun(Noun {
            name: "Alicia".to_string(),
            ..noun
        })
        .expect("update by id");
    assert_eq!(updated.name, "Alicia");
    assert_eq!(updated.noun_id, Some(1));
    let histories = world.get_all_noun_histories();
    assert_eq!(histories.len(), 2);
    assert!(histories[1].diff_name.contains("-Alice"));
    assert!(histories[1].diff_name.contains("+Alicia"));
}

#[test]
fn noun_update_requires_id_and_existing_row() {
    let mut world = world_with_person();
    let no_id = world.update_noun(Noun {
        noun_id: None,
        last_changed: None,
        name: "X".to_string(),
        noun_type: "Person".to_string(),
        metadata: String::new(),
        attributes: None,
    });
    assert_eq!(no_id.unwrap_err(), ClwmError::NounHasNoId);
    let missing = world.update_noun(Noun {
        noun_id: Some(99),
        last_changed: None,
        name: "X".to_string(),
        noun_type: "Person".to_string(),
        metadata: String::new(),
        attributes: None,
    });
    assert_eq!(missing.unwrap_err(), ClwmError::NounNotFound);
}

#[test]
fn noun_type_update_requires_id_and_existing_row() {
    let mut world = World::new();
    let no_id = world.update_noun_type(NounType {
        noun_type_id: None,
        last_changed: None,
        noun_type: "X".to_string(),
        metadata: String::new(),
    });
    assert_eq!(no_id.unwrap_err(), ClwmError::NounTypeHasNoId);
    let missing = world.update_noun_type(NounType {
        noun_type_id: Some(3),
        last_changed: None,
        noun_type: "X".to_string(),
        metadata: String::new(),
    });
    assert_eq!(missing.unwrap_err(), ClwmError::NounTypeNotFound);
}

fn nested_array_definition(depth: i64) -> DataTypeDefinition {
    let mut definition = DataTypeDefinition::Integer;
    for _ in 0..depth {
        definition = DataTypeDefinition::Array(Box::new(definition));
    }
    definition
}

#[test]
fn data_type_versions_grow_and_stay_fetchable() {
    let mut world = World::new();
    let created = world
        .new_data_type("Age".to_string(), nested_array_definition(0))
        .expect("fresh data type");
    assert_eq!(created.version, Some(1));
    let n = 4;
    for step in 1..=n {
        let latest = world
            .get_latest_data_type_by_name("Age".to_string())
            .expect("name exists");
        let updated = world
            .update_data_type(clwm::model::DataType {
                definition: nested_array_definition(step),
                ..latest
            })
            .expect("update by name");
        assert_eq!(updated.version.unwrap(), latest.version.unwrap() + 1);
    }
    let latest = world
        .get_latest_data_type_by_name("Age".to_string())
        .unwrap();
    assert_eq!(latest.version, Some(n + 1));
    // Exactly one row per version, and each still carries the definition
    // supplied when that version was written.
    let all = world.get_all_data_type_by_name("Age".to_string());
    assert_eq!(all.len() as i64, n + 1);
    for v in 1..=(n + 1) {
        let row = all
            .iter()
            .find(|row| row.version == Some(v))
            .expect("version must stay fetchable");
        assert_eq!(row.definition, nested_array_definition(v - 1));
    }
}

#[test]
fn duplicate_data_type_fails() {
    let mut world = World::new();
    world
        .new_data_type("Age".to_string(), DataTypeDefinition::Integer)
        .unwrap();
    let err = world
        .new_data_type("Age".to_string(), DataTypeDefinition::Float)
        .unwrap_err();
    assert_eq!(
        err,
        ClwmError::DataTypeAlreadyExists {
            data_type: "Age".to_string()
        }
    );
    assert_eq!(world.get_all_data_types().len(), 1);
}

#[test]
fn updating_missing_data_type_fails() {
    let mut world = World::new();
    let err = world
        .update_data_type(clwm::model::DataType {
            name: "Ghost".to_string(),
            system_defined: false,
            definition: DataTypeDefinition::Integer,
            version: None,
            change_date: None,
        })
        .unwrap_err();
    assert_eq!(err, ClwmError::DataTypeNotFound);
}

fn world_for_attributes(multiple_allowed: bool) -> (World, i64, i64) {
    let mut world = world_with_person();
    world
        .new_noun("Alice".to_string(), "Person".to_string(), "".to_string())
        .unwrap();
    world
        .new_data_type("Age".to_string(), DataTypeDefinition::Integer)
        .unwrap();
    let at = world
        .new_attribute_type(
            "age".to_string(),
            multiple_allowed,
            "Age".to_string(),
            "".to_string(),
        )
        .unwrap();
    (world, 1, at.attribute_type_id.unwrap())
}

#[test]
fn attribute_under_noun_succeeds_and_validates() {
    let (mut world, noun_id, at_id) = world_for_attributes(false);
    let attribute = world
        .new_attribute(
            at_id,
            Some(noun_id),
            None,
            DataObject::Integer(30),
            1,
            "".to_string(),
        )
        .expect("validated attribute");
    assert_eq!(attribute.attribute_id, Some(1));
    assert_eq!(attribute.data, DataObject::Integer(30));
    assert_eq!(world.get_all_attribute_histories().len(), 1);
}

#[test]
fn second_attribute_under_same_parent_respects_multiples() {
    let (mut world, noun_id, at_id) = world_for_attributes(false);
    world
        .new_attribute(
            at_id,
            Some(noun_id),
            None,
            DataObject::Integer(30),
            1,
            "".to_string(),
        )
        .unwrap();
    let err = world
        .new_attribute(
            at_id,
            Some(noun_id),
            None,
            DataObject::Integer(31),
            1,
            "".to_string(),
        )
        .unwrap_err();
    assert_eq!(
        err,
        ClwmError::AttributeTypeDoesNotAllowMultipleAttributes {
            attribute_type: "age".to_string()
        }
    );
    assert_eq!(world.get_all_attributes().len(), 1);

    let (mut world2, noun_id2, at_id2) = world_for_attributes(true);
    world2
        .new_attribute(
            at_id2,
            Some(noun_id2),
            None,
            DataObject::Integer(30),
            1,
            "".to_string(),
        )
        .unwrap();
    world2
        .new_attribute(
            at_id2,
            Some(noun_id2),
            None,
            DataObject::Integer(31),
            1,
            "".to_string(),
        )
        .expect("a second attribute is allowed when multiples are");
    assert_eq!(world2.get_all_attributes().len(), 2);
}

#[test]
fn attribute_parent_must_be_exclusive() {
    let (mut world, noun_id, at_id) = world_for_attributes(false);
    let neither = world
        .new_attribute(at_id, None, None, DataObject::Integer(1), 1, "".to_string())
        .unwrap_err();
    assert_eq!(neither, ClwmError::ParentNounOrParentAttributeIdMustBeSet);
    let both = world
        .new_attribute(
            at_id,
            Some(noun_id),
            Some(1),
            DataObject::Integer(1),
            1,
            "".to_string(),
        )
        .unwrap_err();
    assert_eq!(both, ClwmError::ParentNounAndParentAttributeIdMustNotBeSet);
    // A failed creation writes nothing: no new attribute, no history row.
    assert!(world.get_all_attributes().is_empty());
    assert!(world.get_all_attribute_histories().is_empty());
}

#[test]
fn attribute_checks_resolve_references() {
    let (mut world, _noun_id, at_id) = world_for_attributes(false);
    let bad_type = world
        .new_attribute(
            99,
            Some(1),
            None,
            DataObject::Integer(1),
            1,
            "".to_string(),
        )
        .unwrap_err();
    assert_eq!(bad_type, ClwmError::AttributeTypeNotFound);
    let bad_noun = world
        .new_attribute(
            at_id,
            Some(42),
            None,
            DataObject::Integer(1),
            1,
            "".to_string(),
        )
        .unwrap_err();
    assert_eq!(bad_noun, ClwmError::NounNotFound);
    let bad_parent_attribute = world
        .new_attribute(
            at_id,
            None,
            Some(42),
            DataObject::Integer(1),
            1,
            "".to_string(),
        )
        .unwrap_err();
    assert_eq!(bad_parent_attribute, ClwmError::AttributeNotFound);
    let bad_version = world
        .new_attribute(
            at_id,
            Some(1),
            None,
            DataObject::Integer(1),
            9,
            "".to_string(),
        )
        .unwrap_err();
    assert_eq!(bad_version, ClwmError::DataTypeVersionNotFound);
    let bad_data = world
        .new_attribute(
            at_id,
            Some(1),
            None,
            DataObject::Text("thirty".to_string()),
            1,
            "".to_string(),
        )
        .unwrap_err();
    assert_eq!(bad_data, ClwmError::DataDoesNotMatchDataTypeDefinition);
}

#[test]
fn data_type_update_pins_old_attributes() {
    // Update DataType "Age" to Float: a new row at version two; the
    // attribute created against version one stays valid, while a new
    // Integer attribute against version two is rejected.
    let (mut world, noun_id, at_id) = world_for_attributes(true);
    let created = world
        .new_attribute(
            at_id,
            Some(noun_id),
            None,
            DataObject::Integer(30),
            1,
            "".to_string(),
        )
        .unwrap();
    let latest = world
        .get_latest_data_type_by_name("Age".to_string())
        .unwrap();
    let updated_type = world
        .update_data_type(clwm::model::DataType {
            definition: DataTypeDefinition::Float,
            ..latest
        })
        .unwrap();
    assert_eq!(updated_type.version, Some(2));
    // The old attribute still updates cleanly against version one.
    world
        .update_attribute(Attribute {
            data: DataObject::Integer(31),
            ..created.clone()
        })
        .expect("version one still accepts integers");
    let wrong_variant = world
        .new_attribute(
            at_id,
            Some(noun_id),
            None,
            DataObject::Integer(30),
            2,
            "".to_string(),
        )
        .unwrap_err();
    assert_eq!(wrong_variant, ClwmError::DataDoesNotMatchDataTypeDefinition);
    world
        .new_attribute(
            at_id,
            Some(noun_id),
            None,
            DataObject::Float(30.0f64.to_bits()),
            2,
            "".to_string(),
        )
        .expect("version two accepts floats");
}

#[test]
fn attribute_identity_fields_are_immutable() {
    let (mut world, noun_id, at_id) = world_for_attributes(true);
    let created = world
        .new_attribute(
            at_id,
            Some(noun_id),
            None,
            DataObject::Integer(30),
            1,
            "".to_string(),
        )
        .unwrap();
    let retype = world
        .update_attribute(Attribute {
            attribute_type_id: at_id + 7,
            ..created.clone()
        })
        .unwrap_err();
    assert_eq!(retype, ClwmError::AttributeTypeIdDoesNotMatch);
    let reparent = world
        .update_attribute(Attribute {
            parent_noun_id: Some(noun_id + 1),
            ..created.clone()
        })
        .unwrap_err();
    assert_eq!(reparent, ClwmError::ParentNounIdDoesNotMatch);
    let reparent_attribute = world
        .update_attribute(Attribute {
            parent_noun_id: None,
            parent_attribute_id: Some(1),
            ..created.clone()
        })
        .unwrap_err();
    // Changing the parent noun is reported before the parent attribute.
    assert_eq!(reparent_attribute, ClwmError::ParentNounIdDoesNotMatch);
    let reparent_attribute_only = world
        .update_attribute(Attribute {
            parent_attribute_id: Some(1),
            ..created.clone()
        })
        .unwrap_err();
    assert_eq!(reparent_attribute_only, ClwmError::ParentAttributeIdDoesNotMatch);
    // The stored record is untouched by the failed updates.
    let stored = world.get_attribute_by_id(1).unwrap();
    assert_eq!(stored.attribute_type_id, at_id);
    assert_eq!(stored.parent_noun_id, Some(noun_id));
    assert_eq!(stored.parent_attribute_id, None);
    assert_eq!(stored.data, DataObject::Integer(30));
}

#[test]
fn attribute_update_requires_id_and_existing_row() {
    let (mut world, _noun_id, at_id) = world_for_attributes(true);
    let blank = Attribute {
        attribute_id: None,
        last_changed: None,
        attribute_type_id: at_id,
        parent_noun_id: Some(1),
        parent_attribute_id: None,
        data: DataObject::Integer(1),
        data_type_version: 1,
        metadata: String::new(),
        children: None,
    };
    assert_eq!(
        world.update_attribute(blank.clone()).unwrap_err(),
        ClwmError::AttributeHasNoId
    );
    assert_eq!(
        world
            .update_attribute(Attribute {
                attribute_id: Some(5),
                ..blank
            })
            .unwrap_err(),
        ClwmError::AttributeNotFound
    );
}

#[test]
fn duplicate_attribute_type_fails_then_missing_data_type() {
    let mut world = World::new();
    world
        .new_data_type("Age".to_string(), DataTypeDefinition::Integer)
        .unwrap();
    world
        .new_attribute_type("age".to_string(), false, "Age".to_string(), "".to_string())
        .unwrap();
    let dup = world
        .new_attribute_type("age".to_string(), false, "Age".to_string(), "".to_string())
        .unwrap_err();
    assert_eq!(
        dup,
        ClwmError::AttributeTypeAlreadyExists {
            attribute_type: "age".to_string()
        }
    );
    let no_data_type = world
        .new_attribute_type(
            "height".to_string(),
            false,
            "Ghost".to_string(),
            "".to_string(),
        )
        .unwrap_err();
    assert_eq!(no_data_type, ClwmError::DataTypeNotFound);
}

#[test]
fn attribute_type_update_is_in_place() {
    let mut world = World::new();
    world
        .new_data_type("Age".to_string(), DataTypeDefinition::Integer)
        .unwrap();
    let at = world
        .new_attribute_type("age".to_string(), false, "Age".to_string(), "".to_string())
        .unwrap();
    let updated = world
        .update_attribute_type(clwm::model::AttributeType {
            multiple_allowed: true,
            ..at.clone()
        })
        .expect("update by id");
    // The record with this id is updated in place: same id, no extra row,
    // and the data type name is not updatable.
    assert_eq!(updated.attribute_type_id, at.attribute_type_id);
    assert!(updated.multiple_allowed);
    assert_eq!(updated.data_type, "Age");
    assert_eq!(world.get_all_attribute_types().len(), 1);
    let stored = world
        .get_attribute_type_by_id(at.attribute_type_id.unwrap())
        .unwrap();
    assert!(stored.multiple_allowed);
    let no_id = world
        .update_attribute_type(clwm::model::AttributeType {
            attribute_type_id: None,
            ..at.clone()
        })
        .unwrap_err();
    assert_eq!(no_id, ClwmError::AttributeTypeHasNoId);
    let missing = world
        .update_attribute_type(clwm::model::AttributeType {
            attribute_type_id: Some(50),
            ..at
        })
        .unwrap_err();
    assert_eq!(missing, ClwmError::AttributeTypeNotFound);
    // Failed updates leave the table as it was.
    assert_eq!(world.get_all_attribute_types().len(), 1);
}

#[test]
fn populate_builds_the_attribute_tree() {
    let (mut world, noun_id, at_id) = world_for_attributes(true);
    let root = world
        .new_attribute(
            at_id,
            Some(noun_id),
            None,
            DataObject::Integer(1),
            1,
            "".to_string(),
        )
        .unwrap();
    let child = world
        .new_attribute(
            at_id,
            None,
            Some(root.attribute_id.unwrap()),
            DataObject::Integer(2),
            1,
            "".to_string(),
        )
        .unwrap();
    world
        .new_attribute(
            at_id,
            None,
            Some(child.attribute_id.unwrap()),
            DataObject::Integer(3),
            1,
            "".to_string(),
        )
        .unwrap();
    let mut noun = world.get_noun_by_id(noun_id).unwrap();
    world.populate_noun(&mut noun).expect("noun has an id");
    let level_one = noun.attributes.as_ref().unwrap();
    assert_eq!(level_one.len(), 1);
    assert_eq!(level_one[0].data, DataObject::Integer(1));
    let level_two = level_one[0].children.as_ref().unwrap();
    assert_eq!(level_two.len(), 1);
    assert_eq!(level_two[0].data, DataObject::Integer(2));
    let level_three = level_two[0].children.as_ref().unwrap();
    assert_eq!(level_three.len(), 1);
    assert_eq!(level_three[0].data, DataObject::Integer(3));
    assert!(level_three[0].children.as_ref().unwrap().is_empty());

    let mut lone = world.get_attribute_by_id(2).unwrap();
    world.populate_attribute(&mut lone).expect("attribute has an id");
    assert_eq!(lone.children.as_ref().unwrap().len(), 1);

    let mut blank = Noun {
        noun_id: None,
        last_changed: None,
        name: String::new(),
        noun_type: String::new(),
        metadata: String::new(),
        attributes: None,
    };
    assert_eq!(
        world.populate_noun(&mut blank).unwrap_err(),
        ClwmError::NounHasNoId
    );
}

#[test]
fn histories_pair_mutations_one_to_one() {
    let (mut world, noun_id, at_id) = world_for_attributes(false);
    assert_eq!(world.get_all_noun_histories().len(), 1);
    assert_eq!(world.get_all_attribute_histories().len(), 0);
    world
        .new_attribute(
            at_id,
            Some(noun_id),
            None,
            DataObject::Integer(30),
            1,
            "".to_string(),
        )
        .unwrap();
    assert_eq!(world.get_all_attribute_histories().len(), 1);
    // A failed mutation writes no history row.
    world
        .new_attribute(
            at_id,
            Some(noun_id),
            None,
            DataObject::Integer(30),
            1,
            "".to_string(),
        )
        .unwrap_err();
    assert_eq!(world.get_all_attribute_histories().len(), 1);
    assert_eq!(world.get_all_attributes().len(), 1);
}

#[test]
fn error_messages_are_one_line_and_distinct() {
    let not_found = ClwmError::NounNotFound.message();
    assert_eq!(not_found, "the provided noun could not be found");
    let exists = ClwmError::NounTypeAlreadyExists {
        noun_type: "Person".to_string(),
    }
    .message();
    assert_eq!(exists, "the noun type already exists");
    assert_ne!(not_found, ClwmError::NounTypeNotFound.message());
    assert_ne!(
        ClwmError::ParentNounIdDoesNotMatch.message(),
        ClwmError::ParentAttributeIdDoesNotMatch.message()
    );
}

#[test]
fn world_file_names_backend_and_locator() {
    let file = clwm::clwm_file::ClwmFile {
        url: "sqlite://world.db".to_string(),
        data_interface: clwm::data_interface::DataInterfaceType::Sqlite,
    };
    let copy = file.clone();
    assert_eq!(copy.url, file.url);
    assert_eq!(copy.data_interface, file.data_interface);
}

#[test]
fn record_field_names_must_be_distinct_to_be_well_formed() {
    let distinct = DataTypeDefinition::Custom(CustomDataTypeDefinition(vec![
        ("name".to_string(), DataTypeDefinition::Text),
        ("age".to_string(), DataTypeDefinition::Integer),
    ]));
    assert!(is_well_formed_definition(&distinct));
    let duplicated = DataTypeDefinition::Custom(CustomDataTypeDefinition(vec![
        ("age".to_string(), DataTypeDefinition::Text),
        ("age".to_string(), DataTypeDefinition::Integer),
    ]));
    assert!(!is_well_formed_definition(&duplicated));
    let nested = DataTypeDefinition::Array(Box::new(duplicated));
    assert!(!is_well_formed_definition(&nested));

    let value = DataObject::Custom(CustomDataObject(vec![
        ("name".to_string(), DataObject::Text("Alice".to_string())),
        ("age".to_string(), DataObject::Integer(30)),
    ]));
    assert!(is_well_formed_data_object(&value));
    let duplicated_value = DataObject::Custom(CustomDataObject(vec![
        ("age".to_string(), DataObject::Integer(30)),
        ("age".to_string(), DataObject::Integer(31)),
    ]));
    assert!(!is_well_formed_data_object(&duplicated_value));
    let nested_value = DataObject::Array(vec![duplicated_value]);
    assert!(!is_well_formed_data_object(&nested_value));
    assert!(is_well_formed_data_object(&DataObject::Null));
}
