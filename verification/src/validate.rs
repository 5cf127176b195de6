//! The validator: checks a data value against a structural type descriptor.
//!
//! A primitive descriptor requires the value to carry the same variant (no
//! coercion); an array descriptor requires every element to validate against
//! the element descriptor; a record descriptor requires every field present
//! in the value to name a descriptor field and validate against it. A `Null`
//! value is valid whenever nulls are allowed. Descriptor fields absent from
//! a record value are not flagged; this looseness is deliberate and is kept.

use vstd::prelude::*;

use crate::model::DataObject;
use crate::model::DataObjectView;
use crate::model::DataTypeDefinition;
use crate::model::DataTypeDefinitionView;
use crate::model::data_object_field_views;
use crate::model::data_object_item_views;
use crate::model::data_object_view;
use crate::model::lemma_data_object_field_views;
use crate::model::lemma_data_object_item_views;
use crate::model::lemma_type_definition_field_views;
use crate::model::type_definition_field_views;
use crate::model::type_definition_view;

verus! {

broadcast use vstd::std_specs::vec::group_vec_axioms, vstd::seq::group_seq_axioms;

/// The definition of the first field named `key` at or after position `i`,
/// if any.
pub open spec fn find_field_definition_from(
    fields: Seq<(Seq<char>, DataTypeDefinitionView)>,
    key: Seq<char>,
    i: int,
) -> Option<DataTypeDefinitionView>
    decreases fields.len() - i,
{
    if i < 0 || i >= fields.len() {
        Option::None
    } else if fields[i].0 == key {
        Option::Some(fields[i].1)
    } else {
        find_field_definition_from(fields, key, i + 1)
    }
}

/// The definition of the first field named `key`, if any.
pub open spec fn find_field_definition(
    fields: Seq<(Seq<char>, DataTypeDefinitionView)>,
    key: Seq<char>,
) -> Option<DataTypeDefinitionView> {
    find_field_definition_from(fields, key, 0)
}

/// Whether `value` conforms to `def`: `Null` is valid when `allow_nulls`
/// holds; a primitive kind requires the same variant; an array requires
/// every element to conform to the element definition; a record requires
/// every field present in the value to name a definition field and conform
/// to it.
pub open spec fn spec_validate(
    value: DataObjectView,
    def: DataTypeDefinitionView,
    allow_nulls: bool,
) -> bool
    decreases value,
{
    if value is Null && allow_nulls {
        true
    } else {
        match def {
            DataTypeDefinitionView::Text => value is Text,
            DataTypeDefinitionView::LongText => value is LongText,
            DataTypeDefinitionView::Boolean => value is Boolean,
            DataTypeDefinitionView::Integer => value is Integer,
            DataTypeDefinitionView::Float => value is Float,
            DataTypeDefinitionView::NounReference => value is NounReference,
            DataTypeDefinitionView::Array(elem) => match value {
                DataObjectView::Array(items) => spec_validate_items(
                    items,
                    *elem,
                    allow_nulls,
                    items.len() as int,
                ),
                _ => false,
            },
            DataTypeDefinitionView::Custom(dfields) => match value {
                DataObjectView::Custom(vfields) => spec_validate_fields(
                    vfields,
                    dfields,
                    allow_nulls,
                    vfields.len() as int,
                ),
                _ => false,
            },
        }
    }
}

/// Whether the first `n` elements of an array value all conform to the
/// element definition.
pub open spec fn spec_validate_items(
    items: Seq<DataObjectView>,
    elem: DataTypeDefinitionView,
    allow_nulls: bool,
    n: int,
) -> bool
    decreases items, n,
{
    if n <= 0 || n > items.len() {
        true
    } else {
        spec_validate_items(items, elem, allow_nulls, n - 1) && spec_validate(
            items[n - 1],
            elem,
            allow_nulls,
        )
    }
}

/// Whether each of the first `n` fields of a record value names a
/// definition field and conforms to it.
pub open spec fn spec_validate_fields(
    vfields: Seq<(Seq<char>, DataObjectView)>,
    dfields: Seq<(Seq<char>, DataTypeDefinitionView)>,
    allow_nulls: bool,
    n: int,
) -> bool
    decreases vfields, n,
{
    if n <= 0 || n > vfields.len() {
        true
    } else {
        spec_validate_fields(vfields, dfields, allow_nulls, n - 1) && match find_field_definition(
            dfields,
            vfields[n - 1].0,
        ) {
            Option::Some(d) => spec_validate(vfields[n - 1].1, d, allow_nulls),
            Option::None => false,
        }
    }
}

/// An array value conforms exactly when every element conforms.
pub proof fn lemma_spec_validate_items_iff(
    items: Seq<DataObjectView>,
    elem: DataTypeDefinitionView,
    allow_nulls: bool,
    n: int,
)
    requires
        0 <= n <= items.len(),
    ensures
        spec_validate_items(items, elem, allow_nulls, n) == (forall|i: int|
            0 <= i < n ==> spec_validate(#[trigger] items[i], elem, allow_nulls)),
    decreases n,
{
    if n > 0 {
        lemma_spec_validate_items_iff(items, elem, allow_nulls, n - 1);
    }
}

/// A record value conforms exactly when every present field names a
/// definition field and conforms to it.
pub proof fn lemma_spec_validate_fields_iff(
    vfields: Seq<(Seq<char>, DataObjectView)>,
    dfields: Seq<(Seq<char>, DataTypeDefinitionView)>,
    allow_nulls: bool,
    n: int,
)
    requires
        0 <= n <= vfields.len(),
    ensures
        spec_validate_fields(vfields, dfields, allow_nulls, n) == (forall|i: int|
            0 <= i < n ==> {
                &&& find_field_definition(dfields, #[trigger] vfields[i].0) is Some
                &&& spec_validate(
                    vfields[i].1,
                    find_field_definition(dfields, vfields[i].0)->Some_0,
                    allow_nulls,
                )
            }),
    decreases n,
{
    if n > 0 {
        lemma_spec_validate_fields_iff(vfields, dfields, allow_nulls, n - 1);
    }
}

/// Finds the first definition field named `key`.
fn find_field<'a>(fields: &'a Vec<(String, DataTypeDefinition)>, key: &String) -> (r: Option<
    &'a DataTypeDefinition,
>)
    ensures
        match r {
            Option::Some(d) => find_field_definition(
                type_definition_field_views(*fields, fields.len() as int),
                key@,
            ) == Option::Some(d@),
            Option::None => find_field_definition(
                type_definition_field_views(*fields, fields.len() as int),
                key@,
            ) is None,
        },
{
    let ghost views = type_definition_field_views(*fields, fields.len() as int);
    proof {
        lemma_type_definition_field_views(*fields, fields.len() as int);
    }
    let mut i: usize = 0;
    while i < fields.len()
        invariant
            0 <= i <= fields.len(),
            views == type_definition_field_views(*fields, fields.len() as int),
            views.len() == fields.len(),
            forall|j: int|
                0 <= j < fields.len() ==> #[trigger] views[j] == (
                fields[j].0@,
                type_definition_view(fields[j].1),
                ),
            find_field_definition(views, key@) == find_field_definition_from(views, key@, i as int),
        decreases fields.len() - i,
    {
        if fields[i].0 == *key {
            return Option::Some(&fields[i].1);
        }
        i = i + 1;
    }
    Option::None
}

/// Checks a data value against a structural type descriptor, allowing
/// `Null` wherever `allow_nulls` is set. Returns exactly what the
/// mathematical validator says of the two values.
pub fn is_data_of_data_def(
    data: &DataObject,
    data_def: &DataTypeDefinition,
    allow_nulls: bool,
) -> (r: bool)
    ensures
        r == spec_validate(data@, data_def@, allow_nulls),
    decreases data,
{
    if matches!(data, DataObject::Null) && allow_nulls {
        return true;
    }
    match data_def {
        DataTypeDefinition::Text => matches!(data, DataObject::Text(_)),
        DataTypeDefinition::LongText => matches!(data, DataObject::LongText(_)),
        DataTypeDefinition::Boolean => matches!(data, DataObject::Boolean(_)),
        DataTypeDefinition::Integer => matches!(data, DataObject::Integer(_)),
        DataTypeDefinition::Float => matches!(data, DataObject::Float(_)),
        DataTypeDefinition::NounReference => matches!(data, DataObject::NounReference(_)),
        DataTypeDefinition::Array(elem) => match data {
            DataObject::Array(items) => {
                let r = validate_items(items, &**elem, allow_nulls);
                proof {
                    lemma_data_object_item_views(*items, items.len() as int);
                }
                r
            },
            _ => false,
        },
        DataTypeDefinition::Custom(dfields) => match data {
            DataObject::Custom(vfields) => {
                let r = validate_fields(&vfields.0, &dfields.0, allow_nulls);
                proof {
                    lemma_data_object_field_views(vfields.0, vfields.0.len() as int);
                }
                r
            },
            _ => false,
        },
    }
}

/// Checks every element of an array value against the element definition.
fn validate_items(items: &Vec<DataObject>, elem: &DataTypeDefinition, allow_nulls: bool) -> (r:
    bool)
    ensures
        r == spec_validate_items(
            data_object_item_views(*items, items.len() as int),
            elem@,
            allow_nulls,
            items.len() as int,
        ),
    decreases items,
{
    let ghost ivs = data_object_item_views(*items, items.len() as int);
    proof {
        lemma_data_object_item_views(*items, items.len() as int);
    }
    let mut i: usize = 0;
    while i < items.len()
        invariant
            0 <= i <= items.len(),
            ivs == data_object_item_views(*items, items.len() as int),
            ivs.len() == items.len(),
            forall|j: int| 0 <= j < items.len() ==> #[trigger] ivs[j] == data_object_view(items[j]),
            forall|j: int| 0 <= j < i ==> spec_validate(#[trigger] ivs[j], elem@, allow_nulls),
        decreases items.len() - i,
    {
        if !is_data_of_data_def(&items[i], elem, allow_nulls) {
            proof {
                assert(!spec_validate(ivs[i as int], elem@, allow_nulls));
                lemma_spec_validate_items_iff(ivs, elem@, allow_nulls, items.len() as int);
            }
            return false;
        }
        i = i + 1;
    }
    proof {
        lemma_spec_validate_items_iff(ivs, elem@, allow_nulls, items.len() as int);
    }
    true
}

/// Checks every field present in a record value: its name must belong to
/// the definition and its value must conform to that field's definition.
fn validate_fields(
    vfields: &Vec<(String, DataObject)>,
    dfields: &Vec<(String, DataTypeDefinition)>,
    allow_nulls: bool,
) -> (r: bool)
    ensures
        r == spec_validate_fields(
            data_object_field_views(*vfields, vfields.len() as int),
            type_definition_field_views(*dfields, dfields.len() as int),
            allow_nulls,
            vfields.len() as int,
        ),
    decreases vfields,
{
    let ghost vvs = data_object_field_views(*vfields, vfields.len() as int);
    let ghost dvs = type_definition_field_views(*dfields, dfields.len() as int);
    proof {
        lemma_data_object_field_views(*vfields, vfields.len() as int);
    }
    let mut i: usize = 0;
    while i < vfields.len()
        invariant
            0 <= i <= vfields.len(),
            vvs == data_object_field_views(*vfields, vfields.len() as int),
            dvs == type_definition_field_views(*dfields, dfields.len() as int),
            vvs.len() == vfields.len(),
            forall|j: int|
                0 <= j < vfields.len() ==> #[trigger] vvs[j] == (
                vfields[j].0@,
                data_object_view(vfields[j].1),
                ),
            forall|j: int|
                0 <= j < i ==> {
                    &&& find_field_definition(dvs, #[trigger] vvs[j].0) is Some
                    &&& spec_validate(
                        vvs[j].1,
                        find_field_definition(dvs, vvs[j].0)->Some_0,
                        allow_nulls,
                    )
                },
        decreases vfields.len() - i,
    {
        let found = find_field(dfields, &vfields[i].0);
        match found {
            Option::None => {
                proof {
                    assert(find_field_definition(dvs, vvs[i as int].0) is None);
                    lemma_spec_validate_fields_iff(vvs, dvs, allow_nulls, vfields.len() as int);
                }
                return false;
            },
            Option::Some(d) => {
                if !is_data_of_data_def(&vfields[i].1, d, allow_nulls) {
                    proof {
                        assert(!spec_validate(
                            vvs[i as int].1,
                            find_field_definition(dvs, vvs[i as int].0)->Some_0,
                            allow_nulls,
                        ));
                        lemma_spec_validate_fields_iff(vvs, dvs, allow_nulls, vfields.len() as int);
                    }
                    return false;
                }
            },
        }
        i = i + 1;
    }
    proof {
        lemma_spec_validate_fields_iff(vvs, dvs, allow_nulls, vfields.len() as int);
    }
    true
}

} // verus!
