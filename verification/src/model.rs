//! The data model: the recursive structural type descriptor
//! (`DataTypeDefinition`), the matching value language (`DataObject`), and
//! the persistent entity records with their paired history records.
//!
//! Each executable type has a mathematical view (`...View`) built from `Seq`
//! and plain values; contracts throughout the library speak of those views.

use vstd::prelude::*;

verus! {

broadcast use vstd::std_specs::vec::group_vec_axioms, vstd::seq::group_seq_axioms;

/// The shape a `DataObject` must have: primitive kinds, arrays of one
/// element shape, and named-field records.
#[derive(Debug, PartialEq)]
pub enum DataTypeDefinition {
    Text,
    LongText,
    Boolean,
    Integer,
    Float,
    NounReference,
    Array(Box<DataTypeDefinition>),
    Custom(CustomDataTypeDefinition),
}

/// The named fields of a record-shaped `DataTypeDefinition`, as a mapping
/// from field name to the field's own shape.
#[derive(Debug, PartialEq)]
pub struct CustomDataTypeDefinition(pub Vec<(String, DataTypeDefinition)>);

/// The mathematical value of a `DataTypeDefinition`.
pub enum DataTypeDefinitionView {
    Text,
    LongText,
    Boolean,
    Integer,
    Float,
    NounReference,
    Array(Box<DataTypeDefinitionView>),
    Custom(Seq<(Seq<char>, DataTypeDefinitionView)>),
}

/// The views of the first `n` named fields of a record-shaped
/// `DataTypeDefinition`.
pub open spec fn type_definition_field_views(
    fields: Vec<(String, DataTypeDefinition)>,
    n: int,
) -> Seq<(Seq<char>, DataTypeDefinitionView)>
    decreases fields, n,
{
    if n <= 0 || n > fields.len() {
        Seq::empty()
    } else {
        type_definition_field_views(fields, n - 1).push(
            (fields[n - 1].0@, type_definition_view(fields[n - 1].1)),
        )
    }
}

/// The mathematical value of a `DataTypeDefinition`, defined by structural
/// recursion.
pub open spec fn type_definition_view(d: DataTypeDefinition) -> DataTypeDefinitionView
    decreases d,
{
    match d {
        DataTypeDefinition::Text => DataTypeDefinitionView::Text,
        DataTypeDefinition::LongText => DataTypeDefinitionView::LongText,
        DataTypeDefinition::Boolean => DataTypeDefinitionView::Boolean,
        DataTypeDefinition::Integer => DataTypeDefinitionView::Integer,
        DataTypeDefinition::Float => DataTypeDefinitionView::Float,
        DataTypeDefinition::NounReference => DataTypeDefinitionView::NounReference,
        DataTypeDefinition::Array(inner) => DataTypeDefinitionView::Array(
            Box::new(type_definition_view(*inner)),
        ),
        DataTypeDefinition::Custom(fields) => DataTypeDefinitionView::Custom(
            type_definition_field_views(fields.0, fields.0.len() as int),
        ),
    }
}

impl View for DataTypeDefinition {
    type V = DataTypeDefinitionView;

    open spec fn view(&self) -> DataTypeDefinitionView {
        type_definition_view(*self)
    }
}

impl DeepView for DataTypeDefinition {
    type V = DataTypeDefinitionView;

    open spec fn deep_view(&self) -> DataTypeDefinitionView {
        self.view()
    }
}

/// The field views of a record-shaped definition are one per field, in
/// order.
pub proof fn lemma_type_definition_field_views(fields: Vec<(String, DataTypeDefinition)>, n: int)
    requires
        0 <= n <= fields.len(),
    ensures
        type_definition_field_views(fields, n).len() == n,
        forall|i: int|
            0 <= i < n ==> type_definition_field_views(fields, n)[i] == (
            fields[i].0@,
            type_definition_view(fields[i].1),
            ),
    decreases n,
{
    if n > 0 {
        lemma_type_definition_field_views(fields, n - 1);
    }
}

/// A data value: the closed variant set matching `DataTypeDefinition`, with
/// an explicit absent/null variant.
///
/// The `Float` variant carries the IEEE 754 bit pattern of the number; the
/// engine never computes with it, it only stores, compares and round-trips
/// it.
#[derive(Debug, PartialEq)]
pub enum DataObject {
    Null,
    Text(String),
    LongText(String),
    Boolean(bool),
    Integer(i64),
    Float(u64),
    NounReference(i64),
    Array(Vec<DataObject>),
    Custom(CustomDataObject),
}

/// The named fields of a record-shaped `DataObject`, as a mapping from field
/// name to the field's value.
#[derive(Debug, PartialEq)]
pub struct CustomDataObject(pub Vec<(String, DataObject)>);

/// The mathematical value of a `DataObject`.
pub enum DataObjectView {
    Null,
    Text(Seq<char>),
    LongText(Seq<char>),
    Boolean(bool),
    Integer(i64),
    Float(u64),
    NounReference(i64),
    Array(Seq<DataObjectView>),
    Custom(Seq<(Seq<char>, DataObjectView)>),
}

/// The views of the first `n` elements of an array-shaped `DataObject`.
pub open spec fn data_object_item_views(items: Vec<DataObject>, n: int) -> Seq<DataObjectView>
    decreases items, n,
{
    if n <= 0 || n > items.len() {
        Seq::empty()
    } else {
        data_object_item_views(items, n - 1).push(data_object_view(items[n - 1]))
    }
}

/// The views of the first `n` named fields of a record-shaped `DataObject`.
pub open spec fn data_object_field_views(fields: Vec<(String, DataObject)>, n: int) -> Seq<
    (Seq<char>, DataObjectView),
>
    decreases fields, n,
{
    if n <= 0 || n > fields.len() {
        Seq::empty()
    } else {
        data_object_field_views(fields, n - 1).push(
            (fields[n - 1].0@, data_object_view(fields[n - 1].1)),
        )
    }
}

/// The mathematical value of a `DataObject`, defined by structural
/// recursion.
pub open spec fn data_object_view(v: DataObject) -> DataObjectView
    decreases v,
{
    match v {
        DataObject::Null => DataObjectView::Null,
        DataObject::Text(s) => DataObjectView::Text(s@),
        DataObject::LongText(s) => DataObjectView::LongText(s@),
        DataObject::Boolean(b) => DataObjectView::Boolean(b),
        DataObject::Integer(i) => DataObjectView::Integer(i),
        DataObject::Float(bits) => DataObjectView::Float(bits),
        DataObject::NounReference(i) => DataObjectView::NounReference(i),
        DataObject::Array(items) => DataObjectView::Array(
            data_object_item_views(items, items.len() as int),
        ),
        DataObject::Custom(fields) => DataObjectView::Custom(
            data_object_field_views(fields.0, fields.0.len() as int),
        ),
    }
}

impl View for DataObject {
    type V = DataObjectView;

    open spec fn view(&self) -> DataObjectView {
        data_object_view(*self)
    }
}

impl DeepView for DataObject {
    type V = DataObjectView;

    open spec fn deep_view(&self) -> DataObjectView {
        self.view()
    }
}

/// The item views of an array-shaped value are one per item, in order.
pub proof fn lemma_data_object_item_views(items: Vec<DataObject>, n: int)
    requires
        0 <= n <= items.len(),
    ensures
        data_object_item_views(items, n).len() == n,
        forall|i: int|
            0 <= i < n ==> data_object_item_views(items, n)[i] == data_object_view(items[i]),
    decreases n,
{
    if n > 0 {
        lemma_data_object_item_views(items, n - 1);
    }
}

/// The field views of a record-shaped value are one per field, in order.
pub proof fn lemma_data_object_field_views(fields: Vec<(String, DataObject)>, n: int)
    requires
        0 <= n <= fields.len(),
    ensures
        data_object_field_views(fields, n).len() == n,
        forall|i: int|
            0 <= i < n ==> data_object_field_views(fields, n)[i] == (
            fields[i].0@,
            data_object_view(fields[i].1),
            ),
    decreases n,
{
    if n > 0 {
        lemma_data_object_field_views(fields, n - 1);
    }
}

/// Whether the field names of a record are distinct, so that the list is
/// a true mapping from field name to field.
pub open spec fn field_names_distinct<V>(fields: Seq<(Seq<char>, V)>) -> bool {
    forall|i: int, j: int|
        0 <= i < j < fields.len() ==> (#[trigger] fields[i]).0 != (#[trigger] fields[j]).0
}

/// Whether every record inside the descriptor has distinct field names.
pub open spec fn type_definition_view_wf(d: DataTypeDefinitionView) -> bool
    decreases d, 0int,
{
    match d {
        DataTypeDefinitionView::Array(inner) => type_definition_view_wf(*inner),
        DataTypeDefinitionView::Custom(fields) => field_names_distinct(fields)
            && type_definition_fields_wf(fields, fields.len() as int),
        _ => true,
    }
}

/// Whether the first `n` field descriptors are themselves well formed.
pub open spec fn type_definition_fields_wf(
    fields: Seq<(Seq<char>, DataTypeDefinitionView)>,
    n: int,
) -> bool
    decreases fields, n,
{
    if n <= 0 || n > fields.len() {
        true
    } else {
        type_definition_fields_wf(fields, n - 1) && type_definition_view_wf(fields[n - 1].1)
    }
}

/// Whether every record inside the value has distinct field names.
pub open spec fn data_object_view_wf(v: DataObjectView) -> bool
    decreases v, 0int,
{
    match v {
        DataObjectView::Array(items) => data_object_items_wf(items, items.len() as int),
        DataObjectView::Custom(fields) => field_names_distinct(fields) && data_object_fields_wf(
            fields,
            fields.len() as int,
        ),
        _ => true,
    }
}

/// Whether the first `n` array elements are themselves well formed.
pub open spec fn data_object_items_wf(items: Seq<DataObjectView>, n: int) -> bool
    decreases items, n,
{
    if n <= 0 || n > items.len() {
        true
    } else {
        data_object_items_wf(items, n - 1) && data_object_view_wf(items[n - 1])
    }
}

/// Whether the first `n` field values are themselves well formed.
pub open spec fn data_object_fields_wf(
    fields: Seq<(Seq<char>, DataObjectView)>,
    n: int,
) -> bool
    decreases fields, n,
{
    if n <= 0 || n > fields.len() {
        true
    } else {
        data_object_fields_wf(fields, n - 1) && data_object_view_wf(fields[n - 1].1)
    }
}

/// Checks that every record inside the descriptor has distinct field
/// names.
pub fn is_well_formed_definition(d: &DataTypeDefinition) -> (r: bool)
    ensures
        r == type_definition_view_wf(d@),
    decreases d,
{
    match d {
        DataTypeDefinition::Array(inner) => is_well_formed_definition(&**inner),
        DataTypeDefinition::Custom(fields) => {
            proof {
                lemma_type_definition_field_views(fields.0, fields.0.len() as int);
            }
            definition_names_distinct(&fields.0) && definition_fields_well_formed(&fields.0)
        },
        _ => true,
    }
}

/// Checks that the field names of a record descriptor are distinct.
fn definition_names_distinct(fields: &Vec<(String, DataTypeDefinition)>) -> (r: bool)
    ensures
        r == field_names_distinct(type_definition_field_views(*fields, fields.len() as int)),
{
    let ghost fvs = type_definition_field_views(*fields, fields.len() as int);
    proof {
        lemma_type_definition_field_views(*fields, fields.len() as int);
    }
    let mut i: usize = 0;
    while i < fields.len()
        invariant
            0 <= i <= fields.len(),
            fvs == type_definition_field_views(*fields, fields.len() as int),
            fvs.len() == fields.len(),
            forall|k: int|
                0 <= k < fields.len() ==> (#[trigger] fvs[k]).0 == fields[k].0@,
            forall|a: int, b: int|
                0 <= a < b < fields.len() && a < i ==> (#[trigger] fvs[a]).0 != (
                #[trigger] fvs[b]).0,
        decreases fields.len() - i,
    {
        let mut j: usize = i + 1;
        while j < fields.len()
            invariant
                0 <= i < j <= fields.len(),
                fvs == type_definition_field_views(*fields, fields.len() as int),
                fvs.len() == fields.len(),
                forall|k: int|
                    0 <= k < fields.len() ==> (#[trigger] fvs[k]).0 == fields[k].0@,
                forall|b: int| i < b < j ==> fvs[i as int].0 != (#[trigger] fvs[b]).0,
            decreases fields.len() - j,
        {
            if fields[i].0 == fields[j].0 {
                proof {
                    assert(fvs[i as int].0 == fvs[j as int].0);
                    assert(!field_names_distinct(fvs));
                }
                return false;
            }
            j = j + 1;
        }
        i = i + 1;
    }
    true
}

/// Checks that every field descriptor of a record is well formed.
fn definition_fields_well_formed(fields: &Vec<(String, DataTypeDefinition)>) -> (r: bool)
    ensures
        r == type_definition_fields_wf(
            type_definition_field_views(*fields, fields.len() as int),
            fields.len() as int,
        ),
    decreases fields,
{
    let ghost fvs = type_definition_field_views(*fields, fields.len() as int);
    proof {
        lemma_type_definition_field_views(*fields, fields.len() as int);
    }
    let mut i: usize = 0;
    while i < fields.len()
        invariant
            0 <= i <= fields.len(),
            fvs == type_definition_field_views(*fields, fields.len() as int),
            fvs.len() == fields.len(),
            forall|k: int|
                0 <= k < fields.len() ==> #[trigger] fvs[k] == (
                fields[k].0@,
                type_definition_view(fields[k].1),
                ),
            type_definition_fields_wf(fvs, i as int),
        decreases fields.len() - i,
    {
        if !is_well_formed_definition(&fields[i].1) {
            proof {
                lemma_type_definition_fields_wf_break(fvs, i as int, fields.len() as int);
            }
            return false;
        }
        i = i + 1;
    }
    true
}

/// A list of field descriptors with one malformed member is not well
/// formed.
proof fn lemma_type_definition_fields_wf_break(
    fields: Seq<(Seq<char>, DataTypeDefinitionView)>,
    i: int,
    n: int,
)
    requires
        0 <= i < n <= fields.len(),
        !type_definition_view_wf(fields[i].1),
    ensures
        !type_definition_fields_wf(fields, n),
    decreases n,
{
    if i < n - 1 {
        lemma_type_definition_fields_wf_break(fields, i, n - 1);
    }
}

/// Checks that every record inside the value has distinct field names.
pub fn is_well_formed_data_object(v: &DataObject) -> (r: bool)
    ensures
        r == data_object_view_wf(v@),
    decreases v,
{
    match v {
        DataObject::Array(items) => {
            proof {
                lemma_data_object_item_views(*items, items.len() as int);
            }
            data_object_items_well_formed(items)
        },
        DataObject::Custom(fields) => {
            proof {
                lemma_data_object_field_views(fields.0, fields.0.len() as int);
            }
            data_object_names_distinct(&fields.0) && data_object_fields_well_formed(&fields.0)
        },
        _ => true,
    }
}

/// Checks that every element of an array value is well formed.
fn data_object_items_well_formed(items: &Vec<DataObject>) -> (r: bool)
    ensures
        r == data_object_items_wf(
            data_object_item_views(*items, items.len() as int),
            items.len() as int,
        ),
    decreases items,
{
    let ghost ivs = data_object_item_views(*items, items.len() as int);
    proof {
        lemma_data_object_item_views(*items, items.len() as int);
    }
    let mut i: usize = 0;
    while i < items.len()
        invariant
            0 <= i <= items.len(),
            ivs == data_object_item_views(*items, items.len() as int),
            ivs.len() == items.len(),
            forall|k: int|
                0 <= k < items.len() ==> #[trigger] ivs[k] == data_object_view(items[k]),
            data_object_items_wf(ivs, i as int),
        decreases items.len() - i,
    {
        if !is_well_formed_data_object(&items[i]) {
            proof {
                lemma_data_object_items_wf_break(ivs, i as int, items.len() as int);
            }
            return false;
        }
        i = i + 1;
    }
    true
}

/// A list of values with one malformed member is not well formed.
proof fn lemma_data_object_items_wf_break(items: Seq<DataObjectView>, i: int, n: int)
    requires
        0 <= i < n <= items.len(),
        !data_object_view_wf(items[i]),
    ensures
        !data_object_items_wf(items, n),
    decreases n,
{
    if i < n - 1 {
        lemma_data_object_items_wf_break(items, i, n - 1);
    }
}

/// Checks that the field names of a record value are distinct.
fn data_object_names_distinct(fields: &Vec<(String, DataObject)>) -> (r: bool)
    ensures
        r == field_names_distinct(data_object_field_views(*fields, fields.len() as int)),
{
    let ghost fvs = data_object_field_views(*fields, fields.len() as int);
    proof {
        lemma_data_object_field_views(*fields, fields.len() as int);
    }
    let mut i: usize = 0;
    while i < fields.len()
        invariant
            0 <= i <= fields.len(),
            fvs == data_object_field_views(*fields, fields.len() as int),
            fvs.len() == fields.len(),
            forall|k: int|
                0 <= k < fields.len() ==> (#[trigger] fvs[k]).0 == fields[k].0@,
            forall|a: int, b: int|
                0 <= a < b < fields.len() && a < i ==> (#[trigger] fvs[a]).0 != (
                #[trigger] fvs[b]).0,
        decreases fields.len() - i,
    {
        let mut j: usize = i + 1;
        while j < fields.len()
            invariant
                0 <= i < j <= fields.len(),
                fvs == data_object_field_views(*fields, fields.len() as int),
                fvs.len() == fields.len(),
                forall|k: int|
                    0 <= k < fields.len() ==> (#[trigger] fvs[k]).0 == fields[k].0@,
                forall|b: int| i < b < j ==> fvs[i as int].0 != (#[trigger] fvs[b]).0,
            decreases fields.len() - j,
        {
            if fields[i].0 == fields[j].0 {
                proof {
                    assert(fvs[i as int].0 == fvs[j as int].0);
                    assert(!field_names_distinct(fvs));
                }
                return false;
            }
            j = j + 1;
        }
        i = i + 1;
    }
    true
}

/// Checks that every field value of a record is well formed.
fn data_object_fields_well_formed(fields: &Vec<(String, DataObject)>) -> (r: bool)
    ensures
        r == data_object_fields_wf(
            data_object_field_views(*fields, fields.len() as int),
            fields.len() as int,
        ),
    decreases fields,
{
    let ghost fvs = data_object_field_views(*fields, fields.len() as int);
    proof {
        lemma_data_object_field_views(*fields, fields.len() as int);
    }
    let mut i: usize = 0;
    while i < fields.len()
        invariant
            0 <= i <= fields.len(),
            fvs == data_object_field_views(*fields, fields.len() as int),
            fvs.len() == fields.len(),
            forall|k: int|
                0 <= k < fields.len() ==> #[trigger] fvs[k] == (
                fields[k].0@,
                data_object_view(fields[k].1),
                ),
            data_object_fields_wf(fvs, i as int),
        decreases fields.len() - i,
    {
        if !is_well_formed_data_object(&fields[i].1) {
            proof {
                lemma_data_object_fields_wf_break(fvs, i as int, fields.len() as int);
            }
            return false;
        }
        i = i + 1;
    }
    true
}

/// A list of field values with one malformed member is not well formed.
proof fn lemma_data_object_fields_wf_break(
    fields: Seq<(Seq<char>, DataObjectView)>,
    i: int,
    n: int,
)
    requires
        0 <= i < n <= fields.len(),
        !data_object_view_wf(fields[i].1),
    ensures
        !data_object_fields_wf(fields, n),
    decreases n,
{
    if i < n - 1 {
        lemma_data_object_fields_wf_break(fields, i, n - 1);
    }
}

impl Clone for DataTypeDefinition {
    /// A clone has the same mathematical value.
    fn clone(&self) -> (r: Self)
        ensures
            r@ == self@,
    {
        clone_type_definition(self)
    }
}

impl Clone for CustomDataTypeDefinition {
    /// A clone has the same mathematical value.
    fn clone(&self) -> (r: Self)
        ensures
            type_definition_view(DataTypeDefinition::Custom(r)) == type_definition_view(
                DataTypeDefinition::Custom(*self),
            ),
    {
        CustomDataTypeDefinition(clone_type_definition_fields(&self.0))
    }
}

/// Clones a structural type descriptor, preserving its mathematical value.
fn clone_type_definition(d: &DataTypeDefinition) -> (r: DataTypeDefinition)
    ensures
        r@ == d@,
    decreases d,
{
    match d {
        DataTypeDefinition::Text => DataTypeDefinition::Text,
        DataTypeDefinition::LongText => DataTypeDefinition::LongText,
        DataTypeDefinition::Boolean => DataTypeDefinition::Boolean,
        DataTypeDefinition::Integer => DataTypeDefinition::Integer,
        DataTypeDefinition::Float => DataTypeDefinition::Float,
        DataTypeDefinition::NounReference => DataTypeDefinition::NounReference,
        DataTypeDefinition::Array(inner) => DataTypeDefinition::Array(
            Box::new(clone_type_definition(inner)),
        ),
        DataTypeDefinition::Custom(fields) => DataTypeDefinition::Custom(
            CustomDataTypeDefinition(clone_type_definition_fields(&fields.0)),
        ),
    }
}

/// Clones the named fields of a record-shaped type descriptor.
fn clone_type_definition_fields(fields: &Vec<(String, DataTypeDefinition)>) -> (r: Vec<
    (String, DataTypeDefinition),
>)
    ensures
        type_definition_field_views(r, r.len() as int) == type_definition_field_views(
            *fields,
            fields.len() as int,
        ),
    decreases fields,
{
    let mut out: Vec<(String, DataTypeDefinition)> = Vec::new();
    let mut i: usize = 0;
    while i < fields.len()
        invariant
            0 <= i <= fields.len(),
            out.len() == i,
            forall|j: int|
                0 <= j < i ==> out[j].0@ == fields[j].0@ && type_definition_view(out[j].1)
                    == type_definition_view(fields[j].1),
        decreases fields.len() - i,
    {
        let name = fields[i].0.clone();
        let value = clone_type_definition(&fields[i].1);
        out.push((name, value));
        i = i + 1;
    }
    proof {
        lemma_type_definition_field_views(out, out.len() as int);
        lemma_type_definition_field_views(*fields, fields.len() as int);
        assert(type_definition_field_views(out, out.len() as int)
            =~= type_definition_field_views(*fields, fields.len() as int));
    }
    out
}

impl Clone for DataObject {
    /// A clone has the same mathematical value.
    fn clone(&self) -> (r: Self)
        ensures
            r@ == self@,
    {
        clone_data_object(self)
    }
}

impl Clone for CustomDataObject {
    /// A clone has the same mathematical value.
    fn clone(&self) -> (r: Self)
        ensures
            data_object_view(DataObject::Custom(r)) == data_object_view(
                DataObject::Custom(*self),
            ),
    {
        CustomDataObject(clone_data_object_fields(&self.0))
    }
}

/// Clones a data value, preserving its mathematical value.
fn clone_data_object(v: &DataObject) -> (r: DataObject)
    ensures
        r@ == v@,
    decreases v,
{
    match v {
        DataObject::Null => DataObject::Null,
        DataObject::Text(s) => DataObject::Text(s.clone()),
        DataObject::LongText(s) => DataObject::LongText(s.clone()),
        DataObject::Boolean(b) => DataObject::Boolean(*b),
        DataObject::Integer(i) => DataObject::Integer(*i),
        DataObject::Float(bits) => DataObject::Float(*bits),
        DataObject::NounReference(i) => DataObject::NounReference(*i),
        DataObject::Array(items) => DataObject::Array(clone_data_object_list(items)),
        DataObject::Custom(fields) => DataObject::Custom(
            CustomDataObject(clone_data_object_fields(&fields.0)),
        ),
    }
}

/// Clones the elements of an array-shaped data value.
fn clone_data_object_list(items: &Vec<DataObject>) -> (r: Vec<DataObject>)
    ensures
        data_object_item_views(r, r.len() as int) == data_object_item_views(
            *items,
            items.len() as int,
        ),
    decreases items,
{
    let mut out: Vec<DataObject> = Vec::new();
    let mut i: usize = 0;
    while i < items.len()
        invariant
            0 <= i <= items.len(),
            out.len() == i,
            forall|j: int|
                0 <= j < i ==> data_object_view(out[j]) == data_object_view(items[j]),
        decreases items.len() - i,
    {
        let item = clone_data_object(&items[i]);
        out.push(item);
        i = i + 1;
    }
    proof {
        lemma_data_object_item_views(out, out.len() as int);
        lemma_data_object_item_views(*items, items.len() as int);
        assert(data_object_item_views(out, out.len() as int) =~= data_object_item_views(
            *items,
            items.len() as int,
        ));
    }
    out
}

/// Clones the named fields of a record-shaped data value.
fn clone_data_object_fields(fields: &Vec<(String, DataObject)>) -> (r: Vec<(String, DataObject)>)
    ensures
        data_object_field_views(r, r.len() as int) == data_object_field_views(
            *fields,
            fields.len() as int,
        ),
    decreases fields,
{
    let mut out: Vec<(String, DataObject)> = Vec::new();
    let mut i: usize = 0;
    while i < fields.len()
        invariant
            0 <= i <= fields.len(),
            out.len() == i,
            forall|j: int|
                0 <= j < i ==> out[j].0@ == fields[j].0@ && data_object_view(out[j].1)
                    == data_object_view(fields[j].1),
        decreases fields.len() - i,
    {
        let name = fields[i].0.clone();
        let value = clone_data_object(&fields[i].1);
        out.push((name, value));
        i = i + 1;
    }
    proof {
        lemma_data_object_field_views(out, out.len() as int);
        lemma_data_object_field_views(*fields, fields.len() as int);
        assert(data_object_field_views(out, out.len() as int) =~= data_object_field_views(
            *fields,
            fields.len() as int,
        ));
    }
    out
}


/// A category of nouns, identified by its unique `noun_type` name.
#[derive(Debug, PartialEq)]
pub struct NounType {
    pub noun_type_id: Option<i64>,
    pub last_changed: Option<i64>,
    pub noun_type: String,
    pub metadata: String,
}

/// The mathematical value of a `NounType`.
pub struct NounTypeView {
    pub noun_type_id: Option<i64>,
    pub last_changed: Option<i64>,
    pub noun_type: Seq<char>,
    pub metadata: Seq<char>,
}

impl View for NounType {
    type V = NounTypeView;

    open spec fn view(&self) -> NounTypeView {
        NounTypeView {
            noun_type_id: self.noun_type_id,
            last_changed: self.last_changed,
            noun_type: self.noun_type@,
            metadata: self.metadata@,
        }
    }
}

impl DeepView for NounType {
    type V = NounTypeView;

    open spec fn deep_view(&self) -> NounTypeView {
        self.view()
    }
}

impl Clone for NounType {
    /// A clone has the same mathematical value.
    fn clone(&self) -> (r: Self)
        ensures
            r@ == self@,
    {
        NounType {
            noun_type_id: self.noun_type_id,
            last_changed: self.last_changed,
            noun_type: self.noun_type.clone(),
            metadata: self.metadata.clone(),
        }
    }
}

/// One history row for a `NounType` mutation: a textual patch per field,
/// from the previous value (empty on creation) to the new one.
#[derive(Debug, PartialEq)]
pub struct NounTypeHistory {
    pub noun_type_id: i64,
    pub change_date: Option<i64>,
    pub diff_noun_type: String,
    pub diff_metadata: String,
}

/// The mathematical value of a `NounTypeHistory`.
pub struct NounTypeHistoryView {
    pub noun_type_id: i64,
    pub change_date: Option<i64>,
    pub diff_noun_type: Seq<char>,
    pub diff_metadata: Seq<char>,
}

impl View for NounTypeHistory {
    type V = NounTypeHistoryView;

    open spec fn view(&self) -> NounTypeHistoryView {
        NounTypeHistoryView {
            noun_type_id: self.noun_type_id,
            change_date: self.change_date,
            diff_noun_type: self.diff_noun_type@,
            diff_metadata: self.diff_metadata@,
        }
    }
}

impl DeepView for NounTypeHistory {
    type V = NounTypeHistoryView;

    open spec fn deep_view(&self) -> NounTypeHistoryView {
        self.view()
    }
}

impl Clone for NounTypeHistory {
    /// A clone has the same mathematical value.
    fn clone(&self) -> (r: Self)
        ensures
            r@ == self@,
    {
        NounTypeHistory {
            noun_type_id: self.noun_type_id,
            change_date: self.change_date,
            diff_noun_type: self.diff_noun_type.clone(),
            diff_metadata: self.diff_metadata.clone(),
        }
    }
}

/// A named, versioned structural schema for attribute values. Rows are
/// append-only: an update inserts a new row with the next version.
#[derive(Debug, PartialEq)]
pub struct DataType {
    pub name: String,
    pub system_defined: bool,
    pub definition: DataTypeDefinition,
    pub version: Option<i64>,
    pub change_date: Option<i64>,
}

/// The mathematical value of a `DataType`.
pub struct DataTypeView {
    pub name: Seq<char>,
    pub system_defined: bool,
    pub definition: DataTypeDefinitionView,
    pub version: Option<i64>,
    pub change_date: Option<i64>,
}

impl View for DataType {
    type V = DataTypeView;

    open spec fn view(&self) -> DataTypeView {
        DataTypeView {
            name: self.name@,
            system_defined: self.system_defined,
            definition: self.definition@,
            version: self.version,
            change_date: self.change_date,
        }
    }
}

impl DeepView for DataType {
    type V = DataTypeView;

    open spec fn deep_view(&self) -> DataTypeView {
        self.view()
    }
}

impl Clone for DataType {
    /// A clone has the same mathematical value.
    fn clone(&self) -> (r: Self)
        ensures
            r@ == self@,
    {
        DataType {
            name: self.name.clone(),
            system_defined: self.system_defined,
            definition: self.definition.clone(),
            version: self.version,
            change_date: self.change_date,
        }
    }
}

/// A named kind of attribute: which data type shapes its values and whether
/// one parent may hold more than one attribute of this kind.
#[derive(Debug, PartialEq)]
pub struct AttributeType {
    pub attribute_type_id: Option<i64>,
    pub last_changed: Option<i64>,
    pub attribute_name: String,
    pub data_type: String,
    pub multiple_allowed: bool,
    pub metadata: String,
}

/// The mathematical value of an `AttributeType`.
pub struct AttributeTypeView {
    pub attribute_type_id: Option<i64>,
    pub last_changed: Option<i64>,
    pub attribute_name: Seq<char>,
    pub data_type: Seq<char>,
    pub multiple_allowed: bool,
    pub metadata: Seq<char>,
}

impl View for AttributeType {
    type V = AttributeTypeView;

    open spec fn view(&self) -> AttributeTypeView {
        AttributeTypeView {
            attribute_type_id: self.attribute_type_id,
            last_changed: self.last_changed,
            attribute_name: self.attribute_name@,
            data_type: self.data_type@,
            multiple_allowed: self.multiple_allowed,
            metadata: self.metadata@,
        }
    }
}

impl DeepView for AttributeType {
    type V = AttributeTypeView;

    open spec fn deep_view(&self) -> AttributeTypeView {
        self.view()
    }
}

impl Clone for AttributeType {
    /// A clone has the same mathematical value.
    fn clone(&self) -> (r: Self)
        ensures
            r@ == self@,
    {
        AttributeType {
            attribute_type_id: self.attribute_type_id,
            last_changed: self.last_changed,
            attribute_name: self.attribute_name.clone(),
            data_type: self.data_type.clone(),
            multiple_allowed: self.multiple_allowed,
            metadata: self.metadata.clone(),
        }
    }
}

/// One history row for an `AttributeType` mutation.
#[derive(Debug, PartialEq)]
pub struct AttributeTypeHistory {
    pub attribute_type_id: i64,
    pub change_date: Option<i64>,
    pub diff_attribute_name: String,
    pub diff_multiple_allowed: String,
    pub diff_metadata: String,
}

/// The mathematical value of an `AttributeTypeHistory`.
pub struct AttributeTypeHistoryView {
    pub attribute_type_id: i64,
    pub change_date: Option<i64>,
    pub diff_attribute_name: Seq<char>,
    pub diff_multiple_allowed: Seq<char>,
    pub diff_metadata: Seq<char>,
}

impl View for AttributeTypeHistory {
    type V = AttributeTypeHistoryView;

    open spec fn view(&self) -> AttributeTypeHistoryView {
        AttributeTypeHistoryView {
            attribute_type_id: self.attribute_type_id,
            change_date: self.change_date,
            diff_attribute_name: self.diff_attribute_name@,
            diff_multiple_allowed: self.diff_multiple_allowed@,
            diff_metadata: self.diff_metadata@,
        }
    }
}

impl DeepView for AttributeTypeHistory {
    type V = AttributeTypeHistoryView;

    open spec fn deep_view(&self) -> AttributeTypeHistoryView {
        self.view()
    }
}

impl Clone for AttributeTypeHistory {
    /// A clone has the same mathematical value.
    fn clone(&self) -> (r: Self)
        ensures
            r@ == self@,
    {
        AttributeTypeHistory {
            attribute_type_id: self.attribute_type_id,
            change_date: self.change_date,
            diff_attribute_name: self.diff_attribute_name.clone(),
            diff_multiple_allowed: self.diff_multiple_allowed.clone(),
            diff_metadata: self.diff_metadata.clone(),
        }
    }
}

/// A schema-validated value attached to exactly one parent (a noun or
/// another attribute), pinned to one version of its data type.
///
/// `children` is transient: it is `None` as stored and is filled by tree
/// population.
#[derive(Debug, PartialEq)]
pub struct Attribute {
    pub attribute_id: Option<i64>,
    pub last_changed: Option<i64>,
    pub attribute_type_id: i64,
    pub parent_noun_id: Option<i64>,
    pub parent_attribute_id: Option<i64>,
    pub data: DataObject,
    pub data_type_version: i64,
    pub metadata: String,
    pub children: Option<Vec<Attribute>>,
}

/// The mathematical value of an `Attribute`.
pub struct AttributeView {
    pub attribute_id: Option<i64>,
    pub last_changed: Option<i64>,
    pub attribute_type_id: i64,
    pub parent_noun_id: Option<i64>,
    pub parent_attribute_id: Option<i64>,
    pub data: DataObjectView,
    pub data_type_version: i64,
    pub metadata: Seq<char>,
    pub children: Option<Seq<AttributeView>>,
}

/// The views of the first `n` attributes of a list.
pub open spec fn attribute_views(items: Vec<Attribute>, n: int) -> Seq<AttributeView>
    decreases items, n,
{
    if n <= 0 || n > items.len() {
        Seq::empty()
    } else {
        attribute_views(items, n - 1).push(attribute_view(items[n - 1]))
    }
}

/// The mathematical value of an `Attribute`, defined by recursion over its
/// populated children.
pub open spec fn attribute_view(a: Attribute) -> AttributeView
    decreases a,
{
    AttributeView {
        attribute_id: a.attribute_id,
        last_changed: a.last_changed,
        attribute_type_id: a.attribute_type_id,
        parent_noun_id: a.parent_noun_id,
        parent_attribute_id: a.parent_attribute_id,
        data: data_object_view(a.data),
        data_type_version: a.data_type_version,
        metadata: a.metadata@,
        children: match a.children {
            Option::None => Option::None,
            Option::Some(cs) => Option::Some(attribute_views(cs, cs.len() as int)),
        },
    }
}

impl View for Attribute {
    type V = AttributeView;

    open spec fn view(&self) -> AttributeView {
        attribute_view(*self)
    }
}

impl DeepView for Attribute {
    type V = AttributeView;

    open spec fn deep_view(&self) -> AttributeView {
        self.view()
    }
}

/// The views of an attribute list are one per attribute, in order.
pub proof fn lemma_attribute_views(items: Vec<Attribute>, n: int)
    requires
        0 <= n <= items.len(),
    ensures
        attribute_views(items, n).len() == n,
        forall|i: int| 0 <= i < n ==> attribute_views(items, n)[i] == attribute_view(items[i]),
    decreases n,
{
    if n > 0 {
        lemma_attribute_views(items, n - 1);
    }
}

impl Clone for Attribute {
    /// A clone has the same mathematical value.
    fn clone(&self) -> (r: Self)
        ensures
            r@ == self@,
    {
        clone_attribute(self)
    }
}

/// Clones an attribute together with its populated children, preserving its
/// mathematical value.
fn clone_attribute(a: &Attribute) -> (r: Attribute)
    ensures
        r@ == a@,
    decreases a,
{
    let children: Option<Vec<Attribute>> = match &a.children {
        Option::None => Option::None,
        Option::Some(cs) => Option::Some(clone_attribute_list(cs)),
    };
    Attribute {
        attribute_id: a.attribute_id,
        last_changed: a.last_changed,
        attribute_type_id: a.attribute_type_id,
        parent_noun_id: a.parent_noun_id,
        parent_attribute_id: a.parent_attribute_id,
        data: clone_data_object(&a.data),
        data_type_version: a.data_type_version,
        metadata: a.metadata.clone(),
        children,
    }
}

/// Clones a list of attributes, preserving the mathematical value of each.
fn clone_attribute_list(items: &Vec<Attribute>) -> (r: Vec<Attribute>)
    ensures
        attribute_views(r, r.len() as int) == attribute_views(*items, items.len() as int),
        r.len() == items.len(),
    decreases items,
{
    let mut out: Vec<Attribute> = Vec::new();
    let mut i: usize = 0;
    while i < items.len()
        invariant
            0 <= i <= items.len(),
            out.len() == i,
            forall|j: int| 0 <= j < i ==> attribute_view(out[j]) == attribute_view(items[j]),
        decreases items.len() - i,
    {
        let item = clone_attribute(&items[i]);
        out.push(item);
        i = i + 1;
    }
    proof {
        lemma_attribute_views(out, out.len() as int);
        lemma_attribute_views(*items, items.len() as int);
        assert(attribute_views(out, out.len() as int) =~= attribute_views(
            *items,
            items.len() as int,
        ));
    }
    out
}

/// One history row for an `Attribute` mutation.
#[derive(Debug, PartialEq)]
pub struct AttributeHistory {
    pub attribute_id: i64,
    pub change_date: Option<i64>,
    pub diff_data: String,
    pub diff_data_type_version: String,
    pub diff_metadata: String,
}

/// The mathematical value of an `AttributeHistory`.
pub struct AttributeHistoryView {
    pub attribute_id: i64,
    pub change_date: Option<i64>,
    pub diff_data: Seq<char>,
    pub diff_data_type_version: Seq<char>,
    pub diff_metadata: Seq<char>,
}

impl View for AttributeHistory {
    type V = AttributeHistoryView;

    open spec fn view(&self) -> AttributeHistoryView {
        AttributeHistoryView {
            attribute_id: self.attribute_id,
            change_date: self.change_date,
            diff_data: self.diff_data@,
            diff_data_type_version: self.diff_data_type_version@,
            diff_metadata: self.diff_metadata@,
        }
    }
}

impl DeepView for AttributeHistory {
    type V = AttributeHistoryView;

    open spec fn deep_view(&self) -> AttributeHistoryView {
        self.view()
    }
}

impl Clone for AttributeHistory {
    /// A clone has the same mathematical value.
    fn clone(&self) -> (r: Self)
        ensures
            r@ == self@,
    {
        AttributeHistory {
            attribute_id: self.attribute_id,
            change_date: self.change_date,
            diff_data: self.diff_data.clone(),
            diff_data_type_version: self.diff_data_type_version.clone(),
            diff_metadata: self.diff_metadata.clone(),
        }
    }
}

/// A user-defined entity instance, categorized by a noun type.
///
/// `attributes` is transient: it is `None` as stored and is filled by tree
/// population.
#[derive(Debug, PartialEq)]
pub struct Noun {
    pub noun_id: Option<i64>,
    pub last_changed: Option<i64>,
    pub name: String,
    pub noun_type: String,
    pub metadata: String,
    pub attributes: Option<Vec<Attribute>>,
}

/// The mathematical value of a `Noun`.
pub struct NounView {
    pub noun_id: Option<i64>,
    pub last_changed: Option<i64>,
    pub name: Seq<char>,
    pub noun_type: Seq<char>,
    pub metadata: Seq<char>,
    pub attributes: Option<Seq<AttributeView>>,
}

impl View for Noun {
    type V = NounView;

    open spec fn view(&self) -> NounView {
        NounView {
            noun_id: self.noun_id,
            last_changed: self.last_changed,
            name: self.name@,
            noun_type: self.noun_type@,
            metadata: self.metadata@,
            attributes: match self.attributes {
                Option::None => Option::None,
                Option::Some(cs) => Option::Some(attribute_views(cs, cs.len() as int)),
            },
        }
    }
}

impl DeepView for Noun {
    type V = NounView;

    open spec fn deep_view(&self) -> NounView {
        self.view()
    }
}

impl Clone for Noun {
    /// A clone has the same mathematical value.
    fn clone(&self) -> (r: Self)
        ensures
            r@ == self@,
    {
        let attributes: Option<Vec<Attribute>> = match &self.attributes {
            Option::None => Option::None,
            Option::Some(cs) => Option::Some(clone_attribute_list(cs)),
        };
        Noun {
            noun_id: self.noun_id,
            last_changed: self.last_changed,
            name: self.name.clone(),
            noun_type: self.noun_type.clone(),
            metadata: self.metadata.clone(),
            attributes,
        }
    }
}

/// One history row for a `Noun` mutation.
#[derive(Debug, PartialEq)]
pub struct NounHistory {
    pub noun_id: i64,
    pub change_date: Option<i64>,
    pub diff_name: String,
    pub diff_noun_type: String,
    pub diff_metadata: String,
}

/// The mathematical value of a `NounHistory`.
pub struct NounHistoryView {
    pub noun_id: i64,
    pub change_date: Option<i64>,
    pub diff_name: Seq<char>,
    pub diff_noun_type: Seq<char>,
    pub diff_metadata: Seq<char>,
}

impl View for NounHistory {
    type V = NounHistoryView;

    open spec fn view(&self) -> NounHistoryView {
        NounHistoryView {
            noun_id: self.noun_id,
            change_date: self.change_date,
            diff_name: self.diff_name@,
            diff_noun_type: self.diff_noun_type@,
            diff_metadata: self.diff_metadata@,
        }
    }
}

impl DeepView for NounHistory {
    type V = NounHistoryView;

    open spec fn deep_view(&self) -> NounHistoryView {
        self.view()
    }
}

impl Clone for NounHistory {
    /// A clone has the same mathematical value.
    fn clone(&self) -> (r: Self)
        ensures
            r@ == self@,
    {
        NounHistory {
            noun_id: self.noun_id,
            change_date: self.change_date,
            diff_name: self.diff_name.clone(),
            diff_noun_type: self.diff_noun_type.clone(),
            diff_metadata: self.diff_metadata.clone(),
        }
    }
}

} // verus!
