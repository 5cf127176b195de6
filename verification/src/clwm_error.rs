//! The error taxonomy of the world engine: one distinct kind per integrity
//! check, so that callers can discriminate failures.

use vstd::prelude::*;

verus! {

/// Every way an engine operation can be refused. Each integrity check
/// failure aborts the enclosing operation and surfaces one of these kinds
/// unchanged; no operation ever reports a generic failure for a condition
/// listed here.
#[derive(Debug, PartialEq, Eq)]
pub enum ClwmError {
    /// The referenced noun does not exist.
    NounNotFound,
    /// The referenced noun type does not exist.
    NounTypeNotFound,
    /// A noun type with this name already exists.
    NounTypeAlreadyExists { noun_type: String },
    /// An update was requested for a noun record carrying no id.
    NounHasNoId,
    /// An update was requested for a noun type record carrying no id.
    NounTypeHasNoId,
    /// A data type with this name already exists.
    DataTypeAlreadyExists { data_type: String },
    /// The referenced data type does not exist.
    DataTypeNotFound,
    /// An attribute type with this name already exists.
    AttributeTypeAlreadyExists { attribute_type: String },
    /// An update was requested for an attribute type record carrying no id.
    AttributeTypeHasNoId,
    /// The referenced attribute type does not exist.
    AttributeTypeNotFound,
    /// An attribute was given neither a parent noun nor a parent attribute.
    ParentNounOrParentAttributeIdMustBeSet,
    /// An attribute was given both a parent noun and a parent attribute.
    ParentNounAndParentAttributeIdMustNotBeSet,
    /// The referenced attribute does not exist.
    AttributeNotFound,
    /// The attribute type forbids a second attribute under the same parent.
    AttributeTypeDoesNotAllowMultipleAttributes { attribute_type: String },
    /// An update was requested for an attribute record carrying no id.
    AttributeHasNoId,
    /// No row of the named data type carries the requested version.
    DataTypeVersionNotFound,
    /// The value does not validate against the data type definition.
    DataDoesNotMatchDataTypeDefinition,
    /// An attribute update tried to change the attribute type id.
    AttributeTypeIdDoesNotMatch,
    /// An attribute update tried to change the parent noun id.
    ParentNounIdDoesNotMatch,
    /// An attribute update tried to change the parent attribute id.
    ParentAttributeIdDoesNotMatch,
}

impl ClwmError {
    /// A one-line human-readable message for this error kind.
    pub fn message(&self) -> String {
        match self {
            ClwmError::NounNotFound => "the provided noun could not be found".to_owned(),
            ClwmError::NounTypeNotFound => "the provided noun type could not be found".to_owned(),
            ClwmError::NounTypeAlreadyExists { noun_type: _ } => {
                "the noun type already exists".to_owned()
            },
            ClwmError::NounHasNoId => "the provided noun has no id".to_owned(),
            ClwmError::NounTypeHasNoId => "the provided noun type has no id".to_owned(),
            ClwmError::DataTypeAlreadyExists { data_type: _ } => {
                "the data type already exists".to_owned()
            },
            ClwmError::DataTypeNotFound => "the provided data type could not be found".to_owned(),
            ClwmError::AttributeTypeAlreadyExists { attribute_type: _ } => {
                "the attribute type already exists".to_owned()
            },
            ClwmError::AttributeTypeHasNoId => {
                "the provided attribute type has no id".to_owned()
            },
            ClwmError::AttributeTypeNotFound => {
                "the provided attribute type could not be found".to_owned()
            },
            ClwmError::ParentNounOrParentAttributeIdMustBeSet => {
                "the parent noun id or parent attribute id must be set".to_owned()
            },
            ClwmError::ParentNounAndParentAttributeIdMustNotBeSet => {
                "the parent noun id and parent attribute id must not both be set".to_owned()
            },
            ClwmError::AttributeNotFound => "the provided attribute could not be found".to_owned(),
            ClwmError::AttributeTypeDoesNotAllowMultipleAttributes { attribute_type: _ } => {
                "the attribute type does not allow multiple attributes".to_owned()
            },
            ClwmError::AttributeHasNoId => "the provided attribute has no id".to_owned(),
            ClwmError::DataTypeVersionNotFound => {
                "the provided data type version could not be found".to_owned()
            },
            ClwmError::DataDoesNotMatchDataTypeDefinition => {
                "the provided data does not match the data type definition".to_owned()
            },
            ClwmError::AttributeTypeIdDoesNotMatch => {
                "the provided attribute type id does not match the attribute type id of the attribute".to_owned()
            },
            ClwmError::ParentNounIdDoesNotMatch => {
                "the provided parent noun id does not match the parent noun id of the attribute".to_owned()
            },
            ClwmError::ParentAttributeIdDoesNotMatch => {
                "the provided parent attribute id does not match the parent attribute id of the attribute".to_owned()
            },
        }
    }
}

} // verus!
