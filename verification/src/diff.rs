//! Textual patches for the change history, and the builders of the
//! history records that every mutation writes.

use vstd::prelude::*;

use crate::codec::dec_digits_signed;
use crate::codec::i64_to_string;
use crate::codec::ser_value;
use crate::codec::serialize_data_object;
use crate::model::Attribute;
use crate::model::AttributeHistory;
use crate::model::AttributeType;
use crate::model::AttributeTypeHistory;
use crate::model::Noun;
use crate::model::NounHistory;
use crate::model::NounType;
use crate::model::NounTypeHistory;

verus! {

/// The unified-diff patch that transforms `original` into `modified`. The
/// patch is a function of the two texts alone.
pub uninterp spec fn patch_of(original: Seq<char>, modified: Seq<char>) -> Seq<char>;

/// Relies on diffy::create_patch: the patch between two texts, computed by
/// a deterministic diff of the two texts alone, rendered in unified-diff
/// form by the patch type's Display implementation.
#[verifier::external_body]
fn create_patch_text(original: &str, modified: &str) -> (r: String)
    ensures
        r@ == patch_of(original@, modified@),
{
    diffy::create_patch(original, modified).to_string()
}

/// The text of a boolean: `true` or `false`.
pub open spec fn bool_text(b: bool) -> Seq<char> {
    if b {
        "true"@
    } else {
        "false"@
    }
}

/// The string of a boolean: `true` or `false`.
pub fn bool_to_string(b: bool) -> (r: String)
    ensures
        r@ == bool_text(b),
{
    if b {
        "true".to_owned()
    } else {
        "false".to_owned()
    }
}

/// The history row for a newly created noun: every field is diffed
/// against the empty text.
pub fn noun_history_for_create(created: &Noun) -> (r: NounHistory)
    requires
        created.noun_id is Some,
    ensures
        r.noun_id == created.noun_id->0,
        r.change_date is None,
        r.diff_name@ == patch_of(Seq::empty(), created.name@),
        r.diff_noun_type@ == patch_of(Seq::empty(), created.noun_type@),
        r.diff_metadata@ == patch_of(Seq::empty(), created.metadata@),
{
    proof {
        reveal_strlit("");
        assert(""@ =~= Seq::<char>::empty());
    }
    NounHistory {
        noun_id: noun_id_of(created),
        change_date: Option::None,
        diff_name: create_patch_text("", created.name.as_str()),
        diff_noun_type: create_patch_text("", created.noun_type.as_str()),
        diff_metadata: create_patch_text("", created.metadata.as_str()),
    }
}

/// The history row for a noun update: every field is diffed from its
/// previous value to its new one.
pub fn noun_history_for_update(old_noun: &Noun, new_noun: &Noun) -> (r: NounHistory)
    requires
        new_noun.noun_id is Some,
    ensures
        r.noun_id == new_noun.noun_id->0,
        r.change_date is None,
        r.diff_name@ == patch_of(old_noun.name@, new_noun.name@),
        r.diff_noun_type@ == patch_of(old_noun.noun_type@, new_noun.noun_type@),
        r.diff_metadata@ == patch_of(old_noun.metadata@, new_noun.metadata@),
{
    NounHistory {
        noun_id: noun_id_of(new_noun),
        change_date: Option::None,
        diff_name: create_patch_text(old_noun.name.as_str(), new_noun.name.as_str()),
        diff_noun_type: create_patch_text(
            old_noun.noun_type.as_str(),
            new_noun.noun_type.as_str(),
        ),
        diff_metadata: create_patch_text(old_noun.metadata.as_str(), new_noun.metadata.as_str()),
    }
}

/// The assigned id of a noun.
fn noun_id_of(noun: &Noun) -> (r: i64)
    requires
        noun.noun_id is Some,
    ensures
        r == noun.noun_id->0,
{
    match noun.noun_id {
        Option::Some(id) => id,
        Option::None => 0,
    }
}

/// The history row for a newly created noun type.
pub fn noun_type_history_for_create(created: &NounType) -> (r: NounTypeHistory)
    requires
        created.noun_type_id is Some,
    ensures
        r.noun_type_id == created.noun_type_id->0,
        r.change_date is None,
        r.diff_noun_type@ == patch_of(Seq::empty(), created.noun_type@),
        r.diff_metadata@ == patch_of(Seq::empty(), created.metadata@),
{
    proof {
        reveal_strlit("");
        assert(""@ =~= Seq::<char>::empty());
    }
    NounTypeHistory {
        noun_type_id: match created.noun_type_id {
            Option::Some(id) => id,
            Option::None => 0,
        },
        change_date: Option::None,
        diff_noun_type: create_patch_text("", created.noun_type.as_str()),
        diff_metadata: create_patch_text("", created.metadata.as_str()),
    }
}

/// The history row for a noun type update.
pub fn noun_type_history_for_update(old_type: &NounType, new_type: &NounType) -> (r:
    NounTypeHistory)
    requires
        new_type.noun_type_id is Some,
    ensures
        r.noun_type_id == new_type.noun_type_id->0,
        r.change_date is None,
        r.diff_noun_type@ == patch_of(old_type.noun_type@, new_type.noun_type@),
        r.diff_metadata@ == patch_of(old_type.metadata@, new_type.metadata@),
{
    NounTypeHistory {
        noun_type_id: match new_type.noun_type_id {
            Option::Some(id) => id,
            Option::None => 0,
        },
        change_date: Option::None,
        diff_noun_type: create_patch_text(old_type.noun_type.as_str(), new_type.noun_type.as_str()),
        diff_metadata: create_patch_text(old_type.metadata.as_str(), new_type.metadata.as_str()),
    }
}

/// The history row for a newly created attribute type; `multiple_allowed`
/// is diffed as text.
pub fn attribute_type_history_for_create(created: &AttributeType) -> (r: AttributeTypeHistory)
    requires
        created.attribute_type_id is Some,
    ensures
        r.attribute_type_id == created.attribute_type_id->0,
        r.change_date is None,
        r.diff_attribute_name@ == patch_of(Seq::empty(), created.attribute_name@),
        r.diff_multiple_allowed@ == patch_of(Seq::empty(), bool_text(created.multiple_allowed)),
        r.diff_metadata@ == patch_of(Seq::empty(), created.metadata@),
{
    proof {
        reveal_strlit("");
        assert(""@ =~= Seq::<char>::empty());
    }
    let multiple = bool_to_string(created.multiple_allowed);
    AttributeTypeHistory {
        attribute_type_id: match created.attribute_type_id {
            Option::Some(id) => id,
            Option::None => 0,
        },
        change_date: Option::None,
        diff_attribute_name: create_patch_text("", created.attribute_name.as_str()),
        diff_multiple_allowed: create_patch_text("", multiple.as_str()),
        diff_metadata: create_patch_text("", created.metadata.as_str()),
    }
}

/// The history row for an attribute type update.
pub fn attribute_type_history_for_update(
    old_type: &AttributeType,
    new_type: &AttributeType,
) -> (r: AttributeTypeHistory)
    requires
        new_type.attribute_type_id is Some,
    ensures
        r.attribute_type_id == new_type.attribute_type_id->0,
        r.change_date is None,
        r.diff_attribute_name@ == patch_of(old_type.attribute_name@, new_type.attribute_name@),
        r.diff_multiple_allowed@ == patch_of(
            bool_text(old_type.multiple_allowed),
            bool_text(new_type.multiple_allowed),
        ),
        r.diff_metadata@ == patch_of(old_type.metadata@, new_type.metadata@),
{
    let old_multiple = bool_to_string(old_type.multiple_allowed);
    let new_multiple = bool_to_string(new_type.multiple_allowed);
    AttributeTypeHistory {
        attribute_type_id: match new_type.attribute_type_id {
            Option::Some(id) => id,
            Option::None => 0,
        },
        change_date: Option::None,
        diff_attribute_name: create_patch_text(
            old_type.attribute_name.as_str(),
            new_type.attribute_name.as_str(),
        ),
        diff_multiple_allowed: create_patch_text(old_multiple.as_str(), new_multiple.as_str()),
        diff_metadata: create_patch_text(old_type.metadata.as_str(), new_type.metadata.as_str()),
    }
}

/// The history row for a newly created attribute: the data value is
/// serialized, then diffed against the empty text.
pub fn attribute_history_for_create(created: &Attribute) -> (r: AttributeHistory)
    requires
        created.attribute_id is Some,
    ensures
        r.attribute_id == created.attribute_id->0,
        r.change_date is None,
        r.diff_data@ == patch_of(Seq::empty(), ser_value(created.data@)),
        r.diff_data_type_version@ == patch_of(
            Seq::empty(),
            dec_digits_signed(created.data_type_version),
        ),
        r.diff_metadata@ == patch_of(Seq::empty(), created.metadata@),
{
    proof {
        reveal_strlit("");
        assert(""@ =~= Seq::<char>::empty());
    }
    let data_text = serialize_data_object(&created.data);
    let version_text = i64_to_string(created.data_type_version);
    AttributeHistory {
        attribute_id: match created.attribute_id {
            Option::Some(id) => id,
            Option::None => 0,
        },
        change_date: Option::None,
        diff_data: create_patch_text("", data_text.as_str()),
        diff_data_type_version: create_patch_text("", version_text.as_str()),
        diff_metadata: create_patch_text("", created.metadata.as_str()),
    }
}

/// The history row for an attribute update: both data values are
/// serialized, then diffed old to new.
pub fn attribute_history_for_update(old_attr: &Attribute, new_attr: &Attribute) -> (r:
    AttributeHistory)
    requires
        new_attr.attribute_id is Some,
    ensures
        r.attribute_id == new_attr.attribute_id->0,
        r.change_date is None,
        r.diff_data@ == patch_of(ser_value(old_attr.data@), ser_value(new_attr.data@)),
        r.diff_data_type_version@ == patch_of(
            dec_digits_signed(old_attr.data_type_version),
            dec_digits_signed(new_attr.data_type_version),
        ),
        r.diff_metadata@ == patch_of(old_attr.metadata@, new_attr.metadata@),
{
    let old_data_text = serialize_data_object(&old_attr.data);
    let new_data_text = serialize_data_object(&new_attr.data);
    let old_version_text = i64_to_string(old_attr.data_type_version);
    let new_version_text = i64_to_string(new_attr.data_type_version);
    AttributeHistory {
        attribute_id: match new_attr.attribute_id {
            Option::Some(id) => id,
            Option::None => 0,
        },
        change_date: Option::None,
        diff_data: create_patch_text(old_data_text.as_str(), new_data_text.as_str()),
        diff_data_type_version: create_patch_text(
            old_version_text.as_str(),
            new_version_text.as_str(),
        ),
        diff_metadata: create_patch_text(old_attr.metadata.as_str(), new_attr.metadata.as_str()),
    }
}

} // verus!
