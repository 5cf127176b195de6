//! The world engine: every operation checks its integrity rules against
//! the current state, and on success persists the new or updated record
//! together with exactly one paired history row, atomically — a failed
//! check changes nothing.
//!
//! The engine owns its tables. Ids are assigned by the store: the id of a
//! row is its position, counted from one. Timestamps come from a logical
//! clock that advances by one on every successful mutation.

use vstd::prelude::*;

use crate::clwm_error::ClwmError;
use crate::diff::bool_text;
use crate::diff::noun_history_for_create;
use crate::diff::noun_history_for_update;
use crate::diff::noun_type_history_for_create;
use crate::diff::noun_type_history_for_update;
use crate::diff::patch_of;
use crate::model::Attribute;
use crate::model::AttributeHistory;
use crate::model::AttributeHistoryView;
use crate::model::AttributeType;
use crate::model::AttributeTypeHistory;
use crate::model::AttributeTypeHistoryView;
use crate::model::AttributeTypeView;
use crate::model::AttributeView;
use crate::model::DataType;
use crate::model::DataTypeView;
use crate::model::Noun;
use crate::model::NounHistory;
use crate::model::NounHistoryView;
use crate::model::NounType;
use crate::model::NounTypeHistory;
use crate::model::NounTypeHistoryView;
use crate::model::NounTypeView;
use crate::model::NounView;
use crate::validate::spec_validate;
use crate::validate::is_data_of_data_def;
use crate::codec::ser_value;
use crate::codec::dec_digits_signed;

verus! {

broadcast use
    vstd::std_specs::vec::group_vec_axioms,
    vstd::seq::group_seq_axioms,
    vstd::set::group_set_axioms;

/// The deep views of the elements of `s`, in order.
pub open spec fn views_of<T: DeepView>(s: Seq<T>) -> Seq<T::V> {
    s.map_values(|t: T| t.deep_view())
}

/// Mapping to views commutes with appending one element.
pub proof fn lemma_views_of_push<T: DeepView>(s: Seq<T>, x: T)
    ensures
        views_of(s.push(x)) == views_of(s).push(x.deep_view()),
{
    assert(views_of(s.push(x)) =~= views_of(s).push(x.deep_view()));
}

/// Mapping to views commutes with updating one element.
pub proof fn lemma_views_of_update<T: DeepView>(s: Seq<T>, i: int, x: T)
    requires
        0 <= i < s.len(),
    ensures
        views_of(s.update(i, x)) == views_of(s).update(i, x.deep_view()),
{
    assert(views_of(s.update(i, x)) =~= views_of(s).update(i, x.deep_view()));
}

/// The mathematical value of a `World`: its tables and its clock.
pub struct WorldView {
    pub nouns: Seq<NounView>,
    pub noun_types: Seq<NounTypeView>,
    pub data_types: Seq<DataTypeView>,
    pub attribute_types: Seq<AttributeTypeView>,
    pub attributes: Seq<AttributeView>,
    pub noun_histories: Seq<NounHistoryView>,
    pub noun_type_histories: Seq<NounTypeHistoryView>,
    pub attribute_type_histories: Seq<AttributeTypeHistoryView>,
    pub attribute_histories: Seq<AttributeHistoryView>,
    pub clock: i64,
}

/// Whether some noun type row carries the name `name`.
pub open spec fn has_noun_type_named(w: WorldView, name: Seq<char>) -> bool {
    exists|i: int| 0 <= i < w.noun_types.len() && (#[trigger] w.noun_types[i]).noun_type == name
}

/// Whether some attribute type row carries the name `name`.
pub open spec fn has_attribute_type_named(w: WorldView, name: Seq<char>) -> bool {
    exists|i: int|
        0 <= i < w.attribute_types.len() && (#[trigger] w.attribute_types[i]).attribute_name
            == name
}

/// Whether some data type row carries the name `name`.
pub open spec fn has_data_type_named(w: WorldView, name: Seq<char>) -> bool {
    exists|i: int| 0 <= i < w.data_types.len() && (#[trigger] w.data_types[i]).name == name
}

/// Whether some data type row carries the name `name` at version `v`.
pub open spec fn has_data_type_version(s: Seq<DataTypeView>, name: Seq<char>, v: int) -> bool {
    exists|i: int|
        0 <= i < s.len() && (#[trigger] s[i]).name == name && (s[i].version matches Some(w)
            && w as int == v)
}

/// The well-formedness of a world: ids equal row positions counted from
/// one, stored rows carry no transient tree, every stored reference
/// resolves, attribute parents are exclusive and point backwards, and the
/// versions of each data type name are distinct and contiguous from one.
pub open spec fn view_wf(w: WorldView) -> bool {
    &&& w.nouns.len() <= i64::MAX
    &&& w.noun_types.len() <= i64::MAX
    &&& w.data_types.len() <= i64::MAX
    &&& w.attribute_types.len() <= i64::MAX
    &&& w.attributes.len() <= i64::MAX
    &&& forall|i: int|
        0 <= i < w.nouns.len() ==> {
            &&& (#[trigger] w.nouns[i]).noun_id matches Some(id) && id as int == i + 1
            &&& w.nouns[i].attributes is None
        }
    &&& forall|i: int|
        0 <= i < w.noun_types.len() ==> ((#[trigger] w.noun_types[i]).noun_type_id matches Some(
            id,
        ) && id as int == i + 1)
    &&& forall|i: int|
        0 <= i < w.attribute_types.len() ==> ((
        #[trigger] w.attribute_types[i]).attribute_type_id matches Some(id) && id as int == i + 1)
    &&& forall|i: int|
        0 <= i < w.attributes.len() ==> {
            &&& (#[trigger] w.attributes[i]).attribute_id matches Some(id) && id as int == i + 1
            &&& w.attributes[i].children is None
            &&& (w.attributes[i].parent_noun_id is Some) != (w.attributes[i].parent_attribute_id
                is Some)
            &&& (w.attributes[i].parent_noun_id matches Some(p) ==> 1 <= p <= w.nouns.len())
            &&& (w.attributes[i].parent_attribute_id matches Some(p) ==> 1 <= p <= i)
            &&& 1 <= w.attributes[i].attribute_type_id <= w.attribute_types.len()
        }
    &&& forall|i: int|
        0 <= i < w.data_types.len() ==> {
            &&& (#[trigger] w.data_types[i]).version matches Some(v) && 1 <= v
                <= w.data_types.len()
            &&& (w.data_types[i].version->0 > 1 ==> has_data_type_version(
                w.data_types,
                w.data_types[i].name,
                w.data_types[i].version->0 - 1,
            ))
            &&& crate::model::type_definition_view_wf(w.data_types[i].definition)
        }
    &&& forall|i: int|
        0 <= i < w.attributes.len() ==> crate::model::data_object_view_wf(
            (#[trigger] w.attributes[i]).data,
        )
    &&& forall|i: int, j: int|
        0 <= i < w.data_types.len() && 0 <= j < w.data_types.len() && i != j && (
        #[trigger] w.data_types[i]).name == (#[trigger] w.data_types[j]).name
            ==> w.data_types[i].version != w.data_types[j].version
}

/// The version a data type row carries, or zero where it carries none.
pub open spec fn version_of(d: DataTypeView) -> int {
    match d.version {
        Some(v) => v as int,
        None => 0,
    }
}

/// The greatest version any of the first `n` rows carries under `name`,
/// or zero when none of them carries that name.
pub open spec fn latest_version_upto(s: Seq<DataTypeView>, name: Seq<char>, n: int) -> int
    decreases n,
{
    if n <= 0 || n > s.len() {
        0
    } else {
        let rest = latest_version_upto(s, name, n - 1);
        let cur = if s[n - 1].name == name {
            version_of(s[n - 1])
        } else {
            0
        };
        if cur > rest {
            cur
        } else {
            rest
        }
    }
}

/// The greatest version any row carries under `name`, or zero when no
/// row carries that name.
pub open spec fn latest_data_type_version(s: Seq<DataTypeView>, name: Seq<char>) -> int {
    latest_version_upto(s, name, s.len() as int)
}

/// The greatest version bounds every version under the name, is carried
/// by some row when positive, and is zero exactly when no row under the
/// name carries a positive version.
pub proof fn lemma_latest_version_upto(s: Seq<DataTypeView>, name: Seq<char>, n: int)
    requires
        0 <= n <= s.len(),
    ensures
        latest_version_upto(s, name, n) >= 0,
        forall|i: int|
            0 <= i < n && (#[trigger] s[i]).name == name ==> version_of(s[i])
                <= latest_version_upto(s, name, n),
        latest_version_upto(s, name, n) > 0 ==> exists|i: int|
            0 <= i < n && (#[trigger] s[i]).name == name && version_of(s[i])
                == latest_version_upto(s, name, n),
        latest_version_upto(s, name, n) == 0 ==> forall|i: int|
            0 <= i < n && (#[trigger] s[i]).name == name ==> version_of(s[i]) <= 0,
    decreases n,
{
    if n > 0 {
        lemma_latest_version_upto(s, name, n - 1);
    }
}

/// Appending a row leaves the greatest version of the first `n` rows
/// unchanged.
proof fn lemma_latest_upto_push(s: Seq<DataTypeView>, name: Seq<char>, d: DataTypeView, n: int)
    requires
        0 <= n <= s.len(),
    ensures
        latest_version_upto(s.push(d), name, n) == latest_version_upto(s, name, n),
    decreases n,
{
    if n > 0 {
        lemma_latest_upto_push(s, name, d, n - 1);
        assert(s.push(d)[n - 1] == s[n - 1]);
    }
}

/// After appending a row under `name`, the latest version of `name` is
/// the greater of the old latest and the new row's version. In
/// particular, an update, which appends the old latest plus one, raises
/// the latest by exactly one.
pub proof fn lemma_latest_version_after_append(s: Seq<DataTypeView>, name: Seq<char>, d: DataTypeView)
    requires
        d.name == name,
    ensures
        latest_data_type_version(s.push(d), name) == if version_of(d) > latest_data_type_version(
            s,
            name,
        ) {
            version_of(d)
        } else {
            latest_data_type_version(s, name)
        },
{
    lemma_latest_upto_push(s, name, d, s.len() as int);
    assert(s.push(d)[s.len() as int] == d);
}

/// Appending a data type row preserves the version clauses of every row
/// already stored: old witnesses stay valid in the longer table.
proof fn lemma_data_type_rows_wf_after_append(s: Seq<DataTypeView>, d: DataTypeView)
    requires
        forall|i: int|
            0 <= i < s.len() ==> {
                &&& (#[trigger] s[i]).version matches Some(v) && 1 <= v <= s.len()
                &&& (s[i].version->0 > 1 ==> has_data_type_version(
                    s,
                    s[i].name,
                    s[i].version->0 - 1,
                ))
            },
        d.version matches Some(v) && 1 <= v <= s.len() + 1,
        d.version->0 > 1 ==> has_data_type_version(s, d.name, d.version->0 - 1),
    ensures
        forall|i: int|
            0 <= i < s.push(d).len() ==> {
                &&& (#[trigger] s.push(d)[i]).version matches Some(v) && 1 <= v <= s.push(
                    d,
                ).len()
                &&& (s.push(d)[i].version->0 > 1 ==> has_data_type_version(
                    s.push(d),
                    s.push(d)[i].name,
                    s.push(d)[i].version->0 - 1,
                ))
            },
{
    assert forall|i: int| 0 <= i < s.push(d).len() implies {
        &&& (#[trigger] s.push(d)[i]).version matches Some(v) && 1 <= v <= s.push(d).len()
        &&& (s.push(d)[i].version->0 > 1 ==> has_data_type_version(
            s.push(d),
            s.push(d)[i].name,
            s.push(d)[i].version->0 - 1,
        ))
    } by {
        let row = if i < s.len() {
            s[i]
        } else {
            d
        };
        assert(s.push(d)[i] == row);
        if row.version->0 > 1 {
            let w = choose|j: int|
                0 <= j < s.len() && (#[trigger] s[j]).name == row.name && (
                s[j].version matches Some(x) && x as int == row.version->0 - 1);
            assert(s.push(d)[w] == s[w]);
        }
    }
}

/// Appending a row leaves the by-name listing of the first `n` rows
/// unchanged.
proof fn lemma_data_types_named_upto_push(
    s: Seq<DataTypeView>,
    name: Seq<char>,
    d: DataTypeView,
    n: int,
)
    requires
        0 <= n <= s.len(),
    ensures
        data_types_named_upto(s.push(d), name, n) == data_types_named_upto(s, name, n),
    decreases n,
{
    if n > 0 {
        lemma_data_types_named_upto_push(s, name, d, n - 1);
        assert(s.push(d)[n - 1] == s[n - 1]);
    }
}

/// Appending a row under `name` appends exactly that row to the name's
/// listing, and leaves the listing of every other name unchanged. With the
/// creation and update contracts this pins the whole listing across any
/// call history: one row per successful create or update of the name, in
/// order, each carrying the definition supplied to that call.
pub proof fn lemma_data_types_named_after_append(
    s: Seq<DataTypeView>,
    name: Seq<char>,
    d: DataTypeView,
)
    ensures
        d.name == name ==> data_types_named_upto(s.push(d), name, s.len() + 1 as int)
            == data_types_named_upto(s, name, s.len() as int).push(d),
        d.name != name ==> data_types_named_upto(s.push(d), name, s.len() + 1 as int)
            == data_types_named_upto(s, name, s.len() as int),
{
    lemma_data_types_named_upto_push(s, name, d, s.len() as int);
    assert(s.push(d)[s.len() as int] == d);
}

/// The versions carried by the by-name listing of the first `n` rows, one
/// per listed row, in order.
pub open spec fn named_versions_upto(s: Seq<DataTypeView>, name: Seq<char>, n: int) -> Seq<int> {
    data_types_named_upto(s, name, n).map_values(|d: DataTypeView| version_of(d))
}

/// The by-name listing of a well-formed table collects rows of the table
/// carrying the name, collects every such row, and never repeats a
/// version.
proof fn lemma_named_upto_props(w: WorldView, name: Seq<char>, n: int)
    requires
        view_wf(w),
        0 <= n <= w.data_types.len(),
    ensures
        forall|k: int|
            0 <= k < data_types_named_upto(w.data_types, name, n).len() ==> exists|i: int|
                0 <= i < n && #[trigger] data_types_named_upto(w.data_types, name, n)[k]
                    == w.data_types[i] && w.data_types[i].name == name,
        forall|i: int|
            0 <= i < n && (#[trigger] w.data_types[i]).name == name ==> data_types_named_upto(
                w.data_types,
                name,
                n,
            ).contains(w.data_types[i]),
        named_versions_upto(w.data_types, name, n).no_duplicates(),
    decreases n,
{
    let s = w.data_types;
    if n > 0 {
        lemma_named_upto_props(w, name, n - 1);
        let prev = data_types_named_upto(s, name, n - 1);
        let cur = data_types_named_upto(s, name, n);
        let pv = named_versions_upto(s, name, n - 1);
        let cv = named_versions_upto(s, name, n);
        if s[n - 1].name == name {
            assert(cur == prev.push(s[n - 1]));
            assert(cv =~= pv.push(version_of(s[n - 1])));
            // The new row's version is fresh: an earlier listed row with
            // the same version would contradict version uniqueness.
            assert forall|k: int| 0 <= k < pv.len() implies pv[k] != version_of(s[n - 1]) by {
                let i = choose|i: int|
                    0 <= i < n - 1 && #[trigger] prev[k] == s[i] && s[i].name == name;
                assert(pv[k] == version_of(s[i]));
                if version_of(s[i]) == version_of(s[n - 1]) {
                    assert(s[i].version matches Some(v));
                    assert(s[n - 1].version matches Some(v));
                    assert(s[i].version != s[n - 1].version);
                    assert(false);
                }
            }
            assert(cv.no_duplicates()) by {
                assert(forall|a: int, b: int|
                    0 <= a < cv.len() && 0 <= b < cv.len() && a != b ==> #[trigger] cv[a]
                        != #[trigger] cv[b]);
            };
            assert forall|k: int| 0 <= k < cur.len() implies exists|i: int|
                0 <= i < n && #[trigger] cur[k] == s[i] && s[i].name == name by {
                if k < prev.len() {
                    let i = choose|i: int|
                        0 <= i < n - 1 && #[trigger] prev[k] == s[i] && s[i].name == name;
                    assert(cur[k] == s[i] && s[i].name == name);
                } else {
                    assert(cur[k] == s[n - 1] && s[n - 1].name == name);
                }
            }
            assert forall|i: int|
                0 <= i < n && (#[trigger] s[i]).name == name implies cur.contains(s[i]) by {
                if i < n - 1 {
                    let k = choose|k: int| 0 <= k < prev.len() && prev[k] == s[i];
                    assert(cur[k] == s[i]);
                } else {
                    assert(cur[cur.len() - 1] == s[i]);
                }
            }
        } else {
            assert(cur == prev);
            assert(cv =~= pv);
            assert forall|i: int|
                0 <= i < n && (#[trigger] s[i]).name == name implies cur.contains(s[i]) by {
                assert(i < n - 1);
                let k = choose|k: int| 0 <= k < prev.len() && prev[k] == s[i];
                assert(cur[k] == s[i]);
            }
        }
    }
}

/// In a well-formed world the by-name listing holds exactly one row per
/// version of the name: its length equals the latest version. Together
/// with the creation and update contracts, after a creation and N
/// successful updates of a name the listing holds exactly N + 1 rows.
pub proof fn lemma_data_types_named_count(w: WorldView, name: Seq<char>)
    requires
        view_wf(w),
    ensures
        data_types_named_upto(w.data_types, name, w.data_types.len() as int).len()
            == latest_data_type_version(w.data_types, name),
{
    let s = w.data_types;
    let n = s.len() as int;
    let named = data_types_named_upto(s, name, n);
    let vs = named_versions_upto(s, name, n);
    let lv = latest_data_type_version(s, name);
    lemma_named_upto_props(w, name, n);
    lemma_latest_version_upto(s, name, n);
    vs.unique_seq_to_set();
    assert(vs.len() == named.len());
    assert(vs.to_set() =~= vstd::set_lib::set_int_range(1, lv + 1)) by {
        assert forall|v: int| vs.to_set().contains(v) implies 1 <= v < lv + 1 by {
            let k = choose|k: int| 0 <= k < vs.len() && vs[k] == v;
            let i = choose|i: int|
                0 <= i < n && #[trigger] named[k] == s[i] && s[i].name == name;
            assert(vs[k] == version_of(s[i]));
            assert(s[i].version matches Some(x) && 1 <= x);
            assert(version_of(s[i]) <= lv);
        }
        assert forall|v: int| 1 <= v < lv + 1 implies vs.to_set().contains(v) by {
            let j = choose|j: int|
                0 <= j < n && (#[trigger] s[j]).name == name && version_of(s[j]) == lv;
            assert(s[j].version matches Some(x) && x as int == lv);
            assert(has_data_type_version(s, name, lv));
            lemma_data_type_versions_complete(w, name, lv, v);
            let i = choose|i: int|
                0 <= i < s.len() && (#[trigger] s[i]).name == name && (
                s[i].version matches Some(x) && x as int == v);
            assert(named.contains(s[i]));
            let k = choose|k: int| 0 <= k < named.len() && named[k] == s[i];
            assert(vs[k] == v);
            assert(vs.contains(v));
        }
    };
    vstd::set_lib::lemma_int_range(1, lv + 1);
}

/// In a well-formed world, every version from one up to any stored
/// version of a data type name remains individually resolvable: versions
/// are contiguous from one.
pub proof fn lemma_data_type_versions_complete(w: WorldView, name: Seq<char>, v: int, u: int)
    requires
        view_wf(w),
        has_data_type_version(w.data_types, name, v),
        1 <= u <= v,
    ensures
        has_data_type_version(w.data_types, name, u),
    decreases v,
{
    if u < v {
        let i = choose|i: int|
            0 <= i < w.data_types.len() && (#[trigger] w.data_types[i]).name == name && (
            w.data_types[i].version matches Some(x) && x as int == v);
        assert(w.data_types[i].version->0 > 1);
        lemma_data_type_versions_complete(w, name, v - 1, u);
    }
}

/// Whether some stored attribute hangs under the noun `parent` with the
/// attribute type `atid`.
pub open spec fn attribute_with_noun_parent(w: WorldView, parent: i64, atid: i64) -> bool {
    exists|i: int|
        0 <= i < w.attributes.len() && (#[trigger] w.attributes[i]).parent_noun_id == Some(parent)
            && w.attributes[i].attribute_type_id == atid
}

/// Whether some stored attribute hangs under the attribute `parent` with
/// the attribute type `atid`.
pub open spec fn attribute_with_attribute_parent(w: WorldView, parent: i64, atid: i64) -> bool {
    exists|i: int|
        0 <= i < w.attributes.len() && (#[trigger] w.attributes[i]).parent_attribute_id == Some(
            parent,
        ) && w.attributes[i].attribute_type_id == atid
}

/// The definition of the data type row that carries `name` at version
/// `v`; in a well-formed world that row is unique.
pub open spec fn data_type_definition_of(
    s: Seq<DataTypeView>,
    name: Seq<char>,
    v: int,
) -> crate::model::DataTypeDefinitionView {
    let i = choose|i: int|
        0 <= i < s.len() && (#[trigger] s[i]).name == name && (s[i].version matches Some(x)
            && x as int == v);
    s[i].definition
}

/// In a well-formed world, any row carrying `name` at version `v` is the
/// row whose definition `data_type_definition_of` names.
pub proof fn lemma_data_type_version_unique(w: WorldView, i: int, name: Seq<char>, v: int)
    requires
        view_wf(w),
        0 <= i < w.data_types.len(),
        w.data_types[i].name == name,
        w.data_types[i].version matches Some(x) && x as int == v,
    ensures
        w.data_types[i].definition == data_type_definition_of(w.data_types, name, v),
{
    let j = choose|j: int|
        0 <= j < w.data_types.len() && (#[trigger] w.data_types[j]).name == name && (
        w.data_types[j].version matches Some(x) && x as int == v);
    assert(0 <= j < w.data_types.len() && w.data_types[j].name == name && (
    w.data_types[j].version matches Some(x) && x as int == v));
    if i != j {
        assert(w.data_types[i].version != w.data_types[j].version);
        assert(false);
    }
}

/// All nine integrity checks of attribute creation, in one word: the
/// attribute type resolves, exactly one parent is set and resolves, the
/// type allows a second attribute under that parent or there is none, the
/// pinned data type version exists, and the data validates against it.
pub open spec fn new_attribute_ok(
    w: WorldView,
    attribute_type_id: i64,
    parent_noun_id: Option<i64>,
    parent_attribute_id: Option<i64>,
    data: crate::model::DataObjectView,
    data_type_version: i64,
) -> bool {
    &&& 1 <= attribute_type_id <= w.attribute_types.len()
    &&& !(parent_noun_id is None && parent_attribute_id is None)
    &&& !(parent_noun_id is Some && parent_attribute_id is Some)
    &&& (parent_noun_id matches Some(p) ==> 1 <= p <= w.nouns.len())
    &&& (parent_noun_id matches Some(p) ==> (w.attribute_types[
        attribute_type_id - 1
    ].multiple_allowed || !attribute_with_noun_parent(w, p, attribute_type_id)))
    &&& (parent_attribute_id matches Some(p) ==> 1 <= p <= w.attributes.len())
    &&& (parent_attribute_id matches Some(p) ==> (w.attribute_types[
        attribute_type_id - 1
    ].multiple_allowed || !attribute_with_attribute_parent(w, p, attribute_type_id)))
    &&& has_data_type_version(
        w.data_types,
        w.attribute_types[attribute_type_id - 1].data_type,
        data_type_version as int,
    )
    &&& spec_validate(
        data,
        data_type_definition_of(
            w.data_types,
            w.attribute_types[attribute_type_id - 1].data_type,
            data_type_version as int,
        ),
        true,
    )
}

/// The view of an attribute with its transient children dropped: what the
/// stored row looks like.
pub open spec fn stripped(a: AttributeView) -> AttributeView {
    AttributeView { children: None, ..a }
}

/// The stored views of a list of populated attributes.
pub open spec fn stripped_all(cs: Seq<AttributeView>) -> Seq<AttributeView> {
    cs.map_values(|c: AttributeView| stripped(c))
}

/// The rows among the first `n` whose parent noun is `id`, in row order.
pub open spec fn noun_children_upto(table: Seq<AttributeView>, id: i64, n: int) -> Seq<
    AttributeView,
>
    decreases n,
{
    if n <= 0 || n > table.len() {
        Seq::empty()
    } else if table[n - 1].parent_noun_id == Some(id) {
        noun_children_upto(table, id, n - 1).push(table[n - 1])
    } else {
        noun_children_upto(table, id, n - 1)
    }
}

/// The rows among the first `n` whose parent attribute is `id`, in row
/// order.
pub open spec fn attr_children_upto(table: Seq<AttributeView>, id: i64, n: int) -> Seq<
    AttributeView,
>
    decreases n,
{
    if n <= 0 || n > table.len() {
        Seq::empty()
    } else if table[n - 1].parent_attribute_id == Some(id) {
        attr_children_upto(table, id, n - 1).push(table[n - 1])
    } else {
        attr_children_upto(table, id, n - 1)
    }
}

/// Whether `a` carries its full subtree: its children are exactly the
/// stored rows whose parent attribute is `a`, in row order, each carrying
/// its own full subtree in turn.
pub open spec fn is_populated(table: Seq<AttributeView>, a: AttributeView) -> bool
    decreases a, 0int,
{
    match a.children {
        None => false,
        Some(cs) => {
            &&& stripped_all(cs) == attr_children_upto(table, a.attribute_id->0, table.len() as int)
            &&& all_populated(table, cs, cs.len() as int)
        },
    }
}

/// Whether each of the first `n` attributes carries its full subtree.
pub open spec fn all_populated(table: Seq<AttributeView>, cs: Seq<AttributeView>, n: int) -> bool
    decreases cs, n,
{
    if n <= 0 || n > cs.len() {
        true
    } else {
        all_populated(table, cs, n - 1) && is_populated(table, cs[n - 1])
    }
}

/// The views of the rows among the first `n` that carry `name`, in row
/// order.
pub open spec fn data_types_named_upto(s: Seq<DataTypeView>, name: Seq<char>, n: int) -> Seq<
    DataTypeView,
>
    decreases n,
{
    if n <= 0 || n > s.len() {
        Seq::empty()
    } else if s[n - 1].name == name {
        data_types_named_upto(s, name, n - 1).push(s[n - 1])
    } else {
        data_types_named_upto(s, name, n - 1)
    }
}

/// The populated subtree under the noun `id`: the unique list of
/// populated attributes whose stored rows are exactly the children of
/// that noun.
pub open spec fn noun_subtree_of(w: WorldView, id: i64) -> Seq<AttributeView> {
    choose|cs: Seq<AttributeView>|
        stripped_all(cs) == noun_children_upto(w.attributes, id, w.attributes.len() as int)
            && #[trigger] all_populated(w.attributes, cs, cs.len() as int)
}

/// The populated subtree under the attribute `id`.
pub open spec fn attr_subtree_of(w: WorldView, id: i64) -> Seq<AttributeView> {
    choose|cs: Seq<AttributeView>|
        stripped_all(cs) == attr_children_upto(w.attributes, id, w.attributes.len() as int)
            && #[trigger] all_populated(w.attributes, cs, cs.len() as int)
}

/// A populated prefix stays populated when the list grows at the end.
proof fn lemma_all_populated_prefix(
    table: Seq<AttributeView>,
    cs: Seq<AttributeView>,
    x: AttributeView,
    n: int,
)
    requires
        0 <= n <= cs.len(),
    ensures
        all_populated(table, cs.push(x), n) == all_populated(table, cs, n),
    decreases n,
{
    if n > 0 {
        lemma_all_populated_prefix(table, cs, x, n - 1);
        assert(cs.push(x)[n - 1] == cs[n - 1]);
    }
}

/// Appending one populated attribute keeps the whole list populated.
proof fn lemma_all_populated_push(
    table: Seq<AttributeView>,
    cs: Seq<AttributeView>,
    x: AttributeView,
)
    requires
        all_populated(table, cs, cs.len() as int),
        is_populated(table, x),
    ensures
        all_populated(table, cs.push(x), cs.push(x).len() as int),
{
    lemma_all_populated_prefix(table, cs, x, cs.len() as int);
    assert(cs.push(x)[cs.len() as int] == x);
}

/// Every member of a populated list is populated.
proof fn lemma_all_populated_index(
    table: Seq<AttributeView>,
    cs: Seq<AttributeView>,
    n: int,
    i: int,
)
    requires
        all_populated(table, cs, n),
        0 <= i < n,
        n <= cs.len(),
    ensures
        is_populated(table, cs[i]),
    decreases n,
{
    if i < n - 1 {
        lemma_all_populated_index(table, cs, n - 1, i);
    }
}

/// Any two populated lists over the same stored rows agree on their first
/// `n` members: a populated tree is unique.
proof fn lemma_populated_unique(
    table: Seq<AttributeView>,
    xs: Seq<AttributeView>,
    ys: Seq<AttributeView>,
    n: int,
)
    requires
        stripped_all(xs) == stripped_all(ys),
        all_populated(table, xs, xs.len() as int),
        all_populated(table, ys, ys.len() as int),
        0 <= n <= xs.len(),
    ensures
        xs.len() == ys.len(),
        forall|i: int| 0 <= i < n ==> xs[i] == ys[i],
    decreases xs, n,
{
    assert(stripped_all(xs).len() == xs.len());
    assert(stripped_all(ys).len() == ys.len());
    if n > 0 {
        lemma_populated_unique(table, xs, ys, n - 1);
        let a = xs[n - 1];
        let b = ys[n - 1];
        assert(stripped_all(xs)[n - 1] == stripped(a));
        assert(stripped_all(ys)[n - 1] == stripped(b));
        assert(stripped(a) == stripped(b));
        lemma_all_populated_index(table, xs, xs.len() as int, n - 1);
        lemma_all_populated_index(table, ys, ys.len() as int, n - 1);
        let ca = a.children->0;
        let cb = b.children->0;
        assert(a.attribute_id == stripped(a).attribute_id);
        assert(a.attribute_id == b.attribute_id);
        lemma_populated_unique(table, ca, cb, ca.len() as int);
        assert(ca =~= cb);
        assert(a == (AttributeView { children: Some(ca), ..stripped(a) }));
        assert(b == (AttributeView { children: Some(cb), ..stripped(b) }));
        assert(a == b);
    }
}

/// A list with exactly the noun's child rows, each fully populated, is
/// the noun's populated subtree.
proof fn lemma_noun_subtree_of_eq(w: WorldView, id: i64, cs: Seq<AttributeView>)
    requires
        stripped_all(cs) == noun_children_upto(w.attributes, id, w.attributes.len() as int),
        all_populated(w.attributes, cs, cs.len() as int),
    ensures
        cs == noun_subtree_of(w, id),
{
    let picked = noun_subtree_of(w, id);
    assert(stripped_all(picked) == noun_children_upto(w.attributes, id, w.attributes.len() as int)
        && all_populated(w.attributes, picked, picked.len() as int)) by {
        assert(stripped_all(cs) == noun_children_upto(w.attributes, id, w.attributes.len() as int)
            && all_populated(w.attributes, cs, cs.len() as int));
    };
    lemma_populated_unique(w.attributes, cs, picked, cs.len() as int);
    assert(cs =~= picked);
}

/// A list with exactly the attribute's child rows, each fully populated,
/// is the attribute's populated subtree.
proof fn lemma_attr_subtree_of_eq(w: WorldView, id: i64, cs: Seq<AttributeView>)
    requires
        stripped_all(cs) == attr_children_upto(w.attributes, id, w.attributes.len() as int),
        all_populated(w.attributes, cs, cs.len() as int),
    ensures
        cs == attr_subtree_of(w, id),
{
    let picked = attr_subtree_of(w, id);
    assert(stripped_all(picked) == attr_children_upto(w.attributes, id, w.attributes.len() as int)
        && all_populated(w.attributes, picked, picked.len() as int)) by {
        assert(stripped_all(cs) == attr_children_upto(w.attributes, id, w.attributes.len() as int)
            && all_populated(w.attributes, cs, cs.len() as int));
    };
    lemma_populated_unique(w.attributes, cs, picked, cs.len() as int);
    assert(cs =~= picked);
}

/// The two ways of listing attribute views agree: the index-recursive
/// views of a list are its element views, in order.
proof fn lemma_attribute_views_bridge(cs: Vec<Attribute>)
    ensures
        crate::model::attribute_views(cs, cs.len() as int) == views_of(cs@),
{
    crate::model::lemma_attribute_views(cs, cs.len() as int);
    assert(crate::model::attribute_views(cs, cs.len() as int) =~= views_of(cs@));
}

/// In a well-formed world an id outside the table has no children.
proof fn lemma_attr_children_empty(w: WorldView, id: i64, n: int)
    requires
        view_wf(w),
        !(1 <= id <= w.attributes.len()),
        0 <= n <= w.attributes.len(),
    ensures
        attr_children_upto(w.attributes, id, n) == Seq::<AttributeView>::empty(),
    decreases n,
{
    if n > 0 {
        lemma_attr_children_empty(w, id, n - 1);
        assert(w.attributes[n - 1].parent_attribute_id matches Some(p) ==> 1 <= p <= n - 1);
    }
}

/// Whether another row and another clock tick fit the machine's integer
/// sizes.
pub open spec fn view_has_capacity(w: WorldView) -> bool {
    &&& w.nouns.len() < i64::MAX
    &&& w.noun_types.len() < i64::MAX
    &&& w.data_types.len() < i64::MAX
    &&& w.attribute_types.len() < i64::MAX
    &&& w.attributes.len() < i64::MAX
    &&& w.clock < i64::MAX
}

/// The world engine's state: the entity tables, their history tables, and
/// the logical clock.
pub struct World {
    nouns: Vec<Noun>,
    noun_types: Vec<NounType>,
    data_types: Vec<DataType>,
    attribute_types: Vec<AttributeType>,
    attributes: Vec<Attribute>,
    noun_histories: Vec<NounHistory>,
    noun_type_histories: Vec<NounTypeHistory>,
    attribute_type_histories: Vec<AttributeTypeHistory>,
    attribute_histories: Vec<AttributeHistory>,
    clock: i64,
}

impl View for World {
    type V = WorldView;

    closed spec fn view(&self) -> WorldView {
        WorldView {
            nouns: views_of(self.nouns@),
            noun_types: views_of(self.noun_types@),
            data_types: views_of(self.data_types@),
            attribute_types: views_of(self.attribute_types@),
            attributes: views_of(self.attributes@),
            noun_histories: views_of(self.noun_histories@),
            noun_type_histories: views_of(self.noun_type_histories@),
            attribute_type_histories: views_of(self.attribute_type_histories@),
            attribute_histories: views_of(self.attribute_histories@),
            clock: self.clock,
        }
    }
}

impl World {
    /// The world's invariant, over its mathematical value.
    pub open spec fn wf(&self) -> bool {
        view_wf(self@)
    }

    /// Whether one more row and one more clock tick fit.
    pub open spec fn has_capacity(&self) -> bool {
        view_has_capacity(self@)
    }

    /// An empty world: no rows, clock at zero.
    pub fn new() -> (r: World)
        ensures
            r.wf(),
            r.has_capacity(),
            r@.nouns.len() == 0,
            r@.noun_types.len() == 0,
            r@.data_types.len() == 0,
            r@.attribute_types.len() == 0,
            r@.attributes.len() == 0,
            r@.noun_histories.len() == 0,
            r@.noun_type_histories.len() == 0,
            r@.attribute_type_histories.len() == 0,
            r@.attribute_histories.len() == 0,
            r@.clock == 0,
    {
        World {
            nouns: Vec::new(),
            noun_types: Vec::new(),
            data_types: Vec::new(),
            attribute_types: Vec::new(),
            attributes: Vec::new(),
            noun_histories: Vec::new(),
            noun_type_histories: Vec::new(),
            attribute_type_histories: Vec::new(),
            attribute_histories: Vec::new(),
            clock: 0,
        }
    }

    /// Creates a noun type. Fails exactly when a noun type with this name
    /// already exists; on success the new row and its paired history row
    /// are appended and nothing else changes.
    pub fn new_noun_type(&mut self, noun_type: String, metadata: String) -> (r: Result<
        NounType,
        ClwmError,
    >)
        requires
            old(self).wf(),
            old(self).has_capacity(),
        ensures
            final(self).wf(),
            r is Err <==> has_noun_type_named(old(self)@, noun_type@),
            r is Err ==> *final(self) == *old(self) && (
            r->Err_0 matches ClwmError::NounTypeAlreadyExists { noun_type: n } && n@
                == noun_type@),
            r matches Ok(nt) ==> {
                &&& nt@ == (NounTypeView {
                    noun_type_id: Some((old(self)@.noun_types.len() + 1) as i64),
                    last_changed: Some(old(self)@.clock),
                    noun_type: noun_type@,
                    metadata: metadata@,
                })
                &&& final(self)@ == (WorldView {
                    noun_types: old(self)@.noun_types.push(nt@),
                    noun_type_histories: old(self)@.noun_type_histories.push(
                        NounTypeHistoryView {
                            noun_type_id: (old(self)@.noun_types.len() + 1) as i64,
                            change_date: Some(old(self)@.clock),
                            diff_noun_type: patch_of(Seq::empty(), noun_type@),
                            diff_metadata: patch_of(Seq::empty(), metadata@),
                        },
                    ),
                    clock: (old(self)@.clock + 1) as i64,
                    ..old(self)@
                })
            },
    {
        if self.find_noun_type_index_by_name(&noun_type).is_some() {
            return Result::Err(ClwmError::NounTypeAlreadyExists { noun_type });
        }
        let id: i64 = (self.noun_types.len() as i64) + 1;
        let nt = NounType {
            noun_type_id: Some(id),
            last_changed: Some(self.clock),
            noun_type,
            metadata,
        };
        let mut history = noun_type_history_for_create(&nt);
        history.change_date = Some(self.clock);
        let stored = nt.clone();
        proof {
            lemma_views_of_push(self.noun_types@, stored);
            lemma_views_of_push(self.noun_type_histories@, history);
        }
        self.noun_types.push(stored);
        self.noun_type_histories.push(history);
        self.clock = self.clock + 1;
        proof {
            assert(self@ == (WorldView {
                noun_types: old(self)@.noun_types.push(nt@),
                noun_type_histories: old(self)@.noun_type_histories.push(
                    NounTypeHistoryView {
                        noun_type_id: (old(self)@.noun_types.len() + 1) as i64,
                        change_date: Some(old(self)@.clock),
                        diff_noun_type: patch_of(Seq::empty(), nt.noun_type@),
                        diff_metadata: patch_of(Seq::empty(), nt.metadata@),
                    },
                ),
                clock: (old(self)@.clock + 1) as i64,
                ..old(self)@
            }));
        }
        Result::Ok(nt)
    }

    /// Creates a noun. Fails exactly when no noun type carries the given
    /// `noun_type` name; on success the new row and its paired history row
    /// are appended and nothing else changes.
    pub fn new_noun(&mut self, name: String, noun_type: String, metadata: String) -> (r: Result<
        Noun,
        ClwmError,
    >)
        requires
            old(self).wf(),
            old(self).has_capacity(),
        ensures
            final(self).wf(),
            r is Err <==> !has_noun_type_named(old(self)@, noun_type@),
            r is Err ==> *final(self) == *old(self) && r->Err_0 == ClwmError::NounTypeNotFound,
            r matches Ok(n) ==> {
                &&& n@ == (NounView {
                    noun_id: Some((old(self)@.nouns.len() + 1) as i64),
                    last_changed: Some(old(self)@.clock),
                    name: name@,
                    noun_type: noun_type@,
                    metadata: metadata@,
                    attributes: None,
                })
                &&& final(self)@ == (WorldView {
                    nouns: old(self)@.nouns.push(n@),
                    noun_histories: old(self)@.noun_histories.push(
                        NounHistoryView {
                            noun_id: (old(self)@.nouns.len() + 1) as i64,
                            change_date: Some(old(self)@.clock),
                            diff_name: patch_of(Seq::empty(), name@),
                            diff_noun_type: patch_of(Seq::empty(), noun_type@),
                            diff_metadata: patch_of(Seq::empty(), metadata@),
                        },
                    ),
                    clock: (old(self)@.clock + 1) as i64,
                    ..old(self)@
                })
            },
    {
        if self.find_noun_type_index_by_name(&noun_type).is_none() {
            return Result::Err(ClwmError::NounTypeNotFound);
        }
        let id: i64 = (self.nouns.len() as i64) + 1;
        let noun = Noun {
            noun_id: Some(id),
            last_changed: Some(self.clock),
            name,
            noun_type,
            metadata,
            attributes: None,
        };
        let mut history = noun_history_for_create(&noun);
        history.change_date = Some(self.clock);
        let stored = noun.clone();
        proof {
            lemma_views_of_push(self.nouns@, stored);
            lemma_views_of_push(self.noun_histories@, history);
        }
        self.nouns.push(stored);
        self.noun_histories.push(history);
        self.clock = self.clock + 1;
        proof {
            assert(self@ == (WorldView {
                nouns: old(self)@.nouns.push(noun@),
                noun_histories: old(self)@.noun_histories.push(
                    NounHistoryView {
                        noun_id: (old(self)@.nouns.len() + 1) as i64,
                        change_date: Some(old(self)@.clock),
                        diff_name: patch_of(Seq::empty(), noun.name@),
                        diff_noun_type: patch_of(Seq::empty(), noun.noun_type@),
                        diff_metadata: patch_of(Seq::empty(), noun.metadata@),
                    },
                ),
                clock: (old(self)@.clock + 1) as i64,
                ..old(self)@
            }));
        }
        Result::Ok(noun)
    }

    /// Updates a noun in place by its id, diffing every field old to new.
    /// Fails exactly when the record carries no id or the id resolves to
    /// no row; a failed update changes nothing.
    pub fn update_noun(&mut self, noun: Noun) -> (r: Result<Noun, ClwmError>)
        requires
            old(self).wf(),
            old(self).has_capacity(),
        ensures
            final(self).wf(),
            noun.noun_id is None ==> (r matches Err(e) && e == ClwmError::NounHasNoId),
            (noun.noun_id matches Some(id) && !(1 <= id <= old(self)@.nouns.len())) ==> (
            r matches Err(e) && e == ClwmError::NounNotFound),
            r is Err ==> *final(self) == *old(self),
            r is Ok <==> (noun.noun_id matches Some(id) && 1 <= id <= old(self)@.nouns.len()),
            r matches Ok(n) ==> {
                let id = noun.noun_id->0;
                let prev = old(self)@.nouns[id - 1];
                &&& n@ == (NounView {
                    noun_id: Some(id),
                    last_changed: Some(old(self)@.clock),
                    name: noun.name@,
                    noun_type: noun.noun_type@,
                    metadata: noun.metadata@,
                    attributes: None,
                })
                &&& final(self)@ == (WorldView {
                    nouns: old(self)@.nouns.update(id - 1, n@),
                    noun_histories: old(self)@.noun_histories.push(
                        NounHistoryView {
                            noun_id: id,
                            change_date: Some(old(self)@.clock),
                            diff_name: patch_of(prev.name, noun.name@),
                            diff_noun_type: patch_of(prev.noun_type, noun.noun_type@),
                            diff_metadata: patch_of(prev.metadata, noun.metadata@),
                        },
                    ),
                    clock: (old(self)@.clock + 1) as i64,
                    ..old(self)@
                })
            },
    {
        let id: i64 = match noun.noun_id {
            Some(id) => id,
            None => {
                return Result::Err(ClwmError::NounHasNoId);
            },
        };
        if id < 1 {
            return Result::Err(ClwmError::NounNotFound);
        }
        proof {
            assert(self@.nouns.len() == self.nouns@.len());
        }
        if id > (self.nouns.len() as i64) {
            return Result::Err(ClwmError::NounNotFound);
        }
        let idx: usize = (id as usize) - 1;
        let updated = Noun {
            noun_id: Some(id),
            last_changed: Some(self.clock),
            name: noun.name,
            noun_type: noun.noun_type,
            metadata: noun.metadata,
            attributes: None,
        };
        let mut history = noun_history_for_update(&self.nouns[idx], &updated);
        history.change_date = Some(self.clock);
        let stored = updated.clone();
        proof {
            lemma_views_of_update(self.nouns@, idx as int, stored);
            lemma_views_of_push(self.noun_histories@, history);
        }
        self.nouns[idx] = stored;
        self.noun_histories.push(history);
        self.clock = self.clock + 1;
        proof {
            assert(self@.nouns =~= old(self)@.nouns.update(id - 1, updated@));
            assert(self@ == (WorldView {
                nouns: old(self)@.nouns.update(id - 1, updated@),
                noun_histories: old(self)@.noun_histories.push(
                    NounHistoryView {
                        noun_id: id,
                        change_date: Some(old(self)@.clock),
                        diff_name: patch_of(old(self)@.nouns[id - 1].name, updated.name@),
                        diff_noun_type: patch_of(
                            old(self)@.nouns[id - 1].noun_type,
                            updated.noun_type@,
                        ),
                        diff_metadata: patch_of(
                            old(self)@.nouns[id - 1].metadata,
                            updated.metadata@,
                        ),
                    },
                ),
                clock: (old(self)@.clock + 1) as i64,
                ..old(self)@
            }));
        }
        Result::Ok(updated)
    }

    /// Updates a noun type in place by its id, diffing both fields old to
    /// new. Fails exactly when the record carries no id or the id
    /// resolves to no row; a failed update changes nothing.
    pub fn update_noun_type(&mut self, noun_type: NounType) -> (r: Result<NounType, ClwmError>)
        requires
            old(self).wf(),
            old(self).has_capacity(),
        ensures
            final(self).wf(),
            noun_type.noun_type_id is None ==> (r matches Err(e) && e == ClwmError::NounTypeHasNoId),
            (noun_type.noun_type_id matches Some(id) && !(1 <= id <= old(
                self,
            )@.noun_types.len())) ==> (r matches Err(e) && e == ClwmError::NounTypeNotFound),
            r is Err ==> *final(self) == *old(self),
            r is Ok <==> (noun_type.noun_type_id matches Some(id) && 1 <= id <= old(
                self,
            )@.noun_types.len()),
            r matches Ok(nt) ==> {
                let id = noun_type.noun_type_id->0;
                let prev = old(self)@.noun_types[id - 1];
                &&& nt@ == (NounTypeView {
                    noun_type_id: Some(id),
                    last_changed: Some(old(self)@.clock),
                    noun_type: noun_type.noun_type@,
                    metadata: noun_type.metadata@,
                })
                &&& final(self)@ == (WorldView {
                    noun_types: old(self)@.noun_types.update(id - 1, nt@),
                    noun_type_histories: old(self)@.noun_type_histories.push(
                        NounTypeHistoryView {
                            noun_type_id: id,
                            change_date: Some(old(self)@.clock),
                            diff_noun_type: patch_of(prev.noun_type, noun_type.noun_type@),
                            diff_metadata: patch_of(prev.metadata, noun_type.metadata@),
                        },
                    ),
                    clock: (old(self)@.clock + 1) as i64,
                    ..old(self)@
                })
            },
    {
        let id: i64 = match noun_type.noun_type_id {
            Some(id) => id,
            None => {
                return Result::Err(ClwmError::NounTypeHasNoId);
            },
        };
        if id < 1 {
            return Result::Err(ClwmError::NounTypeNotFound);
        }
        proof {
            assert(self@.noun_types.len() == self.noun_types@.len());
        }
        if id > (self.noun_types.len() as i64) {
            return Result::Err(ClwmError::NounTypeNotFound);
        }
        let idx: usize = (id as usize) - 1;
        let updated = NounType {
            noun_type_id: Some(id),
            last_changed: Some(self.clock),
            noun_type: noun_type.noun_type,
            metadata: noun_type.metadata,
        };
        let mut history = noun_type_history_for_update(&self.noun_types[idx], &updated);
        history.change_date = Some(self.clock);
        let stored = updated.clone();
        proof {
            lemma_views_of_update(self.noun_types@, idx as int, stored);
            lemma_views_of_push(self.noun_type_histories@, history);
        }
        self.noun_types[idx] = stored;
        self.noun_type_histories.push(history);
        self.clock = self.clock + 1;
        proof {
            assert(self@.noun_types =~= old(self)@.noun_types.update(id - 1, updated@));
            assert(self@ == (WorldView {
                noun_types: old(self)@.noun_types.update(id - 1, updated@),
                noun_type_histories: old(self)@.noun_type_histories.push(
                    NounTypeHistoryView {
                        noun_type_id: id,
                        change_date: Some(old(self)@.clock),
                        diff_noun_type: patch_of(
                            old(self)@.noun_types[id - 1].noun_type,
                            updated.noun_type@,
                        ),
                        diff_metadata: patch_of(
                            old(self)@.noun_types[id - 1].metadata,
                            updated.metadata@,
                        ),
                    },
                ),
                clock: (old(self)@.clock + 1) as i64,
                ..old(self)@
            }));
        }
        Result::Ok(updated)
    }

    /// Creates a data type at version one. Fails exactly when a data type
    /// with this name already exists, at any version; on success the new
    /// row is appended and nothing else changes. Data types keep no
    /// history table: their past is the older version rows themselves.
    pub fn new_data_type(
        &mut self,
        name: String,
        definition: crate::model::DataTypeDefinition,
    ) -> (r: Result<DataType, ClwmError>)
        requires
            old(self).wf(),
            old(self).has_capacity(),
            crate::model::type_definition_view_wf(definition@),
        ensures
            final(self).wf(),
            r is Err <==> has_data_type_named(old(self)@, name@),
            r is Err ==> *final(self) == *old(self) && (
            r->Err_0 matches ClwmError::DataTypeAlreadyExists { data_type: n } && n@ == name@),
            r matches Ok(dt) ==> {
                &&& dt@ == (DataTypeView {
                    name: name@,
                    system_defined: false,
                    definition: definition@,
                    version: Some(1),
                    change_date: Some(old(self)@.clock),
                })
                &&& final(self)@ == (WorldView {
                    data_types: old(self)@.data_types.push(dt@),
                    clock: (old(self)@.clock + 1) as i64,
                    ..old(self)@
                })
            },
    {
        let found = self.find_data_type_latest_index(&name);
        if found.is_some() {
            return Result::Err(ClwmError::DataTypeAlreadyExists { data_type: name });
        }
        proof {
            lemma_latest_version_upto(self@.data_types, name@, self@.data_types.len() as int);
        }
        let row = DataType {
            name,
            system_defined: false,
            definition,
            version: Some(1),
            change_date: Some(self.clock),
        };
        let stored = row.clone();
        proof {
            lemma_views_of_push(self.data_types@, stored);
        }
        self.data_types.push(stored);
        self.clock = self.clock + 1;
        proof {
            assert(self@ == (WorldView {
                data_types: old(self)@.data_types.push(row@),
                clock: (old(self)@.clock + 1) as i64,
                ..old(self)@
            }));
            lemma_data_type_rows_wf_after_append(old(self)@.data_types, row@);
        }
        Result::Ok(row)
    }

    /// Updates a data type: inserts a new row with the same name, the new
    /// definition, and the next version; no existing row is ever touched.
    /// Fails exactly when no data type with this name exists.
    pub fn update_data_type(&mut self, data_type: DataType) -> (r: Result<DataType, ClwmError>)
        requires
            old(self).wf(),
            old(self).has_capacity(),
            crate::model::type_definition_view_wf(data_type.definition@),
        ensures
            final(self).wf(),
            r is Err <==> !has_data_type_named(old(self)@, data_type.name@),
            r is Err ==> *final(self) == *old(self) && r->Err_0 == ClwmError::DataTypeNotFound,
            r matches Ok(dt) ==> {
                &&& dt@ == (DataTypeView {
                    name: data_type.name@,
                    system_defined: false,
                    definition: data_type.definition@,
                    version: Some(
                        (latest_data_type_version(old(self)@.data_types, data_type.name@)
                            + 1) as i64,
                    ),
                    change_date: Some(old(self)@.clock),
                })
                &&& final(self)@ == (WorldView {
                    data_types: old(self)@.data_types.push(dt@),
                    clock: (old(self)@.clock + 1) as i64,
                    ..old(self)@
                })
            },
    {
        let ghost oldviews = self@.data_types;
        let found = self.find_data_type_latest_index(&data_type.name);
        proof {
            lemma_latest_version_upto(oldviews, data_type.name@, oldviews.len() as int);
        }
        let idx = match found {
            Some(idx) => idx,
            None => {
                return Result::Err(ClwmError::DataTypeNotFound);
            },
        };
        let latest: i64 = match self.data_types[idx].version {
            Some(v) => v,
            None => 0,
        };
        let row = DataType {
            name: data_type.name,
            system_defined: false,
            definition: data_type.definition,
            version: Some(latest + 1),
            change_date: Some(self.clock),
        };
        let stored = row.clone();
        proof {
            lemma_views_of_push(self.data_types@, stored);
        }
        self.data_types.push(stored);
        self.clock = self.clock + 1;
        proof {
            assert(self@ == (WorldView {
                data_types: old(self)@.data_types.push(row@),
                clock: (old(self)@.clock + 1) as i64,
                ..old(self)@
            }));
            assert(row@.version->0 > 1 ==> has_data_type_version(
                old(self)@.data_types,
                row@.name,
                row@.version->0 - 1,
            )) by {
                assert(old(self)@.data_types[idx as int].name == row@.name);
            };
            lemma_data_type_rows_wf_after_append(old(self)@.data_types, row@);
        }
        Result::Ok(row)
    }

    /// Finds the position of the row that carries the latest version of
    /// the data type named `name`, if any row carries that name.
    fn find_data_type_latest_index(&self, name: &String) -> (r: Option<usize>)
        requires
            self.wf(),
        ensures
            match r {
                Some(i) => {
                    &&& i < self@.data_types.len()
                    &&& self@.data_types[i as int].name == name@
                    &&& version_of(self@.data_types[i as int]) == latest_data_type_version(
                        self@.data_types,
                        name@,
                    )
                    &&& version_of(self@.data_types[i as int]) > 0
                },
                None => !has_data_type_named(self@, name@),
            },
    {
        let ghost views = self@.data_types;
        let mut best: Option<usize> = None;
        let mut i: usize = 0;
        while i < self.data_types.len()
            invariant
                self.wf(),
                0 <= i <= self.data_types.len(),
                views == self@.data_types,
                views.len() == self.data_types.len(),
                forall|j: int|
                    0 <= j < self.data_types.len() ==> #[trigger] views[j]
                        == self.data_types[j]@,
                match best {
                    Some(b) => {
                        &&& b < i
                        &&& views[b as int].name == name@
                        &&& version_of(views[b as int]) == latest_version_upto(
                            views,
                            name@,
                            i as int,
                        )
                        &&& version_of(views[b as int]) > 0
                    },
                    None => latest_version_upto(views, name@, i as int) == 0,
                },
            decreases self.data_types.len() - i,
        {
            if self.data_types[i].name == *name {
                let v: i64 = match self.data_types[i].version {
                    Some(v) => v,
                    None => 0,
                };
                proof {
                    assert(self@.data_types[i as int].version matches Some(x) && 1 <= x);
                }
                let better: bool = match best {
                    Some(b) => {
                        let bv: i64 = match self.data_types[b].version {
                            Some(bv) => bv,
                            None => 0,
                        };
                        v > bv
                    },
                    None => true,
                };
                if better {
                    best = Some(i);
                }
            }
            i = i + 1;
        }
        proof {
            if best is None {
                lemma_latest_version_upto(views, name@, views.len() as int);
            }
        }
        best
    }

    /// Creates an attribute type. Fails exactly when an attribute type
    /// with this name already exists, or, failing that, when no data type
    /// carries the given data type name; on success the new row and its
    /// paired history row are appended and nothing else changes.
    pub fn new_attribute_type(
        &mut self,
        attribute_name: String,
        multiple_allowed: bool,
        data_type_name: String,
        metadata: String,
    ) -> (r: Result<AttributeType, ClwmError>)
        requires
            old(self).wf(),
            old(self).has_capacity(),
        ensures
            final(self).wf(),
            r is Ok <==> (!has_attribute_type_named(old(self)@, attribute_name@)
                && has_data_type_named(old(self)@, data_type_name@)),
            has_attribute_type_named(old(self)@, attribute_name@) ==> (
            r->Err_0 matches ClwmError::AttributeTypeAlreadyExists { attribute_type: n } && n@
                == attribute_name@),
            (!has_attribute_type_named(old(self)@, attribute_name@) && !has_data_type_named(
                old(self)@,
                data_type_name@,
            )) ==> r == Result::<AttributeType, ClwmError>::Err(ClwmError::DataTypeNotFound),
            r is Err ==> *final(self) == *old(self),
            r matches Ok(at) ==> {
                &&& at@ == (AttributeTypeView {
                    attribute_type_id: Some((old(self)@.attribute_types.len() + 1) as i64),
                    last_changed: Some(old(self)@.clock),
                    attribute_name: attribute_name@,
                    data_type: data_type_name@,
                    multiple_allowed: multiple_allowed,
                    metadata: metadata@,
                })
                &&& final(self)@ == (WorldView {
                    attribute_types: old(self)@.attribute_types.push(at@),
                    attribute_type_histories: old(self)@.attribute_type_histories.push(
                        AttributeTypeHistoryView {
                            attribute_type_id: (old(self)@.attribute_types.len() + 1) as i64,
                            change_date: Some(old(self)@.clock),
                            diff_attribute_name: patch_of(Seq::empty(), attribute_name@),
                            diff_multiple_allowed: patch_of(
                                Seq::empty(),
                                bool_text(multiple_allowed),
                            ),
                            diff_metadata: patch_of(Seq::empty(), metadata@),
                        },
                    ),
                    clock: (old(self)@.clock + 1) as i64,
                    ..old(self)@
                })
            },
    {
        if self.find_attribute_type_index_by_name(&attribute_name).is_some() {
            return Result::Err(
                ClwmError::AttributeTypeAlreadyExists { attribute_type: attribute_name },
            );
        }
        let ghost oldviews = self@.data_types;
        if self.find_data_type_latest_index(&data_type_name).is_none() {
            proof {
                lemma_latest_version_upto(oldviews, data_type_name@, oldviews.len() as int);
            }
            return Result::Err(ClwmError::DataTypeNotFound);
        }
        let id: i64 = (self.attribute_types.len() as i64) + 1;
        let at = AttributeType {
            attribute_type_id: Some(id),
            last_changed: Some(self.clock),
            attribute_name,
            data_type: data_type_name,
            multiple_allowed,
            metadata,
        };
        let mut history = crate::diff::attribute_type_history_for_create(&at);
        history.change_date = Some(self.clock);
        let stored = at.clone();
        proof {
            lemma_views_of_push(self.attribute_types@, stored);
            lemma_views_of_push(self.attribute_type_histories@, history);
        }
        self.attribute_types.push(stored);
        self.attribute_type_histories.push(history);
        self.clock = self.clock + 1;
        proof {
            assert(self@ == (WorldView {
                attribute_types: old(self)@.attribute_types.push(at@),
                attribute_type_histories: old(self)@.attribute_type_histories.push(
                    AttributeTypeHistoryView {
                        attribute_type_id: (old(self)@.attribute_types.len() + 1) as i64,
                        change_date: Some(old(self)@.clock),
                        diff_attribute_name: patch_of(Seq::empty(), at.attribute_name@),
                        diff_multiple_allowed: patch_of(
                            Seq::empty(),
                            bool_text(at.multiple_allowed),
                        ),
                        diff_metadata: patch_of(Seq::empty(), at.metadata@),
                    },
                ),
                clock: (old(self)@.clock + 1) as i64,
                ..old(self)@
            }));
        }
        Result::Ok(at)
    }

    /// Updates an attribute type in place by its id: the name, the
    /// multiples flag and the metadata take the given values, the data type
    /// name is not updatable and keeps its stored value, and the history
    /// row diffs the old record to the new one. Fails exactly when the
    /// record carries no id or the id resolves to no row; a failed update
    /// changes nothing.
    pub fn update_attribute_type(&mut self, attribute_type: AttributeType) -> (r: Result<
        AttributeType,
        ClwmError,
    >)
        requires
            old(self).wf(),
            old(self).has_capacity(),
        ensures
            final(self).wf(),
            attribute_type.attribute_type_id is None ==> (r matches Err(e) && e
                == ClwmError::AttributeTypeHasNoId),
            (attribute_type.attribute_type_id matches Some(id) && !(1 <= id <= old(
                self,
            )@.attribute_types.len())) ==> (r matches Err(e) && e
                == ClwmError::AttributeTypeNotFound),
            r is Err ==> *final(self) == *old(self),
            r is Ok <==> (attribute_type.attribute_type_id matches Some(id) && 1 <= id <= old(
                self,
            )@.attribute_types.len()),
            r matches Ok(at) ==> {
                let id = attribute_type.attribute_type_id->0;
                let prev = old(self)@.attribute_types[id - 1];
                &&& at@ == (AttributeTypeView {
                    attribute_type_id: Some(id),
                    last_changed: Some(old(self)@.clock),
                    attribute_name: attribute_type.attribute_name@,
                    data_type: prev.data_type,
                    multiple_allowed: attribute_type.multiple_allowed,
                    metadata: attribute_type.metadata@,
                })
                &&& final(self)@ == (WorldView {
                    attribute_types: old(self)@.attribute_types.update(id - 1, at@),
                    attribute_type_histories: old(self)@.attribute_type_histories.push(
                        AttributeTypeHistoryView {
                            attribute_type_id: id,
                            change_date: Some(old(self)@.clock),
                            diff_attribute_name: patch_of(
                                prev.attribute_name,
                                attribute_type.attribute_name@,
                            ),
                            diff_multiple_allowed: patch_of(
                                bool_text(prev.multiple_allowed),
                                bool_text(attribute_type.multiple_allowed),
                            ),
                            diff_metadata: patch_of(prev.metadata, attribute_type.metadata@),
                        },
                    ),
                    clock: (old(self)@.clock + 1) as i64,
                    ..old(self)@
                })
            },
    {
        let id: i64 = match attribute_type.attribute_type_id {
            Some(id) => id,
            None => {
                return Result::Err(ClwmError::AttributeTypeHasNoId);
            },
        };
        if id < 1 {
            return Result::Err(ClwmError::AttributeTypeNotFound);
        }
        proof {
            assert(self@.attribute_types.len() == self.attribute_types@.len());
        }
        if id > (self.attribute_types.len() as i64) {
            return Result::Err(ClwmError::AttributeTypeNotFound);
        }
        let idx: usize = (id as usize) - 1;
        let kept_data_type = self.attribute_types[idx].data_type.clone();
        let updated = AttributeType {
            attribute_type_id: Some(id),
            last_changed: Some(self.clock),
            attribute_name: attribute_type.attribute_name,
            data_type: kept_data_type,
            multiple_allowed: attribute_type.multiple_allowed,
            metadata: attribute_type.metadata,
        };
        let mut history = crate::diff::attribute_type_history_for_update(
            &self.attribute_types[idx],
            &updated,
        );
        history.change_date = Some(self.clock);
        let stored = updated.clone();
        proof {
            lemma_views_of_update(self.attribute_types@, idx as int, stored);
            lemma_views_of_push(self.attribute_type_histories@, history);
        }
        self.attribute_types[idx] = stored;
        self.attribute_type_histories.push(history);
        self.clock = self.clock + 1;
        proof {
            assert(self@.attribute_types =~= old(self)@.attribute_types.update(id - 1, updated@));
            assert(self@ == (WorldView {
                attribute_types: old(self)@.attribute_types.update(id - 1, updated@),
                attribute_type_histories: old(self)@.attribute_type_histories.push(
                    AttributeTypeHistoryView {
                        attribute_type_id: id,
                        change_date: Some(old(self)@.clock),
                        diff_attribute_name: patch_of(
                            old(self)@.attribute_types[id - 1].attribute_name,
                            updated.attribute_name@,
                        ),
                        diff_multiple_allowed: patch_of(
                            bool_text(old(self)@.attribute_types[id - 1].multiple_allowed),
                            bool_text(updated.multiple_allowed),
                        ),
                        diff_metadata: patch_of(
                            old(self)@.attribute_types[id - 1].metadata,
                            updated.metadata@,
                        ),
                    },
                ),
                clock: (old(self)@.clock + 1) as i64,
                ..old(self)@
            }));
        }
        Result::Ok(updated)
    }

    /// Creates an attribute under exactly one parent, pinned to one data
    /// type version that its data must validate against. Each integrity
    /// check fails with its own error kind, in the order given, and a
    /// failed creation changes nothing; on success the new row and its
    /// paired history row are appended and nothing else changes.
    pub fn new_attribute(
        &mut self,
        attribute_type_id: i64,
        parent_noun_id: Option<i64>,
        parent_attribute_id: Option<i64>,
        data: crate::model::DataObject,
        data_type_version: i64,
        metadata: String,
    ) -> (r: Result<Attribute, ClwmError>)
        requires
            old(self).wf(),
            old(self).has_capacity(),
            crate::model::data_object_view_wf(data@),
        ensures
            final(self).wf(),
            r is Err ==> *final(self) == *old(self),
            r is Ok <==> new_attribute_ok(
                old(self)@,
                attribute_type_id,
                parent_noun_id,
                parent_attribute_id,
                data@,
                data_type_version,
            ),
            !(1 <= attribute_type_id <= old(self)@.attribute_types.len()) ==> (r matches Err(e)
                && e == ClwmError::AttributeTypeNotFound),
            (1 <= attribute_type_id <= old(self)@.attribute_types.len() && parent_noun_id is None
                && parent_attribute_id is None) ==> (r matches Err(e) && e
                == ClwmError::ParentNounOrParentAttributeIdMustBeSet),
            (1 <= attribute_type_id <= old(self)@.attribute_types.len() && parent_noun_id is Some
                && parent_attribute_id is Some) ==> (r matches Err(e) && e
                == ClwmError::ParentNounAndParentAttributeIdMustNotBeSet),
            (1 <= attribute_type_id <= old(self)@.attribute_types.len() && (
            parent_noun_id matches Some(p) && parent_attribute_id is None && !(1 <= p <= old(
                self,
            )@.nouns.len()))) ==> (r matches Err(e) && e == ClwmError::NounNotFound),
            (1 <= attribute_type_id <= old(self)@.attribute_types.len() && (
            parent_noun_id matches Some(p) && parent_attribute_id is None && 1 <= p <= old(
                self,
            )@.nouns.len() && !old(self)@.attribute_types[
                attribute_type_id - 1
            ].multiple_allowed && attribute_with_noun_parent(old(self)@, p, attribute_type_id)))
                ==> (r->Err_0 matches ClwmError::AttributeTypeDoesNotAllowMultipleAttributes {
                attribute_type: n,
            } && n@ == old(self)@.attribute_types[attribute_type_id - 1].attribute_name),
            (1 <= attribute_type_id <= old(self)@.attribute_types.len() && (
            parent_attribute_id matches Some(p) && parent_noun_id is None && !(1 <= p <= old(
                self,
            )@.attributes.len()))) ==> (r matches Err(e) && e == ClwmError::AttributeNotFound),
            (1 <= attribute_type_id <= old(self)@.attribute_types.len() && (
            parent_attribute_id matches Some(p) && parent_noun_id is None && 1 <= p <= old(
                self,
            )@.attributes.len() && !old(self)@.attribute_types[
                attribute_type_id - 1
            ].multiple_allowed && attribute_with_attribute_parent(
                old(self)@,
                p,
                attribute_type_id,
            ))) ==> (r->Err_0 matches ClwmError::AttributeTypeDoesNotAllowMultipleAttributes {
                attribute_type: n,
            } && n@ == old(self)@.attribute_types[attribute_type_id - 1].attribute_name),
            r matches Err(e) ==> (e == ClwmError::DataTypeVersionNotFound <==> (1
                <= attribute_type_id <= old(self)@.attribute_types.len() && !(parent_noun_id
                is None && parent_attribute_id is None) && !(parent_noun_id is Some
                && parent_attribute_id is Some) && (parent_noun_id matches Some(p) ==> (1 <= p
                <= old(self)@.nouns.len() && (old(self)@.attribute_types[
                attribute_type_id - 1
            ].multiple_allowed || !attribute_with_noun_parent(old(self)@, p, attribute_type_id))))
                && (parent_attribute_id matches Some(p) ==> (1 <= p <= old(
                self,
            )@.attributes.len() && (old(self)@.attribute_types[
                attribute_type_id - 1
            ].multiple_allowed || !attribute_with_attribute_parent(
                old(self)@,
                p,
                attribute_type_id,
            )))) && !has_data_type_version(
                old(self)@.data_types,
                old(self)@.attribute_types[attribute_type_id - 1].data_type,
                data_type_version as int,
            ))),
            r matches Err(e) ==> (e == ClwmError::DataDoesNotMatchDataTypeDefinition <==> (
            new_attribute_ok(
                old(self)@,
                attribute_type_id,
                parent_noun_id,
                parent_attribute_id,
                crate::model::DataObjectView::Null,
                data_type_version,
            ) && !spec_validate(
                data@,
                data_type_definition_of(
                    old(self)@.data_types,
                    old(self)@.attribute_types[attribute_type_id - 1].data_type,
                    data_type_version as int,
                ),
                true,
            ))),
            r matches Ok(a) ==> {
                &&& a@ == (AttributeView {
                    attribute_id: Some((old(self)@.attributes.len() + 1) as i64),
                    last_changed: Some(old(self)@.clock),
                    attribute_type_id: attribute_type_id,
                    parent_noun_id: parent_noun_id,
                    parent_attribute_id: parent_attribute_id,
                    data: data@,
                    data_type_version: data_type_version,
                    metadata: metadata@,
                    children: None,
                })
                &&& final(self)@ == (WorldView {
                    attributes: old(self)@.attributes.push(a@),
                    attribute_histories: old(self)@.attribute_histories.push(
                        AttributeHistoryView {
                            attribute_id: (old(self)@.attributes.len() + 1) as i64,
                            change_date: Some(old(self)@.clock),
                            diff_data: patch_of(Seq::empty(), ser_value(data@)),
                            diff_data_type_version: patch_of(
                                Seq::empty(),
                                dec_digits_signed(data_type_version),
                            ),
                            diff_metadata: patch_of(Seq::empty(), metadata@),
                        },
                    ),
                    clock: (old(self)@.clock + 1) as i64,
                    ..old(self)@
                })
            },
    {
        if attribute_type_id < 1 {
            return Result::Err(ClwmError::AttributeTypeNotFound);
        }
        proof {
            assert(self@.attribute_types.len() == self.attribute_types@.len());
        }
        if attribute_type_id > (self.attribute_types.len() as i64) {
            return Result::Err(ClwmError::AttributeTypeNotFound);
        }
        let at_idx: usize = (attribute_type_id as usize) - 1;
        if parent_noun_id.is_none() && parent_attribute_id.is_none() {
            return Result::Err(ClwmError::ParentNounOrParentAttributeIdMustBeSet);
        }
        if parent_noun_id.is_some() && parent_attribute_id.is_some() {
            return Result::Err(ClwmError::ParentNounAndParentAttributeIdMustNotBeSet);
        }
        proof {
            assert(self@.nouns.len() == self.nouns@.len());
            assert(self@.attributes.len() == self.attributes@.len());
        }
        if let Option::Some(p) = parent_noun_id {
            if p < 1 || p > (self.nouns.len() as i64) {
                return Result::Err(ClwmError::NounNotFound);
            }
            if !self.attribute_types[at_idx].multiple_allowed {
                if self.exists_attribute_with_noun_parent(p, attribute_type_id) {
                    let at_name = self.attribute_types[at_idx].attribute_name.clone();
                    return Result::Err(
                        ClwmError::AttributeTypeDoesNotAllowMultipleAttributes {
                            attribute_type: at_name,
                        },
                    );
                }
            }
        }
        if let Option::Some(p) = parent_attribute_id {
            if p < 1 || p > (self.attributes.len() as i64) {
                return Result::Err(ClwmError::AttributeNotFound);
            }
            if !self.attribute_types[at_idx].multiple_allowed {
                if self.exists_attribute_with_attribute_parent(p, attribute_type_id) {
                    let at_name = self.attribute_types[at_idx].attribute_name.clone();
                    return Result::Err(
                        ClwmError::AttributeTypeDoesNotAllowMultipleAttributes {
                            attribute_type: at_name,
                        },
                    );
                }
            }
        }
        let ghost dtname = self@.attribute_types[attribute_type_id - 1].data_type;
        let version_row = self.find_data_type_version_index(
            &self.attribute_types[at_idx].data_type,
            data_type_version,
        );
        let row_idx = match version_row {
            Some(row_idx) => row_idx,
            None => {
                return Result::Err(ClwmError::DataTypeVersionNotFound);
            },
        };
        proof {
            lemma_data_type_version_unique(
                self@,
                row_idx as int,
                dtname,
                data_type_version as int,
            );
        }
        if !is_data_of_data_def(&data, &self.data_types[row_idx].definition, true) {
            return Result::Err(ClwmError::DataDoesNotMatchDataTypeDefinition);
        }
        let id: i64 = (self.attributes.len() as i64) + 1;
        let attribute = Attribute {
            attribute_id: Some(id),
            last_changed: Some(self.clock),
            attribute_type_id,
            parent_noun_id,
            parent_attribute_id,
            data,
            data_type_version,
            metadata,
            children: None,
        };
        let mut history = crate::diff::attribute_history_for_create(&attribute);
        history.change_date = Some(self.clock);
        let stored = attribute.clone();
        proof {
            lemma_views_of_push(self.attributes@, stored);
            lemma_views_of_push(self.attribute_histories@, history);
        }
        self.attributes.push(stored);
        self.attribute_histories.push(history);
        self.clock = self.clock + 1;
        proof {
            assert(self@ == (WorldView {
                attributes: old(self)@.attributes.push(attribute@),
                attribute_histories: old(self)@.attribute_histories.push(
                    AttributeHistoryView {
                        attribute_id: (old(self)@.attributes.len() + 1) as i64,
                        change_date: Some(old(self)@.clock),
                        diff_data: patch_of(Seq::empty(), ser_value(attribute.data@)),
                        diff_data_type_version: patch_of(
                            Seq::empty(),
                            dec_digits_signed(attribute.data_type_version),
                        ),
                        diff_metadata: patch_of(Seq::empty(), attribute.metadata@),
                    },
                ),
                clock: (old(self)@.clock + 1) as i64,
                ..old(self)@
            }));
        }
        Result::Ok(attribute)
    }

    /// Updates an attribute in place by its id. The attribute type and both
    /// parent references are immutable: a change to any of them is refused
    /// with its own error kind. The data is re-validated against the pinned
    /// data type version. A failed update changes nothing; on success the
    /// row is replaced and the paired history row diffs old to new.
    pub fn update_attribute(&mut self, attribute: Attribute) -> (r: Result<Attribute, ClwmError>)
        requires
            old(self).wf(),
            old(self).has_capacity(),
            crate::model::data_object_view_wf(attribute.data@),
        ensures
            final(self).wf(),
            r is Err ==> *final(self) == *old(self),
            attribute.attribute_id is None ==> (r matches Err(e) && e
                == ClwmError::AttributeHasNoId),
            (attribute.attribute_id matches Some(id) && !(1 <= id <= old(
                self,
            )@.attributes.len())) ==> (r matches Err(e) && e == ClwmError::AttributeNotFound),
            (attribute.attribute_id matches Some(id) && 1 <= id <= old(self)@.attributes.len())
                ==> {
                let prev = old(self)@.attributes[attribute.attribute_id->0 - 1];
                let dtname = old(self)@.attribute_types[prev.attribute_type_id - 1].data_type;
                &&& (attribute.attribute_type_id != prev.attribute_type_id ==> (r matches Err(e)
                    && e == ClwmError::AttributeTypeIdDoesNotMatch))
                &&& ((attribute.attribute_type_id == prev.attribute_type_id
                    && attribute.parent_noun_id != prev.parent_noun_id) ==> (r matches Err(e) && e
                    == ClwmError::ParentNounIdDoesNotMatch))
                &&& ((attribute.attribute_type_id == prev.attribute_type_id
                    && attribute.parent_noun_id == prev.parent_noun_id
                    && attribute.parent_attribute_id != prev.parent_attribute_id) ==> (
                r matches Err(e) && e == ClwmError::ParentAttributeIdDoesNotMatch))
                &&& ((attribute.attribute_type_id == prev.attribute_type_id
                    && attribute.parent_noun_id == prev.parent_noun_id
                    && attribute.parent_attribute_id == prev.parent_attribute_id
                    && !has_data_type_version(
                    old(self)@.data_types,
                    dtname,
                    attribute.data_type_version as int,
                )) ==> (r matches Err(e) && e == ClwmError::DataTypeVersionNotFound))
                &&& ((attribute.attribute_type_id == prev.attribute_type_id
                    && attribute.parent_noun_id == prev.parent_noun_id
                    && attribute.parent_attribute_id == prev.parent_attribute_id
                    && has_data_type_version(
                    old(self)@.data_types,
                    dtname,
                    attribute.data_type_version as int,
                ) && !spec_validate(
                    attribute.data@,
                    data_type_definition_of(
                        old(self)@.data_types,
                        dtname,
                        attribute.data_type_version as int,
                    ),
                    true,
                )) ==> (r matches Err(e) && e == ClwmError::DataDoesNotMatchDataTypeDefinition))
                &&& (r is Ok <==> (attribute.attribute_type_id == prev.attribute_type_id
                    && attribute.parent_noun_id == prev.parent_noun_id
                    && attribute.parent_attribute_id == prev.parent_attribute_id
                    && has_data_type_version(
                    old(self)@.data_types,
                    dtname,
                    attribute.data_type_version as int,
                ) && spec_validate(
                    attribute.data@,
                    data_type_definition_of(
                        old(self)@.data_types,
                        dtname,
                        attribute.data_type_version as int,
                    ),
                    true,
                )))
            },
            r matches Ok(a) ==> {
                let id = attribute.attribute_id->0;
                let prev = old(self)@.attributes[id - 1];
                &&& a@ == (AttributeView {
                    attribute_id: Some(id),
                    last_changed: Some(old(self)@.clock),
                    attribute_type_id: prev.attribute_type_id,
                    parent_noun_id: prev.parent_noun_id,
                    parent_attribute_id: prev.parent_attribute_id,
                    data: attribute.data@,
                    data_type_version: attribute.data_type_version,
                    metadata: attribute.metadata@,
                    children: None,
                })
                &&& final(self)@ == (WorldView {
                    attributes: old(self)@.attributes.update(id - 1, a@),
                    attribute_histories: old(self)@.attribute_histories.push(
                        AttributeHistoryView {
                            attribute_id: id,
                            change_date: Some(old(self)@.clock),
                            diff_data: patch_of(
                                ser_value(prev.data),
                                ser_value(attribute.data@),
                            ),
                            diff_data_type_version: patch_of(
                                dec_digits_signed(prev.data_type_version),
                                dec_digits_signed(attribute.data_type_version),
                            ),
                            diff_metadata: patch_of(prev.metadata, attribute.metadata@),
                        },
                    ),
                    clock: (old(self)@.clock + 1) as i64,
                    ..old(self)@
                })
            },
    {
        let id: i64 = match attribute.attribute_id {
            Some(id) => id,
            None => {
                return Result::Err(ClwmError::AttributeHasNoId);
            },
        };
        if id < 1 {
            return Result::Err(ClwmError::AttributeNotFound);
        }
        proof {
            assert(self@.attributes.len() == self.attributes@.len());
            assert(self@.attribute_types.len() == self.attribute_types@.len());
        }
        if id > (self.attributes.len() as i64) {
            return Result::Err(ClwmError::AttributeNotFound);
        }
        let idx: usize = (id as usize) - 1;
        proof {
            assert(self@.attributes[id - 1] == self.attributes@[id - 1].deep_view());
        }
        if attribute.attribute_type_id != self.attributes[idx].attribute_type_id {
            return Result::Err(ClwmError::AttributeTypeIdDoesNotMatch);
        }
        if !opt_i64_eq(attribute.parent_noun_id, self.attributes[idx].parent_noun_id) {
            return Result::Err(ClwmError::ParentNounIdDoesNotMatch);
        }
        if !opt_i64_eq(attribute.parent_attribute_id, self.attributes[idx].parent_attribute_id) {
            return Result::Err(ClwmError::ParentAttributeIdDoesNotMatch);
        }
        proof {
            assert(1 <= self@.attributes[id - 1].attribute_type_id <= self@.attribute_types.len());
            assert(self.attribute_types@.len() == self.attribute_types.len());
        }
        let at_idx: usize = (attribute.attribute_type_id as usize) - 1;
        proof {
            assert(self@.attribute_types[attribute.attribute_type_id - 1]
                == self.attribute_types@[attribute.attribute_type_id - 1].deep_view());
        }
        let ghost dtname = self@.attribute_types[attribute.attribute_type_id - 1].data_type;
        let version_row = self.find_data_type_version_index(
            &self.attribute_types[at_idx].data_type,
            attribute.data_type_version,
        );
        let row_idx = match version_row {
            Some(row_idx) => row_idx,
            None => {
                return Result::Err(ClwmError::DataTypeVersionNotFound);
            },
        };
        proof {
            lemma_data_type_version_unique(
                self@,
                row_idx as int,
                dtname,
                attribute.data_type_version as int,
            );
        }
        if !is_data_of_data_def(&attribute.data, &self.data_types[row_idx].definition, true) {
            return Result::Err(ClwmError::DataDoesNotMatchDataTypeDefinition);
        }
        let updated = Attribute {
            attribute_id: Some(id),
            last_changed: Some(self.clock),
            attribute_type_id: attribute.attribute_type_id,
            parent_noun_id: attribute.parent_noun_id,
            parent_attribute_id: attribute.parent_attribute_id,
            data: attribute.data,
            data_type_version: attribute.data_type_version,
            metadata: attribute.metadata,
            children: None,
        };
        let mut history = crate::diff::attribute_history_for_update(
            &self.attributes[idx],
            &updated,
        );
        history.change_date = Some(self.clock);
        let stored = updated.clone();
        proof {
            lemma_views_of_update(self.attributes@, idx as int, stored);
            lemma_views_of_push(self.attribute_histories@, history);
        }
        self.attributes[idx] = stored;
        self.attribute_histories.push(history);
        self.clock = self.clock + 1;
        proof {
            assert(self@.attributes =~= old(self)@.attributes.update(id - 1, updated@));
            assert(self@ == (WorldView {
                attributes: old(self)@.attributes.update(id - 1, updated@),
                attribute_histories: old(self)@.attribute_histories.push(
                    AttributeHistoryView {
                        attribute_id: id,
                        change_date: Some(old(self)@.clock),
                        diff_data: patch_of(
                            ser_value(old(self)@.attributes[id - 1].data),
                            ser_value(updated.data@),
                        ),
                        diff_data_type_version: patch_of(
                            dec_digits_signed(old(self)@.attributes[id - 1].data_type_version),
                            dec_digits_signed(updated.data_type_version),
                        ),
                        diff_metadata: patch_of(
                            old(self)@.attributes[id - 1].metadata,
                            updated.metadata@,
                        ),
                    },
                ),
                clock: (old(self)@.clock + 1) as i64,
                ..old(self)@
            }));
        }
        Result::Ok(updated)
    }

    /// Fills the transient attribute tree of `noun`: its attributes become
    /// exactly the stored rows whose parent noun is the noun's id, in row
    /// order, each carrying its own full subtree. Fails exactly when the
    /// noun carries no id, changing nothing.
    pub fn populate_noun(&self, noun: &mut Noun) -> (r: Result<(), ClwmError>)
        requires
            self.wf(),
        ensures
            old(noun).noun_id is None ==> (r matches Err(e) && e == ClwmError::NounHasNoId)
                && *final(noun) == *old(noun),
            old(noun).noun_id matches Some(id) ==> r is Ok && final(noun)@ == (NounView {
                attributes: Some(noun_subtree_of(self@, id)),
                ..old(noun)@
            }),
            old(noun).noun_id matches Some(id) ==> {
                let cs = noun_subtree_of(self@, id);
                &&& stripped_all(cs) == noun_children_upto(
                    self@.attributes,
                    id,
                    self@.attributes.len() as int,
                )
                &&& all_populated(self@.attributes, cs, cs.len() as int)
            },
    {
        let id: i64 = match noun.noun_id {
            Some(id) => id,
            None => {
                return Result::Err(ClwmError::NounHasNoId);
            },
        };
        let children = self.populate_children_by_noun(id);
        proof {
            lemma_attribute_views_bridge(children);
            assert(views_of(children@) == noun_subtree_of(self@, id));
        }
        noun.attributes = Some(children);
        proof {
            assert(noun@ == (NounView { attributes: Some(noun_subtree_of(self@, id)), ..old(
                noun,
            )@ }));
        }
        Result::Ok(())
    }

    /// Fills the transient subtree of `attribute`: its children become
    /// exactly the stored rows whose parent attribute is the attribute's
    /// id, in row order, each carrying its own full subtree. Fails exactly
    /// when the attribute carries no id, changing nothing.
    pub fn populate_attribute(&self, attribute: &mut Attribute) -> (r: Result<(), ClwmError>)
        requires
            self.wf(),
        ensures
            old(attribute).attribute_id is None ==> (r matches Err(e) && e
                == ClwmError::AttributeHasNoId) && *final(attribute) == *old(attribute),
            old(attribute).attribute_id matches Some(id) ==> r is Ok && final(attribute)@ == (
            AttributeView { children: Some(attr_subtree_of(self@, id)), ..old(attribute)@ }),
            old(attribute).attribute_id matches Some(id) ==> {
                let cs = attr_subtree_of(self@, id);
                &&& stripped_all(cs) == attr_children_upto(
                    self@.attributes,
                    id,
                    self@.attributes.len() as int,
                )
                &&& all_populated(self@.attributes, cs, cs.len() as int)
            },
    {
        let id: i64 = match attribute.attribute_id {
            Some(id) => id,
            None => {
                return Result::Err(ClwmError::AttributeHasNoId);
            },
        };
        proof {
            assert(self@.attributes.len() == self.attributes@.len());
        }
        let children: Vec<Attribute> = if 1 <= id && id <= (self.attributes.len() as i64) {
            self.populate_children_by_attribute(id)
        } else {
            proof {
                lemma_attr_children_empty(self@, id, self@.attributes.len() as int);
            }
            Vec::new()
        };
        proof {
            lemma_attribute_views_bridge(children);
            if children@.len() == 0 {
                assert(views_of(children@) =~= Seq::<AttributeView>::empty());
                assert(stripped_all(views_of(children@)) =~= Seq::<AttributeView>::empty());
                lemma_attr_subtree_of_eq(self@, id, views_of(children@));
            }
            assert(views_of(children@) == attr_subtree_of(self@, id));
        }
        attribute.children = Some(children);
        proof {
            assert(attribute@ == (AttributeView {
                children: Some(attr_subtree_of(self@, id)),
                ..old(attribute)@
            }));
        }
        Result::Ok(())
    }

    /// The populated attributes whose parent noun is `id`, in row order.
    fn populate_children_by_noun(&self, id: i64) -> (r: Vec<Attribute>)
        requires
            self.wf(),
        ensures
            views_of(r@) == noun_subtree_of(self@, id),
            stripped_all(views_of(r@)) == noun_children_upto(
                self@.attributes,
                id,
                self@.attributes.len() as int,
            ),
            all_populated(self@.attributes, views_of(r@), r@.len() as int),
    {
        let ghost table = self@.attributes;
        let mut out: Vec<Attribute> = Vec::new();
        let mut j: usize = 0;
        proof {
            assert(stripped_all(views_of(out@)) =~= noun_children_upto(table, id, 0));
        }
        while j < self.attributes.len()
            invariant
                self.wf(),
                0 <= j <= self.attributes.len(),
                table == self@.attributes,
                table.len() == self.attributes.len(),
                forall|k: int|
                    0 <= k < self.attributes.len() ==> #[trigger] table[k]
                        == self.attributes[k]@,
                stripped_all(views_of(out@)) == noun_children_upto(table, id, j as int),
                all_populated(table, views_of(out@), out@.len() as int),
            decreases self.attributes.len() - j,
        {
            let is_child: bool = match self.attributes[j].parent_noun_id {
                Option::Some(p) => p == id,
                Option::None => false,
            };
            if is_child {
                let mut child = self.attributes[j].clone();
                let cid: i64 = (j as i64) + 1;
                proof {
                    assert(table[j as int].attribute_id matches Some(x) && x as int == j + 1);
                    assert(child.attribute_id == Some(cid));
                }
                let grandchildren = self.populate_children_by_attribute(cid);
                proof {
                    lemma_attribute_views_bridge(grandchildren);
                }
                child.children = Some(grandchildren);
                let ghost prev = views_of(out@);
                proof {
                    assert(is_populated(table, child@));
                    lemma_views_of_push(out@, child);
                }
                out.push(child);
                proof {
                    assert(stripped(child@) == table[j as int]);
                    assert(stripped_all(prev.push(child@)) =~= stripped_all(prev).push(
                        stripped(child@),
                    ));
                    lemma_all_populated_push(table, prev, child@);
                }
            }
            j = j + 1;
        }
        proof {
            lemma_noun_subtree_of_eq(self@, id, views_of(out@));
        }
        out
    }

    /// The populated attributes whose parent attribute is `id`, in row
    /// order; every such row lies strictly after row `id`, so the
    /// recursion descends through strictly later rows.
    fn populate_children_by_attribute(&self, id: i64) -> (r: Vec<Attribute>)
        requires
            self.wf(),
            1 <= id <= self@.attributes.len(),
        ensures
            views_of(r@) == attr_subtree_of(self@, id),
            stripped_all(views_of(r@)) == attr_children_upto(
                self@.attributes,
                id,
                self@.attributes.len() as int,
            ),
            all_populated(self@.attributes, views_of(r@), r@.len() as int),
        decreases self@.attributes.len() - id,
    {
        let ghost table = self@.attributes;
        let mut out: Vec<Attribute> = Vec::new();
        let mut j: usize = 0;
        proof {
            assert(stripped_all(views_of(out@)) =~= attr_children_upto(table, id, 0));
        }
        while j < self.attributes.len()
            invariant
                self.wf(),
                1 <= id <= self@.attributes.len(),
                0 <= j <= self.attributes.len(),
                table == self@.attributes,
                table.len() == self.attributes.len(),
                forall|k: int|
                    0 <= k < self.attributes.len() ==> #[trigger] table[k]
                        == self.attributes[k]@,
                stripped_all(views_of(out@)) == attr_children_upto(table, id, j as int),
                all_populated(table, views_of(out@), out@.len() as int),
            decreases self.attributes.len() - j,
        {
            let is_child: bool = match self.attributes[j].parent_attribute_id {
                Option::Some(p) => p == id,
                Option::None => false,
            };
            if is_child {
                let mut child = self.attributes[j].clone();
                let cid: i64 = (j as i64) + 1;
                proof {
                    assert(table[j as int].attribute_id matches Some(x) && x as int == j + 1);
                    assert(child.attribute_id == Some(cid));
                    assert(table[j as int].parent_attribute_id matches Some(p) ==> 1 <= p <= j);
                    assert(id <= j);
                }
                let grandchildren = self.populate_children_by_attribute(cid);
                proof {
                    lemma_attribute_views_bridge(grandchildren);
                }
                child.children = Some(grandchildren);
                let ghost prev = views_of(out@);
                proof {
                    assert(is_populated(table, child@));
                    lemma_views_of_push(out@, child);
                }
                out.push(child);
                proof {
                    assert(stripped(child@) == table[j as int]);
                    assert(stripped_all(prev.push(child@)) =~= stripped_all(prev).push(
                        stripped(child@),
                    ));
                    lemma_all_populated_push(table, prev, child@);
                }
            }
            j = j + 1;
        }
        proof {
            lemma_attr_subtree_of_eq(self@, id, views_of(out@));
        }
        out
    }

    /// All nouns, as stored.
    pub fn get_all_nouns(&self) -> (r: Vec<Noun>)
        ensures
            views_of(r@) == self@.nouns,
    {
        let mut out: Vec<Noun> = Vec::new();
        let mut i: usize = 0;
        while i < self.nouns.len()
            invariant
                0 <= i <= self.nouns.len(),
                out.len() == i,
                self@.nouns.len() == self.nouns.len(),
                forall|j: int|
                    0 <= j < self.nouns.len() ==> #[trigger] self@.nouns[j] == self.nouns[j]@,
                forall|j: int| 0 <= j < i ==> #[trigger] out[j]@ == self@.nouns[j],
            decreases self.nouns.len() - i,
        {
            let row = self.nouns[i].clone();
            out.push(row);
            i = i + 1;
        }
        proof {
            assert(views_of(out@) =~= self@.nouns);
        }
        out
    }

    /// The noun with the given id, as stored, if any.
    pub fn get_noun_by_id(&self, id: i64) -> (r: Option<Noun>)
        ensures
            r is Some <==> 1 <= id <= self@.nouns.len(),
            r matches Some(n) ==> n@ == self@.nouns[id - 1],
    {
        proof {
            assert(self@.nouns.len() == self.nouns@.len());
        }
        if id < 1 || (id as u64) > (self.nouns.len() as u64) {
            return Option::None;
        }
        let idx: usize = (id as usize) - 1;
        proof {
            assert(self@.nouns[id - 1] == self.nouns@[id - 1].deep_view());
        }
        Option::Some(self.nouns[idx].clone())
    }

    /// All noun types, as stored.
    pub fn get_all_noun_types(&self) -> (r: Vec<NounType>)
        ensures
            views_of(r@) == self@.noun_types,
    {
        let mut out: Vec<NounType> = Vec::new();
        let mut i: usize = 0;
        while i < self.noun_types.len()
            invariant
                0 <= i <= self.noun_types.len(),
                out.len() == i,
                self@.noun_types.len() == self.noun_types.len(),
                forall|j: int|
                    0 <= j < self.noun_types.len() ==> #[trigger] self@.noun_types[j]
                        == self.noun_types[j]@,
                forall|j: int| 0 <= j < i ==> #[trigger] out[j]@ == self@.noun_types[j],
            decreases self.noun_types.len() - i,
        {
            let row = self.noun_types[i].clone();
            out.push(row);
            i = i + 1;
        }
        proof {
            assert(views_of(out@) =~= self@.noun_types);
        }
        out
    }

    /// The noun type with the given id, as stored, if any.
    pub fn get_noun_type_by_id(&self, id: i64) -> (r: Option<NounType>)
        ensures
            r is Some <==> 1 <= id <= self@.noun_types.len(),
            r matches Some(nt) ==> nt@ == self@.noun_types[id - 1],
    {
        proof {
            assert(self@.noun_types.len() == self.noun_types@.len());
        }
        if id < 1 || (id as u64) > (self.noun_types.len() as u64) {
            return Option::None;
        }
        let idx: usize = (id as usize) - 1;
        proof {
            assert(self@.noun_types[id - 1] == self.noun_types@[id - 1].deep_view());
        }
        Option::Some(self.noun_types[idx].clone())
    }

    /// All data type rows, every version of every name, as stored.
    pub fn get_all_data_types(&self) -> (r: Vec<DataType>)
        ensures
            views_of(r@) == self@.data_types,
    {
        let mut out: Vec<DataType> = Vec::new();
        let mut i: usize = 0;
        while i < self.data_types.len()
            invariant
                0 <= i <= self.data_types.len(),
                out.len() == i,
                self@.data_types.len() == self.data_types.len(),
                forall|j: int|
                    0 <= j < self.data_types.len() ==> #[trigger] self@.data_types[j]
                        == self.data_types[j]@,
                forall|j: int| 0 <= j < i ==> #[trigger] out[j]@ == self@.data_types[j],
            decreases self.data_types.len() - i,
        {
            let row = self.data_types[i].clone();
            out.push(row);
            i = i + 1;
        }
        proof {
            assert(views_of(out@) =~= self@.data_types);
        }
        out
    }

    /// The row carrying the latest version of the data type named `name`,
    /// if any row carries that name.
    pub fn get_latest_data_type_by_name(&self, name: String) -> (r: Option<DataType>)
        requires
            self.wf(),
        ensures
            r is Some <==> has_data_type_named(self@, name@),
            r matches Some(dt) ==> {
                &&& dt@.name == name@
                &&& version_of(dt@) == latest_data_type_version(self@.data_types, name@)
                &&& exists|i: int|
                    0 <= i < self@.data_types.len() && #[trigger] self@.data_types[i] == dt@
            },
    {
        let ghost views = self@.data_types;
        let found = self.find_data_type_latest_index(&name);
        proof {
            lemma_latest_version_upto(views, name@, views.len() as int);
        }
        match found {
            Some(i) => {
                proof {
                    assert(self@.data_types[i as int] == self.data_types@[i as int].deep_view());
                }
                Option::Some(self.data_types[i].clone())
            },
            None => Option::None,
        }
    }

    /// All rows of the data type named `name`, every version, in row
    /// order.
    pub fn get_all_data_type_by_name(&self, name: String) -> (r: Vec<DataType>)
        ensures
            views_of(r@) == data_types_named_upto(
                self@.data_types,
                name@,
                self@.data_types.len() as int,
            ),
    {
        let mut out: Vec<DataType> = Vec::new();
        let mut i: usize = 0;
        proof {
            assert(views_of(out@) =~= data_types_named_upto(self@.data_types, name@, 0));
        }
        while i < self.data_types.len()
            invariant
                0 <= i <= self.data_types.len(),
                self@.data_types.len() == self.data_types.len(),
                forall|j: int|
                    0 <= j < self.data_types.len() ==> #[trigger] self@.data_types[j]
                        == self.data_types[j]@,
                views_of(out@) == data_types_named_upto(self@.data_types, name@, i as int),
            decreases self.data_types.len() - i,
        {
            if self.data_types[i].name == name {
                let row = self.data_types[i].clone();
                proof {
                    lemma_views_of_push(out@, row);
                }
                out.push(row);
            }
            i = i + 1;
        }
        out
    }

    /// The attribute type with the given id, as stored, if any.
    pub fn get_attribute_type_by_id(&self, id: i64) -> (r: Option<AttributeType>)
        ensures
            r is Some <==> 1 <= id <= self@.attribute_types.len(),
            r matches Some(at) ==> at@ == self@.attribute_types[id - 1],
    {
        proof {
            assert(self@.attribute_types.len() == self.attribute_types@.len());
        }
        if id < 1 || (id as u64) > (self.attribute_types.len() as u64) {
            return Option::None;
        }
        let idx: usize = (id as usize) - 1;
        proof {
            assert(self@.attribute_types[id - 1] == self.attribute_types@[id - 1].deep_view());
        }
        Option::Some(self.attribute_types[idx].clone())
    }

    /// All attribute types, as stored.
    pub fn get_all_attribute_types(&self) -> (r: Vec<AttributeType>)
        ensures
            views_of(r@) == self@.attribute_types,
    {
        let mut out: Vec<AttributeType> = Vec::new();
        let mut i: usize = 0;
        while i < self.attribute_types.len()
            invariant
                0 <= i <= self.attribute_types.len(),
                out.len() == i,
                self@.attribute_types.len() == self.attribute_types.len(),
                forall|j: int|
                    0 <= j < self.attribute_types.len() ==> #[trigger] self@.attribute_types[j]
                        == self.attribute_types[j]@,
                forall|j: int| 0 <= j < i ==> #[trigger] out[j]@ == self@.attribute_types[j],
            decreases self.attribute_types.len() - i,
        {
            let row = self.attribute_types[i].clone();
            out.push(row);
            i = i + 1;
        }
        proof {
            assert(views_of(out@) =~= self@.attribute_types);
        }
        out
    }

    /// The attribute with the given id, as stored, if any.
    pub fn get_attribute_by_id(&self, id: i64) -> (r: Option<Attribute>)
        ensures
            r is Some <==> 1 <= id <= self@.attributes.len(),
            r matches Some(a) ==> a@ == self@.attributes[id - 1],
    {
        proof {
            assert(self@.attributes.len() == self.attributes@.len());
        }
        if id < 1 || (id as u64) > (self.attributes.len() as u64) {
            return Option::None;
        }
        let idx: usize = (id as usize) - 1;
        proof {
            assert(self@.attributes[id - 1] == self.attributes@[id - 1].deep_view());
        }
        Option::Some(self.attributes[idx].clone())
    }

    /// All attributes, as stored.
    pub fn get_all_attributes(&self) -> (r: Vec<Attribute>)
        ensures
            views_of(r@) == self@.attributes,
    {
        let mut out: Vec<Attribute> = Vec::new();
        let mut i: usize = 0;
        while i < self.attributes.len()
            invariant
                0 <= i <= self.attributes.len(),
                out.len() == i,
                self@.attributes.len() == self.attributes.len(),
                forall|j: int|
                    0 <= j < self.attributes.len() ==> #[trigger] self@.attributes[j]
                        == self.attributes[j]@,
                forall|j: int| 0 <= j < i ==> #[trigger] out[j]@ == self@.attributes[j],
            decreases self.attributes.len() - i,
        {
            let row = self.attributes[i].clone();
            out.push(row);
            i = i + 1;
        }
        proof {
            assert(views_of(out@) =~= self@.attributes);
        }
        out
    }

    /// All noun history rows, in the order they were written.
    pub fn get_all_noun_histories(&self) -> (r: Vec<NounHistory>)
        ensures
            views_of(r@) == self@.noun_histories,
    {
        let mut out: Vec<NounHistory> = Vec::new();
        let mut i: usize = 0;
        while i < self.noun_histories.len()
            invariant
                0 <= i <= self.noun_histories.len(),
                out.len() == i,
                self@.noun_histories.len() == self.noun_histories.len(),
                forall|j: int|
                    0 <= j < self.noun_histories.len() ==> #[trigger] self@.noun_histories[j]
                        == self.noun_histories[j]@,
                forall|j: int| 0 <= j < i ==> #[trigger] out[j]@ == self@.noun_histories[j],
            decreases self.noun_histories.len() - i,
        {
            let row = self.noun_histories[i].clone();
            out.push(row);
            i = i + 1;
        }
        proof {
            assert(views_of(out@) =~= self@.noun_histories);
        }
        out
    }

    /// All attribute history rows, in the order they were written.
    pub fn get_all_attribute_histories(&self) -> (r: Vec<AttributeHistory>)
        ensures
            views_of(r@) == self@.attribute_histories,
    {
        let mut out: Vec<AttributeHistory> = Vec::new();
        let mut i: usize = 0;
        while i < self.attribute_histories.len()
            invariant
                0 <= i <= self.attribute_histories.len(),
                out.len() == i,
                self@.attribute_histories.len() == self.attribute_histories.len(),
                forall|j: int|
                    0 <= j < self.attribute_histories.len()
                        ==> #[trigger] self@.attribute_histories[j]
                        == self.attribute_histories[j]@,
                forall|j: int| 0 <= j < i ==> #[trigger] out[j]@ == self@.attribute_histories[j],
            decreases self.attribute_histories.len() - i,
        {
            let row = self.attribute_histories[i].clone();
            out.push(row);
            i = i + 1;
        }
        proof {
            assert(views_of(out@) =~= self@.attribute_histories);
        }
        out
    }

    /// Whether any stored attribute hangs under the noun `parent` with the
    /// attribute type `atid`.
    fn exists_attribute_with_noun_parent(&self, parent: i64, atid: i64) -> (r: bool)
        ensures
            r == attribute_with_noun_parent(self@, parent, atid),
    {
        let mut i: usize = 0;
        while i < self.attributes.len()
            invariant
                0 <= i <= self.attributes.len(),
                self@.attributes.len() == self.attributes.len(),
                forall|j: int|
                    0 <= j < self.attributes.len() ==> #[trigger] self@.attributes[j]
                        == self.attributes[j]@,
                forall|j: int|
                    0 <= j < i ==> !((#[trigger] self@.attributes[j]).parent_noun_id == Some(
                        parent,
                    ) && self@.attributes[j].attribute_type_id == atid),
            decreases self.attributes.len() - i,
        {
            let same_parent: bool = match self.attributes[i].parent_noun_id {
                Option::Some(p) => p == parent,
                Option::None => false,
            };
            if same_parent && self.attributes[i].attribute_type_id == atid {
                proof {
                    assert((self@.attributes[i as int]).parent_noun_id == Some(parent)
                        && self@.attributes[i as int].attribute_type_id == atid);
                }
                return true;
            }
            i = i + 1;
        }
        false
    }

    /// Whether any stored attribute hangs under the attribute `parent`
    /// with the attribute type `atid`.
    fn exists_attribute_with_attribute_parent(&self, parent: i64, atid: i64) -> (r: bool)
        ensures
            r == attribute_with_attribute_parent(self@, parent, atid),
    {
        let mut i: usize = 0;
        while i < self.attributes.len()
            invariant
                0 <= i <= self.attributes.len(),
                self@.attributes.len() == self.attributes.len(),
                forall|j: int|
                    0 <= j < self.attributes.len() ==> #[trigger] self@.attributes[j]
                        == self.attributes[j]@,
                forall|j: int|
                    0 <= j < i ==> !((#[trigger] self@.attributes[j]).parent_attribute_id == Some(
                        parent,
                    ) && self@.attributes[j].attribute_type_id == atid),
            decreases self.attributes.len() - i,
        {
            let same_parent: bool = match self.attributes[i].parent_attribute_id {
                Option::Some(p) => p == parent,
                Option::None => false,
            };
            if same_parent && self.attributes[i].attribute_type_id == atid {
                proof {
                    assert((self@.attributes[i as int]).parent_attribute_id == Some(parent)
                        && self@.attributes[i as int].attribute_type_id == atid);
                }
                return true;
            }
            i = i + 1;
        }
        false
    }

    /// Finds the position of the data type row carrying `name` at version
    /// `version`, if any.
    fn find_data_type_version_index(&self, name: &String, version: i64) -> (r: Option<usize>)
        ensures
            match r {
                Some(i) => {
                    &&& i < self@.data_types.len()
                    &&& self@.data_types[i as int].name == name@
                    &&& (self@.data_types[i as int].version matches Some(x) && x == version)
                },
                None => !has_data_type_version(self@.data_types, name@, version as int),
            },
    {
        let mut i: usize = 0;
        while i < self.data_types.len()
            invariant
                0 <= i <= self.data_types.len(),
                self@.data_types.len() == self.data_types.len(),
                forall|j: int|
                    0 <= j < self.data_types.len() ==> #[trigger] self@.data_types[j]
                        == self.data_types[j]@,
                forall|j: int|
                    0 <= j < i ==> !((#[trigger] self@.data_types[j]).name == name@ && (
                    self@.data_types[j].version matches Some(x) && x == version)),
            decreases self.data_types.len() - i,
        {
            let version_matches: bool = match self.data_types[i].version {
                Option::Some(v) => v == version,
                Option::None => false,
            };
            if version_matches && self.data_types[i].name == *name {
                return Some(i);
            }
            i = i + 1;
        }
        None
    }

    /// Finds the position of the attribute type named `name`, if any.
    fn find_attribute_type_index_by_name(&self, name: &String) -> (r: Option<usize>)
        ensures
            match r {
                Some(i) => i < self@.attribute_types.len() && self@.attribute_types[
                    i as int
                ].attribute_name == name@,
                None => !has_attribute_type_named(self@, name@),
            },
    {
        let mut i: usize = 0;
        while i < self.attribute_types.len()
            invariant
                0 <= i <= self.attribute_types.len(),
                self@.attribute_types.len() == self.attribute_types.len(),
                forall|j: int|
                    0 <= j < self.attribute_types.len() ==> #[trigger] self@.attribute_types[j]
                        == self.attribute_types[j]@,
                forall|j: int|
                    0 <= j < i ==> (#[trigger] self@.attribute_types[j]).attribute_name != name@,
            decreases self.attribute_types.len() - i,
        {
            if self.attribute_types[i].attribute_name == *name {
                return Some(i);
            }
            i = i + 1;
        }
        None
    }

    /// Finds the position of the noun type named `name`, if any.
    fn find_noun_type_index_by_name(&self, name: &String) -> (r: Option<usize>)
        ensures
            match r {
                Some(i) => i < self@.noun_types.len() && self@.noun_types[i as int].noun_type
                    == name@,
                None => !has_noun_type_named(self@, name@),
            },
    {
        let mut i: usize = 0;
        while i < self.noun_types.len()
            invariant
                0 <= i <= self.noun_types.len(),
                self@.noun_types.len() == self.noun_types.len(),
                forall|j: int|
                    0 <= j < self.noun_types.len() ==> #[trigger] self@.noun_types[j]
                        == self.noun_types[j]@,
                forall|j: int| 0 <= j < i ==> (#[trigger] self@.noun_types[j]).noun_type != name@,
            decreases self.noun_types.len() - i,
        {
            if self.noun_types[i].noun_type == *name {
                return Some(i);
            }
            i = i + 1;
        }
        None
    }
}


/// Whether two optional ids are the same.
fn opt_i64_eq(a: Option<i64>, b: Option<i64>) -> (r: bool)
    ensures
        r == (a == b),
{
    match (a, b) {
        (Option::None, Option::None) => true,
        (Option::Some(x), Option::Some(y)) => x == y,
        _ => false,
    }
}

} // verus!
