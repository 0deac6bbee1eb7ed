//! JSON objects with plain members, written and read by `serde_json`.
use vstd::prelude::*;

verus! {

/// The value of a member that is written.
#[derive(Debug)]
pub enum Field {
    Number(u64),
    Flag(bool),
    Text(String),
}

/// What a field holds.
pub enum FieldView {
    Number(u64),
    Flag(bool),
    Text(Seq<char>),
}

impl View for Field {
    type V = FieldView;

    open spec fn view(&self) -> FieldView {
        match *self {
            Field::Number(value) => FieldView::Number(value),
            Field::Flag(value) => FieldView::Flag(value),
            Field::Text(value) => FieldView::Text(value@),
        }
    }
}

/// The value of a member that was read. A number that is not an unsigned
/// integer has no value here, and nor have the elements of arrays and objects.
#[derive(Debug)]
pub enum Member {
    Null,
    Flag(bool),
    Number(Option<u64>),
    Text(String),
    Array,
    Object,
}

/// What a member holds.
pub enum MemberView {
    Null,
    Flag(bool),
    Number(Option<u64>),
    Text(Seq<char>),
    Array,
    Object,
}

impl View for Member {
    type V = MemberView;

    open spec fn view(&self) -> MemberView {
        match *self {
            Member::Null => MemberView::Null,
            Member::Flag(value) => MemberView::Flag(value),
            Member::Number(value) => MemberView::Number(value),
            Member::Text(value) => MemberView::Text(value@),
            Member::Array => MemberView::Array,
            Member::Object => MemberView::Object,
        }
    }
}

/// The names and values of fields.
pub open spec fn field_views(fields: Seq<(&'static str, Field)>) -> Seq<(Seq<char>, FieldView)> {
    fields.map_values(|field: (&'static str, Field)| (field.0@, field.1@))
}

/// The names and values of members.
pub open spec fn member_views(members: Seq<(String, Member)>) -> Seq<(Seq<char>, MemberView)> {
    members.map_values(|member: (String, Member)| (member.0@, member.1@))
}

/// No two fields have the same name.
pub open spec fn distinct_names(fields: Seq<(Seq<char>, FieldView)>) -> bool {
    forall|i: int, j: int| 0 <= i < j < fields.len() ==> #[trigger] fields[i].0 != #[trigger] fields[j].0
}

/// The member that a written field is read as.
pub open spec fn as_member(field: (Seq<char>, FieldView)) -> (Seq<char>, MemberView) {
    (
        field.0,
        match field.1 {
            FieldView::Number(value) => MemberView::Number(Some(value)),
            FieldView::Flag(value) => MemberView::Flag(value),
            FieldView::Text(value) => MemberView::Text(value),
        },
    )
}

/// The compact text of an object with the given fields, in their order.
pub uninterp spec fn json_object(fields: Seq<(Seq<char>, FieldView)>) -> Seq<u8>;

/// The members of the object that a text stands for, each name once and in the
/// order in which `serde_json` keeps them; nothing for a text that is not JSON
/// or stands for something else than an object.
pub uninterp spec fn json_members(json: Seq<u8>) -> Option<Seq<(Seq<char>, MemberView)>>;

/// The members that a text is read as are the given fields, in any order.
pub open spec fn is_read_as(json: Seq<u8>, fields: Seq<(Seq<char>, FieldView)>) -> bool {
    &&& json_members(json) is Some
    &&& json_members(json)->0.len() == fields.len()
    &&& forall|i: int|
        0 <= i < fields.len() ==> json_members(json)->0.contains(as_member(#[trigger] fields[i]))
}

/// `serde_json::Serializer`, which writes the fields as the entries of a map.
/// Writing to memory cannot fail for names and values of these types. Fields
/// with distinct names are all there when the text is read again, and nothing
/// else is.
#[verifier::external_body]
pub(crate) fn write_object(fields: &Vec<(&'static str, Field)>) -> (json: Option<Vec<u8>>)
    ensures
        json is Some,
        json->0@ == json_object(field_views(fields@)),
        distinct_names(field_views(fields@)) ==> is_read_as(json->0@, field_views(fields@)),
{
    let mut text = Vec::new();
    let mut serializer = serde_json::Serializer::new(&mut text);
    let entries = fields.iter().map(|(name, value)| match value {
        Field::Number(value) => (name, serde_json::Value::from(*value)),
        Field::Flag(value) => (name, serde_json::Value::from(*value)),
        Field::Text(value) => (name, serde_json::Value::from(value.as_str())),
    });
    serde::Serializer::collect_map(&mut serializer, entries).ok()?;
    Some(text)
}

/// `serde_json::from_slice` into a `serde_json::Value`, of which an object's
/// members are handed on. A name stands in an object once.
#[verifier::external_body]
pub(crate) fn read_object(json: &[u8]) -> (members: Option<Vec<(String, Member)>>)
    ensures
        match members {
            Some(read) => json_members(json@) == Some(member_views(read@)),
            None => json_members(json@) is None,
        },
        members matches Some(read) ==> forall|i: int, j: int|
            0 <= i < j < read@.len() ==> #[trigger] read@[i].0@ != #[trigger] read@[j].0@,
{
    let value: serde_json::Value = serde_json::from_slice(json).ok()?;
    let members = value.as_object()?.iter().map(|(name, value)| match value {
        serde_json::Value::Null => (name.clone(), Member::Null),
        serde_json::Value::Bool(value) => (name.clone(), Member::Flag(*value)),
        serde_json::Value::Number(value) => (name.clone(), Member::Number(value.as_u64())),
        serde_json::Value::String(value) => (name.clone(), Member::Text(value.clone())),
        serde_json::Value::Array(_) => (name.clone(), Member::Array),
        serde_json::Value::Object(_) => (name.clone(), Member::Object),
    });
    Some(members.collect())
}

/// The fields of an object that is written, and the members of one that is
/// read, are seen whole and in their order.
pub proof fn objects_are_seen_whole(
    fields: Seq<(&'static str, Field)>,
    members: Seq<(String, Member)>,
)
    ensures
        field_views(fields).len() == fields.len(),
        forall|i: int|
            0 <= i < fields.len() ==> {
                let seen = #[trigger] field_views(fields)[i];
                &&& seen.0 == fields[i].0@
                &&& fields[i].1 matches Field::Number(value) ==> seen.1 == FieldView::Number(value)
                &&& fields[i].1 matches Field::Flag(value) ==> seen.1 == FieldView::Flag(value)
                &&& fields[i].1 matches Field::Text(value) ==> seen.1 == FieldView::Text(value@)
            },
        member_views(members).len() == members.len(),
        forall|i: int|
            0 <= i < members.len() ==> {
                let seen = #[trigger] member_views(members)[i];
                &&& seen.0 == members[i].0@
                &&& members[i].1 is Null ==> seen.1 is Null
                &&& members[i].1 matches Member::Flag(value) ==> seen.1 == MemberView::Flag(value)
                &&& members[i].1 matches Member::Number(value) ==> seen.1 == MemberView::Number(
                    value,
                )
                &&& members[i].1 matches Member::Text(value) ==> seen.1 == MemberView::Text(value@)
                &&& members[i].1 is Array ==> seen.1 is Array
                &&& members[i].1 is Object ==> seen.1 is Object
            },
{
}

} // verus!
