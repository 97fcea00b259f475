//! JSON objects whose members are texts and numbers.
use vstd::prelude::*;

use crate::text::same_text;

verus! {

/// A text or a whole number in JSON.
#[derive(Debug)]
pub enum JsonScalar {
    Text(String),
    Number(u64),
}

/// The contents of a [`JsonScalar`].
pub enum JsonScalarView {
    Text(Seq<char>),
    Number(u64),
}

impl View for JsonScalar {
    type V = JsonScalarView;

    open spec fn view(&self) -> JsonScalarView {
        match self {
            JsonScalar::Text(text) => JsonScalarView::Text(text@),
            JsonScalar::Number(number) => JsonScalarView::Number(*number),
        }
    }
}

/// A member of an object: its name, and its value where that is a text or a whole number
/// that fits in 64 bits.
pub type JsonMember = (String, Option<JsonScalar>);

/// The contents of a [`JsonMember`].
pub type JsonMemberView = (Seq<char>, Option<JsonScalarView>);

/// The contents of one member.
pub open spec fn member_view(member: JsonMember) -> JsonMemberView {
    (
        member.0@,
        match member.1 {
            Some(value) => Some(value@),
            None => None,
        },
    )
}

/// The contents of a row of members.
pub open spec fn member_views(members: Seq<JsonMember>) -> Seq<JsonMemberView> {
    members.map_values(|member: JsonMember| member_view(member))
}

/// The contents of a row of members that all have a value.
pub open spec fn scalar_views(members: Seq<(String, JsonScalar)>) -> Seq<JsonMemberView> {
    members.map_values(|member: (String, JsonScalar)| (member.0@, Some(member.1@)))
}

/// Whether no name occurs twice.
pub open spec fn distinct_names(members: Seq<JsonMemberView>) -> bool {
    forall|i: int, j: int|
        0 <= i < j < members.len() ==> (#[trigger] members[i]).0 != (#[trigger] members[j]).0
}

/// The members by name.
pub open spec fn by_name(members: Seq<JsonMemberView>) -> Map<Seq<char>, Option<JsonScalarView>>
    decreases members.len(),
{
    if members.len() == 0 {
        Map::empty()
    } else {
        by_name(members.drop_last()).insert(members.last().0, members.last().1)
    }
}

/// The compact JSON text of an object with the given members, in their order.
pub uninterp spec fn json_object_text(members: Seq<JsonMemberView>) -> Seq<char>;

/// The members of the object that a JSON text holds; `None` where the text is not JSON or
/// holds something else.
pub uninterp spec fn json_object_members(text: Seq<char>) -> Option<
    Map<Seq<char>, Option<JsonScalarView>>,
>;

/// The text that a JSON object has under `name`.
pub open spec fn text_under(text: Seq<char>, name: Seq<char>) -> Option<Seq<char>> {
    match json_object_members(text) {
        Some(members) => if members.contains_key(name) {
            match members[name] {
                Some(JsonScalarView::Text(value)) => Some(value),
                _ => None,
            }
        } else {
            None
        },
        None => None,
    }
}

/// Calls `serde::Serializer::collect_map` on the JSON serializer: the text depends on the
/// members and their order alone, and read as JSON it holds exactly these members.
#[verifier::external_body]
pub(crate) fn write_json_object(members: &Vec<(String, JsonScalar)>) -> (text: String)
    requires
        distinct_names(scalar_views(members@)),
    ensures
        text@ == json_object_text(scalar_views(members@)),
        json_object_members(text@) == Some(by_name(scalar_views(members@))),
{
    let mut bytes: Vec<u8> = Vec::new();
    let entries = members.iter().map(|member| match &member.1 {
        JsonScalar::Text(text) => (&member.0, serde_json::Value::from(text.as_str())),
        JsonScalar::Number(number) => (&member.0, serde_json::Value::from(*number)),
    });
    serde::Serializer::collect_map(&mut serde_json::Serializer::new(&mut bytes), entries).unwrap();
    String::from_utf8(bytes).unwrap()
}

/// Calls `serde_json::from_str`, asking for a `serde_json::Value`: what it finds depends on
/// the text alone, and an object holds each name once.
#[verifier::external_body]
fn read_json_object(text: &str) -> (members: Option<Vec<JsonMember>>)
    ensures
        match members {
            Some(members) => {
                &&& distinct_names(member_views(members@))
                &&& json_object_members(text@) == Some(by_name(member_views(members@)))
            },
            None => json_object_members(text@) is None,
        },
{
    match serde_json::from_str(text) {
        Ok(serde_json::Value::Object(members)) => Some(members.into_iter().map(|member| match member {
            (name, serde_json::Value::String(text)) => (name, Some(JsonScalar::Text(text))),
            (name, serde_json::Value::Number(n)) => (name, n.as_u64().map(JsonScalar::Number)),
            (name, _) => (name, None),
        }).collect()),
        _ => None,
    }
}

/// Under distinct names, the members by name are the given ones.
pub proof fn lemma_by_name(members: Seq<JsonMemberView>)
    requires
        distinct_names(members),
    ensures
        forall|i: int|
            0 <= i < members.len() ==> by_name(members).contains_key((#[trigger] members[i]).0)
                && by_name(members)[members[i].0] == members[i].1,
        forall|name: Seq<char>| #[trigger]
            by_name(members).contains_key(name) ==> exists|i: int|
                0 <= i < members.len() && (#[trigger] members[i]).0 == name,
    decreases members.len(),
{
    if members.len() > 0 {
        let rest = members.drop_last();
        assert forall|i: int, j: int| 0 <= i < j < rest.len() implies (#[trigger] rest[i]).0 != (
        #[trigger] rest[j]).0 by {
            assert(members[i].0 != members[j].0);
        }
        lemma_by_name(rest);
        assert forall|i: int| 0 <= i < members.len() implies by_name(members).contains_key(
            (#[trigger] members[i]).0,
        ) && by_name(members)[members[i].0] == members[i].1 by {
            if i < rest.len() {
                assert(rest[i] == members[i]);
                assert(members[i].0 != members[members.len() - 1].0);
            }
        }
        assert forall|name: Seq<char>| #[trigger]
            by_name(members).contains_key(name) implies exists|i: int|
            0 <= i < members.len() && (#[trigger] members[i]).0 == name by {
            if name == members.last().0 {
                assert(members[members.len() - 1].0 == name);
            } else {
                assert(by_name(rest).contains_key(name));
                let i = choose|i: int| 0 <= i < rest.len() && (#[trigger] rest[i]).0 == name;
                assert(members[i].0 == name);
            }
        }
    }
}

/// The text that a JSON object has under `name`.
pub fn json_text_under(text: &str, name: &str) -> (value: Option<String>)
    ensures
        match value {
            Some(value) => text_under(text@, name@) == Some(value@),
            None => text_under(text@, name@) is None,
        },
{
    let members = match read_json_object(text) {
        Some(members) => members,
        None => {
            return None;
        },
    };
    let ghost views = member_views(members@);
    proof {
        lemma_by_name(views);
    }
    for i in 0..members.len()
        invariant
            views == member_views(members@),
            distinct_names(views),
            json_object_members(text@) == Some(by_name(views)),
            forall|j: int|
                0 <= j < views.len() ==> by_name(views).contains_key((#[trigger] views[j]).0)
                    && by_name(views)[views[j].0] == views[j].1,
            forall|key: Seq<char>| #[trigger]
                by_name(views).contains_key(key) ==> exists|j: int|
                    0 <= j < views.len() && (#[trigger] views[j]).0 == key,
            forall|j: int| 0 <= j < i ==> (#[trigger] views[j]).0 != name@,
    {
        let member = &members[i];
        assert(views[i as int] == member_view(*member));
        if same_text(member.0.as_str(), name) {
            return match &member.1 {
                Some(JsonScalar::Text(value)) => Some(value.clone()),
                _ => None,
            };
        }
    }
    None
}

/// The text that was written under a name is read back under it, and nothing under a name that
/// was not written or was written with a number.
pub proof fn written_text_is_read_back(
    text: Seq<char>,
    members: Seq<JsonMemberView>,
    name: Seq<char>,
)
    requires
        distinct_names(members),
        json_object_members(text) == Some(by_name(members)),
    ensures
        forall|i: int|
            0 <= i < members.len() && (#[trigger] members[i]).0 == name ==> text_under(text, name)
                == (match members[i].1 {
                Some(JsonScalarView::Text(value)) => Some(value),
                _ => None,
            }),
        (forall|i: int| 0 <= i < members.len() ==> (#[trigger] members[i]).0 != name)
            ==> text_under(text, name) is None,
{
    lemma_by_name(members);
}

/// A text that is no JSON object has nothing under any name.
pub proof fn no_object_holds_nothing(text: Seq<char>, name: Seq<char>)
    requires
        json_object_members(text) is None,
    ensures
        text_under(text, name) is None,
{
}

} // verus!
