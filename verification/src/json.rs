//! JSON documents as plain values.

use vstd::prelude::*;

verus! {

/// A JSON value. A number is kept as the text that writes it; the members
/// of an object are kept in the order in which the parser hands them out,
/// each name once.
#[derive(Debug)]
pub enum Json {
    Null,
    Bool(bool),
    Number(String),
    Str(String),
    Array(Vec<Json>),
    Object(Vec<(String, Json)>),
}

/// A JSON value as a mathematical value.
pub enum JsonView {
    Null,
    Bool(bool),
    Number(Seq<char>),
    Str(Seq<char>),
    Array(Seq<JsonView>),
    Object(Seq<(Seq<char>, JsonView)>),
}

/// The value of a JSON value.
pub open spec fn json_view(json: Json) -> JsonView
    decreases json,
{
    match json {
        Json::Null => JsonView::Null,
        Json::Bool(b) => JsonView::Bool(b),
        Json::Number(n) => JsonView::Number(n@),
        Json::Str(s) => JsonView::Str(s@),
        Json::Array(items) => JsonView::Array(
            Seq::new(
                items@.len(),
                |i: int|
                    if 0 <= i < items@.len() {
                        json_view(items@[i])
                    } else {
                        JsonView::Null
                    },
            ),
        ),
        Json::Object(members) => JsonView::Object(
            Seq::new(
                members@.len(),
                |i: int|
                    if 0 <= i < members@.len() {
                        (members@[i].0@, json_view(members@[i].1))
                    } else {
                        (Seq::empty(), JsonView::Null)
                    },
            ),
        ),
    }
}

impl View for Json {
    type V = JsonView;

    open spec fn view(&self) -> JsonView {
        json_view(*self)
    }
}

/// serde_json's value type, which is only carried from the parser to the
/// conversion below.
#[verifier::external_type_specification]
#[verifier::external_body]
pub struct ExValue(serde_json::Value);

/// The value that serde_json reads from a text, `None` where it reports an
/// error.
pub uninterp spec fn json_read(text: Seq<char>) -> Option<serde_json::Value>;

/// What a value of serde_json holds.
pub uninterp spec fn value_json(value: serde_json::Value) -> JsonView;

/// Calls `serde_json::from_str` for a `Value`. Nothing is claimed of which
/// texts it accepts or of what it reads from them: the outcome is only named.
#[verifier::external_body]
fn read_value(text: &str) -> (value: Option<serde_json::Value>)
    ensures
        value == json_read(text@),
{
    serde_json::from_str::<serde_json::Value>(text).ok()
}

/// Copies a `serde_json::Value` into a `Json`, variant by variant: a number
/// through its `Display`, the items of an array and the members of an
/// object in the order of their iterators. What the value holds is only
/// named.
#[verifier::external_body]
fn json_of_value(value: &serde_json::Value) -> (json: Json)
    ensures
        json@ == value_json(*value),
{
    match value {
        serde_json::Value::Null => Json::Null,
        serde_json::Value::Bool(b) => Json::Bool(*b),
        serde_json::Value::Number(n) => Json::Number(n.to_string()),
        serde_json::Value::String(s) => Json::Str(s.clone()),
        serde_json::Value::Array(items) => Json::Array(items.iter().map(json_of_value).collect()),
        serde_json::Value::Object(members) => Json::Object(
            members.iter().map(|(name, member)| (name.clone(), json_of_value(member))).collect(),
        ),
    }
}

/// The JSON document that a text writes, `None` where it writes none.
pub open spec fn json_document(text: Seq<char>) -> Option<JsonView> {
    match json_read(text) {
        Some(value) => Some(value_json(value)),
        None => None,
    }
}

/// The value of an optional JSON value.
pub open spec fn opt_json(json: Option<Json>) -> Option<JsonView> {
    match json {
        Some(j) => Some(j@),
        None => None,
    }
}

/// The value of an optional borrowed JSON value.
pub open spec fn opt_json_ref(json: Option<&Json>) -> Option<JsonView> {
    match json {
        Some(j) => Some(j@),
        None => None,
    }
}

/// Reads a JSON document.
pub fn parse_json(text: &str) -> (json: Option<Json>)
    ensures
        opt_json(json) == json_document(text@),
{
    match read_value(text) {
        Some(value) => Some(json_of_value(&value)),
        None => None,
    }
}

/// The first of the members from the `i`-th on that has the name `name`.
pub open spec fn find_member(
    members: Seq<(Seq<char>, JsonView)>,
    name: Seq<char>,
    i: int,
) -> Option<JsonView>
    decreases members.len() - i,
{
    if i < 0 || i >= members.len() {
        None
    } else if members[i].0 == name {
        Some(members[i].1)
    } else {
        find_member(members, name, i + 1)
    }
}

impl JsonView {
    /// The member `name` of an object; `None` for what is no object or has
    /// no such member.
    pub open spec fn member(self, name: Seq<char>) -> Option<JsonView> {
        match self {
            JsonView::Object(members) => find_member(members, name, 0),
            _ => None,
        }
    }

    /// The text of a string; `None` for what is no string.
    pub open spec fn text(self) -> Option<Seq<char>> {
        match self {
            JsonView::Str(s) => Some(s),
            _ => None,
        }
    }

    /// The text of the member `name`, where that member is a string.
    pub open spec fn text_member(self, name: Seq<char>) -> Option<Seq<char>> {
        match self.member(name) {
            Some(m) => m.text(),
            None => None,
        }
    }
}

/// The value of an object lists the names and values of its members.
pub proof fn lemma_object_view(json: &Json, members: &Vec<(String, Json)>)
    requires
        *json == Json::Object(*members),
    ensures
        json@ == JsonView::Object(member_views(members@)),
{
    assert(json@->Object_0 =~= member_views(members@));
}

impl Json {
    /// The member `name` of an object.
    pub fn member(&self, name: &str) -> (r: Option<&Json>)
        ensures
            opt_json_ref(r) == self@.member(name@),
    {
        match self {
            Json::Object(members) => {
                let wanted = String::from_str(name);
                let mut i: usize = 0;
                proof {
                    lemma_object_view(self, members);
                }
                while i < members.len()
                    invariant
                        i <= members.len(),
                        wanted@ == name@,
                        self@ == JsonView::Object(member_views(members@)),
                        find_member(member_views(members@), name@, 0) == find_member(
                            member_views(members@),
                            name@,
                            i as int,
                        ),
                    decreases members.len() - i,
                {
                    if members[i].0 == wanted {
                        return Some(&members[i].1);
                    }
                    i += 1;
                }
                None
            },
            _ => None,
        }
    }

    /// The text of a string.
    pub fn text(&self) -> (r: Option<&String>)
        ensures
            match self@.text() {
                Some(t) => r matches Some(s) && s@ == t,
                None => r is None,
            },
    {
        match self {
            Json::Str(s) => Some(s),
            _ => None,
        }
    }

    /// A string of the text `text`.
    pub fn string(text: &str) -> (json: Json)
        ensures
            json@ == JsonView::Str(text@),
    {
        Json::Str(String::from_str(text))
    }

    /// An object of the given members.
    pub fn object(members: Vec<(String, Json)>) -> (json: Json)
        ensures
            json@ == JsonView::Object(member_views(members@)),
    {
        let json = Json::Object(members);
        proof {
            lemma_object_view(&json, &members);
        }
        json
    }
}

/// The names and values of the members of an object.
pub open spec fn member_views(members: Seq<(String, Json)>) -> Seq<(Seq<char>, JsonView)> {
    Seq::new(members.len(), |i: int| (members[i].0@, members[i].1@))
}

} // verus!
