//! JSON values as plain data: what the modules read of their configuration and
//! of token claims.
use vstd::prelude::*;

use crate::text;

verus! {

/// A JSON number, as the two readings that the modules make of it.
#[derive(Clone, Copy, Debug, PartialEq, Eq)]
pub struct Numeral {
    /// The value, where the number is a non-negative integer that fits.
    pub unsigned: Option<u64>,
    /// The bits of the double-precision value (IEEE 754 binary64) that the parser
    /// gives for the number.
    pub float_bits: Option<u64>,
}

/// A JSON value without its notation.
#[derive(Debug)]
pub enum Node {
    Null,
    Bool(bool),
    Number(Numeral),
    Text(String),
    Array(Vec<Json>),
    /// The members of an object, in the order in which the parser walks them.
    Object(Vec<(String, Json)>),
}

/// A JSON value together with its compact notation.
#[derive(Debug)]
pub struct Json {
    /// The compact JSON text of the value, for error messages.
    pub text: String,
    pub node: Node,
}

/// The mathematical reading of [`Node`].
pub enum NodeModel {
    Null,
    Bool(bool),
    Number(Numeral),
    Text(Seq<char>),
    Array(Seq<JsonModel>),
    Object(Seq<(Seq<char>, JsonModel)>),
}

/// The mathematical reading of [`Json`].
pub struct JsonModel {
    pub text: Seq<char>,
    pub node: NodeModel,
}

impl Json {
    pub open spec fn model(self) -> JsonModel
        decreases self,
    {
        JsonModel { text: self.text@, node: self.node.model() }
    }
}

impl Node {
    pub open spec fn model(self) -> NodeModel
        decreases self,
    {
        match self {
            Node::Null => NodeModel::Null,
            Node::Bool(b) => NodeModel::Bool(b),
            Node::Number(n) => NodeModel::Number(n),
            Node::Text(s) => NodeModel::Text(s@),
            Node::Array(items) => NodeModel::Array(
                Seq::new(
                    items@.len(),
                    |i: int|
                        if 0 <= i < items@.len() {
                            items@[i].model()
                        } else {
                            arbitrary()
                        },
                ),
            ),
            Node::Object(members) => NodeModel::Object(
                Seq::new(
                    members@.len(),
                    |i: int|
                        if 0 <= i < members@.len() {
                            (members@[i].0@, members@[i].1.model())
                        } else {
                            arbitrary()
                        },
                ),
            ),
        }
    }
}

impl View for Json {
    type V = JsonModel;

    open spec fn view(&self) -> JsonModel {
        self.model()
    }
}

// ---------------------------------------------------------------------------
// The parser
// ---------------------------------------------------------------------------

/// `serde_json::Value`, carried between the calls below.
#[verifier::external_type_specification]
#[verifier::external_body]
pub struct ExValue(serde_json::Value);

/// `serde_json::Number`, carried between the calls below.
#[verifier::external_type_specification]
#[verifier::external_body]
pub struct ExNumber(serde_json::Number);

/// What a `serde_json::Value` holds.
pub uninterp spec fn json_contents(value: serde_json::Value) -> JsonModel;

/// What a `serde_json::Number` holds.
pub uninterp spec fn number_contents(number: serde_json::Number) -> Numeral;

/// What `serde_json::from_slice` reads from a text: a value, or nothing where
/// the bytes are not one JSON document.
pub uninterp spec fn json_document(bytes: Seq<u8>) -> Option<JsonModel>;

/// `serde_json::from_slice::<serde_json::Value>`: the value that it parses, or
/// `None` for its error.
#[verifier::external_body]
fn parse_value(bytes: &[u8]) -> (r: Option<serde_json::Value>)
    ensures
        match r {
            Some(value) => json_document(bytes@) == Some(json_contents(value)),
            None => json_document(bytes@) is None,
        },
{
    serde_json::from_slice(bytes).ok()
}

/// The notation of a `serde_json::Value`: what it displays, which is compact
/// JSON text.
#[verifier::external_body]
fn notation(value: &serde_json::Value) -> (r: String)
    ensures
        r@ == json_contents(*value).text,
{
    value.to_string()
}

/// The two readings of a `serde_json::Number`: `Number::as_u64` and the bits of
/// `Number::as_f64`.
#[verifier::external_body]
fn readings(number: &serde_json::Number) -> (r: Numeral)
    ensures
        r == number_contents(*number),
{
    Numeral { unsigned: number.as_u64(), float_bits: number.as_f64().map(|x| x.to_bits()) }
}

/// One level of a `serde_json::Value`.
enum Opened<'a> {
    Null,
    Bool(bool),
    Number(&'a serde_json::Number),
    Text(&'a String),
    Array(&'a Vec<serde_json::Value>),
    Object(Vec<(&'a String, &'a serde_json::Value)>),
}

impl<'a> Opened<'a> {
    /// What the value holds, given what its parts hold.
    spec fn contents(self) -> NodeModel {
        match self {
            Opened::Null => NodeModel::Null,
            Opened::Bool(b) => NodeModel::Bool(b),
            Opened::Number(n) => NodeModel::Number(number_contents(*n)),
            Opened::Text(s) => NodeModel::Text(s@),
            Opened::Array(items) => NodeModel::Array(
                items@.map_values(|v: serde_json::Value| json_contents(v)),
            ),
            Opened::Object(members) => NodeModel::Object(
                members@.map_values(
                    |m: (&String, &serde_json::Value)| (m.0@, json_contents(*m.1)),
                ),
            ),
        }
    }
}

/// Takes a `serde_json::Value` apart, one level deep: each variant becomes the
/// one of the same kind, and the members of an object come in the order in which
/// `serde_json::Map::iter` walks them.
#[verifier::external_body]
fn open_value(value: &serde_json::Value) -> (r: Opened<'_>)
    ensures
        r.contents() == json_contents(*value).node,
{
    match value {
        serde_json::Value::Null => Opened::Null,
        serde_json::Value::Bool(b) => Opened::Bool(*b),
        serde_json::Value::Number(n) => Opened::Number(n),
        serde_json::Value::String(s) => Opened::Text(s),
        serde_json::Value::Array(items) => Opened::Array(items),
        serde_json::Value::Object(members) => Opened::Object(members.iter().collect()),
    }
}

impl Json {
    /// Parses a JSON document.
    pub fn parse(bytes: &[u8]) -> (r: Option<Json>)
        ensures
            match r {
                Some(json) => json_document(bytes@) == Some(json@),
                None => json_document(bytes@) is None,
            },
    {
        match parse_value(bytes) {
            Some(value) => Some(Json::from_value(&value)),
            None => None,
        }
    }

    /// The plain reading of a value that was parsed elsewhere.
    pub fn from_value(value: &serde_json::Value) -> (r: Json)
        ensures
            r@ == json_contents(*value),
        decreases json_contents(*value),
    {
        let text = notation(value);
        let node = match open_value(value) {
            Opened::Null => Node::Null,
            Opened::Bool(b) => Node::Bool(b),
            Opened::Number(n) => Node::Number(readings(n)),
            Opened::Text(s) => Node::Text(s.clone()),
            Opened::Array(items) => {
                let ghost parts = json_contents(*value).node->Array_0;
                let mut out: Vec<Json> = Vec::new();
                let mut i: usize = 0;
                while i < items.len()
                    invariant
                        i == out.len(),
                        i <= items.len(),
                        json_contents(*value).node == NodeModel::Array(parts),
                        parts == items@.map_values(|v: serde_json::Value| json_contents(v)),
                        forall|j: int| 0 <= j < i ==> (#[trigger] out@[j])@ == parts[j],
                    decreases items.len() - i,
                {
                    assert(parts[i as int] == json_contents(items@[i as int]));
                    assert(decreases_to!(json_contents(*value) => json_contents(
                        *value,
                    ).node->Array_0[i as int]));
                    out.push(Json::from_value(&items[i]));
                    i += 1;
                }
                assert(Node::Array(out).model()->Array_0 =~= parts);
                Node::Array(out)
            },
            Opened::Object(members) => {
                let ghost parts = json_contents(*value).node->Object_0;
                let mut out: Vec<(String, Json)> = Vec::new();
                let mut i: usize = 0;
                while i < members.len()
                    invariant
                        i == out.len(),
                        i <= members.len(),
                        json_contents(*value).node == NodeModel::Object(parts),
                        parts == members@.map_values(
                            |m: (&String, &serde_json::Value)| (m.0@, json_contents(*m.1)),
                        ),
                        forall|j: int|
                            0 <= j < i ==> (#[trigger] out@[j]).0@ == parts[j].0 && out@[j].1@
                                == parts[j].1,
                    decreases members.len() - i,
                {
                    let member = members[i];
                    assert(parts[i as int] == (member.0@, json_contents(*member.1)));
                    assert(decreases_to!(json_contents(*value) => json_contents(
                        *value,
                    ).node->Object_0[i as int].1));
                    out.push((member.0.clone(), Json::from_value(member.1)));
                    i += 1;
                }
                assert(Node::Object(out).model()->Object_0 =~= parts);
                Node::Object(out)
            },
        };
        Json { text, node }
    }
}

// ---------------------------------------------------------------------------
// Members of objects
// ---------------------------------------------------------------------------

/// The value of the first member called `key`.
pub open spec fn member(members: Seq<(Seq<char>, JsonModel)>, key: Seq<char>) -> Option<JsonModel>
    decreases members.len(),
{
    if members.len() == 0 {
        None
    } else if members[0].0 == key {
        Some(members[0].1)
    } else {
        member(members.skip(1), key)
    }
}

impl JsonModel {
    /// The member called `key`, where this is an object that has one.
    pub open spec fn get(self, key: Seq<char>) -> Option<JsonModel> {
        match self.node {
            NodeModel::Object(members) => member(members, key),
            _ => None,
        }
    }

    /// The member called `key`, where there is one that is not `null`.
    pub open spec fn setting(self, key: Seq<char>) -> Option<JsonModel> {
        match self.get(key) {
            Some(v) => if v.node is Null {
                None
            } else {
                Some(v)
            },
            None => None,
        }
    }

    /// The text, where this is a JSON string.
    pub open spec fn as_text(self) -> Option<Seq<char>> {
        match self.node {
            NodeModel::Text(s) => Some(s),
            _ => None,
        }
    }

    /// The value, where this is a non-negative integer that fits.
    pub open spec fn as_u64(self) -> Option<u64> {
        match self.node {
            NodeModel::Number(n) => n.unsigned,
            _ => None,
        }
    }
}

impl Json {
    /// The member called `key`, where this is an object that has one.
    pub fn get(&self, key: &str) -> (r: Option<&Json>)
        ensures
            match r {
                Some(v) => self@.get(key@) == Some(v@),
                None => self@.get(key@) is None,
            },
    {
        match &self.node {
            Node::Object(members) => {
                let ghost all = self@.node->Object_0;
                assert(all.skip(0) =~= all);
                let mut i: usize = 0;
                while i < members.len()
                    invariant
                        i <= members.len(),
                        self@.node == NodeModel::Object(all),
                        all.len() == members.len(),
                        forall|j: int|
                            0 <= j < all.len() ==> #[trigger] all[j] == (
                                members@[j].0@,
                                members@[j].1@,
                            ),
                        member(all, key@) == member(all.skip(i as int), key@),
                    decreases members.len() - i,
                {
                    assert(all.skip(i as int)[0] == all[i as int]);
                    if text::same(members[i].0.as_str(), key) {
                        return Some(&members[i].1);
                    }
                    assert(all.skip(i as int).skip(1) =~= all.skip(i + 1));
                    i += 1;
                }
                None
            },
            _ => None,
        }
    }

    /// The member called `key`, where there is one that is not `null`.
    pub fn setting(&self, key: &str) -> (r: Option<&Json>)
        ensures
            match r {
                Some(v) => self@.setting(key@) == Some(v@),
                None => self@.setting(key@) is None,
            },
    {
        match self.get(key) {
            Some(v) => match &v.node {
                Node::Null => None,
                _ => Some(v),
            },
            None => None,
        }
    }

    /// The text, where this is a JSON string.
    pub fn as_text(&self) -> (r: Option<&str>)
        ensures
            match r {
                Some(s) => self@.as_text() == Some(s@),
                None => self@.as_text() is None,
            },
    {
        match &self.node {
            Node::Text(s) => Some(s.as_str()),
            _ => None,
        }
    }

    /// The value, where this is a non-negative integer that fits.
    pub fn as_u64(&self) -> (r: Option<u64>)
        ensures
            r == self@.as_u64(),
    {
        match &self.node {
            Node::Number(n) => n.unsigned,
            _ => None,
        }
    }

    /// The items, where this is an array.
    pub fn as_array(&self) -> (r: Option<&Vec<Json>>)
        ensures
            match r {
                Some(items) => {
                    &&& self@.node is Array
                    &&& self@.node->Array_0 =~= items@.map_values(|v: Json| v@)
                },
                None => !(self@.node is Array),
            },
    {
        match &self.node {
            Node::Array(items) => Some(items),
            _ => None,
        }
    }

    /// The members, where this is an object.
    pub fn as_object(&self) -> (r: Option<&Vec<(String, Json)>>)
        ensures
            match r {
                Some(members) => {
                    &&& self@.node is Object
                    &&& self@.node->Object_0 =~= members@.map_values(
                        |m: (String, Json)| (m.0@, m.1@),
                    )
                },
                None => !(self@.node is Object),
            },
    {
        match &self.node {
            Node::Object(members) => Some(members),
            _ => None,
        }
    }
}

// ---------------------------------------------------------------------------
// What members read
// ---------------------------------------------------------------------------

/// A member reads as the first one of its name; a name that no member has, and
/// any name of a value that is no object, reads as nothing.
pub proof fn law_first_member_is_read(v: JsonModel, key: Seq<char>, i: int)
    ensures
        !(v.node is Object) ==> v.get(key) is None,
        v.node is Object ==> ({
            let members = v.node->Object_0;
            &&& 0 <= i < members.len() && members[i].0 == key && (forall|j: int|
                0 <= j < i ==> (#[trigger] members[j]).0 != key) ==> v.get(key) == Some(
                members[i].1,
            )
            &&& (forall|j: int| 0 <= j < members.len() ==> (#[trigger] members[j]).0 != key)
                ==> v.get(key) is None
        }),
{
    if v.node is Object {
        lemma_member(v.node->Object_0, key, i);
    }
}

proof fn lemma_member(members: Seq<(Seq<char>, JsonModel)>, key: Seq<char>, i: int)
    ensures
        0 <= i < members.len() && members[i].0 == key && (forall|j: int|
            0 <= j < i ==> (#[trigger] members[j]).0 != key) ==> member(members, key) == Some(
            members[i].1,
        ),
        (forall|j: int| 0 <= j < members.len() ==> (#[trigger] members[j]).0 != key) ==> member(
            members,
            key,
        ) is None,
    decreases members.len(),
{
    if members.len() > 0 && members[0].0 != key {
        let rest = members.skip(1);
        lemma_member(rest, key, i - 1);
        assert(forall|j: int| 0 <= j < rest.len() ==> #[trigger] rest[j] == members[j + 1]);
        if 0 <= i < members.len() && members[i].0 == key && (forall|j: int|
            0 <= j < i ==> (#[trigger] members[j]).0 != key) {
            assert(rest[i - 1] == members[i]);
            assert forall|j: int| 0 <= j < i - 1 implies (#[trigger] rest[j]).0 != key by {
                assert(rest[j] == members[j + 1]);
            }
        }
    } else if members.len() > 0 {
        assert(members[0].0 == key);
    }
}

/// A setting is a member, but `null` counts as none; a text and a number read as
/// themselves, and no other value does.
pub proof fn law_settings_read(v: JsonModel, key: Seq<char>, text: Seq<char>, numeral: Numeral)
    ensures
        v.get(key) is None ==> v.setting(key) is None,
        v.get(key) is Some && v.get(key)->0.node is Null ==> v.setting(key) is None,
        v.get(key) is Some && !(v.get(key)->0.node is Null) ==> v.setting(key) == v.get(key),
        v.as_text() is Some <==> v.node is Text,
        v.node == NodeModel::Text(text) ==> v.as_text() == Some(text),
        v.node == NodeModel::Number(numeral) ==> v.as_u64() == numeral.unsigned,
        !(v.node is Number) ==> v.as_u64() is None,
{
}

} // verus!
