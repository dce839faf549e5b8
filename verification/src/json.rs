//! JSON documents as plain values.
//!
//! The wire dialect reads and writes JSON. [`Json`] holds a document as data of this crate, so
//! that what is sent and what is read can be stated field by field. Parsing itself is done by
//! `serde_json`.
use vstd::prelude::*;

use crate::text::same_text;

verus! {

/// A JSON document.
#[derive(Debug, PartialEq, Eq)]
pub enum Json {
    Null,
    Bool(bool),
    /// A number that is an unsigned integer of at most 64 bits.
    Unsigned(u64),
    /// Any other number, by its text.
    Number(String),
    Str(String),
    Array(Vec<Json>),
    /// The fields of an object, in order.
    Object(Vec<(String, Json)>),
}

/// What a [`Json`] document says.
pub enum JsonView {
    Null,
    Bool(bool),
    Unsigned(u64),
    Number(Seq<char>),
    Str(Seq<char>),
    Array(Seq<JsonView>),
    Object(Seq<(Seq<char>, JsonView)>),
}

impl View for Json {
    type V = JsonView;

    open spec fn view(&self) -> JsonView
        decreases self,
    {
        match self {
            Json::Null => JsonView::Null,
            Json::Bool(flag) => JsonView::Bool(*flag),
            Json::Unsigned(n) => JsonView::Unsigned(*n),
            Json::Number(text) => JsonView::Number(text@),
            Json::Str(text) => JsonView::Str(text@),
            Json::Array(items) => JsonView::Array(
                Seq::new(
                    items@.len(),
                    |i: int|
                        if 0 <= i < items@.len() {
                            items@[i].view()
                        } else {
                            JsonView::Null
                        },
                ),
            ),
            Json::Object(fields) => JsonView::Object(
                Seq::new(
                    fields@.len(),
                    |i: int|
                        if 0 <= i < fields@.len() {
                            (fields@[i].0@, fields@[i].1.view())
                        } else {
                            (Seq::empty(), JsonView::Null)
                        },
                ),
            ),
        }
    }
}

/// What the documents of a list say.
pub open spec fn items_view(items: Seq<Json>) -> Seq<JsonView> {
    items.map_values(|item: Json| item@)
}

/// What the fields of an object say.
pub open spec fn fields_view(fields: Seq<(String, Json)>) -> Seq<(Seq<char>, JsonView)> {
    fields.map_values(|field: (String, Json)| (field.0@, field.1@))
}

/// What a document that may be missing says.
pub open spec fn found_view(found: Option<&Json>) -> Option<JsonView> {
    match found {
        Some(json) => Some(json@),
        None => None,
    }
}

/// The value of the first field called `key`.
pub open spec fn lookup(fields: Seq<(Seq<char>, JsonView)>, key: Seq<char>) -> Option<JsonView>
    decreases fields.len(),
{
    if fields.len() == 0 {
        None
    } else if fields[0].0 == key {
        Some(fields[0].1)
    } else {
        lookup(fields.drop_first(), key)
    }
}

/// The fields that are not called `key`.
pub open spec fn other_than(key: Seq<char>) -> spec_fn((Seq<char>, JsonView)) -> bool {
    |field: (Seq<char>, JsonView)| field.0 != key
}

impl JsonView {
    /// An object without fields.
    pub open spec fn object() -> JsonView {
        JsonView::Object(Seq::empty())
    }

    /// This object with one more field at the end.
    pub open spec fn with(self, key: Seq<char>, value: JsonView) -> JsonView {
        JsonView::Object(self->Object_0.push((key, value)))
    }

    /// The value of a field; nothing where this is no object or has no such field.
    pub open spec fn get(self, key: Seq<char>) -> Option<JsonView> {
        match self {
            JsonView::Object(fields) => lookup(fields, key),
            _ => None,
        }
    }

    /// The element of an array; nothing where this is no array or is shorter.
    pub open spec fn item(self, index: int) -> Option<JsonView> {
        match self {
            JsonView::Array(items) => if 0 <= index < items.len() {
                Some(items[index])
            } else {
                None
            },
            _ => None,
        }
    }

    /// The text, where this is a string.
    pub open spec fn str(self) -> Option<Seq<char>> {
        match self {
            JsonView::Str(text) => Some(text),
            _ => None,
        }
    }

    /// The number, where this is an unsigned integer.
    pub open spec fn unsigned(self) -> Option<u64> {
        match self {
            JsonView::Unsigned(n) => Some(n),
            _ => None,
        }
    }

    /// The elements, where this is an array.
    pub open spec fn array(self) -> Option<Seq<JsonView>> {
        match self {
            JsonView::Array(items) => Some(items),
            _ => None,
        }
    }

    /// This object without the fields called `key`; anything else as it is.
    pub open spec fn without(self, key: Seq<char>) -> JsonView {
        match self {
            JsonView::Object(fields) => JsonView::Object(fields.filter(other_than(key))),
            _ => self,
        }
    }
}

/// An array says what its elements say.
pub proof fn lemma_array_view(items: Vec<Json>)
    ensures
        Json::Array(items)@ == JsonView::Array(items_view(items@)),
{
    let json = Json::Array(items);
    reveal_with_fuel(<Json as View>::view, 2);
    assert forall|i: int| 0 <= i < items@.len() implies json@->Array_0[i] == items_view(
        items@,
    )[i] by {
        assert(json@->Array_0[i] == items@[i]@);
    }
    assert(json@->Array_0 =~= items_view(items@));
}

/// An object says what its fields say.
pub proof fn lemma_object_view(fields: Vec<(String, Json)>)
    ensures
        Json::Object(fields)@ == JsonView::Object(fields_view(fields@)),
{
    let json = Json::Object(fields);
    reveal_with_fuel(<Json as View>::view, 2);
    assert forall|i: int| 0 <= i < fields@.len() implies json@->Object_0[i] == fields_view(
        fields@,
    )[i] by {
        assert(json@->Object_0[i] == (fields@[i].0@, fields@[i].1@));
    }
    assert(json@->Object_0 =~= fields_view(fields@));
}

/// The first field called `key`, by its place.
proof fn lemma_lookup_at(fields: Seq<(Seq<char>, JsonView)>, key: Seq<char>, at: int)
    requires
        0 <= at <= fields.len(),
        forall|i: int| 0 <= i < at ==> (#[trigger] fields[i]).0 != key,
    ensures
        at == fields.len() ==> lookup(fields, key) is None,
        at < fields.len() && fields[at].0 == key ==> lookup(fields, key) == Some(fields[at].1),
    decreases fields.len(),
{
    if fields.len() > 0 && at > 0 {
        let rest = fields.drop_first();
        assert(fields[0].0 != key);
        assert forall|i: int| 0 <= i < at - 1 implies (#[trigger] rest[i]).0 != key by {
            assert(rest[i] == fields[i + 1]);
        }
        lemma_lookup_at(rest, key, at - 1);
    }
}

/// One more field at the end is found only where no field of that name stood before.
pub proof fn lemma_lookup_push(
    fields: Seq<(Seq<char>, JsonView)>,
    name: Seq<char>,
    value: JsonView,
    key: Seq<char>,
)
    ensures
        lookup(fields.push((name, value)), key) == (match lookup(fields, key) {
            Some(found) => Some(found),
            None => if name == key {
                Some(value)
            } else {
                None
            },
        }),
    decreases fields.len(),
{
    let longer = fields.push((name, value));
    if fields.len() == 0 {
        assert(longer.drop_first() =~= Seq::empty());
        assert(lookup(longer.drop_first(), key) is None);
    } else {
        assert(longer.drop_first() =~= fields.drop_first().push((name, value)));
        lemma_lookup_push(fields.drop_first(), name, value, key);
    }
}

/// Taking the fields called `key` away leaves every other field as it was.
pub proof fn lemma_lookup_filter(
    fields: Seq<(Seq<char>, JsonView)>,
    key: Seq<char>,
    other: Seq<char>,
)
    ensures
        lookup(fields.filter(other_than(key)), other) == (if other
            == key {
            None
        } else {
            lookup(fields, other)
        }),
    decreases fields.len(),
{
    let keep = other_than(key);
    reveal(Seq::filter);
    if fields.len() > 0 {
        let rest = fields.drop_last();
        let last = fields.last();
        lemma_lookup_filter(rest, key, other);
        assert(rest.push(last) =~= fields);
        lemma_lookup_push(rest, last.0, last.1, other);
        if keep(last) {
            lemma_lookup_push(rest.filter(keep), last.0, last.1, other);
        }
    }
}

impl Clone for Json {
    fn clone(&self) -> (copy: Self)
        ensures
            copy@ == self@,
        decreases self,
    {
        match self {
            Json::Null => Json::Null,
            Json::Bool(flag) => Json::Bool(*flag),
            Json::Unsigned(n) => Json::Unsigned(*n),
            Json::Number(text) => Json::Number(text.clone()),
            Json::Str(text) => Json::Str(text.clone()),
            Json::Array(items) => {
                let mut copies: Vec<Json> = Vec::new();
                let mut i: usize = 0;
                while i < items.len()
                    invariant
                        self == Json::Array(*items),
                        i <= items@.len(),
                        copies@.len() == i,
                        forall|k: int| 0 <= k < i ==> (#[trigger] copies@[k])@ == items@[k]@,
                    decreases items.len() - i,
                {
                    assert(decreases_to!(self => self->Array_0));
                    assert(decreases_to!(items => items@));
                    assert(decreases_to!(items@ => items@[i as int]));
                    copies.push(items[i].clone());
                    i = i + 1;
                }
                proof {
                    lemma_array_view(*items);
                    lemma_array_view(copies);
                    assert(items_view(copies@) =~= items_view(items@));
                }
                Json::Array(copies)
            },
            Json::Object(fields) => {
                let mut copies: Vec<(String, Json)> = Vec::new();
                let mut i: usize = 0;
                while i < fields.len()
                    invariant
                        self == Json::Object(*fields),
                        i <= fields@.len(),
                        copies@.len() == i,
                        forall|k: int|
                            0 <= k < i ==> (#[trigger] copies@[k]).0@ == fields@[k].0@
                                && copies@[k].1@ == fields@[k].1@,
                    decreases fields.len() - i,
                {
                    assert(decreases_to!(self => self->Object_0));
                    assert(decreases_to!(fields => fields@));
                    assert(decreases_to!(fields@ => fields@[i as int]));
                    assert(decreases_to!(fields@[i as int] => fields@[i as int].1));
                    copies.push((fields[i].0.clone(), fields[i].1.clone()));
                    i = i + 1;
                }
                proof {
                    lemma_object_view(*fields);
                    lemma_object_view(copies);
                    assert(fields_view(copies@) =~= fields_view(fields@));
                }
                Json::Object(copies)
            },
        }
    }
}

impl Json {
    /// An object without fields.
    pub fn object() -> (json: Json)
        ensures
            json@ == JsonView::object(),
            json is Object,
    {
        let json = Json::Object(Vec::new());
        assert(json@->Object_0 =~= Seq::empty());
        json
    }

    /// A string.
    pub fn text(text: &str) -> (json: Json)
        ensures
            json@ == JsonView::Str(text@),
    {
        Json::Str(text.to_owned())
    }

    /// This object with one more field at the end.
    pub fn with(self, key: &str, value: Json) -> (json: Json)
        requires
            self@ is Object,
        ensures
            json@ == self@.with(key@, value@),
            json@ is Object,
    {
        match self {
            Json::Object(fields) => {
                let mut longer = fields;
                proof {
                    lemma_object_view(fields);
                }
                longer.push((key.to_owned(), value));
                proof {
                    lemma_object_view(longer);
                    assert(fields_view(longer@) =~= fields_view(fields@).push((key@, value@)));
                }
                Json::Object(longer)
            },
            other => other,
        }
    }

    /// The value of a field; nothing where this is no object or has no such field.
    pub fn get(&self, key: &str) -> (found: Option<&Json>)
        ensures
            found_view(found) == self@.get(key@),
    {
        match self {
            Json::Object(fields) => {
                proof {
                    lemma_object_view(*fields);
                }
                let ghost all = fields_view(fields@);
                let mut i: usize = 0;
                while i < fields.len()
                    invariant
                        i <= fields@.len(),
                        self@ == JsonView::Object(all),
                        all == fields_view(fields@),
                        forall|k: int| 0 <= k < i ==> (#[trigger] all[k]).0 != key@,
                    decreases fields.len() - i,
                {
                    if same_text(fields[i].0.as_str(), key) {
                        proof {
                            lemma_lookup_at(all, key@, i as int);
                        }
                        return Some(&fields[i].1);
                    }
                    i = i + 1;
                }
                proof {
                    lemma_lookup_at(all, key@, i as int);
                }
                None
            },
            _ => None,
        }
    }

    /// The element of an array; nothing where this is no array or is shorter.
    pub fn item(&self, index: usize) -> (found: Option<&Json>)
        ensures
            found_view(found) == self@.item(index as int),
    {
        match self {
            Json::Array(items) => {
                proof {
                    lemma_array_view(*items);
                }
                if index < items.len() {
                    Some(&items[index])
                } else {
                    None
                }
            },
            _ => None,
        }
    }

    /// The text, where this is a string.
    pub fn as_str(&self) -> (text: Option<&str>)
        ensures
            match text {
                Some(text) => self@.str() == Some(text@),
                None => self@.str() is None,
            },
    {
        match self {
            Json::Str(text) => Some(text.as_str()),
            _ => None,
        }
    }

    /// The number, where this is an unsigned integer.
    pub fn as_u64(&self) -> (number: Option<u64>)
        ensures
            number == self@.unsigned(),
    {
        match self {
            Json::Unsigned(n) => Some(*n),
            _ => None,
        }
    }

    /// The elements, where this is an array.
    pub fn as_array(&self) -> (items: Option<&Vec<Json>>)
        ensures
            match items {
                Some(items) => self@ == JsonView::Array(items_view(items@)),
                None => !(self@ is Array),
            },
    {
        match self {
            Json::Array(items) => {
                proof {
                    lemma_array_view(*items);
                }
                Some(items)
            },
            _ => None,
        }
    }

    /// Whether this is an object.
    pub fn is_object(&self) -> (yes: bool)
        ensures
            yes == (self@ is Object),
    {
        matches!(self, Json::Object(_))
    }

    /// Whether this is null.
    pub fn is_null(&self) -> (yes: bool)
        ensures
            yes == (self@ is Null),
    {
        matches!(self, Json::Null)
    }

    /// This object without the fields called `key`; anything else as it is.
    pub fn without(self, key: &str) -> (json: Json)
        ensures
            json@ == self@.without(key@),
    {
        match self {
            Json::Object(fields) => {
                let ghost all = fields@;
                let ghost said = fields_view(all);
                let ghost keep = other_than(key@);
                proof {
                    lemma_object_view(fields);
                    reveal(Seq::filter);
                    assert(said.take(0) =~= Seq::empty());
                }
                let mut kept: Vec<(String, Json)> = Vec::new();
                assert(fields_view(kept@) =~= Seq::empty());
                for field in it: fields
                    invariant
                        it.seq() == all,
                        said == fields_view(all),
                        keep == other_than(key@),
                        fields_view(kept@) == said.take(it.index() as int).filter(keep),
                {
                    proof {
                        reveal(Seq::filter);
                        assert(said.take(it.index() + 1).drop_last() =~= said.take(
                            it.index() as int,
                        ));
                        assert(said.take(it.index() + 1).last() == (field.0@, field.1@));
                    }
                    let ghost before = kept@;
                    if !same_text(field.0.as_str(), key) {
                        kept.push(field);
                        assert(fields_view(kept@) =~= fields_view(before).push(
                            (field.0@, field.1@),
                        ));
                    }
                }
                proof {
                    assert(said.take(said.len() as int) =~= said);
                    lemma_object_view(kept);
                }
                Json::Object(kept)
            },
            other => other,
        }
    }
}

/// `serde_json::Value`, a parsed document.
#[verifier::external_type_specification]
#[verifier::external_body]
pub struct ExValue(serde_json::Value);

/// `serde_json::Error`, why a text is no document.
#[verifier::external_type_specification]
#[verifier::external_body]
pub struct ExError(serde_json::Error);

/// What a parsed document holds.
pub uninterp spec fn value_json(value: serde_json::Value) -> JsonView;

/// The document that `serde_json` reads in a text; nothing where it reads none.
pub uninterp spec fn parsed_json(text: Seq<char>) -> Option<JsonView>;

/// One level of a parsed document.
pub enum Node {
    Null,
    Bool(bool),
    /// The number as an unsigned integer, where it is one, and its text.
    Number(Option<u64>, String),
    Str(String),
    Array(Vec<serde_json::Value>),
    Object(Vec<(String, serde_json::Value)>),
}

impl Node {
    /// The document whose first level this is.
    pub open spec fn json(self) -> JsonView {
        match self {
            Node::Null => JsonView::Null,
            Node::Bool(flag) => JsonView::Bool(flag),
            Node::Number(unsigned, text) => match unsigned {
                Some(n) => JsonView::Unsigned(n),
                None => JsonView::Number(text@),
            },
            Node::Str(text) => JsonView::Str(text@),
            Node::Array(items) => JsonView::Array(
                items@.map_values(|item: serde_json::Value| value_json(item)),
            ),
            Node::Object(fields) => JsonView::Object(
                fields@.map_values(
                    |field: (String, serde_json::Value)| (field.0@, value_json(field.1)),
                ),
            ),
        }
    }
}

/// Takes a `serde_json::Value` apart by its variant: the elements of an array, the fields of an
/// object in the order in which its map hands them out, a number by `as_u64` and by its text.
/// Claimed: what the value holds is what the parts hold.
#[verifier::external_body]
fn open_value(value: serde_json::Value) -> (node: Node)
    ensures
        node.json() == value_json(value),
{
    match value {
        serde_json::Value::Null => Node::Null,
        serde_json::Value::Bool(flag) => Node::Bool(flag),
        serde_json::Value::Number(n) => Node::Number(n.as_u64(), n.to_string()),
        serde_json::Value::String(text) => Node::Str(text),
        serde_json::Value::Array(items) => Node::Array(items),
        serde_json::Value::Object(fields) => Node::Object(fields.into_iter().collect()),
    }
}

/// `serde_json::from_str` on a text. Claimed: whether it succeeds, and what the value then
/// holds, depends on the text alone.
#[verifier::external_body]
fn parse_value(text: &str) -> (parsed: Result<serde_json::Value, serde_json::Error>)
    ensures
        match parsed {
            Ok(value) => parsed_json(text@) == Some(value_json(value)),
            Err(_) => parsed_json(text@) is None,
        },
{
    serde_json::from_str(text)
}

/// A parsed document as plain data.
pub fn from_value(value: serde_json::Value) -> (json: Json)
    ensures
        json@ == value_json(value),
    decreases value_json(value),
{
    let ghost whole = value_json(value);
    match open_value(value) {
        Node::Null => Json::Null,
        Node::Bool(flag) => Json::Bool(flag),
        Node::Number(unsigned, text) => match unsigned {
            Some(n) => Json::Unsigned(n),
            None => Json::Number(text),
        },
        Node::Str(text) => Json::Str(text),
        Node::Array(values) => {
            let ghost all = values@;
            let mut items: Vec<Json> = Vec::new();
            for item in it: values
                invariant
                    whole == value_json(value),
                    whole == JsonView::Array(
                        all.map_values(|item: serde_json::Value| value_json(item)),
                    ),
                    it.seq() == all,
                    items@.len() == it.index(),
                    forall|k: int|
                        0 <= k < items@.len() ==> (#[trigger] items@[k])@ == value_json(all[k]),
            {
                assert(decreases_to!(whole => whole->Array_0));
                assert(decreases_to!(whole->Array_0 => whole->Array_0[it.index() as int]));
                items.push(from_value(item));
            }
            proof {
                lemma_array_view(items);
                assert(items_view(items@) =~= whole->Array_0);
            }
            Json::Array(items)
        },
        Node::Object(values) => {
            let ghost all = values@;
            let mut fields: Vec<(String, Json)> = Vec::new();
            for field in it: values
                invariant
                    whole == value_json(value),
                    whole == JsonView::Object(
                        all.map_values(
                            |field: (String, serde_json::Value)| (field.0@, value_json(field.1)),
                        ),
                    ),
                    it.seq() == all,
                    fields@.len() == it.index(),
                    forall|k: int|
                        0 <= k < fields@.len() ==> (#[trigger] fields@[k]).0@ == all[k].0@
                            && fields@[k].1@ == value_json(all[k].1),
            {
                let ghost said = whole->Object_0;
                assert(decreases_to!(whole => said));
                assert(decreases_to!(said => said[it.index() as int]));
                assert(decreases_to!(said[it.index() as int] => said[it.index() as int].1));
                fields.push((field.0, from_value(field.1)));
            }
            proof {
                lemma_object_view(fields);
                assert(fields_view(fields@) =~= whole->Object_0);
            }
            Json::Object(fields)
        },
    }
}

/// Reads a document; nothing where the text is none.
pub fn parse(text: &str) -> (json: Option<Json>)
    ensures
        match json {
            Some(json) => parsed_json(text@) == Some(json@),
            None => parsed_json(text@) is None,
        },
{
    match parse_value(text) {
        Ok(value) => Some(from_value(value)),
        Err(_) => None,
    }
}

/// A field is found by its name, the first one of several; in what is no object, none is.
pub proof fn law_get_finds_the_first_field(json: JsonView, key: Seq<char>)
    ensures
        json.get(key) is Some ==> json is Object,
        json matches JsonView::Object(fields) ==> {
            &&& json.get(key) is None <==> forall|i: int|
                0 <= i < fields.len() ==> (#[trigger] fields[i]).0 != key
            &&& forall|at: int|
                0 <= at < fields.len() && (#[trigger] fields[at]).0 == key && (forall|i: int|
                    0 <= i < at ==> (#[trigger] fields[i]).0 != key) ==> json.get(key) == Some(
                    fields[at].1,
                )
        },
{
    if let JsonView::Object(fields) = json {
        if forall|i: int| 0 <= i < fields.len() ==> (#[trigger] fields[i]).0 != key {
            lemma_lookup_at(fields, key, fields.len() as int);
        } else {
            let some = choose|i: int| 0 <= i < fields.len() && (#[trigger] fields[i]).0 == key;
            let at = lemma_first_field(fields, key, some);
            lemma_lookup_at(fields, key, at);
        }
        assert forall|at: int|
            0 <= at < fields.len() && (#[trigger] fields[at]).0 == key && (forall|i: int|
                0 <= i < at ==> (#[trigger] fields[i]).0 != key) implies json.get(key) == Some(
            fields[at].1,
        ) by {
            lemma_lookup_at(fields, key, at);
        }
    }
}

/// Among fields of a name one comes first.
proof fn lemma_first_field(fields: Seq<(Seq<char>, JsonView)>, key: Seq<char>, some: int) -> (at:
    int)
    requires
        0 <= some < fields.len(),
        fields[some].0 == key,
    ensures
        0 <= at < fields.len(),
        fields[at].0 == key,
        forall|i: int| 0 <= i < at ==> (#[trigger] fields[i]).0 != key,
    decreases some,
{
    if exists|i: int| 0 <= i < some && (#[trigger] fields[i]).0 == key {
        let earlier = choose|i: int| 0 <= i < some && (#[trigger] fields[i]).0 == key;
        lemma_first_field(fields, key, earlier)
    } else {
        some
    }
}

/// A field that is put on an object is found under its name, unless an older one is, and hides
/// no other.
pub broadcast proof fn law_added_field_is_found(
    json: JsonView,
    name: Seq<char>,
    value: JsonView,
    key: Seq<char>,
)
    requires
        json is Object,
    ensures
        json.with(name, value) is Object,
        #[trigger] json.with(name, value).get(key) == (if json.get(key) is None && name == key {
            Some(value)
        } else {
            json.get(key)
        }),
{
    lemma_lookup_push(json->Object_0, name, value, key);
}

/// An object without fields finds nothing.
pub broadcast proof fn law_bare_object_is_empty(key: Seq<char>)
    ensures
        #[trigger] JsonView::object().get(key) is None,
{
}

/// A name that is taken out is found no more; every other name finds what it found, in an object
/// and in anything else.
pub proof fn law_removed_field_is_gone(json: JsonView, key: Seq<char>, other: Seq<char>)
    ensures
        json.without(key).get(key) is None,
        other != key ==> json.without(key).get(other) == json.get(other),
        json is Object <==> json.without(key) is Object,
{
    if json is Object {
        lemma_lookup_filter(json->Object_0, key, key);
        lemma_lookup_filter(json->Object_0, key, other);
    }
}

/// Documents are told by what they are: elements, texts and numbers come only of arrays, strings
/// and unsigned integers, unchanged.
pub proof fn law_documents_are_what_they_are(json: JsonView, index: int)
    ensures
        json.str() is Some <==> json is Str,
        json.unsigned() is Some <==> json is Unsigned,
        json.array() is Some <==> json is Array,
        json.item(index) is Some <==> json is Array && 0 <= index < json->Array_0.len(),
        json.str() is Some ==> json == JsonView::Str(json.str()->0),
        json.unsigned() is Some ==> json == JsonView::Unsigned(json.unsigned()->0),
        json.array() is Some ==> json == JsonView::Array(json.array()->0),
        json.item(index) is Some ==> json.item(index)->0 == json->Array_0[index],
{
}

/// Lists of documents keep their length and order.
pub proof fn law_lists_keep_their_order(items: Seq<Json>, k: int)
    requires
        0 <= k < items.len(),
    ensures
        items_view(items).len() == items.len(),
        items_view(items)[k] == items[k]@,
{
}

/// A level of a parsed document is taken as it is: its flag, its number or the number's text, its
/// text, its elements and its fields in their order.
pub proof fn law_levels_are_taken_as_they_are(node: Node, k: int)
    ensures
        match node {
            Node::Null => node.json() == JsonView::Null,
            Node::Bool(flag) => node.json() == JsonView::Bool(flag),
            Node::Number(Some(n), _) => node.json() == JsonView::Unsigned(n),
            Node::Number(None, text) => node.json() == JsonView::Number(text@),
            Node::Str(text) => node.json() == JsonView::Str(text@),
            Node::Array(items) => {
                &&& node.json() is Array
                &&& node.json()->Array_0.len() == items@.len()
                &&& 0 <= k < items@.len() ==> node.json()->Array_0[k] == value_json(items@[k])
            },
            Node::Object(fields) => {
                &&& node.json() is Object
                &&& node.json()->Object_0.len() == fields@.len()
                &&& 0 <= k < fields@.len() ==> node.json()->Object_0[k] == (
                    fields@[k].0@,
                    value_json(fields@[k].1),
                )
            },
        },
{
}

/// A document says what it holds, elements and fields in their order.
pub proof fn law_documents_say_what_they_hold(json: Json, k: int)
    ensures
        match json {
            Json::Null => json@ == JsonView::Null,
            Json::Bool(flag) => json@ == JsonView::Bool(flag),
            Json::Unsigned(n) => json@ == JsonView::Unsigned(n),
            Json::Number(text) => json@ == JsonView::Number(text@),
            Json::Str(text) => json@ == JsonView::Str(text@),
            Json::Array(items) => {
                &&& json@ is Array
                &&& json@->Array_0.len() == items@.len()
                &&& 0 <= k < items@.len() ==> json@->Array_0[k] == items@[k]@
            },
            Json::Object(fields) => {
                &&& json@ is Object
                &&& json@->Object_0.len() == fields@.len()
                &&& 0 <= k < fields@.len() ==> json@->Object_0[k] == (
                    fields@[k].0@,
                    fields@[k].1@,
                )
            },
        },
{
    match json {
        Json::Array(items) => {
            lemma_array_view(items);
        },
        Json::Object(fields) => {
            lemma_object_view(fields);
        },
        _ => {},
    }
}

} // verus!
