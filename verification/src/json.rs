//! JSON documents as plain values, and the calls into `serde_json` that make them.
use vstd::prelude::*;

verus! {

/// A JSON document held as plain values.
///
/// A number is kept as its decimal numeral, so that nothing here computes with
/// floating point. The members of an object are kept in a list; a lookup finds
/// the first member of a given name.
#[derive(Debug)]
pub enum Json {
    Null,
    Bool(bool),
    Number(String),
    Text(String),
    Array(Vec<Json>),
    Object(Vec<(String, Json)>),
}

/// The mathematical content of a [`Json`] document.
pub enum JsonView {
    Null,
    Bool(bool),
    Number(Seq<char>),
    Text(Seq<char>),
    Array(Seq<JsonView>),
    Object(Seq<(Seq<char>, JsonView)>),
}

impl View for Json {
    type V = JsonView;

    open spec fn view(&self) -> JsonView
        decreases self,
    {
        match self {
            Json::Null => JsonView::Null,
            Json::Bool(b) => JsonView::Bool(*b),
            Json::Number(numeral) => JsonView::Number(numeral@),
            Json::Text(text) => JsonView::Text(text@),
            Json::Array(items) => JsonView::Array(
                Seq::new(
                    items@.len(),
                    |i: int|
                        if 0 <= i < items@.len() {
                            items@[i]@
                        } else {
                            JsonView::Null
                        },
                ),
            ),
            Json::Object(members) => JsonView::Object(
                Seq::new(
                    members@.len(),
                    |i: int|
                        (
                            members@[i].0@,
                            if 0 <= i < members@.len() {
                                members@[i].1@
                            } else {
                                JsonView::Null
                            },
                        ),
                ),
            ),
        }
    }
}

/// The first member of the given name, where there is one.
pub open spec fn member(members: Seq<(Seq<char>, JsonView)>, name: Seq<char>) -> Option<JsonView>
    decreases members.len(),
{
    if members.len() == 0 {
        None
    } else if members[0].0 == name {
        Some(members[0].1)
    } else {
        member(members.drop_first(), name)
    }
}

impl JsonView {
    /// The member of the given name, if this is an object that has one.
    pub open spec fn get(self, name: Seq<char>) -> Option<JsonView> {
        match self {
            JsonView::Object(members) => member(members, name),
            _ => None,
        }
    }

    /// The text of the member of the given name, if there is such a member and it is a text.
    pub open spec fn get_text(self, name: Seq<char>) -> Option<Seq<char>> {
        match self.get(name) {
            Some(JsonView::Text(text)) => Some(text),
            _ => None,
        }
    }

    /// The numeral of the member of the given name, if there is such a member and it
    /// is a number.
    pub open spec fn get_number(self, name: Seq<char>) -> Option<Seq<char>> {
        match self.get(name) {
            Some(JsonView::Number(numeral)) => Some(numeral),
            _ => None,
        }
    }

    /// The items of the member of the given name, if there is such a member and it is
    /// an array.
    pub open spec fn get_array(self, name: Seq<char>) -> Option<Seq<JsonView>> {
        match self.get(name) {
            Some(JsonView::Array(items)) => Some(items),
            _ => None,
        }
    }
}

/// The content of each document of a list.
pub open spec fn documents(list: Seq<Json>) -> Seq<JsonView> {
    Seq::new(list.len(), |i: int| list[i]@)
}

/// The content of a list of named documents.
pub open spec fn named_documents(members: Seq<(String, Json)>) -> Seq<(Seq<char>, JsonView)> {
    Seq::new(members.len(), |i: int| (members[i].0@, members[i].1@))
}

impl Json {
    /// A text as a document.
    pub fn text(text: &str) -> (json: Json)
        ensures
            json@ == JsonView::Text(text@),
    {
        Json::Text(text.to_owned())
    }

    /// A list of documents as a document.
    pub fn array(items: Vec<Json>) -> (json: Json)
        ensures
            json@ == JsonView::Array(documents(items@)),
    {
        let json = Json::Array(items);
        assert(json@->Array_0 =~= documents(items@));
        json
    }

    /// A list of named documents as a document.
    pub fn object(members: Vec<(String, Json)>) -> (json: Json)
        ensures
            json@ == JsonView::Object(named_documents(members@)),
    {
        let json = Json::Object(members);
        assert(json@->Object_0 =~= named_documents(members@));
        json
    }

    /// The member of the given name, if this is an object that has one.
    pub fn get(&self, name: &str) -> (found: Option<&Json>)
        ensures
            match found {
                Some(json) => self@.get(name@) == Some(json@),
                None => self@.get(name@) is None,
            },
    {
        match self {
            Json::Object(members) => {
                let wanted: String = name.to_owned();
                let ghost all = self@->Object_0;
                let mut i: usize = 0;
                proof {
                    assert(all.skip(0) =~= all);
                }
                while i < members.len()
                    invariant
                        wanted@ == name@,
                        self@ == JsonView::Object(all),
                        i <= members@.len() == all.len(),
                        forall|k: int|
                            0 <= k < all.len() ==> #[trigger] all[k] == (
                                members@[k].0@,
                                members@[k].1@,
                            ),
                        self@.get(name@) == member(all.skip(i as int), name@),
                    decreases members.len() - i,
                {
                    proof {
                        assert(all.skip(i as int)[0] == all[i as int]);
                        assert(all.skip(i as int).drop_first() =~= all.skip(i + 1));
                    }
                    if members[i].0 == wanted {
                        return Some(&members[i].1);
                    }
                    i += 1;
                }
                None
            },
            _ => None,
        }
    }

    /// The text of the member of the given name, if there is such a member and it is a text.
    pub fn get_text(&self, name: &str) -> (found: Option<&str>)
        ensures
            match found {
                Some(text) => self@.get_text(name@) == Some(text@),
                None => self@.get_text(name@) is None,
            },
    {
        match self.get(name) {
            Some(Json::Text(text)) => Some(text.as_str()),
            _ => None,
        }
    }

    /// The numeral of the member of the given name, if there is such a member and it
    /// is a number.
    pub fn get_number(&self, name: &str) -> (found: Option<&str>)
        ensures
            match found {
                Some(numeral) => self@.get_number(name@) == Some(numeral@),
                None => self@.get_number(name@) is None,
            },
    {
        match self.get(name) {
            Some(Json::Number(numeral)) => Some(numeral.as_str()),
            _ => None,
        }
    }

    /// The items of the member of the given name, if there is such a member and it is
    /// an array.
    pub fn get_array(&self, name: &str) -> (found: Option<&Vec<Json>>)
        ensures
            match found {
                Some(items) => self@.get_array(name@) == Some(documents(items@)),
                None => self@.get_array(name@) is None,
            },
    {
        match self.get(name) {
            Some(Json::Array(items)) => {
                assert(self@.get(name@)->0->Array_0 =~= documents(items@));
                Some(items)
            },
            _ => None,
        }
    }
}

/// `serde_json::Value`, a parsed JSON document.
#[verifier::external_type_specification]
#[verifier::external_body]
pub struct ExValue(serde_json::Value);

/// `serde_json::Error`, why a text is not the JSON that was asked for.
#[verifier::external_type_specification]
#[verifier::external_body]
pub struct ExError(serde_json::Error);

/// What a `serde_json::Value` holds. Each number stands as the numeral that its
/// `Display` writes, and each object as the list of its members.
pub uninterp spec fn value_contents(value: serde_json::Value) -> JsonView;

/// The document that `serde_json::from_slice::<serde_json::Value>` reads from the
/// bytes, or `None` where it reports an error.
pub uninterp spec fn parsed_document(bytes: Seq<u8>) -> Option<JsonView>;

/// The documents that `serde_json::from_str::<Vec<serde_json::Value>>` reads from
/// the text, or `None` where it reports an error.
pub uninterp spec fn parsed_list(text: Seq<char>) -> Option<Seq<JsonView>>;

/// What a list of `serde_json::Value`s holds, item by item.
pub open spec fn values_contents(values: Seq<serde_json::Value>) -> Seq<JsonView> {
    Seq::new(values.len(), |i: int| value_contents(values[i]))
}

/// The outermost layer of a `serde_json::Value`.
enum Layer {
    Null,
    Bool(bool),
    Number(String),
    Text(String),
    Array(Vec<serde_json::Value>),
    Object(Vec<(String, serde_json::Value)>),
}

impl Layer {
    /// The document that this is the outermost layer of.
    spec fn document(&self) -> JsonView {
        match self {
            Layer::Null => JsonView::Null,
            Layer::Bool(b) => JsonView::Bool(*b),
            Layer::Number(numeral) => JsonView::Number(numeral@),
            Layer::Text(text) => JsonView::Text(text@),
            Layer::Array(items) => JsonView::Array(values_contents(items@)),
            Layer::Object(members) => JsonView::Object(
                Seq::new(
                    members@.len(),
                    |i: int| (members@[i].0@, value_contents(members@[i].1)),
                ),
            ),
        }
    }
}

/// `serde_json::from_slice`, asked for a `serde_json::Value`: the document in the
/// bytes, or an error where they are not one JSON document.
#[verifier::external_body]
pub(crate) fn value_from_slice(bytes: &[u8]) -> (result: Result<
    serde_json::Value,
    serde_json::Error,
>)
    ensures
        match result {
            Ok(value) => parsed_document(bytes@) == Some(value_contents(value)),
            Err(_) => parsed_document(bytes@) is None,
        },
{
    serde_json::from_slice(bytes)
}

/// Takes the outermost layer off a `serde_json::Value`, one arm for each of its
/// variants. A number becomes the numeral that its `Display` writes.
#[verifier::external_body]
fn outer_layer(value: serde_json::Value) -> (layer: Layer)
    ensures
        layer.document() == value_contents(value),
{
    match value {
        serde_json::Value::Null => Layer::Null,
        serde_json::Value::Bool(b) => Layer::Bool(b),
        serde_json::Value::Number(number) => Layer::Number(number.to_string()),
        serde_json::Value::String(text) => Layer::Text(text),
        serde_json::Value::Array(items) => Layer::Array(items),
        serde_json::Value::Object(members) => Layer::Object(members.into_iter().collect()),
    }
}

/// `serde_json::from_str`, asked for a `Vec<serde_json::Value>`: the documents of
/// the JSON array in the text, or an error where it is not one JSON array. The
/// text `[]` is the array of no documents.
#[verifier::external_body]
fn values_from_str(text: &str) -> (result: Result<Vec<serde_json::Value>, serde_json::Error>)
    ensures
        match result {
            Ok(values) => parsed_list(text@) == Some(values_contents(values@)),
            Err(_) => parsed_list(text@) is None,
        },
        text@ == "[]"@ ==> result is Ok && result->Ok_0@.len() == 0,
{
    serde_json::from_str(text)
}

/// Reads a `serde_json::Value` out into plain values.
pub fn json_from_value(value: serde_json::Value) -> (json: Json)
    ensures
        json@ == value_contents(value),
    decreases value_contents(value),
{
    let ghost whole = value_contents(value);
    match outer_layer(value) {
        Layer::Null => Json::Null,
        Layer::Bool(b) => Json::Bool(b),
        Layer::Number(numeral) => Json::Number(numeral),
        Layer::Text(text) => Json::Text(text),
        Layer::Array(items) => {
            let ghost values = items@;
            let mut list: Vec<Json> = Vec::new();
            for item in iter: items.into_iter()
                invariant
                    iter.seq() == values,
                    whole == value_contents(value),
                    whole == JsonView::Array(values_contents(values)),
                    list@.len() == iter.index(),
                    forall|i: int|
                        0 <= i < list@.len() ==> (#[trigger] list@[i])@ == value_contents(
                            values[i],
                        ),
            {
                proof {
                    let contents = values_contents(values);
                    assert(contents[iter.index() as int] == value_contents(item));
                    assert(decreases_to!(whole => whole->Array_0));
                    assert(decreases_to!(contents => contents[iter.index() as int]));
                    assert(decreases_to!(whole => value_contents(item)));
                }
                list.push(json_from_value(item));
            }
            let json = Json::Array(list);
            assert(json@->Array_0 =~= values_contents(values));
            json
        },
        Layer::Object(members) => {
            let ghost pairs = members@;
            let ghost contents = whole->Object_0;
            let mut list: Vec<(String, Json)> = Vec::new();
            for pair in iter: members.into_iter()
                invariant
                    iter.seq() == pairs,
                    whole == value_contents(value),
                    whole == JsonView::Object(contents),
                    contents.len() == pairs.len(),
                    forall|i: int|
                        0 <= i < pairs.len() ==> #[trigger] contents[i] == (
                            pairs[i].0@,
                            value_contents(pairs[i].1),
                        ),
                    list@.len() == iter.index(),
                    forall|i: int|
                        0 <= i < list@.len() ==> ((#[trigger] list@[i]).0@, list@[i].1@)
                            == contents[i],
            {
                proof {
                    let i = iter.index() as int;
                    assert(contents[i].1 == value_contents(pair.1));
                    assert(decreases_to!(whole => whole->Object_0));
                    assert(decreases_to!(contents => contents[i]));
                    assert(decreases_to!(contents[i] => contents[i].1));
                }
                let (name, item) = pair;
                list.push((name, json_from_value(item)));
            }
            let json = Json::Object(list);
            assert(json@->Object_0 =~= contents);
            json
        },
    }
}

/// Reads bytes as one JSON document; `None` where they are not one.
pub fn parse_document(bytes: &[u8]) -> (document: Option<Json>)
    ensures
        match document {
            Some(json) => parsed_document(bytes@) == Some(json@),
            None => parsed_document(bytes@) is None,
        },
{
    match value_from_slice(bytes) {
        Ok(value) => Some(json_from_value(value)),
        Err(_) => None,
    }
}

/// Reads a text as a JSON array of documents; `None` where it is not one.
pub fn parse_list(text: &str) -> (list: Option<Vec<Json>>)
    ensures
        match list {
            Some(items) => parsed_list(text@) == Some(documents(items@)),
            None => parsed_list(text@) is None,
        },
        text@ == "[]"@ ==> list is Some && list->0@.len() == 0,
{
    match values_from_str(text) {
        Ok(values) => {
            let ghost all = values@;
            let mut list: Vec<Json> = Vec::new();
            for value in iter: values.into_iter()
                invariant
                    iter.seq() == all,
                    list@.len() == iter.index(),
                    forall|i: int|
                        0 <= i < list@.len() ==> (#[trigger] list@[i])@ == value_contents(all[i]),
            {
                list.push(json_from_value(value));
            }
            assert(documents(list@) =~= values_contents(all));
            Some(list)
        },
        Err(_) => None,
    }
}

/// The value found under a name is that of the first member of the name. Nothing is found
/// exactly where no member has the name.
pub proof fn law_lookup_finds_the_first_of_a_name(
    members: Seq<(Seq<char>, JsonView)>,
    name: Seq<char>,
)
    ensures
        member(members, name) is None <==> forall|i: int|
            0 <= i < members.len() ==> (#[trigger] members[i]).0 != name,
        member(members, name) matches Some(value) ==> exists|i: int|
            {
                &&& 0 <= i < members.len()
                &&& #[trigger] members[i] == (name, value)
                &&& forall|k: int| 0 <= k < i ==> (#[trigger] members[k]).0 != name
            },
    decreases members.len(),
{
    if members.len() > 0 && members[0].0 != name {
        let rest = members.drop_first();
        law_lookup_finds_the_first_of_a_name(rest, name);
        if let Some(value) = member(rest, name) {
            let i = choose|i: int|
                {
                    &&& 0 <= i < rest.len()
                    &&& #[trigger] rest[i] == (name, value)
                    &&& forall|k: int| 0 <= k < i ==> (#[trigger] rest[k]).0 != name
                };
            assert(members[i + 1] == (name, value));
            assert forall|k: int| 0 <= k < i + 1 implies (#[trigger] members[k]).0 != name by {
                if k > 0 {
                    assert(rest[k - 1].0 != name);
                }
            }
        } else {
            assert forall|i: int| 0 <= i < members.len() implies (#[trigger] members[i]).0
                != name by {
                if i > 0 {
                    assert(rest[i - 1].0 != name);
                }
            }
        }
    } else if members.len() > 0 {
        assert(members[0] == (name, members[0].1));
    }
}

/// A document that is no object has no members, and a member is handed out as a text, a
/// number or an array exactly where it is one.
pub proof fn law_members_are_handed_out_by_kind(
    document: JsonView,
    name: Seq<char>,
    text: Seq<char>,
    items: Seq<JsonView>,
)
    ensures
        document.get(name) is Some ==> document is Object,
        document matches JsonView::Object(members) ==> document.get(name) == member(members, name),
        document.get_text(name) == Some(text) <==> document.get(name) == Some(JsonView::Text(text)),
        document.get_number(name) == Some(text) <==> document.get(name) == Some(
            JsonView::Number(text),
        ),
        document.get_array(name) == Some(items) <==> document.get(name) == Some(
            JsonView::Array(items),
        ),
{
}

/// A list of documents keeps its length, its order and each of its documents; so does a
/// list of named documents, which keeps the names as well.
pub proof fn law_lists_keep_every_document(list: Seq<Json>, members: Seq<(String, Json)>, i: int)
    ensures
        documents(list).len() == list.len(),
        0 <= i < list.len() ==> documents(list)[i] == list[i]@,
        named_documents(members).len() == members.len(),
        0 <= i < members.len() ==> named_documents(members)[i].0 == members[i].0@,
        0 <= i < members.len() ==> named_documents(members)[i].1 == members[i].1@,
{
}

/// A document is seen as what it holds: its kind, its text or numeral, its items and its
/// members, each of them in its place.
pub proof fn law_view_shows_what_is_held(json: Json)
    ensures
        json is Null <==> json@ is Null,
        json matches Json::Bool(b) ==> json@ == JsonView::Bool(b),
        json matches Json::Number(numeral) ==> json@ == JsonView::Number(numeral@),
        json matches Json::Text(text) ==> json@ == JsonView::Text(text@),
        json matches Json::Array(items) ==> json@ == JsonView::Array(documents(items@)),
        json matches Json::Object(members) ==> json@ == JsonView::Object(
            named_documents(members@),
        ),
{
    match json {
        Json::Array(items) => {
            assert(json@->Array_0 =~= documents(items@));
        },
        Json::Object(members) => {
            assert(json@->Object_0 =~= named_documents(members@));
        },
        _ => {},
    }
}

}
