//! JSON values as the administration commands read and write them.

use crate::text::same;
use vstd::prelude::*;

verus! {

/// A value of serde_json.
#[verifier::external_type_specification]
#[verifier::external_body]
pub struct ExValue(serde_json::Value);

/// A JSON value. Of a number only that is kept whether it is a whole number from
/// 0 up to 2^64 - 1, and which.
pub enum JsonValue {
    Null,
    Bool(bool),
    Number(Option<u64>),
    Text(Seq<char>),
    Array(Seq<JsonValue>),
    Object(Seq<(Seq<char>, JsonValue)>),
}

/// A JSON value, as in `JsonValue`. The fields of an object are in the order of
/// their names, and no name comes twice.
#[derive(Debug)]
pub enum Json {
    Null,
    Bool(bool),
    Number(Option<u64>),
    Text(String),
    Array(Vec<Json>),
    Object(Vec<(String, Json)>),
}

/// What a JSON value holds.
pub open spec fn json_view(j: Json) -> JsonValue
    decreases j,
{
    match j {
        Json::Null => JsonValue::Null,
        Json::Bool(b) => JsonValue::Bool(b),
        Json::Number(n) => JsonValue::Number(n),
        Json::Text(s) => JsonValue::Text(s@),
        Json::Array(v) => JsonValue::Array(
            Seq::new(
                v@.len(),
                |i: int|
                    if 0 <= i < v@.len() {
                        json_view(v@[i])
                    } else {
                        JsonValue::Null
                    },
            ),
        ),
        Json::Object(v) => JsonValue::Object(
            Seq::new(
                v@.len(),
                |i: int|
                    if 0 <= i < v@.len() {
                        (v@[i].0@, json_view(v@[i].1))
                    } else {
                        (Seq::empty(), JsonValue::Null)
                    },
            ),
        ),
    }
}

impl View for Json {
    type V = JsonValue;

    open spec fn view(&self) -> JsonValue {
        json_view(*self)
    }
}

/// What a value of serde_json holds.
pub uninterp spec fn json_contents(v: serde_json::Value) -> JsonValue;

/// What serde_json reads from a text: a value, or the message about its error.
pub uninterp spec fn json_parse(text: Seq<char>) -> Result<JsonValue, Seq<char>>;

/// The outermost layer of a value of serde_json.
enum Layer {
    Null,
    Bool(bool),
    Number(Option<u64>),
    Text(String),
    Array(Vec<serde_json::Value>),
    Object(Vec<(String, serde_json::Value)>),
}

spec fn layer_view(l: Layer) -> JsonValue {
    match l {
        Layer::Null => JsonValue::Null,
        Layer::Bool(b) => JsonValue::Bool(b),
        Layer::Number(n) => JsonValue::Number(n),
        Layer::Text(s) => JsonValue::Text(s@),
        Layer::Array(v) => JsonValue::Array(v@.map_values(|x: serde_json::Value| json_contents(x))),
        Layer::Object(v) => JsonValue::Object(
            v@.map_values(|f: (String, serde_json::Value)| (f.0@, json_contents(f.1))),
        ),
    }
}

/// Takes a `serde_json::Value` apart, with `Number::as_u64` for a number and the
/// entries of its map for an object: the layer holds what the value holds.
#[verifier::external_body]
fn outermost(v: serde_json::Value) -> (l: Layer)
    ensures
        layer_view(l) == json_contents(v),
{
    match v {
        serde_json::Value::Null => Layer::Null,
        serde_json::Value::Bool(b) => Layer::Bool(b),
        serde_json::Value::Number(n) => Layer::Number(n.as_u64()),
        serde_json::Value::String(s) => Layer::Text(s),
        serde_json::Value::Array(a) => Layer::Array(a),
        serde_json::Value::Object(m) => Layer::Object(m.into_iter().collect()),
    }
}

/// `serde_json::from_str` for a value. Both the value that it reads and the
/// message about its error follow from the text alone.
#[verifier::external_body]
fn read_value(text: &str) -> (r: Result<serde_json::Value, String>)
    ensures
        match r {
            Ok(v) => json_parse(text@) == Ok::<JsonValue, Seq<char>>(json_contents(v)),
            Err(e) => json_parse(text@) == Err::<JsonValue, Seq<char>>(e@),
        },
{
    match serde_json::from_str::<serde_json::Value>(text) {
        Ok(v) => Ok(v),
        Err(e) => Err(e.to_string()),
    }
}

/// A value of serde_json as a JSON value.
fn json_of(v: serde_json::Value) -> (j: Json)
    ensures
        j@ == json_contents(v),
    decreases json_contents(v),
{
    let ghost whole = json_contents(v);
    match outermost(v) {
        Layer::Null => Json::Null,
        Layer::Bool(b) => Json::Bool(b),
        Layer::Number(n) => Json::Number(n),
        Layer::Text(s) => Json::Text(s),
        Layer::Array(items) => {
            let ghost all = whole->Array_0;
            let mut out: Vec<Json> = Vec::new();
            for item in it: items.into_iter()
                invariant
                    whole == json_contents(v),
                    whole == JsonValue::Array(all),
                    it.seq().map_values(|x: serde_json::Value| json_contents(x)) == all,
                    out@.len() == it.index(),
                    forall|k: int| 0 <= k < out@.len() ==> json_view(#[trigger] out@[k]) == all[k],
            {
                assert(all[it.index() as int] == json_contents(item));
                assert(decreases_to!(whole => whole->Array_0));
                assert(decreases_to!(all => all[it.index() as int]));
                out.push(json_of(item));
            }
            assert(json_view(Json::Array(out)) == whole) by {
                assert(json_view(Json::Array(out))->Array_0 =~= all);
            }
            Json::Array(out)
        },
        Layer::Object(items) => {
            let ghost all = whole->Object_0;
            let mut out: Vec<(String, Json)> = Vec::new();
            for item in it: items.into_iter()
                invariant
                    whole == json_contents(v),
                    whole == JsonValue::Object(all),
                    it.seq().map_values(
                        |f: (String, serde_json::Value)| (f.0@, json_contents(f.1)),
                    ) == all,
                    out@.len() == it.index(),
                    forall|k: int|
                        0 <= k < out@.len() ==> ((#[trigger] out@[k]).0@, json_view(out@[k].1))
                            == all[k],
            {
                assert(all[it.index() as int] == (item.0@, json_contents(item.1)));
                assert(decreases_to!(whole => whole->Object_0));
                assert(decreases_to!(all => all[it.index() as int]));
                assert(decreases_to!(all[it.index() as int] => all[it.index() as int].1));
                out.push((item.0, json_of(item.1)));
            }
            assert(json_view(Json::Object(out)) == whole) by {
                assert(json_view(Json::Object(out))->Object_0 =~= all);
            }
            Json::Object(out)
        },
    }
}

/// What came of reading a JSON value.
pub open spec fn parsed(r: Result<Json, String>) -> Result<JsonValue, Seq<char>> {
    match r {
        Ok(j) => Ok(j@),
        Err(e) => Err(e@),
    }
}

/// Reads a JSON value.
pub fn parse_json(text: &str) -> (r: Result<Json, String>)
    ensures
        parsed(r) == json_parse(text@),
{
    match read_value(text) {
        Ok(v) => Ok(json_of(v)),
        Err(e) => Err(e),
    }
}

/// How serde_json writes a value without blanks.
pub uninterp spec fn json_rendering(v: JsonValue) -> Seq<char>;

/// A text in at most `depth` layers of objects with one field.
pub open spec fn wrapped_text(v: JsonValue, depth: nat) -> bool
    decreases depth,
{
    match v {
        JsonValue::Text(_) => true,
        JsonValue::Object(fields) => depth > 0 && fields.len() == 1 && wrapped_text(
            fields[0].1,
            (depth - 1) as nat,
        ),
        _ => false,
    }
}

/// `serde_json::Value::String` holds a text.
#[verifier::external_body]
fn text_value(s: &str) -> (v: serde_json::Value)
    ensures
        json_contents(v) == JsonValue::Text(s@),
{
    serde_json::Value::String(s.to_owned())
}

/// `serde_json::Map::insert` into an empty map gives an object with one field.
#[verifier::external_body]
fn object_value(name: &str, value: serde_json::Value) -> (v: serde_json::Value)
    ensures
        json_contents(v) == JsonValue::Object(seq![(name@, json_contents(value))]),
{
    let mut fields = serde_json::Map::new();
    fields.insert(name.to_owned(), value);
    serde_json::Value::Object(fields)
}

/// serde_json reads the value from the text.
pub open spec fn reads_as(text: Seq<char>, v: JsonValue) -> bool {
    json_parse(text) == Ok::<JsonValue, Seq<char>>(v)
}

/// `serde_json::to_string` for a text in objects with one field. Writing into
/// memory does not fail; a line feed inside a text is escaped, and none is put
/// between the parts. `serde_json::from_str`, which reads up to 127 layers and
/// takes white space behind a value, reads the same value back from the text with
/// a line feed behind it.
#[verifier::external_body]
fn write_value(v: &serde_json::Value) -> (r: Result<String, String>)
    requires
        wrapped_text(json_contents(*v), 127),
    ensures
        r is Ok,
        r->Ok_0@ == json_rendering(json_contents(*v)),
        !r->Ok_0@.contains('\n'),
        reads_as(r->Ok_0@.push('\n'), json_contents(*v)),
{
    match serde_json::to_string(v) {
        Ok(s) => Ok(s),
        Err(e) => Err(e.to_string()),
    }
}

/// A value as one line of a conversation.
pub open spec fn json_line(v: JsonValue) -> Seq<char> {
    json_rendering(v).push('\n')
}

/// The text is one line and ends in a line feed.
pub open spec fn one_line(s: Seq<char>) -> bool {
    s.len() > 0 && s.last() == '\n' && !s.drop_last().contains('\n')
}

/// A name with one field, as a value.
pub open spec fn named_field(name: Seq<char>, field: Seq<char>, value: Seq<char>) -> JsonValue {
    JsonValue::Object(
        seq![(name, JsonValue::Object(seq![(field, JsonValue::Text(value))]))],
    )
}

/// A value as one line of a conversation.
fn line_of(v: &serde_json::Value) -> (line: String)
    requires
        wrapped_text(json_contents(*v), 127),
    ensures
        line@ == json_line(json_contents(*v)),
        one_line(line@),
        reads_as(line@, json_contents(*v)),
{
    match write_value(v) {
        Ok(mut line) => {
            let ghost text = line@;
            line.push('\n');
            assert(line@.drop_last() =~= text);
            line
        },
        Err(e) => e,
    }
}

/// The one line for a name, from which the name can be read back.
pub fn name_line(name: &str) -> (line: String)
    ensures
        line@ == json_line(JsonValue::Text(name@)),
        one_line(line@),
        reads_as(line@, JsonValue::Text(name@)),
{
    line_of(&text_value(name))
}

/// The one line for a name with one field, from which both can be read back.
pub fn field_line(name: &str, field: &str, value: &str) -> (line: String)
    ensures
        line@ == json_line(named_field(name@, field@, value@)),
        one_line(line@),
        reads_as(line@, named_field(name@, field@, value@)),
{
    proof {
        reveal_with_fuel(wrapped_text, 3);
    }
    line_of(&object_value(name, object_value(field, text_value(value))))
}

/// The value of the field `name`, the first one where there are several.
pub open spec fn field_of(fields: Seq<(Seq<char>, JsonValue)>, name: Seq<char>) -> Option<JsonValue>
    decreases fields.len(),
{
    if fields.len() == 0 {
        None
    } else if fields[0].0 == name {
        Some(fields[0].1)
    } else {
        field_of(fields.drop_first(), name)
    }
}

impl JsonValue {
    /// The field `name` of an object.
    pub open spec fn get(self, name: Seq<char>) -> Option<JsonValue> {
        match self {
            JsonValue::Object(fields) => field_of(fields, name),
            _ => None,
        }
    }

    /// The item at `i` of an array.
    pub open spec fn item(self, i: int) -> Option<JsonValue> {
        match self {
            JsonValue::Array(items) => if 0 <= i < items.len() {
                Some(items[i])
            } else {
                None
            },
            _ => None,
        }
    }

    /// The text of the field `name`.
    pub open spec fn get_text(self, name: Seq<char>) -> Option<Seq<char>> {
        match self.get(name) {
            Some(JsonValue::Text(s)) => Some(s),
            _ => None,
        }
    }

    /// The number of the field `name`.
    pub open spec fn get_number(self, name: Seq<char>) -> Option<u64> {
        match self.get(name) {
            Some(JsonValue::Number(n)) => n,
            _ => None,
        }
    }

    /// The truth value of the field `name`.
    pub open spec fn get_bool(self, name: Seq<char>) -> Option<bool> {
        match self.get(name) {
            Some(JsonValue::Bool(b)) => Some(b),
            _ => None,
        }
    }

    /// The items of the field `name`.
    pub open spec fn get_items(self, name: Seq<char>) -> Option<Seq<JsonValue>> {
        match self.get(name) {
            Some(JsonValue::Array(items)) => Some(items),
            _ => None,
        }
    }

    /// The fields of the field `name`.
    pub open spec fn get_fields(self, name: Seq<char>) -> Option<Seq<(Seq<char>, JsonValue)>> {
        match self.get(name) {
            Some(JsonValue::Object(fields)) => Some(fields),
            _ => None,
        }
    }
}

/// What the items of an array hold.
pub open spec fn items_view(v: Seq<Json>) -> Seq<JsonValue> {
    v.map_values(|j: Json| j@)
}

/// What the fields of an object hold.
pub open spec fn fields_view(v: Seq<(String, Json)>) -> Seq<(Seq<char>, JsonValue)> {
    v.map_values(|f: (String, Json)| (f.0@, f.1@))
}

/// What an array and an object hold.
pub broadcast proof fn lemma_json_view(j: Json)
    ensures
        #![trigger j@]
        j matches Json::Array(v) ==> j@ == JsonValue::Array(items_view(v@)),
        j matches Json::Object(v) ==> j@ == JsonValue::Object(fields_view(v@)),
{
    match j {
        Json::Array(v) => {
            assert(j@->Array_0 =~= items_view(v@));
        },
        Json::Object(v) => {
            assert(j@->Object_0 =~= fields_view(v@));
        },
        _ => {},
    }
}

impl Json {
    /// The field `name` of an object.
    pub fn get(&self, name: &str) -> (r: Option<&Json>)
        ensures
            match r {
                Some(j) => self@.get(name@) == Some(j@),
                None => self@.get(name@) is None,
            },
    {
        broadcast use lemma_json_view;

        match self {
            Json::Object(fields) => {
                let ghost all = fields_view(fields@);
                assert(all.skip(0) =~= all);
                let mut i: usize = 0;
                while i < fields.len()
                    invariant
                        self@ == JsonValue::Object(all),
                        all == fields_view(fields@),
                        0 <= i <= fields@.len(),
                        field_of(all, name@) == field_of(all.skip(i as int), name@),
                    decreases fields@.len() - i,
                {
                    assert(all.skip(i as int)[0] == (fields@[i as int].0@, fields@[i as int].1@));
                    assert(all.skip(i as int).drop_first() =~= all.skip(i + 1));
                    if same(fields[i].0.as_str(), name) {
                        return Some(&fields[i].1);
                    }
                    i = i + 1;
                }
                None
            },
            _ => None,
        }
    }

    /// The item at `i` of an array.
    pub fn item(&self, i: usize) -> (r: Option<&Json>)
        ensures
            match r {
                Some(j) => self@.item(i as int) == Some(j@),
                None => self@.item(i as int) is None,
            },
    {
        broadcast use lemma_json_view;

        match self {
            Json::Array(items) => if i < items.len() {
                Some(&items[i])
            } else {
                None
            },
            _ => None,
        }
    }

    /// The text of the field `name`.
    pub fn get_text(&self, name: &str) -> (r: Option<&str>)
        ensures
            match r {
                Some(s) => self@.get_text(name@) == Some(s@),
                None => self@.get_text(name@) is None,
            },
    {
        match self.get(name) {
            Some(Json::Text(s)) => Some(s.as_str()),
            _ => None,
        }
    }

    /// The number of the field `name`.
    pub fn get_number(&self, name: &str) -> (r: Option<u64>)
        ensures
            r == self@.get_number(name@),
    {
        match self.get(name) {
            Some(Json::Number(n)) => *n,
            _ => None,
        }
    }

    /// The truth value of the field `name`.
    pub fn get_bool(&self, name: &str) -> (r: Option<bool>)
        ensures
            r == self@.get_bool(name@),
    {
        match self.get(name) {
            Some(Json::Bool(b)) => Some(*b),
            _ => None,
        }
    }

    /// The items of the field `name`.
    pub fn get_items(&self, name: &str) -> (r: Option<&Vec<Json>>)
        ensures
            match r {
                Some(v) => self@.get_items(name@) == Some(items_view(v@)),
                None => self@.get_items(name@) is None,
            },
    {
        broadcast use lemma_json_view;

        match self.get(name) {
            Some(Json::Array(items)) => Some(items),
            _ => None,
        }
    }

    /// The fields of the field `name`.
    pub fn get_fields(&self, name: &str) -> (r: Option<&Vec<(String, Json)>>)
        ensures
            match r {
                Some(v) => self@.get_fields(name@) == Some(fields_view(v@)),
                None => self@.get_fields(name@) is None,
            },
    {
        broadcast use lemma_json_view;

        match self.get(name) {
            Some(Json::Object(fields)) => Some(fields),
            _ => None,
        }
    }

    /// Whether the value is the text `s`.
    pub fn is_text(&self, s: &str) -> (r: bool)
        ensures
            r == (self@ == JsonValue::Text(s@)),
    {
        match self {
            Json::Text(t) => same(t.as_str(), s),
            _ => false,
        }
    }
}

/// A field is found exactly where an entry has its name, and the first such entry
/// gives its value.
pub proof fn law_first_field_counts(fields: Seq<(Seq<char>, JsonValue)>, name: Seq<char>)
    ensures
        field_of(fields, name) is None <==> forall|i: int|
            0 <= i < fields.len() ==> (#[trigger] fields[i]).0 != name,
        forall|i: int|
            0 <= i < fields.len() && (#[trigger] fields[i]).0 == name && (forall|k: int|
                0 <= k < i ==> (#[trigger] fields[k]).0 != name) ==> field_of(fields, name) == Some(
                fields[i].1,
            ),
    decreases fields.len(),
{
    if fields.len() > 0 && fields[0].0 != name {
        let rest = fields.drop_first();
        law_first_field_counts(rest, name);
        assert forall|i: int|
            0 <= i < fields.len() && (#[trigger] fields[i]).0 == name && (forall|k: int|
                0 <= k < i ==> (#[trigger] fields[k]).0 != name) implies field_of(fields, name)
            == Some(fields[i].1) by {
            assert(rest[i - 1] == fields[i]);
            assert forall|k: int| 0 <= k < i - 1 implies (#[trigger] rest[k]).0 != name by {
                assert(rest[k] == fields[k + 1]);
            }
        }
        if field_of(rest, name) is None {
            assert forall|i: int| 0 <= i < fields.len() implies (#[trigger] fields[i]).0
                != name by {
                if i > 0 {
                    assert(rest[i - 1] == fields[i]);
                }
            }
        }
        if forall|i: int| 0 <= i < fields.len() ==> (#[trigger] fields[i]).0 != name {
            assert forall|i: int| 0 <= i < rest.len() implies (#[trigger] rest[i]).0 != name by {
                assert(rest[i] == fields[i + 1]);
            }
        }
    }
}

/// Only objects have fields and only arrays have items, and a field is taken for
/// what it is: a text for a text alone, a number for a number alone, and so on.
pub proof fn law_fields_keep_their_kind(j: JsonValue, name: Seq<char>, i: int)
    ensures
        j.get(name) == match j {
            JsonValue::Object(fields) => field_of(fields, name),
            _ => None,
        },
        j.get_text(name) matches Some(s) ==> j.get(name) == Some(JsonValue::Text(s)),
        j.get(name) matches Some(JsonValue::Text(s)) ==> j.get_text(name) == Some(s),
        j.get_number(name) matches Some(n) ==> j.get(name) == Some(JsonValue::Number(Some(n))),
        j.get(name) matches Some(JsonValue::Number(Some(n))) ==> j.get_number(name) == Some(n),
        j.get_bool(name) matches Some(b) ==> j.get(name) == Some(JsonValue::Bool(b)),
        j.get(name) matches Some(JsonValue::Bool(b)) ==> j.get_bool(name) == Some(b),
        j.get_items(name) matches Some(v) ==> j.get(name) == Some(JsonValue::Array(v)),
        j.get(name) matches Some(JsonValue::Array(v)) ==> j.get_items(name) == Some(v),
        j.get_fields(name) matches Some(v) ==> j.get(name) == Some(JsonValue::Object(v)),
        j.get(name) matches Some(JsonValue::Object(v)) ==> j.get_fields(name) == Some(v),
        j.item(i) is Some <==> j is Array && 0 <= i < j->Array_0.len(),
        j.item(i) is Some ==> j.item(i) == Some(j->Array_0[i]),
{
}

/// What a value shows is what it holds, item by item and field by field.
pub proof fn law_value_shows_all(j: Json, i: int)
    ensures
        j is Null <==> j@ == JsonValue::Null,
        j matches Json::Bool(b) ==> j@ == JsonValue::Bool(b),
        j matches Json::Number(n) ==> j@ == JsonValue::Number(n),
        j matches Json::Text(s) ==> j@ == JsonValue::Text(s@),
        j matches Json::Array(v) ==> j@ is Array && j@->Array_0.len() == v@.len() && (0 <= i
            < v@.len() ==> j@->Array_0[i] == v@[i]@),
        j matches Json::Object(v) ==> j@ is Object && j@->Object_0.len() == v@.len() && (0 <= i
            < v@.len() ==> j@->Object_0[i] == (v@[i].0@, v@[i].1@)),
{
    lemma_json_view(j);
}

/// The line for a name is one line, and what is read from it is the name.
pub proof fn law_name_is_read_back(name: &str, line: String)
    requires
        call_ensures(name_line, (name,), line),
    ensures
        json_parse(line@) == Ok::<JsonValue, Seq<char>>(JsonValue::Text(name@)),
        line@.last() == '\n',
        forall|i: int| 0 <= i < line@.len() - 1 ==> line@[i] != '\n',
{
    lemma_one_line(line@);
}

/// The line for a name with one field is one line, and what is read from it is the
/// name with that field and that value.
pub proof fn law_field_is_read_back(name: &str, field: &str, value: &str, line: String)
    requires
        call_ensures(field_line, (name, field, value), line),
    ensures
        json_parse(line@) is Ok,
        json_parse(line@)->Ok_0.get(name@) is Some,
        json_parse(line@)->Ok_0.get(name@)->Some_0.get_text(field@) == Some(value@),
        json_parse(line@)->Ok_0->Object_0.len() == 1,
        json_parse(line@)->Ok_0.get(name@)->Some_0->Object_0.len() == 1,
        line@.last() == '\n',
        forall|i: int| 0 <= i < line@.len() - 1 ==> line@[i] != '\n',
{
    lemma_one_line(line@);
}

proof fn lemma_one_line(s: Seq<char>)
    requires
        one_line(s),
    ensures
        s.last() == '\n',
        forall|i: int| 0 <= i < s.len() - 1 ==> s[i] != '\n',
{
    assert forall|i: int| 0 <= i < s.len() - 1 implies s[i] != '\n' by {
        assert(s.drop_last()[i] == s[i]);
        assert(s.drop_last().contains(s.drop_last()[i]));
    }
}

/// A text is read as what serde_json reads from it, and its error is reported where it
/// reads nothing.
pub proof fn law_read_as_serde_does(text: &str, r: Result<Json, String>)
    requires
        call_ensures(parse_json, (text,), r),
    ensures
        r matches Ok(j) ==> json_parse(text@) == Ok::<JsonValue, Seq<char>>(j@),
        r matches Err(e) ==> json_parse(text@) == Err::<JsonValue, Seq<char>>(e@),
{
}

} // verus!
