//! JSON values.
use crate::text::same;
use serde_json::Value;
use vstd::prelude::*;
use vstd::string::*;

verus! {

/// A JSON value. An object keeps its fields in order, each key once.
#[derive(Debug)]
pub enum Json {
    Null,
    Bool(bool),
    /// A whole number that fits in 64 bits with a sign.
    Int(i64),
    /// A larger whole number.
    Big(u64),
    /// Any other number, as the bits of a 64-bit float.
    Real(u64),
    Str(String),
    Arr(Vec<Json>),
    Obj(Vec<(String, Json)>),
}

/// What a JSON value is, strings by their characters.
pub enum JsonV {
    Null,
    Bool(bool),
    Int(int),
    Big(u64),
    Real(u64),
    Str(Seq<char>),
    Arr(Seq<JsonV>),
    Obj(Seq<(Seq<char>, JsonV)>),
}

impl Json {
    /// The value as a mathematical one.
    pub open spec fn model(self) -> JsonV
        decreases self,
    {
        match self {
            Json::Null => JsonV::Null,
            Json::Bool(b) => JsonV::Bool(b),
            Json::Int(n) => JsonV::Int(n as int),
            Json::Big(n) => JsonV::Big(n),
            Json::Real(bits) => JsonV::Real(bits),
            Json::Str(s) => JsonV::Str(s@),
            Json::Arr(items) => JsonV::Arr(
                Seq::new(
                    items@.len(),
                    |i: int|
                        if 0 <= i < items@.len() {
                            items@[i].model()
                        } else {
                            JsonV::Null
                        },
                ),
            ),
            Json::Obj(fields) => JsonV::Obj(
                Seq::new(
                    fields@.len(),
                    |i: int|
                        if 0 <= i < fields@.len() {
                            (fields@[i].0@, fields@[i].1.model())
                        } else {
                            (seq![], JsonV::Null)
                        },
                ),
            ),
        }
    }

    /// A copy of the value.
    pub fn copy(&self) -> (res: Json)
        ensures
            res.model() == self.model(),
        decreases *self,
    {
        match self {
            Json::Null => Json::Null,
            Json::Bool(b) => Json::Bool(*b),
            Json::Int(n) => Json::Int(*n),
            Json::Big(n) => Json::Big(*n),
            Json::Real(bits) => Json::Real(*bits),
            Json::Str(s) => Json::Str(s.clone()),
            Json::Arr(items) => {
                let mut out: Vec<Json> = Vec::new();
                let mut i: usize = 0;
                while i < items.len()
                    invariant
                        i <= items@.len(),
                        out@.len() == i,
                        *self == Json::Arr(*items),
                        forall|k: int| 0 <= k < i ==> #[trigger] out@[k].model() == items@[k].model(),
                    decreases items@.len() - i,
                {
                    proof {
                        assert(self->Arr_0 == *items);
                        assert(decreases_to!(items@ => items@[i as int]));
                    }
                    let item: Json = items[i].copy();
                    out.push(item);
                    i += 1;
                }
                proof {
                    let ours = Json::Arr(out).model()->Arr_0;
                    let theirs = self.model()->Arr_0;
                    assert forall|k: int| 0 <= k < ours.len() implies ours[k] == theirs[k] by {
                        assert(out@[k].model() == items@[k].model());
                    }
                    assert(ours =~= theirs);
                }
                Json::Arr(out)
            },
            Json::Obj(fields) => {
                let mut out: Vec<(String, Json)> = Vec::new();
                let mut i: usize = 0;
                while i < fields.len()
                    invariant
                        i <= fields@.len(),
                        out@.len() == i,
                        *self == Json::Obj(*fields),
                        forall|k: int|
                            0 <= k < i ==> (#[trigger] out@[k]).0@ == fields@[k].0@
                                && out@[k].1.model() == fields@[k].1.model(),
                    decreases fields@.len() - i,
                {
                    proof {
                        assert(self->Obj_0 == *fields);
                        assert(decreases_to!(fields@ => fields@[i as int]));
                    }
                    let key: String = fields[i].0.clone();
                    let value: Json = fields[i].1.copy();
                    out.push((key, value));
                    i += 1;
                }
                proof {
                    assert(Json::Obj(out).model()->Obj_0 =~= self.model()->Obj_0);
                }
                Json::Obj(out)
            },
        }
    }
}

// -------------------------------------------------------------------- reading

/// Values as mathematical ones.
pub open spec fn items_model(items: Seq<Json>) -> Seq<JsonV> {
    Seq::new(items.len(), |i: int| items[i].model())
}

/// Fields as mathematical ones.
pub open spec fn fields_model(fields: Seq<(String, Json)>) -> Seq<(Seq<char>, JsonV)> {
    Seq::new(fields.len(), |i: int| (fields[i].0@, fields[i].1.model()))
}

/// An array is the list of its items.
pub broadcast proof fn lemma_arr_model(items: Vec<Json>)
    ensures
        #[trigger] Json::Arr(items).model() == JsonV::Arr(items_model(items@)),
{
    assert(Json::Arr(items).model()->Arr_0 =~= items_model(items@));
}

/// An object is the list of its fields.
pub broadcast proof fn lemma_obj_model(fields: Vec<(String, Json)>)
    ensures
        #[trigger] Json::Obj(fields).model() == JsonV::Obj(fields_model(fields@)),
{
    assert(Json::Obj(fields).model()->Obj_0 =~= fields_model(fields@));
}

pub broadcast group group_json {
    lemma_arr_model,
    lemma_obj_model,
}

/// Where the first field `key` stands, from field `i` on.
pub open spec fn field_index(fields: Seq<(Seq<char>, JsonV)>, key: Seq<char>, i: int) -> Option<int>
    decreases fields.len() - i,
{
    if i < 0 || i >= fields.len() {
        None
    } else if fields[i].0 == key {
        Some(i)
    } else {
        field_index(fields, key, i + 1)
    }
}

/// The field is found where it stands, and nowhere before.
pub proof fn lemma_field_index(fields: Seq<(Seq<char>, JsonV)>, key: Seq<char>, i: int)
    requires
        0 <= i,
    ensures
        match field_index(fields, key, i) {
            Some(k) => i <= k < fields.len() && fields[k].0 == key && forall|j: int|
                i <= j < k ==> (#[trigger] fields[j]).0 != key,
            None => forall|j: int| i <= j < fields.len() ==> (#[trigger] fields[j]).0 != key,
        },
    decreases fields.len() - i,
{
    if i < fields.len() && fields[i].0 != key {
        lemma_field_index(fields, key, i + 1);
    }
}

impl JsonV {
    /// The value of an object's field.
    pub open spec fn get(self, key: Seq<char>) -> Option<JsonV> {
        match self {
            JsonV::Obj(fields) => match field_index(fields, key, 0) {
                Some(i) => Some(fields[i].1),
                None => None,
            },
            _ => None,
        }
    }

    /// Whether the value can hold a record of `n` fields: as an object, by name, or
    /// as an array of no more than those, by place.
    pub open spec fn is_record(self, n: int) -> bool {
        match self {
            JsonV::Obj(_) => true,
            JsonV::Arr(items) => items.len() <= n,
            _ => false,
        }
    }

    /// Whether an object has no two fields `key`.
    pub open spec fn is_single(self, key: Seq<char>) -> bool {
        match self {
            JsonV::Obj(fields) => field_index(fields, key, 0) matches Some(i) ==> field_index(
                fields,
                key,
                i + 1,
            ) is None,
            _ => true,
        }
    }

    /// The field of a record that has that name and stands in that place.
    pub open spec fn slot(self, key: Seq<char>, place: int) -> Option<JsonV> {
        match self {
            JsonV::Arr(items) => if 0 <= place < items.len() {
                Some(items[place])
            } else {
                None
            },
            _ => self.get(key),
        }
    }

    /// The characters of a string.
    pub open spec fn as_str(self) -> Option<Seq<char>> {
        match self {
            JsonV::Str(s) => Some(s),
            _ => None,
        }
    }

    /// The value of a boolean.
    pub open spec fn as_bool(self) -> Option<bool> {
        match self {
            JsonV::Bool(b) => Some(b),
            _ => None,
        }
    }

    /// The value of a whole number that fits in 64 bits with a sign.
    pub open spec fn as_int(self) -> Option<int> {
        match self {
            JsonV::Int(n) => Some(n),
            _ => None,
        }
    }

    /// The items of an array.
    pub open spec fn as_array(self) -> Option<Seq<JsonV>> {
        match self {
            JsonV::Arr(items) => Some(items),
            _ => None,
        }
    }

    /// The characters of an object's string field.
    pub open spec fn str_at(self, key: Seq<char>) -> Option<Seq<char>> {
        match self.get(key) {
            Some(v) => v.as_str(),
            None => None,
        }
    }

    /// The value of an object's boolean field.
    pub open spec fn bool_at(self, key: Seq<char>) -> Option<bool> {
        match self.get(key) {
            Some(v) => v.as_bool(),
            None => None,
        }
    }

    /// The value of an object's whole-number field.
    pub open spec fn int_at(self, key: Seq<char>) -> Option<int> {
        match self.get(key) {
            Some(v) => v.as_int(),
            None => None,
        }
    }
}

/// An optional value as a mathematical one.
pub open spec fn opt_model(value: Option<&Json>) -> Option<JsonV> {
    match value {
        Some(v) => Some(v.model()),
        None => None,
    }
}

impl Json {
    /// The value of an object's field.
    pub fn get(&self, key: &str) -> (res: Option<&Json>)
        ensures
            opt_model(res) == self.model().get(key@),
    {
        broadcast use group_json;

        match self {
            Json::Obj(fields) => {
                let ghost model = fields_model(fields@);
                let mut i: usize = 0;
                while i < fields.len()
                    invariant
                        i <= fields@.len(),
                        model == fields_model(fields@),
                        *self == Json::Obj(*fields),
                        self.model() == JsonV::Obj(model),
                        field_index(model, key@, 0) == field_index(model, key@, i as int),
                    decreases fields@.len() - i,
                {
                    proof {
                        assert(model[i as int] == (
                            fields@[i as int].0@,
                            fields@[i as int].1.model(),
                        ));
                    }
                    if same(&fields[i].0, key) {
                        return Some(&fields[i].1);
                    }
                    i += 1;
                }
                None
            },
            _ => None,
        }
    }

    /// Whether the value can hold a record of `n` fields.
    pub fn is_record(&self, n: usize) -> (res: bool)
        ensures
            res == self.model().is_record(n as int),
    {
        broadcast use group_json;

        match self {
            Json::Obj(_) => true,
            Json::Arr(items) => items.len() <= n,
            _ => false,
        }
    }

    /// Whether an object has no two fields `key`.
    pub fn is_single(&self, key: &str) -> (res: bool)
        ensures
            res == self.model().is_single(key@),
    {
        broadcast use group_json;

        match self {
            Json::Obj(fields) => {
                let ghost model = fields_model(fields@);
                let mut found: bool = false;
                let mut i: usize = 0;
                while i < fields.len()
                    invariant
                        i <= fields@.len(),
                        model == fields_model(fields@),
                        *self == Json::Obj(*fields),
                        self.model() == JsonV::Obj(model),
                        !found ==> field_index(model, key@, 0) == field_index(model, key@, i as int),
                        found ==> (field_index(model, key@, 0) matches Some(k) && field_index(
                            model,
                            key@,
                            k + 1,
                        ) == field_index(model, key@, i as int)),
                    decreases fields@.len() - i,
                {
                    proof {
                        assert(model[i as int] == (
                            fields@[i as int].0@,
                            fields@[i as int].1.model(),
                        ));
                    }
                    if same(&fields[i].0, key) {
                        if found {
                            return false;
                        }
                        found = true;
                    }
                    i += 1;
                }
                true
            },
            _ => true,
        }
    }

    /// The field of a record that has that name and stands in that place.
    pub fn slot(&self, key: &str, place: usize) -> (res: Option<&Json>)
        ensures
            opt_model(res) == self.model().slot(key@, place as int),
    {
        broadcast use group_json;

        match self {
            Json::Arr(items) => {
                if place < items.len() {
                    proof {
                        assert(items_model(items@)[place as int] == items@[place as int].model());
                    }
                    Some(&items[place])
                } else {
                    None
                }
            },
            _ => self.get(key),
        }
    }

    /// The characters of a string.
    pub fn as_str(&self) -> (res: Option<&str>)
        ensures
            res is Some <==> self.model().as_str() is Some,
            res matches Some(s) ==> self.model().as_str() == Some(s@),
    {
        match self {
            Json::Str(s) => Some(s.as_str()),
            _ => None,
        }
    }

    /// The value of a boolean.
    pub fn as_bool(&self) -> (res: Option<bool>)
        ensures
            res == self.model().as_bool(),
    {
        match self {
            Json::Bool(b) => Some(*b),
            _ => None,
        }
    }

    /// The value of a whole number that fits in 64 bits with a sign.
    pub fn as_int(&self) -> (res: Option<i64>)
        ensures
            res is Some <==> self.model().as_int() is Some,
            res matches Some(n) ==> self.model().as_int() == Some(n as int),
    {
        match self {
            Json::Int(n) => Some(*n),
            _ => None,
        }
    }

    /// The items of an array.
    pub fn as_array(&self) -> (res: Option<&Vec<Json>>)
        ensures
            res is Some <==> self.model().as_array() is Some,
            res matches Some(items) ==> self.model().as_array() == Some(items_model(items@)),
    {
        broadcast use group_json;

        match self {
            Json::Arr(items) => Some(items),
            _ => None,
        }
    }

    /// Whether the value is null.
    pub fn is_null(&self) -> (res: bool)
        ensures
            res == (self.model() is Null),
    {
        match self {
            Json::Null => true,
            _ => false,
        }
    }

    /// The characters of an object's string field.
    pub fn str_at(&self, key: &str) -> (res: Option<&str>)
        ensures
            res is Some <==> self.model().str_at(key@) is Some,
            res matches Some(s) ==> self.model().str_at(key@) == Some(s@),
    {
        match self.get(key) {
            Some(v) => v.as_str(),
            None => None,
        }
    }

    /// The value of an object's boolean field.
    pub fn bool_at(&self, key: &str) -> (res: Option<bool>)
        ensures
            res == self.model().bool_at(key@),
    {
        match self.get(key) {
            Some(v) => v.as_bool(),
            None => None,
        }
    }

    /// The value of an object's whole-number field.
    pub fn int_at(&self, key: &str) -> (res: Option<i64>)
        ensures
            res is Some <==> self.model().int_at(key@) is Some,
            res matches Some(n) ==> self.model().int_at(key@) == Some(n as int),
    {
        match self.get(key) {
            Some(v) => v.as_int(),
            None => None,
        }
    }
}

// ------------------------------------------------------------------- building

/// A string value.
pub fn json_str(s: &str) -> (res: Json)
    ensures
        res.model() == JsonV::Str(s@),
{
    Json::Str(s.to_owned())
}

/// An array value.
pub fn json_arr(items: Vec<Json>) -> (res: Json)
    ensures
        res.model() == JsonV::Arr(items_model(items@)),
{
    broadcast use group_json;

    Json::Arr(items)
}

/// An object value.
pub fn json_obj(fields: Vec<(String, Json)>) -> (res: Json)
    ensures
        res.model() == JsonV::Obj(fields_model(fields@)),
{
    broadcast use group_json;

    Json::Obj(fields)
}

/// No fields.
pub fn no_fields() -> (res: Vec<(String, Json)>)
    ensures
        fields_model(res@) == Seq::<(Seq<char>, JsonV)>::empty(),
{
    let res: Vec<(String, Json)> = Vec::new();
    proof {
        assert(fields_model(res@) =~= seq![]);
    }
    res
}

/// Adds a field behind the others.
pub fn add_field(fields: &mut Vec<(String, Json)>, key: &str, value: Json)
    ensures
        fields_model(final(fields)@) == fields_model(old(fields)@).push((key@, value.model())),
{
    let ghost before = fields@;
    fields.push((key.to_owned(), value));
    proof {
        assert(fields_model(fields@) =~= fields_model(before).push((key@, value.model())));
    }
}

/// Adds an item behind the others.
pub fn add_item(items: &mut Vec<Json>, value: Json)
    ensures
        items_model(final(items)@) == items_model(old(items)@).push(value.model()),
{
    let ghost before = items@;
    items.push(value);
    proof {
        assert(items_model(items@) =~= items_model(before).push(value.model()));
    }
}

/// `fields` with `key` set: in place where it stands already, behind the others
/// where it does not.
pub open spec fn with_field(
    fields: Seq<(Seq<char>, JsonV)>,
    key: Seq<char>,
    value: JsonV,
) -> Seq<(Seq<char>, JsonV)> {
    match field_index(fields, key, 0) {
        Some(i) => fields.update(i, (key, value)),
        None => fields.push((key, value)),
    }
}

/// Sets the field `key`.
pub fn set_field(fields: &mut Vec<(String, Json)>, key: &str, value: Json)
    ensures
        fields_model(final(fields)@) == with_field(
            fields_model(old(fields)@),
            key@,
            value.model(),
        ),
{
    let ghost model = fields_model(fields@);
    let mut i: usize = 0;
    while i < fields.len()
        invariant
            i <= fields@.len(),
            fields@ == old(fields)@,
            model == fields_model(fields@),
            field_index(model, key@, 0) == field_index(model, key@, i as int),
        decreases fields@.len() - i,
    {
        proof {
            assert(model[i as int] == (fields@[i as int].0@, fields@[i as int].1.model()));
        }
        if same(&fields[i].0, key) {
            let ghost v = value.model();
            fields.set(i, (key.to_owned(), value));
            proof {
                assert(fields_model(fields@) =~= model.update(i as int, (key@, v)));
            }
            return;
        }
        i += 1;
    }
    add_field(fields, key, value);
}

/// A field that was set is found, and setting it leaves the others as they were.
pub proof fn law_set_field_is_read_back(
    fields: Seq<(Seq<char>, JsonV)>,
    key: Seq<char>,
    value: JsonV,
    other: Seq<char>,
)
    ensures
        JsonV::Obj(with_field(fields, key, value)).get(key) == Some(value),
        other != key ==> JsonV::Obj(with_field(fields, key, value)).get(other) == JsonV::Obj(
            fields,
        ).get(other),
{
    let after = with_field(fields, key, value);
    lemma_field_index(fields, key, 0);
    lemma_field_index(after, key, 0);
    lemma_field_index(fields, other, 0);
    lemma_field_index(after, other, 0);
    match field_index(fields, key, 0) {
        Some(i) => {
            assert(after[i].0 == key);
            if other != key {
                assert forall|j: int| 0 <= j < fields.len() implies (after[j].0 == other) == (
                fields[j].0 == other) && (fields[j].0 == other ==> after[j] == fields[j]) by {}
            }
        },
        None => {
            assert(after.last().0 == key);
            assert forall|j: int| 0 <= j < fields.len() implies after[j] == fields[j] by {}
        },
    }
    if other != key {
        match (field_index(fields, other, 0), field_index(after, other, 0)) {
            (Some(a), Some(b)) => {
                assert(after[a].0 == other);
                assert(fields[b].0 == other);
            },
            (Some(a), None) => {
                assert(after[a].0 == other);
            },
            (None, Some(b)) => {
                assert(fields[b].0 == other);
            },
            (None, None) => {},
        }
    }
}

// ------------------------------------------------------------- text and values

/// A JSON value of the `serde_json` crate.
#[verifier::external_type_specification]
#[verifier::external_body]
pub struct ExValue(serde_json::Value);

/// The value that a JSON text holds, or why it holds none, as the `serde_json` crate
/// reads it.
pub uninterp spec fn json_parsed(text: Seq<char>) -> Result<JsonV, Seq<char>>;

/// The text of a value, as the `serde_json` crate writes it.
pub uninterp spec fn json_text(v: JsonV) -> Seq<char>;

/// What came of reading a text, as mathematical values.
pub open spec fn parsed_view(parsed: Result<Json, String>) -> Result<JsonV, Seq<char>> {
    match parsed {
        Ok(value) => Ok(value.model()),
        Err(err) => Err(err@),
    }
}

/// Turns a `serde_json::Value` into a value of this crate, variant by variant, a
/// number into the first of a signed, an unsigned and a real one that it is. Only
/// `parse_json` calls it, so its contract claims nothing.
#[verifier::external_body]
fn from_value(value: Value) -> Json {
    match value {
        Value::Null => Json::Null,
        Value::Bool(b) => Json::Bool(b),
        Value::Number(n) => match (n.as_i64(), n.as_u64(), n.as_f64()) {
            (Some(i), _, _) => Json::Int(i),
            (None, Some(u), _) => Json::Big(u),
            (None, None, other) => Json::Real(other.unwrap_or_default().to_bits()),
        },
        Value::String(s) => Json::Str(s),
        Value::Array(items) => Json::Arr(items.into_iter().map(from_value).collect()),
        Value::Object(map) => Json::Obj(
            map.into_iter().map(|field| (field.0, from_value(field.1))).collect(),
        ),
    }
}

/// Turns a value of this crate into a `serde_json::Value`, variant by variant; the
/// `bytes` crate gives the real number that has certain bits. Only `write_json`
/// calls it, so its contract claims nothing.
#[verifier::external_body]
fn to_value(value: &Json) -> Value {
    match value {
        Json::Null => Value::Null,
        Json::Bool(b) => Value::from(*b),
        Json::Int(n) => Value::from(*n),
        Json::Big(n) => Value::from(*n),
        Json::Real(n) => Value::from(bytes::Buf::get_f64(&mut &n.to_be_bytes()[..])),
        Json::Str(s) => Value::from(s.as_str()),
        Json::Arr(items) => Value::Array(items.iter().map(to_value).collect()),
        Json::Obj(fields) => Value::Object(
            fields.iter().map(|field| (field.0.clone(), to_value(&field.1))).collect(),
        ),
    }
}

/// Reads a JSON text with `serde_json::from_str`, into a `serde_json::Value`. What
/// comes of it depends on the text alone: the value that it holds, or the words in
/// which the crate says why it holds none.
#[verifier::external_body]
fn parse_json(text: &str) -> (res: Result<Json, String>)
    ensures
        parsed_view(res) == json_parsed(text@),
{
    match serde_json::from_str::<Value>(text) {
        Ok(value) => Ok(from_value(value)),
        Err(err) => Err(err.to_string()),
    }
}

/// Writes a value as JSON text with `serde_json::Value::to_string`. The text depends
/// on the value alone.
#[verifier::external_body]
fn write_json(value: &Json) -> (res: String)
    ensures
        res@ == json_text(value.model()),
{
    to_value(value).to_string()
}

impl Json {
    /// The value that a JSON text holds, or why it holds none.
    pub fn from_text(text: &str) -> (res: Result<Json, String>)
        ensures
            parsed_view(res) == json_parsed(text@),
    {
        parse_json(text)
    }

    /// The value as JSON text.
    pub fn to_text(&self) -> (res: String)
        ensures
            res@ == json_text(self.model()),
    {
        write_json(self)
    }
}

/// A field is read by its name wherever it stands, where no field before it has that
/// name, and nothing is read of what is no object or has no such field.
pub proof fn law_a_field_is_read_by_its_name(value: Json, key: &str, i: int, res: Option<&Json>)
    requires
        call_ensures(Json::get, (&value, key), res),
    ensures
        !(value.model() is Obj) ==> res is None,
        value.model() matches JsonV::Obj(fields) ==> {
            &&& 0 <= i < fields.len() && fields[i].0 == key@ && (forall|j: int|
                0 <= j < i ==> (#[trigger] fields[j]).0 != key@) ==> (res matches Some(v)
                && v.model() == fields[i].1)
            &&& (forall|j: int| 0 <= j < fields.len() ==> (#[trigger] fields[j]).0 != key@)
                ==> res is None
        },
{
    if let JsonV::Obj(fields) = value.model() {
        lemma_field_index(fields, key@, 0);
    }
}

/// A field is read as a text, a truth value or a whole number only where it is one.
pub proof fn law_a_field_is_read_as_what_it_is(
    value: Json,
    key: &str,
    i: int,
    text: Option<&str>,
    flag: Option<bool>,
    number: Option<i64>,
)
    requires
        call_ensures(Json::str_at, (&value, key), text),
        call_ensures(Json::bool_at, (&value, key), flag),
        call_ensures(Json::int_at, (&value, key), number),
        value.model() is Obj,
        0 <= i < value.model()->Obj_0.len(),
        value.model()->Obj_0[i].0 == key@,
        forall|j: int| 0 <= j < i ==> (#[trigger] value.model()->Obj_0[j]).0 != key@,
    ensures
        match value.model()->Obj_0[i].1 {
            JsonV::Str(s) => flag is None && number is None && (text matches Some(t) && t@ == s),
            JsonV::Bool(b) => text is None && number is None && flag == Some(b),
            JsonV::Int(n) => text is None && flag is None && (number matches Some(m) && m == n),
            _ => text is None && flag is None && number is None,
        },
{
    lemma_field_index(value.model()->Obj_0, key@, 0);
}

/// A name is single where no two fields have it.
pub proof fn law_a_single_name_stands_once(value: Json, key: &str, i: int, j: int, res: bool)
    requires
        call_ensures(Json::is_single, (&value, key), res),
        value.model() is Obj,
        0 <= i < j < value.model()->Obj_0.len(),
        value.model()->Obj_0[j].0 == key@,
    ensures
        value.model()->Obj_0[i].0 == key@ ==> !res,
        (forall|k: int|
            0 <= k < value.model()->Obj_0.len() && k != j ==> (#[trigger] value.model()->Obj_0[k]).0
                != key@) ==> res,
{
    let fields = value.model()->Obj_0;
    lemma_field_index(fields, key@, 0);
    if let Some(k) = field_index(fields, key@, 0) {
        lemma_field_index(fields, key@, k + 1);
    }
}

/// A record is an object, or an array of no more than that many values, in which a
/// value is found by its place.
pub proof fn law_a_record_is_an_object_or_an_array(
    value: Json,
    n: usize,
    key: &str,
    place: usize,
    taken: bool,
    found: Option<&Json>,
)
    requires
        call_ensures(Json::is_record, (&value, n), taken),
        call_ensures(Json::slot, (&value, key, place), found),
    ensures
        match value.model() {
            JsonV::Arr(items) => taken == (items.len() <= n) && (found is Some <==> place < items.len())
                && (found matches Some(v) ==> v.model() == items[place as int]),
            JsonV::Obj(_) => taken && opt_model(found) == value.model().get(key@),
            _ => !taken && found is None,
        },
{
}

} // verus!
