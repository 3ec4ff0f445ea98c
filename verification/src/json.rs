//! JSON values, as requests carry them and replies bring them.
use vstd::prelude::*;

use crate::text::same_text;

verus! {

/// A JSON value. A number that is no integer of 64 bits is kept as its numeral.
#[derive(Debug)]
pub enum Json {
    Null,
    Bool(bool),
    Unsigned(u64),
    Negative(i64),
    Decimal(String),
    Text(String),
    Array(Vec<Json>),
    Object(Vec<(String, Json)>),
}

/// What a JSON value holds.
pub enum JsonView {
    Null,
    Bool(bool),
    Unsigned(u64),
    Negative(i64),
    Decimal(Seq<char>),
    Text(Seq<char>),
    Array(Seq<JsonView>),
    Object(Seq<(Seq<char>, JsonView)>),
}

/// What a JSON value holds.
pub open spec fn json_view(j: Json) -> JsonView
    decreases j,
{
    match j {
        Json::Null => JsonView::Null,
        Json::Bool(b) => JsonView::Bool(b),
        Json::Unsigned(n) => JsonView::Unsigned(n),
        Json::Negative(n) => JsonView::Negative(n),
        Json::Decimal(t) => JsonView::Decimal(t@),
        Json::Text(t) => JsonView::Text(t@),
        Json::Array(items) => JsonView::Array(
            Seq::new(
                items@.len(),
                |i: int|
                    if 0 <= i < items@.len() {
                        json_view(items@[i])
                    } else {
                        JsonView::Null
                    },
            ),
        ),
        Json::Object(fields) => JsonView::Object(
            Seq::new(
                fields@.len(),
                |i: int|
                    if 0 <= i < fields@.len() {
                        (fields@[i].0@, json_view(fields@[i].1))
                    } else {
                        (seq![], JsonView::Null)
                    },
            ),
        ),
    }
}

impl View for Json {
    type V = JsonView;

    open spec fn view(&self) -> JsonView {
        json_view(*self)
    }
}

/// What a list of JSON values holds.
pub open spec fn items_view(items: Seq<Json>) -> Seq<JsonView> {
    items.map_values(|j: Json| j@)
}

/// What a list of fields holds.
pub open spec fn fields_view(fields: Seq<(String, Json)>) -> Seq<(Seq<char>, JsonView)> {
    fields.map_values(|f: (String, Json)| (f.0@, f.1@))
}

proof fn array_view(items: Vec<Json>)
    ensures
        (Json::Array(items))@ == JsonView::Array(items_view(items@)),
{
    assert((Json::Array(items))@->Array_0 =~= items_view(items@));
}

proof fn object_view(fields: Vec<(String, Json)>)
    ensures
        (Json::Object(fields))@ == JsonView::Object(fields_view(fields@)),
{
    assert((Json::Object(fields))@->Object_0 =~= fields_view(fields@));
}

/// The value of the first field with a key.
pub open spec fn field_in(fields: Seq<(Seq<char>, JsonView)>, key: Seq<char>) -> Option<JsonView>
    decreases fields.len(),
{
    if fields.len() == 0 {
        None
    } else if fields[0].0 == key {
        Some(fields[0].1)
    } else {
        field_in(fields.drop_first(), key)
    }
}

/// The first field with a key is the one that counts.
pub proof fn field_in_is(fields: Seq<(Seq<char>, JsonView)>, key: Seq<char>, k: int)
    requires
        0 <= k < fields.len(),
        fields[k].0 == key,
        forall|j: int| 0 <= j < k ==> (#[trigger] fields[j]).0 != key,
    ensures
        field_in(fields, key) == Some(fields[k].1),
    decreases k,
{
    if k > 0 {
        assert(fields[0].0 != key);
        let rest = fields.drop_first();
        assert forall|j: int| 0 <= j < k - 1 implies (#[trigger] rest[j]).0 != key by {
            assert(rest[j] == fields[j + 1]);
        }
        field_in_is(rest, key, k - 1);
    }
}

impl JsonView {
    /// The value of a field of an object.
    pub open spec fn field(self, key: Seq<char>) -> Option<JsonView> {
        match self {
            JsonView::Object(fields) => field_in(fields, key),
            _ => None,
        }
    }

    /// The integer that a number denotes, if it has 64 bits with a sign.
    pub open spec fn integer(self) -> Option<int> {
        match self {
            JsonView::Unsigned(n) => if n <= i64::MAX {
                Some(n as int)
            } else {
                None
            },
            JsonView::Negative(n) => Some(n as int),
            _ => None,
        }
    }

    /// The characters of a text.
    pub open spec fn text(self) -> Option<Seq<char>> {
        match self {
            JsonView::Text(t) => Some(t),
            _ => None,
        }
    }

    /// The items of an array.
    pub open spec fn items(self) -> Option<Seq<JsonView>> {
        match self {
            JsonView::Array(items) => Some(items),
            _ => None,
        }
    }

    /// The number that stands for an integer.
    pub open spec fn of_integer(n: int) -> JsonView {
        if n >= 0 {
            JsonView::Unsigned(n as u64)
        } else {
            JsonView::Negative(n as i64)
        }
    }
}

/// Whether a value is an object that has a field, and no other field of the same name with another
/// value.
pub open spec fn carries(v: JsonView, key: Seq<char>, value: JsonView) -> bool {
    &&& v is Object
    &&& exists|k: int| 0 <= k < v->Object_0.len() && #[trigger] v->Object_0[k] == (key, value)
    &&& forall|k: int|
        0 <= k < v->Object_0.len() && (#[trigger] v->Object_0[k]).0 == key ==> v->Object_0[k].1
            == value
}

/// An integer of 64 bits as a JSON number.
pub open spec fn number_json(n: int) -> JsonView {
    if n < 0 {
        JsonView::Negative(n as i64)
    } else {
        JsonView::Unsigned(n as u64)
    }
}

/// A field with a name of its own is carried.
pub proof fn carries_at(fields: Seq<(Seq<char>, JsonView)>, k: int)
    requires
        0 <= k < fields.len(),
        forall|j: int| 0 <= j < fields.len() && j != k ==> (#[trigger] fields[j]).0 != fields[k].0,
    ensures
        carries(JsonView::Object(fields), fields[k].0, fields[k].1),
{
    let v = JsonView::Object(fields);
    assert(v->Object_0 == fields);
    assert(v->Object_0[k] == (fields[k].0, fields[k].1));
}

/// What an object carries is what is found under the name of the field.
pub proof fn carried_is_found(v: JsonView, key: Seq<char>, value: JsonView)
    requires
        carries(v, key, value),
    ensures
        v.field(key) == Some(value),
{
    let fields = v->Object_0;
    let k = choose|k: int| 0 <= k < fields.len() && #[trigger] fields[k] == (key, value);
    found_in(fields, key, value, k);
}

proof fn found_in(fields: Seq<(Seq<char>, JsonView)>, key: Seq<char>, value: JsonView, k: int)
    requires
        0 <= k < fields.len(),
        fields[k] == (key, value),
        forall|j: int|
            0 <= j < fields.len() && (#[trigger] fields[j]).0 == key ==> fields[j].1 == value,
    ensures
        field_in(fields, key) == Some(value),
    decreases fields.len(),
{
    if fields[0].0 != key {
        let rest = fields.drop_first();
        assert(rest[k - 1] == fields[k]);
        assert forall|j: int| 0 <= j < rest.len() && (#[trigger] rest[j]).0 == key implies rest[j].1
            == value by {
            assert(rest[j] == fields[j + 1]);
        }
        found_in(rest, key, value, k - 1);
    }
}

/// A JSON number stands for the integer that it was made from, and a value that is no number for
/// none.
pub proof fn numbers_read_back(n: i64, v: JsonView)
    ensures
        number_json(n as int).integer() == Some(n as int),
        JsonView::of_integer(n as int) == number_json(n as int),
        v.integer() is Some ==> v is Unsigned || v is Negative,
        v matches JsonView::Unsigned(x) ==> v.integer() == (if x <= i64::MAX {
            Some(x as int)
        } else {
            None
        }),
{
}

/// The value that `r` holds, if any.
pub open spec fn opt_view(r: Option<&Json>) -> Option<JsonView> {
    match r {
        Some(j) => Some(j@),
        None => None,
    }
}

impl Json {
    /// The value of a field of an object.
    pub fn get(&self, key: &str) -> (r: Option<&Json>)
        ensures
            opt_view(r) == self@.field(key@),
    {
        match self {
            Json::Object(fields) => {
                proof {
                    object_view(*fields);
                }
                let ghost all = fields_view(fields@);
                let mut i: usize = 0;
                assert(all.skip(0) =~= all);
                while i < fields.len()
                    invariant
                        i <= fields@.len(),
                        all == fields_view(fields@),
                        self@ == JsonView::Object(all),
                        field_in(all, key@) == field_in(all.skip(i as int), key@),
                    decreases fields@.len() - i,
                {
                    assert(all.skip(i as int)[0] == (fields@[i as int].0@, fields@[i as int].1@));
                    if same_text(fields[i].0.as_str(), key) {
                        return Some(&fields[i].1);
                    }
                    assert(all.skip(i as int).drop_first() =~= all.skip(i + 1));
                    i += 1;
                }
                None
            },
            _ => None,
        }
    }

    /// The integer that a number denotes, if it has 64 bits with a sign.
    pub fn as_i64(&self) -> (r: Option<i64>)
        ensures
            match r {
                Some(n) => self@.integer() == Some(n as int),
                None => self@.integer() is None,
            },
    {
        match self {
            Json::Unsigned(n) => {
                if *n <= 0x7fff_ffff_ffff_ffff {
                    Some(*n as i64)
                } else {
                    None
                }
            },
            Json::Negative(n) => Some(*n),
            _ => None,
        }
    }

    /// The characters of a text.
    pub fn as_str(&self) -> (r: Option<&str>)
        ensures
            match r {
                Some(t) => self@.text() == Some(t@),
                None => self@.text() is None,
            },
    {
        match self {
            Json::Text(t) => Some(t.as_str()),
            _ => None,
        }
    }

    /// The truth value.
    pub fn as_bool(&self) -> (r: Option<bool>)
        ensures
            match r {
                Some(b) => self@ == JsonView::Bool(b),
                None => !(self@ is Bool),
            },
    {
        match self {
            Json::Bool(b) => Some(*b),
            _ => None,
        }
    }

    /// The items of an array.
    pub fn as_array(&self) -> (r: Option<&Vec<Json>>)
        ensures
            match r {
                Some(v) => self@.items() == Some(items_view(v@)),
                None => self@.items() is None,
            },
    {
        match self {
            Json::Array(items) => {
                proof {
                    array_view(*items);
                }
                Some(items)
            },
            _ => None,
        }
    }

    /// Tells whether the value is null.
    pub fn is_null(&self) -> (r: bool)
        ensures
            r == (self@ is Null),
    {
        match self {
            Json::Null => true,
            _ => false,
        }
    }

    /// A second value with the same contents.
    pub fn copy(&self) -> (r: Json)
        ensures
            r@ == self@,
        decreases *self,
    {
        match self {
            Json::Null => Json::Null,
            Json::Bool(b) => Json::Bool(*b),
            Json::Unsigned(n) => Json::Unsigned(*n),
            Json::Negative(n) => Json::Negative(*n),
            Json::Decimal(t) => Json::Decimal(t.clone()),
            Json::Text(t) => Json::Text(t.clone()),
            Json::Array(items) => {
                let mut out: Vec<Json> = Vec::new();
                let mut i: usize = 0;
                while i < items.len()
                    invariant
                        *self == Json::Array(*items),
                        i <= items@.len(),
                        out@.len() == i,
                        forall|j: int| 0 <= j < i ==> (#[trigger] out@[j])@ == items@[j]@,
                    decreases items@.len() - i,
                {
                    assert(decreases_to!(*self => self->Array_0@[i as int]));
                    let item = items[i].copy();
                    out.push(item);
                    i += 1;
                }
                proof {
                    array_view(*items);
                    array_view(out);
                    assert(items_view(out@) =~= items_view(items@));
                }
                Json::Array(out)
            },
            Json::Object(fields) => {
                let mut out: Vec<(String, Json)> = Vec::new();
                let mut i: usize = 0;
                while i < fields.len()
                    invariant
                        *self == Json::Object(*fields),
                        i <= fields@.len(),
                        out@.len() == i,
                        forall|j: int|
                            0 <= j < i ==> (#[trigger] out@[j]).0@ == fields@[j].0@ && out@[j].1@
                                == fields@[j].1@,
                    decreases fields@.len() - i,
                {
                    let key = fields[i].0.clone();
                    assert(decreases_to!(*self => self->Object_0@[i as int].1));
                    let value = fields[i].1.copy();
                    out.push((key, value));
                    i += 1;
                }
                proof {
                    object_view(*fields);
                    object_view(out);
                    assert(fields_view(out@) =~= fields_view(fields@));
                }
                Json::Object(out)
            },
        }
    }

    /// The number that stands for an integer.
    pub fn integer(n: i64) -> (r: Json)
        ensures
            r@ == JsonView::of_integer(n as int),
    {
        if n >= 0 {
            Json::Unsigned(n as u64)
        } else {
            Json::Negative(n)
        }
    }

    /// A text.
    pub fn string(t: &str) -> (r: Json)
        ensures
            r@ == JsonView::Text(t@),
    {
        Json::Text(t.to_string())
    }

    /// An object with the given fields.
    pub fn object(fields: Vec<(String, Json)>) -> (r: Json)
        ensures
            r@ == JsonView::Object(fields_view(fields@)),
    {
        proof {
            object_view(fields);
        }
        Json::Object(fields)
    }
}

/// Adds a field behind the others.
pub fn put(fields: &mut Vec<(String, Json)>, key: &str, value: Json)
    ensures
        fields_view(final(fields)@) == fields_view(old(fields)@).push((key@, value@)),
{
    let k = key.to_string();
    fields.push((k, value));
    assert(fields_view(fields@) =~= fields_view(old(fields)@).push((key@, value@)));
}

} // verus!
