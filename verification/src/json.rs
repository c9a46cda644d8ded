//! JSON values.

use crate::string_map::Duplicate;
use crate::text::{digits_value, is_digits, parse_unsigned, text_has_char};
use vstd::prelude::*;

verus! {

/// A JSON value. A number is kept in its notation.
pub enum JsonValue {
    Null,
    Bool(bool),
    Number(String),
    Text(String),
    List(Vec<JsonValue>),
    Fields(Vec<(String, JsonValue)>),
}

/// What a JSON value holds.
pub enum JsonModel {
    Null,
    Bool(bool),
    Number(Seq<char>),
    Text(Seq<char>),
    List(Seq<JsonModel>),
    Fields(Seq<(Seq<char>, JsonModel)>),
}

/// The model of a JSON value.
pub open spec fn json_model(value: JsonValue) -> JsonModel
    decreases value,
{
    match value {
        JsonValue::Null => JsonModel::Null,
        JsonValue::Bool(b) => JsonModel::Bool(b),
        JsonValue::Number(n) => JsonModel::Number(n@),
        JsonValue::Text(s) => JsonModel::Text(s@),
        JsonValue::List(items) => JsonModel::List(
            Seq::new(
                items@.len(),
                |i: int|
                    if 0 <= i < items@.len() {
                        json_model(items@[i])
                    } else {
                        JsonModel::Null
                    },
            ),
        ),
        JsonValue::Fields(fields) => JsonModel::Fields(
            Seq::new(
                fields@.len(),
                |i: int|
                    if 0 <= i < fields@.len() {
                        (fields@[i].0@, json_model(fields@[i].1))
                    } else {
                        (Seq::empty(), JsonModel::Null)
                    },
            ),
        ),
    }
}

impl View for JsonValue {
    type V = JsonModel;

    open spec fn view(&self) -> JsonModel {
        json_model(*self)
    }
}

impl Duplicate for JsonValue {
    fn duplicate(&self) -> (copy: Self)
        decreases self,
    {
        match self {
            JsonValue::Null => JsonValue::Null,
            JsonValue::Bool(b) => JsonValue::Bool(*b),
            JsonValue::Number(n) => JsonValue::Number(n.clone()),
            JsonValue::Text(s) => JsonValue::Text(s.clone()),
            JsonValue::List(items) => {
                let mut list: Vec<JsonValue> = Vec::new();
                let mut i: usize = 0;
                while i < items.len()
                    invariant
                        i <= items@.len(),
                        *self == JsonValue::List(*items),
                        list@.len() == i,
                        forall|j: int| 0 <= j < i ==> json_model(list@[j]) == json_model(#[trigger] items@[j]),
                    decreases items@.len() - i,
                {
                    proof {
                        assert(decreases_to!(*self => self->List_0));
                        assert(decreases_to!(*items => items[i as int]));
                    }
                    list.push(items[i].duplicate());
                    i += 1;
                }
                let copy = JsonValue::List(list);
                proof {
                    assert(json_model(copy)->List_0 =~= json_model(*self)->List_0);
                }
                copy
            },
            JsonValue::Fields(fields) => {
                let mut list: Vec<(String, JsonValue)> = Vec::new();
                let mut i: usize = 0;
                while i < fields.len()
                    invariant
                        i <= fields@.len(),
                        *self == JsonValue::Fields(*fields),
                        list@.len() == i,
                        forall|j: int|
                            0 <= j < i ==> list@[j].0@ == (#[trigger] fields@[j]).0@ && json_model(
                                list@[j].1,
                            ) == json_model(fields@[j].1),
                    decreases fields@.len() - i,
                {
                    proof {
                        assert(decreases_to!(*self => self->Fields_0));
                        assert(decreases_to!(*fields => fields[i as int]));
                        assert(decreases_to!(fields[i as int] => fields[i as int].1));
                    }
                    list.push((fields[i].0.clone(), fields[i].1.duplicate()));
                    i += 1;
                }
                let copy = JsonValue::Fields(list);
                proof {
                    assert(json_model(copy)->Fields_0 =~= json_model(*self)->Fields_0);
                }
                copy
            },
        }
    }
}

/// The string that a value is.
pub open spec fn as_text(value: JsonModel) -> Option<Seq<char>> {
    match value {
        JsonModel::Text(s) => Some(s),
        _ => None,
    }
}

/// The number of the range of `u64` that a value is.
pub open spec fn as_count(value: JsonModel) -> Option<nat> {
    match value {
        JsonModel::Number(n) => if is_digits(n) && digits_value(n) <= u64::MAX {
            Some(digits_value(n))
        } else {
            None
        },
        _ => None,
    }
}

impl JsonValue {
    /// The string that this value is.
    pub fn as_str(&self) -> (s: Option<&String>)
        ensures
            match s {
                Some(t) => as_text(self@) == Some(t@),
                None => as_text(self@) is None,
            },
    {
        match self {
            JsonValue::Text(s) => Some(s),
            _ => None,
        }
    }

    /// The number of the range of `u64` that this value is.
    pub fn as_u64(&self) -> (n: Option<u64>)
        ensures
            match n {
                Some(v) => as_count(self@) == Some(v as nat),
                None => as_count(self@) is None,
            },
    {
        match self {
            JsonValue::Number(text) => {
                if text_has_char(text.as_str(), '+') {
                    proof {
                        let i = text@.index_of('+');
                        assert(text@[i] == '+');
                    }
                    None
                } else {
                    proof {
                        if text@.len() > 0 && text@[0] == '+' {
                            assert(text@.contains(text@[0]));
                        }
                    }
                    parse_unsigned(text.as_str(), u64::MAX)
                }
            },
            _ => None,
        }
    }
}

/// Nothing of a value is lost in its model: plain values stand for themselves, and the
/// parts of lists and objects for theirs, in order.
pub proof fn models_hold_every_part(
    b: bool,
    s: String,
    items: Vec<JsonValue>,
    fields: Vec<(String, JsonValue)>,
    i: int,
)
    ensures
        JsonValue::Null@ == JsonModel::Null,
        JsonValue::Bool(b)@ == JsonModel::Bool(b),
        JsonValue::Number(s)@ == JsonModel::Number(s@),
        JsonValue::Text(s)@ == JsonModel::Text(s@),
        JsonValue::List(items)@ is List,
        JsonValue::List(items)@->List_0.len() == items@.len(),
        0 <= i < items@.len() ==> JsonValue::List(items)@->List_0[i] == items@[i]@,
        JsonValue::Fields(fields)@ is Fields,
        JsonValue::Fields(fields)@->Fields_0.len() == fields@.len(),
        0 <= i < fields@.len() ==> JsonValue::Fields(fields)@->Fields_0[i] == (
            fields@[i].0@,
            fields@[i].1@,
        ),
{
}

} // verus!
