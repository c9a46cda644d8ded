//! Values of scripts.

use crate::json::{json_model, JsonModel, JsonValue};
use crate::text::{format_signed, same_text, signed_decimal};
use vstd::prelude::*;

verus! {

/// The key of an entry of a table.
pub enum LuaKey {
    Integer(i64),
    /// A number that is not an integer, in its notation.
    Number(String),
    Text(String),
    Other,
}

/// A value of a script.
pub enum LuaValue {
    Nil,
    Boolean(bool),
    Integer(i64),
    /// A number that is not an integer, in its JSON notation.
    Number(String),
    Text(String),
    /// A table, as its entries in the order in which they are walked.
    Table(Vec<(LuaKey, LuaValue)>),
    /// A function, by the handle under which it is kept.
    Function(usize),
    Other,
}

/// The first entry from `from` on whose key is the integer `k`, or the number of entries.
pub open spec fn entry_of(entries: Seq<(LuaKey, LuaValue)>, k: int, from: int) -> int
    decreases entries.len() - from,
{
    if from >= entries.len() {
        entries.len() as int
    } else if entries[from].0 matches LuaKey::Integer(i) && i == k {
        from
    } else {
        entry_of(entries, k, from + 1)
    }
}

/// How many entries, from the key `done + 1` on, a table holds without a gap, and
/// `done` more.
pub open spec fn array_len_from(entries: Seq<(LuaKey, LuaValue)>, done: int) -> int
    decreases entries.len() - done,
{
    if done >= entries.len() || entry_of(entries, done + 1, 0) >= entries.len() {
        done
    } else {
        array_len_from(entries, done + 1)
    }
}

/// The length of the array that a table begins with: its keys 1, 2, 3 and so on.
pub open spec fn array_len(entries: Seq<(LuaKey, LuaValue)>) -> int {
    array_len_from(entries, 0)
}

/// The item of the array of a table at a place, counted from 0.
pub open spec fn array_item(entries: Seq<(LuaKey, LuaValue)>, i: int) -> LuaValue {
    entries[entry_of(entries, i + 1, 0)].1
}

/// Finds the entry with an integer key.
fn find_entry(entries: &Vec<(LuaKey, LuaValue)>, k: i128) -> (at: usize)
    ensures
        at == entry_of(entries@, k as int, 0),
        at <= entries@.len(),
{
    let mut i: usize = 0;
    while i < entries.len()
        invariant
            i <= entries@.len(),
            entry_of(entries@, k as int, 0) == entry_of(entries@, k as int, i as int),
        decreases entries@.len() - i,
    {
        if let LuaKey::Integer(n) = &entries[i].0 {
            if *n as i128 == k {
                return i;
            }
        }
        i += 1;
    }
    i
}

/// The places of the items of the array of a table, in order.
pub fn array_places(entries: &Vec<(LuaKey, LuaValue)>) -> (places: Vec<usize>)
    ensures
        places@.len() == array_len(entries@),
        forall|i: int|
            0 <= i < places@.len() ==> (#[trigger] places@[i]) < entries@.len() && places@[i]
                == entry_of(entries@, i + 1, 0),
{
    let mut places: Vec<usize> = Vec::new();
    let mut done: usize = 0;
    while done < entries.len()
        invariant_except_break
            array_len(entries@) == array_len_from(entries@, done as int),
        invariant
            done <= entries@.len(),
            places@.len() == done,
            forall|i: int|
                0 <= i < done ==> (#[trigger] places@[i]) < entries@.len() && places@[i] == entry_of(
                    entries@,
                    i + 1,
                    0,
                ),
        ensures
            done == array_len(entries@),
        decreases entries@.len() - done,
    {
        let at: usize = find_entry(entries, done as i128 + 1);
        if at >= entries.len() {
            break;
        }
        places.push(at);
        done += 1;
    }
    places
}

// ---------------------------------------------------------------------------
// JSON
// ---------------------------------------------------------------------------

/// Why a table cannot be a payload: a key is neither a string nor a number.
pub open spec fn bad_key() -> Seq<char> {
    "req.auth payload table keys must be string or number"@
}

/// Why a value cannot be a payload.
pub open spec fn bad_value() -> Seq<char> {
    "req.auth payload supports only nil, boolean, number, string, and table values"@
}

/// The text of a key.
pub open spec fn key_text(key: LuaKey) -> Option<Seq<char>> {
    match key {
        LuaKey::Integer(i) => Some(signed_decimal(i as int)),
        LuaKey::Number(n) => Some(n@),
        LuaKey::Text(s) => Some(s@),
        LuaKey::Other => None,
    }
}

/// Whether a key is an integer from 1 to `n`.
pub open spec fn is_array_key(key: LuaKey, n: int) -> bool {
    key matches LuaKey::Integer(i) && 1 <= i <= n
}

/// Whether a table is an array and nothing else.
pub open spec fn is_pure_array(entries: Seq<(LuaKey, LuaValue)>) -> bool {
    forall|i: int| 0 <= i < entries.len() ==> is_array_key((#[trigger] entries[i]).0, array_len(entries))
}

/// A list of fields with a value put under a name: in place of the one that is
/// there, or at the end.
pub open spec fn with_field(fields: Seq<(Seq<char>, JsonModel)>, name: Seq<char>, value: JsonModel) -> Seq<
    (Seq<char>, JsonModel),
> {
    let at = field_place(fields, name, 0);
    if at < fields.len() {
        fields.update(at, (name, value))
    } else {
        fields.push((name, value))
    }
}

/// The first field of a name from `from` on, or the number of fields.
pub open spec fn field_place(fields: Seq<(Seq<char>, JsonModel)>, name: Seq<char>, from: int) -> int
    decreases fields.len() - from,
{
    if from >= fields.len() {
        fields.len() as int
    } else if fields[from].0 == name {
        from
    } else {
        field_place(fields, name, from + 1)
    }
}

/// The JSON that a value of a script writes, or why it writes none.
pub open spec fn json_of(value: LuaValue) -> Result<JsonModel, Seq<char>>
    decreases value, 0int,
{
    match value {
        LuaValue::Nil => Ok(JsonModel::Null),
        LuaValue::Boolean(b) => Ok(JsonModel::Bool(b)),
        LuaValue::Integer(i) => Ok(JsonModel::Number(signed_decimal(i as int))),
        LuaValue::Number(n) => Ok(JsonModel::Number(n@)),
        LuaValue::Text(s) => Ok(JsonModel::Text(s@)),
        LuaValue::Table(entries) => match json_items(entries, array_len(entries@)) {
            Err(e) => Err(e),
            Ok(items) => if is_pure_array(entries@) {
                Ok(JsonModel::List(items))
            } else {
                match json_fields(entries, entries@.len() as int) {
                    Ok(fields) => Ok(JsonModel::Fields(fields)),
                    Err(e) => Err(e),
                }
            },
        },
        LuaValue::Function(_) => Err(bad_value()),
        LuaValue::Other => Err(bad_value()),
    }
}

/// The JSON of the first `n` items of the array of a table.
pub open spec fn json_items(entries: Vec<(LuaKey, LuaValue)>, n: int) -> Result<Seq<JsonModel>, Seq<char>>
    decreases entries, n,
{
    if n <= 0 {
        Ok(Seq::empty())
    } else {
        match json_items(entries, n - 1) {
            Err(e) => Err(e),
            Ok(items) => {
                let at = entry_of(entries@, n, 0);
                if 0 <= at < entries@.len() {
                    match json_of(entries@[at].1) {
                        Ok(item) => Ok(items.push(item)),
                        Err(e) => Err(e),
                    }
                } else {
                    Ok(items)
                }
            },
        }
    }
}

/// The first `n` entries of a table as fields.
pub open spec fn json_fields(entries: Vec<(LuaKey, LuaValue)>, n: int) -> Result<
    Seq<(Seq<char>, JsonModel)>,
    Seq<char>,
>
    decreases entries, n,
{
    if n <= 0 || n > entries@.len() {
        Ok(Seq::empty())
    } else {
        match json_fields(entries, n - 1) {
            Err(e) => Err(e),
            Ok(fields) => match key_text(entries@[n - 1].0) {
                None => Err(bad_key()),
                Some(name) => match json_of(entries@[n - 1].1) {
                    Ok(value) => Ok(with_field(fields, name, value)),
                    Err(e) => Err(e),
                },
            },
        }
    }
}

/// An error in an item stays the error of the whole.
proof fn items_error_stays(entries: Vec<(LuaKey, LuaValue)>, m: int, n: int)
    requires
        m <= n,
        json_items(entries, m) is Err,
    ensures
        json_items(entries, n) == json_items(entries, m),
    decreases n - m,
{
    if m < n {
        items_error_stays(entries, m, n - 1);
    }
}

/// An error in a field stays the error of the whole.
proof fn fields_error_stays(entries: Vec<(LuaKey, LuaValue)>, m: int, n: int)
    requires
        m <= n <= entries@.len(),
        json_fields(entries, m) is Err,
    ensures
        json_fields(entries, n) == json_fields(entries, m),
    decreases n - m,
{
    if m < n {
        fields_error_stays(entries, m, n - 1);
    }
}

/// Whether a conversion has come out as it should.
pub open spec fn converted(result: Result<JsonValue, String>, expected: Result<JsonModel, Seq<char>>) -> bool {
    match (result, expected) {
        (Ok(json), Ok(model)) => json@ == model,
        (Err(message), Err(expected)) => message@ == expected,
        _ => false,
    }
}

/// Puts a value under a name.
fn put_field(fields: &mut Vec<(String, JsonValue)>, name: String, value: JsonValue)
    ensures
        field_models(final(fields)@) == with_field(field_models(old(fields)@), name@, value@),
{
    let ghost before = field_models(fields@);
    let mut i: usize = 0;
    while i < fields.len()
        invariant
            i <= fields@.len(),
            fields@ == old(fields)@,
            before == field_models(fields@),
            field_place(before, name@, 0) == field_place(before, name@, i as int),
        decreases fields@.len() - i,
    {
        if same_text(fields[i].0.as_str(), name.as_str()) {
            let ghost entry = (name@, value@);
            fields.set(i, (name, value));
            proof {
                assert(field_models(fields@) =~= before.update(i as int, entry));
            }
            return;
        }
        i += 1;
    }
    let ghost entry = (name@, value@);
    fields.push((name, value));
    proof {
        assert(field_models(fields@) =~= before.push(entry));
    }
}

/// The models of a list of fields.
pub open spec fn field_models(fields: Seq<(String, JsonValue)>) -> Seq<(Seq<char>, JsonModel)> {
    fields.map_values(|f: (String, JsonValue)| (f.0@, json_model(f.1)))
}

/// The models of a list of values.
pub open spec fn value_models(values: Seq<JsonValue>) -> Seq<JsonModel> {
    values.map_values(|v: JsonValue| json_model(v))
}

/// Writes a value of a script as JSON.
pub fn lua_value_to_json(value: &LuaValue) -> (result: Result<JsonValue, String>)
    ensures
        converted(result, json_of(*value)),
    decreases value,
{
    match value {
        LuaValue::Nil => Ok(JsonValue::Null),
        LuaValue::Boolean(b) => Ok(JsonValue::Bool(*b)),
        LuaValue::Integer(i) => Ok(JsonValue::Number(format_signed(*i))),
        LuaValue::Number(n) => Ok(JsonValue::Number(n.clone())),
        LuaValue::Text(s) => Ok(JsonValue::Text(s.clone())),
        LuaValue::Table(entries) => {
            let places = array_places(entries);
            let ghost n = array_len(entries@);
            let mut items: Vec<JsonValue> = Vec::new();
            let mut i: usize = 0;
            proof {
                assert(value_models(items@) =~= Seq::<JsonModel>::empty());
            }
            while i < places.len()
                invariant
                    *value == LuaValue::Table(*entries),
                    n == array_len(entries@) == places@.len(),
                    i <= places@.len(),
                    items@.len() == i,
                    forall|j: int|
                        0 <= j < places@.len() ==> (#[trigger] places@[j]) < entries@.len()
                            && places@[j] == entry_of(entries@, j + 1, 0),
                    json_items(*entries, i as int) == Ok::<Seq<JsonModel>, Seq<char>>(
                        value_models(items@),
                    ),
                decreases places@.len() - i,
            {
                let at: usize = places[i];
                proof {
                    assert(decreases_to!(*value => value->Table_0));
                    assert(decreases_to!(*entries => entries[at as int]));
                    assert(decreases_to!(entries[at as int] => entries[at as int].1));
                }
                let ghost before = items@;
                match lua_value_to_json(&entries[at].1) {
                    Ok(item) => {
                        items.push(item);
                        proof {
                            assert(value_models(items@) =~= value_models(before).push(item@));
                        }
                    },
                    Err(e) => {
                        proof {
                            items_error_stays(*entries, i + 1, n);
                        }
                        return Err(e);
                    },
                }
                i += 1;
            }
            let mut pure = true;
            let mut k: usize = 0;
            while k < entries.len()
                invariant_except_break
                    pure,
                    forall|j: int|
                        0 <= j < k ==> is_array_key((#[trigger] entries@[j]).0, array_len(entries@)),
                invariant
                    k <= entries@.len(),
                    items@.len() == array_len(entries@),
                ensures
                    pure == is_pure_array(entries@),
                decreases entries@.len() - k,
            {
                let listed = match &entries[k].0 {
                    LuaKey::Integer(n) => 1 <= *n && *n as i128 <= items.len() as i128,
                    _ => false,
                };
                if !listed {
                    pure = false;
                    proof {
                        assert(!is_array_key(entries@[k as int].0, array_len(entries@)));
                    }
                    break;
                }
                k += 1;
            }
            if pure {
                let json = JsonValue::List(items);
                proof {
                    assert(json_model(json)->List_0 =~= value_models(items@));
                }
                return Ok(json);
            }
            let mut fields: Vec<(String, JsonValue)> = Vec::new();
            let mut m: usize = 0;
            proof {
                assert(field_models(fields@) =~= Seq::<(Seq<char>, JsonModel)>::empty());
            }
            while m < entries.len()
                invariant
                    *value == LuaValue::Table(*entries),
                    !is_pure_array(entries@),
                    json_items(*entries, array_len(entries@)) is Ok,
                    m <= entries@.len(),
                    json_fields(*entries, m as int) == Ok::<Seq<(Seq<char>, JsonModel)>, Seq<char>>(
                        field_models(fields@),
                    ),
                decreases entries@.len() - m,
            {
                proof {
                    assert(decreases_to!(*value => value->Table_0));
                    assert(decreases_to!(*entries => entries[m as int]));
                    assert(decreases_to!(entries[m as int] => entries[m as int].1));
                }
                let name = match &entries[m].0 {
                    LuaKey::Integer(i) => format_signed(*i),
                    LuaKey::Number(n) => n.clone(),
                    LuaKey::Text(s) => s.clone(),
                    LuaKey::Other => {
                        proof {
                            fields_error_stays(*entries, m + 1, entries@.len() as int);
                        }
                        return Err("req.auth payload table keys must be string or number".to_owned());
                    },
                };
                match lua_value_to_json(&entries[m].1) {
                    Ok(item) => {
                        put_field(&mut fields, name, item);
                    },
                    Err(e) => {
                        proof {
                            fields_error_stays(*entries, m + 1, entries@.len() as int);
                        }
                        return Err(e);
                    },
                }
                m += 1;
            }
            let json = JsonValue::Fields(fields);
            proof {
                assert(json_model(json)->Fields_0 =~= field_models(fields@));
            }
            Ok(json)
        },
        _ => Err(
            "req.auth payload supports only nil, boolean, number, string, and table values".to_owned(),
        ),
    }
}

} // verus!
