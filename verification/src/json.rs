//! A plain model of JSON values. The library's logic reads and builds these;
//! only parsing from and printing to JSON text go through serde_json, behind
//! the trusted items at the bottom of this file.

use vstd::prelude::*;
use crate::strutil;

verus! {

/// A JSON document. A number is kept as its decimal text, exactly as
/// serde_json prints it; an object keeps its fields in order.
#[derive(Debug, PartialEq)]
pub enum JsonValue {
    Null,
    Bool(bool),
    Num(String),
    Str(String),
    Arr(Vec<JsonValue>),
    Obj(Vec<(String, JsonValue)>),
}

/// The mathematical shape of a JSON document, used in contracts.
#[verifier::ext_equal]
pub enum JsonVal {
    Null,
    Bool(bool),
    Num(Seq<char>),
    Str(Seq<char>),
    Arr(Seq<JsonVal>),
    Obj(Seq<(Seq<char>, JsonVal)>),
}

/// The views of the elements of an array.
pub open spec fn view_arr(items: Seq<JsonValue>) -> Seq<JsonVal>
    decreases items,
{
    if items.len() == 0 {
        Seq::empty()
    } else {
        view_arr(items.drop_last()).push(items.last()@)
    }
}

/// The views of the fields of an object.
pub open spec fn view_obj(fs: Seq<(String, JsonValue)>) -> Seq<(Seq<char>, JsonVal)>
    decreases fs,
{
    if fs.len() == 0 {
        Seq::empty()
    } else {
        view_obj(fs.drop_last()).push((fs.last().0@, fs.last().1@))
    }
}

impl DeepView for JsonValue {
    type V = JsonVal;

    open spec fn deep_view(&self) -> JsonVal {
        self.view()
    }
}

impl View for JsonValue {
    type V = JsonVal;

    open spec fn view(&self) -> JsonVal
        decreases self,
    {
        match self {
            JsonValue::Null => JsonVal::Null,
            JsonValue::Bool(b) => JsonVal::Bool(*b),
            JsonValue::Num(s) => JsonVal::Num(s@),
            JsonValue::Str(s) => JsonVal::Str(s@),
            JsonValue::Arr(items) => JsonVal::Arr(view_arr(items@)),
            JsonValue::Obj(fs) => JsonVal::Obj(view_obj(fs@)),
        }
    }
}

pub broadcast proof fn lemma_view_arr_len(items: Seq<JsonValue>)
    ensures
        (#[trigger] view_arr(items)).len() == items.len(),
    decreases items,
{
    if items.len() > 0 {
        lemma_view_arr_len(items.drop_last());
        assert(view_arr(items) == view_arr(items.drop_last()).push(items.last()@));
        assert(items.drop_last().len() == items.len() - 1);
        assert(view_arr(items).len() == items.len());
    }
}

pub broadcast proof fn lemma_view_arr_index(items: Seq<JsonValue>, i: int)
    requires
        0 <= i < items.len(),
    ensures
        #[trigger] view_arr(items)[i] == items[i]@,
    decreases items,
{
    lemma_view_arr_len(items);
    lemma_view_arr_len(items.drop_last());
    assert(view_arr(items) == view_arr(items.drop_last()).push(items.last()@));
    if i == items.len() - 1 {
        assert(view_arr(items)[i] == items.last()@);
    } else {
        lemma_view_arr_index(items.drop_last(), i);
        assert(view_arr(items)[i] == view_arr(items.drop_last())[i]);
        assert(items.drop_last()[i] == items[i]);
    }
}

pub broadcast proof fn lemma_view_obj_len(fs: Seq<(String, JsonValue)>)
    ensures
        (#[trigger] view_obj(fs)).len() == fs.len(),
    decreases fs,
{
    if fs.len() > 0 {
        lemma_view_obj_len(fs.drop_last());
        assert(view_obj(fs) == view_obj(fs.drop_last()).push((fs.last().0@, fs.last().1@)));
        assert(fs.drop_last().len() == fs.len() - 1);
        assert(view_obj(fs).len() == fs.len());
    }
}

pub broadcast proof fn lemma_view_obj_index(fs: Seq<(String, JsonValue)>, i: int)
    requires
        0 <= i < fs.len(),
    ensures
        #[trigger] view_obj(fs)[i] == (fs[i].0@, fs[i].1@),
    decreases fs,
{
    lemma_view_obj_len(fs);
    lemma_view_obj_len(fs.drop_last());
    assert(view_obj(fs) == view_obj(fs.drop_last()).push((fs.last().0@, fs.last().1@)));
    if i == fs.len() - 1 {
        assert(view_obj(fs)[i] == (fs.last().0@, fs.last().1@));
    } else {
        lemma_view_obj_index(fs.drop_last(), i);
        assert(view_obj(fs)[i] == view_obj(fs.drop_last())[i]);
        assert(fs.drop_last()[i] == fs[i]);
    }
}

/// The facts every user of the JSON views needs.
pub broadcast group group_json_view {
    lemma_view_arr_len,
    lemma_view_arr_index,
    lemma_view_obj_len,
    lemma_view_obj_index,
}

/// The field bound to `key`, searching front to back.
pub open spec fn obj_get_spec(fs: Seq<(Seq<char>, JsonVal)>, key: Seq<char>) -> Option<
    JsonVal,
>
    decreases fs.len(),
{
    if fs.len() == 0 {
        None
    } else if fs[0].0 == key {
        Some(fs[0].1)
    } else {
        obj_get_spec(fs.subrange(1, fs.len() as int), key)
    }
}

/// The value of field `key`, when `v` is an object that has it.
pub open spec fn get_spec(v: JsonVal, key: Seq<char>) -> Option<JsonVal> {
    match v {
        JsonVal::Obj(fs) => obj_get_spec(fs, key),
        _ => None,
    }
}

/// The characters of `v`, when it is a string.
pub open spec fn as_str_spec(v: JsonVal) -> Option<Seq<char>> {
    match v {
        JsonVal::Str(s) => Some(s),
        _ => None,
    }
}

proof fn lemma_obj_get_skip(fs: Seq<(Seq<char>, JsonVal)>, key: Seq<char>, i: int)
    requires
        0 <= i <= fs.len(),
        forall|j: int| 0 <= j < i ==> (#[trigger] fs[j]).0 != key,
    ensures
        obj_get_spec(fs, key) == obj_get_spec(fs.subrange(i, fs.len() as int), key),
    decreases i,
{
    if i > 0 {
        let t = fs.subrange(1, fs.len() as int);
        lemma_obj_get_skip(t, key, i - 1);
        assert(t.subrange(i - 1, t.len() as int) =~= fs.subrange(i, fs.len() as int));
    } else {
        assert(fs.subrange(0, fs.len() as int) =~= fs);
    }
}

impl JsonValue {
    /// Whether this value is an object.
    pub fn is_object(&self) -> (r: bool)
        ensures
            r == (self@ is Obj),
    {
        match self {
            JsonValue::Obj(_) => true,
            _ => false,
        }
    }

    /// Field lookup on an object; `None` on anything else.
    pub fn get<'a>(&'a self, key: &str) -> (r: Option<&'a JsonValue>)
        ensures
            match r {
                Some(x) => get_spec(self@, key@) == Some(x@),
                None => get_spec(self@, key@) is None,
            },
    {
        match self {
            JsonValue::Obj(fs) => {
                let ghost vfs = view_obj(fs@);
                proof {
                    lemma_view_obj_len(fs@);
                    assert forall|j: int| 0 <= j < fs@.len() implies #[trigger] vfs[j] == (
                        fs@[j].0@,
                        fs@[j].1@,
                    ) by {
                        lemma_view_obj_index(fs@, j);
                    }
                    assert(self@ == JsonVal::Obj(vfs));
                }
                let mut i: usize = 0;
                while i < fs.len()
                    invariant
                        i <= fs@.len(),
                        vfs == view_obj(fs@),
                        vfs.len() == fs@.len(),
                        forall|j: int| 0 <= j < fs@.len() ==> #[trigger] vfs[j] == (
                            fs@[j].0@,
                            fs@[j].1@,
                        ),
                        forall|j: int| 0 <= j < i ==> (#[trigger] vfs[j]).0 != key@,
                    decreases fs@.len() - i,
                {
                    if strutil::eq_str(fs[i].0.as_str(), key) {
                        proof {
                            lemma_obj_get_skip(vfs, key@, i as int);
                            let rest = vfs.subrange(i as int, vfs.len() as int);
                            assert(rest[0] == vfs[i as int]);
                            assert(obj_get_spec(vfs, key@) == Some(fs@[i as int].1@));
                        }
                        return Some(&fs[i].1);
                    }
                    i += 1;
                }
                proof {
                    lemma_obj_get_skip(vfs, key@, i as int);
                    assert(vfs.subrange(i as int, vfs.len() as int).len() == 0);
                }
                None
            },
            _ => None,
        }
    }

    /// The string inside, when this is a string value.
    pub fn as_str<'a>(&'a self) -> (r: Option<&'a String>)
        ensures
            match r {
                Some(s) => as_str_spec(self@) == Some(s@),
                None => as_str_spec(self@) is None,
            },
    {
        match self {
            JsonValue::Str(s) => Some(s),
            _ => None,
        }
    }

    /// The number's decimal text, when this is a number.
    pub fn as_num<'a>(&'a self) -> (r: Option<&'a String>)
        ensures
            match r {
                Some(s) => self@ == JsonVal::Num(s@),
                None => !(self@ is Num),
            },
    {
        match self {
            JsonValue::Num(s) => Some(s),
            _ => None,
        }
    }

    /// The truth value inside, when this is a boolean.
    pub fn as_bool(&self) -> (r: Option<bool>)
        ensures
            r == match self@ {
                JsonVal::Bool(b) => Some(b),
                _ => None::<bool>,
            },
    {
        match self {
            JsonValue::Bool(b) => Some(*b),
            _ => None,
        }
    }

    /// The elements, when this is an array.
    pub fn as_array<'a>(&'a self) -> (r: Option<&'a Vec<JsonValue>>)
        ensures
            match r {
                Some(items) => self@ == JsonVal::Arr(view_arr(items@)),
                None => !(self@ is Arr),
            },
    {
        match self {
            JsonValue::Arr(items) => Some(items),
            _ => None,
        }
    }

    /// Element `i` of an array; `None` on anything else or out of range.
    pub fn arr_get<'a>(&'a self, i: usize) -> (r: Option<&'a JsonValue>)
        ensures
            match r {
                Some(x) => self@ is Arr && i < self@->Arr_0.len() && x@ == self@->Arr_0[i as int],
                None => !(self@ is Arr && i < self@->Arr_0.len()),
            },
    {
        

        match self {
            JsonValue::Arr(items) => {
                proof {
                    lemma_view_arr_len(items@);
                    assert(self@ == JsonVal::Arr(view_arr(items@)));
                }
                if i < items.len() {
                    proof {
                        lemma_view_arr_index(items@, i as int);
                    }
                    Some(&items[i])
                } else {
                    None
                }
            },
            _ => None,
        }
    }

    /// A copy with the same view.
    pub fn deep_clone(&self) -> (r: JsonValue)
        ensures
            r@ == self@,
        decreases *self,
    {
        

        match self {
            JsonValue::Null => JsonValue::Null,
            JsonValue::Bool(b) => JsonValue::Bool(*b),
            JsonValue::Num(s) => JsonValue::Num(s.clone()),
            JsonValue::Str(s) => JsonValue::Str(s.clone()),
            JsonValue::Arr(items) => {
                let mut out: Vec<JsonValue> = Vec::new();
                let mut i: usize = 0;
                while i < items.len()
                    invariant
                        i <= items@.len(),
                        out@.len() == i,
                        forall|j: int| 0 <= j < i ==> (#[trigger] out@[j])@ == items@[j]@,
                    decreases items@.len() - i,
                {
                    proof {
                        let ghost selfv = *self;
                        assert(decreases_to!(selfv => selfv->Arr_0));
                        assert(decreases_to!(selfv->Arr_0 => selfv->Arr_0[i as int]));
                        assert(decreases_to!(*self => items@[i as int]));
                    }
                    let c = items[i].deep_clone();
                    out.push(c);
                    i += 1;
                }
                proof {
                    lemma_view_arr_len(out@);
                    lemma_view_arr_len(items@);
                    assert forall|j: int|
                        0 <= j < items@.len() implies #[trigger] view_arr(out@)[j] == view_arr(
                        items@,
                    )[j] by {
                        lemma_view_arr_index(out@, j);
                        lemma_view_arr_index(items@, j);
                    }
                    assert(view_arr(out@) =~= view_arr(items@));
                }
                JsonValue::Arr(out)
            },
            JsonValue::Obj(fs) => {
                let mut out: Vec<(String, JsonValue)> = Vec::new();
                let mut i: usize = 0;
                while i < fs.len()
                    invariant
                        i <= fs@.len(),
                        out@.len() == i,
                        forall|j: int|
                            0 <= j < i ==> (#[trigger] out@[j]).0@ == fs@[j].0@ && out@[j].1@
                                == fs@[j].1@,
                    decreases fs@.len() - i,
                {
                    proof {
                        let ghost selfv = *self;
                        assert(decreases_to!(selfv => selfv->Obj_0));
                        assert(decreases_to!(selfv->Obj_0 => selfv->Obj_0[i as int]));
                        assert(decreases_to!(selfv->Obj_0[i as int] => selfv->Obj_0[i as int].1));
                        assert(decreases_to!(*self => fs@[i as int].1));
                    }
                    let key = fs[i].0.clone();
                    let val = fs[i].1.deep_clone();
                    out.push((key, val));
                    i += 1;
                }
                proof {
                    lemma_view_obj_len(out@);
                    lemma_view_obj_len(fs@);
                    assert forall|j: int|
                        0 <= j < fs@.len() implies #[trigger] view_obj(out@)[j] == view_obj(
                        fs@,
                    )[j] by {
                        lemma_view_obj_index(out@, j);
                        lemma_view_obj_index(fs@, j);
                    }
                    assert(view_obj(out@) =~= view_obj(fs@));
                }
                JsonValue::Obj(out)
            },
        }
    }
}

// ---------------------------------------------------------------------------
// The trusted boundary to serde_json
// ---------------------------------------------------------------------------

/// Declares serde_json's value type, so the conversions below can name it.
#[verifier::external_type_specification]
#[verifier::external_body]
pub struct ExValue(serde_json::Value);

/// What serde_json::from_str, followed by the conversion below, yields on a
/// given text: `None` exactly when the text is not valid JSON.
pub uninterp spec fn json_parse_of(s: Seq<char>) -> Option<JsonVal>;

/// The compact JSON text that serde_json prints for a value.
pub uninterp spec fn json_text_of(v: JsonVal) -> Seq<char>;

/// The pretty-printed JSON text that serde_json prints for a value.
pub uninterp spec fn json_pretty_of(v: JsonVal) -> Seq<char>;

/// Converts a serde_json value into the model, one variant at a time; a
/// number becomes its printed text.
#[verifier::external_body]
fn value_to_model(v: &serde_json::Value) -> JsonValue {
    match v {
        serde_json::Value::Null => JsonValue::Null,
        serde_json::Value::Bool(b) => JsonValue::Bool(*b),
        serde_json::Value::Number(n) => JsonValue::Num(n.to_string()),
        serde_json::Value::String(s) => JsonValue::Str(s.clone()),
        serde_json::Value::Array(items) => JsonValue::Arr(
            items.iter().map(value_to_model).collect(),
        ),
        serde_json::Value::Object(map) => JsonValue::Obj(
            map.iter().map(|(k, f)| (k.clone(), value_to_model(f))).collect(),
        ),
    }
}

/// Converts the model back into a serde_json value, one variant at a time; a
/// number's text is re-read by serde_json.
#[verifier::external_body]
fn model_to_value(v: &JsonValue) -> serde_json::Value {
    match v {
        JsonValue::Null => serde_json::Value::Null,
        JsonValue::Bool(b) => serde_json::Value::Bool(*b),
        JsonValue::Num(s) => serde_json::from_str::<serde_json::Number>(s).map(
            serde_json::Value::Number,
        ).unwrap_or(serde_json::Value::Null),
        JsonValue::Str(s) => serde_json::Value::String(s.clone()),
        JsonValue::Arr(items) => serde_json::Value::Array(
            items.iter().map(model_to_value).collect(),
        ),
        JsonValue::Obj(fs) => serde_json::Value::Object(
            fs.iter().map(|(k, f)| (k.clone(), model_to_value(f))).collect(),
        ),
    }
}

/// Relies on serde_json::from_str: `Some` exactly on valid JSON text, and
/// the same text always parses to the same value.
#[verifier::external_body]
pub(crate) fn parse_json(s: &str) -> (r: Option<JsonValue>)
    ensures
        match r {
            Some(v) => json_parse_of(s@) == Some(v@),
            None => json_parse_of(s@) is None,
        },
{
    match serde_json::from_str::<serde_json::Value>(s) {
        Ok(v) => Some(value_to_model(&v)),
        Err(_) => None,
    }
}

/// Relies on serde_json::to_string: the compact text depends on the value
/// alone.
#[verifier::external_body]
pub(crate) fn to_json_string(v: &JsonValue) -> (r: String)
    ensures
        r@ == json_text_of(v@),
{
    serde_json::to_string(&model_to_value(v)).unwrap_or_else(|_| "null".to_string())
}

/// Relies on serde_json::to_string_pretty: the pretty text depends on the
/// value alone.
#[verifier::external_body]
pub(crate) fn to_json_string_pretty(v: &JsonValue) -> (r: String)
    ensures
        r@ == json_pretty_of(v@),
{
    serde_json::to_string_pretty(&model_to_value(v)).unwrap_or_else(|_| "{}".to_string())
}

} // verus!

