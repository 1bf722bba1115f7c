//! JSON values as read from archive.org's replies.

use vstd::prelude::*;

verus! {

#[derive(Clone, Debug, PartialEq, Eq)]
pub struct JsonNumber {
    pub text: String,
    pub unsigned: Option<u64>,
}

#[derive(Debug)]
pub enum JsonValue {
    Null,
    Bool(bool),
    Number(JsonNumber),
    String(String),
    Array(Vec<JsonValue>),
    Object(Vec<(String, JsonValue)>),
}

pub enum JsonView {
    Null,
    Bool(bool),
    Number(Seq<char>, Option<u64>),
    Str(Seq<char>),
    Array(Seq<JsonView>),
    Object(Seq<(Seq<char>, JsonView)>),
}

pub open spec fn json_view(v: JsonValue) -> JsonView
    decreases v,
{
    match v {
        JsonValue::Null => JsonView::Null,
        JsonValue::Bool(b) => JsonView::Bool(b),
        JsonValue::Number(n) => JsonView::Number(n.text@, n.unsigned),
        JsonValue::String(s) => JsonView::Str(s@),
        JsonValue::Array(items) => JsonView::Array(
            Seq::new(
                items.len() as nat,
                |i: int|
                    if 0 <= i < items.len() {
                        json_view(items[i])
                    } else {
                        JsonView::Null
                    },
            ),
        ),
        JsonValue::Object(fields) => JsonView::Object(
            Seq::new(
                fields.len() as nat,
                |i: int|
                    if 0 <= i < fields.len() {
                        (fields[i].0@, json_view(fields[i].1))
                    } else {
                        (Seq::empty(), JsonView::Null)
                    },
            ),
        ),
    }
}

impl View for JsonValue {
    type V = JsonView;

    open spec fn view(&self) -> JsonView {
        json_view(*self)
    }
}

/// The value of the first field named `key`, at index `i` or after.
pub open spec fn lookup_from(fields: Seq<(Seq<char>, JsonView)>, key: Seq<char>, i: int) -> Option<
    JsonView,
>
    decreases fields.len() - i,
{
    if i < 0 || i >= fields.len() {
        None
    } else if fields[i].0 == key {
        Some(fields[i].1)
    } else {
        lookup_from(fields, key, i + 1)
    }
}

impl JsonView {
    /// `Value::get` with a string key: the field of an object, if any.
    pub open spec fn get(self, key: Seq<char>) -> Option<JsonView> {
        match self {
            JsonView::Object(fields) => lookup_from(fields, key, 0),
            _ => None,
        }
    }

    pub open spec fn as_str(self) -> Option<Seq<char>> {
        match self {
            JsonView::Str(s) => Some(s),
            _ => None,
        }
    }

    pub open spec fn as_bool(self) -> Option<bool> {
        match self {
            JsonView::Bool(b) => Some(b),
            _ => None,
        }
    }

    pub open spec fn as_u64(self) -> Option<u64> {
        match self {
            JsonView::Number(_, u) => u,
            _ => None,
        }
    }
}

pub open spec fn opt_view(v: Option<&JsonValue>) -> Option<JsonView> {
    match v {
        Some(j) => Some(j@),
        None => None,
    }
}

/// `v.and_then(as_str)` for an optional value.
pub open spec fn str_of(v: Option<JsonView>) -> Option<Seq<char>> {
    match v {
        Some(j) => j.as_str(),
        None => None,
    }
}

/// `v.and_then(|v| v.get(key))` for an optional value.
pub open spec fn get_of(v: Option<JsonView>, key: Seq<char>) -> Option<JsonView> {
    match v {
        Some(j) => j.get(key),
        None => None,
    }
}

/// The string elements of a list, in order.
pub open spec fn strings_in(items: Seq<JsonView>) -> Seq<Seq<char>>
    decreases items.len(),
{
    if items.len() == 0 {
        Seq::empty()
    } else {
        let rest = strings_in(items.drop_last());
        match items.last() {
            JsonView::Str(s) => rest.push(s),
            _ => rest,
        }
    }
}

/// The parts joined with newlines.
pub open spec fn join_lines(parts: Seq<Seq<char>>) -> Seq<char>
    decreases parts.len(),
{
    if parts.len() == 0 {
        Seq::empty()
    } else if parts.len() == 1 {
        parts[0]
    } else {
        join_lines(parts.drop_last()) + seq!['\n'] + parts.last()
    }
}

/// A field that may be a string or a list of strings, rendered as one
/// string: list elements joined by newlines, anything else empty.
pub open spec fn flatten_spec(v: Option<JsonView>) -> Seq<char> {
    match v {
        Some(JsonView::Str(s)) => s,
        Some(JsonView::Array(items)) => join_lines(strings_in(items)),
        _ => Seq::empty(),
    }
}

impl JsonValue {
    /// A copy of the value.
    pub fn copy(&self) -> (res: JsonValue)
        ensures
            res@ == self@,
        decreases self,
    {
        match self {
            JsonValue::Null => JsonValue::Null,
            JsonValue::Bool(b) => JsonValue::Bool(*b),
            JsonValue::Number(n) => JsonValue::Number(
                JsonNumber { text: n.text.clone(), unsigned: n.unsigned },
            ),
            JsonValue::String(s) => JsonValue::String(s.clone()),
            JsonValue::Array(items) => {
                let mut out: Vec<JsonValue> = Vec::new();
                let mut i: usize = 0;
                while i < items.len()
                    invariant
                        *self == JsonValue::Array(*items),
                        i <= items.len(),
                        out@.len() == i,
                        forall|j: int| 0 <= j < i ==> (#[trigger] out@[j])@ == items@[j]@,
                    decreases items.len() - i,
                {
                    proof {
                        broadcast use vstd::std_specs::vec::axiom_vec_index_decreases;

                        assert(decreases_to!(*self => (*self)->Array_0));
                        assert(decreases_to!(*items => items[i as int]));
                    }
                    out.push(items[i].copy());
                    i += 1;
                }
                let res = JsonValue::Array(out);
                assert(res@ == self@) by {
                    if let JsonView::Array(a) = res@ {
                        if let JsonView::Array(b) = self@ {
                            assert(a =~= b);
                        }
                    }
                }
                res
            },
            JsonValue::Object(fields) => {
                let mut out: Vec<(String, JsonValue)> = Vec::new();
                let mut i: usize = 0;
                while i < fields.len()
                    invariant
                        *self == JsonValue::Object(*fields),
                        i <= fields.len(),
                        out@.len() == i,
                        forall|j: int|
                            0 <= j < i ==> (#[trigger] out@[j]).0@ == fields@[j].0@ && out@[j].1@
                                == fields@[j].1@,
                    decreases fields.len() - i,
                {
                    proof {
                        broadcast use vstd::std_specs::vec::axiom_vec_index_decreases;

                        assert(decreases_to!(*self => (*self)->Object_0));
                        assert(decreases_to!(*fields => fields[i as int]));
                        assert(decreases_to!(fields[i as int] => fields[i as int].1));
                    }
                    let value = fields[i].1.copy();
                    out.push((fields[i].0.clone(), value));
                    i += 1;
                }
                let res = JsonValue::Object(out);
                assert(res@ == self@) by {
                    if let JsonView::Object(a) = res@ {
                        if let JsonView::Object(b) = self@ {
                            assert(a =~= b);
                        }
                    }
                }
                res
            },
        }
    }

    /// The field `key` of an object, if there is one.
    pub fn get(&self, key: &str) -> (res: Option<&JsonValue>)
        ensures
            match res {
                Some(v) => self@.get(key@) == Some(v@),
                None => self@.get(key@) is None,
            },
    {
        match self {
            JsonValue::Object(fields) => {
                let wanted = key.to_owned();
                let ghost fv = match self@ {
                    JsonView::Object(f) => f,
                    _ => Seq::empty(),
                };
                let mut i: usize = 0;
                while i < fields.len()
                    invariant
                        i <= fields.len(),
                        fv.len() == fields@.len(),
                        wanted@ == key@,
                        self@ == JsonView::Object(fv),
                        forall|j: int|
                            0 <= j < fields@.len() ==> #[trigger] fv[j] == (
                                fields@[j].0@,
                                fields@[j].1@,
                            ),
                        lookup_from(fv, key@, 0) == lookup_from(fv, key@, i as int),
                    decreases fields.len() - i,
                {
                    if fields[i].0 == wanted {
                        assert(fv[i as int].0 == key@);
                        return Some(&fields[i].1);
                    }
                    i += 1;
                }
                None
            },
            _ => None,
        }
    }

    pub fn as_str(&self) -> (res: Option<&String>)
        ensures
            match res {
                Some(s) => self@.as_str() == Some(s@),
                None => self@.as_str() is None,
            },
    {
        match self {
            JsonValue::String(s) => Some(s),
            _ => None,
        }
    }

    pub fn as_bool(&self) -> (res: Option<bool>)
        ensures
            res == self@.as_bool(),
    {
        match self {
            JsonValue::Bool(b) => Some(*b),
            _ => None,
        }
    }

    pub fn as_u64(&self) -> (res: Option<u64>)
        ensures
            res == self@.as_u64(),
    {
        match self {
            JsonValue::Number(n) => n.unsigned,
            _ => None,
        }
    }
}

/// `v.and_then(as_str)`.
pub fn str_in<'a>(v: Option<&'a JsonValue>) -> (res: Option<&'a String>)
    ensures
        match res {
            Some(s) => str_of(opt_view(v)) == Some(s@),
            None => str_of(opt_view(v)) is None,
        },
{
    match v {
        Some(j) => j.as_str(),
        None => None,
    }
}

/// `v.and_then(|v| v.get(key))`.
pub fn get_in<'a>(v: Option<&'a JsonValue>, key: &str) -> (res: Option<&'a JsonValue>)
    ensures
        opt_view(res) == get_of(opt_view(v), key@),
{
    match v {
        Some(j) => j.get(key),
        None => None,
    }
}

proof fn lemma_strings_in_step(items: Seq<JsonView>, i: int)
    requires
        0 <= i < items.len(),
    ensures
        strings_in(items.take(i + 1)) == match items[i] {
            JsonView::Str(s) => strings_in(items.take(i)).push(s),
            _ => strings_in(items.take(i)),
        },
{
    assert(items.take(i + 1).drop_last() =~= items.take(i));
}

/// IA fields may be a string or a list of strings; render either as one string.
pub fn flatten(v: Option<&JsonValue>) -> (res: String)
    ensures
        res@ == flatten_spec(opt_view(v)),
{
    match v {
        Some(JsonValue::String(s)) => s.clone(),
        Some(JsonValue::Array(items)) => {
            let ghost iv = match v.unwrap()@ {
                JsonView::Array(a) => a,
                _ => Seq::empty(),
            };
            let mut out = String::new();
            let mut count: usize = 0;
            let mut i: usize = 0;
            while i < items.len()
                invariant
                    i <= items.len(),
                    iv.len() == items@.len(),
                    forall|j: int| 0 <= j < items@.len() ==> #[trigger] iv[j] == items@[j]@,
                    count == strings_in(iv.take(i as int)).len(),
                    count <= i,
                    out@ == join_lines(strings_in(iv.take(i as int))),
                decreases items.len() - i,
            {
                proof {
                    lemma_strings_in_step(iv, i as int);
                }
                if let JsonValue::String(s) = &items[i] {
                    let ghost parts = strings_in(iv.take(i as int));
                    if count > 0 {
                        out.append("\n");
                        proof {
                            reveal_strlit("\n");
                            assert(parts.push(s@).drop_last() =~= parts);
                        }
                    } else {
                        assert(out@ =~= Seq::<char>::empty());
                    }
                    out.append(s.as_str());
                    count += 1;
                }
                i += 1;
            }
            assert(iv.take(items.len() as int) =~= iv);
            out
        },
        _ => String::new(),
    }
}

} // verus!
