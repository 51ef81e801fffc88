use vstd::prelude::*;
use crate::text::{chars_of, push_str, string_of};

verus! {

/// A JSON document held as plain values. Numbers keep their decimal text.
#[derive(Debug)]
pub enum JsonValue {
    Null,
    Bool(bool),
    Number(String),
    Str(String),
    Array(Vec<JsonValue>),
    Object(Vec<(String, JsonValue)>),
}

/// The mathematical model of a JSON document.
pub enum JsonModel {
    Null,
    Bool(bool),
    Number(Seq<char>),
    Str(Seq<char>),
    Array(Seq<JsonModel>),
    Object(Seq<(Seq<char>, JsonModel)>),
}

pub open spec fn json_items_model(items: Seq<JsonValue>) -> Seq<JsonModel>
    decreases items,
{
    if items.len() == 0 {
        Seq::empty()
    } else {
        json_items_model(items.drop_last()).push(json_model(items.last()))
    }
}

pub open spec fn json_fields_model(fields: Seq<(String, JsonValue)>) -> Seq<(Seq<char>, JsonModel)>
    decreases fields,
{
    if fields.len() == 0 {
        Seq::empty()
    } else {
        json_fields_model(fields.drop_last()).push((fields.last().0@, json_model(fields.last().1)))
    }
}

pub open spec fn json_model(v: JsonValue) -> JsonModel
    decreases v,
{
    match v {
        JsonValue::Null => JsonModel::Null,
        JsonValue::Bool(b) => JsonModel::Bool(b),
        JsonValue::Number(n) => JsonModel::Number(n@),
        JsonValue::Str(s) => JsonModel::Str(s@),
        JsonValue::Array(items) => JsonModel::Array(json_items_model(items@)),
        JsonValue::Object(fields) => JsonModel::Object(json_fields_model(fields@)),
    }
}

impl View for JsonValue {
    type V = JsonModel;

    open spec fn view(&self) -> JsonModel {
        json_model(*self)
    }
}

proof fn lemma_items_model_push(items: Seq<JsonValue>, x: JsonValue)
    ensures
        json_items_model(items.push(x)) == json_items_model(items).push(json_model(x)),
{
    assert(items.push(x).drop_last() =~= items);
}

proof fn lemma_items_model_len(items: Seq<JsonValue>)
    ensures
        json_items_model(items).len() == items.len(),
    decreases items.len(),
{
    if items.len() > 0 {
        lemma_items_model_len(items.drop_last());
    }
}

/// The fields of an object under construction, with nothing in them yet.
pub fn new_fields() -> (r: Vec<(String, JsonValue)>)
    ensures
        r@.len() == 0,
        json_fields_model(r@) == Seq::<(Seq<char>, JsonModel)>::empty(),
{
    let r: Vec<(String, JsonValue)> = Vec::new();
    assert(json_fields_model(r@) =~= Seq::<(Seq<char>, JsonModel)>::empty());
    r
}

/// Adds a field at the end of an object's fields.
pub fn push_field(fields: &mut Vec<(String, JsonValue)>, key: &str, value: JsonValue)
    ensures
        json_fields_model(final(fields)@) == json_fields_model(old(fields)@).push((key@, json_model(value))),
{
    let ghost before = fields@;
    let k = key.to_owned();
    fields.push((k, value));
    assert(fields@.drop_last() =~= before);
}

impl JsonValue {
    /// A copy of the document with the same model.
    pub fn deep_clone(&self) -> (r: JsonValue)
        ensures
            r@ == self@,
        decreases self,
    {
        match self {
            JsonValue::Null => JsonValue::Null,
            JsonValue::Bool(b) => JsonValue::Bool(*b),
            JsonValue::Number(n) => JsonValue::Number(n.clone()),
            JsonValue::Str(s) => JsonValue::Str(s.clone()),
            JsonValue::Array(items) => {
                let mut out: Vec<JsonValue> = Vec::new();
                let mut i: usize = 0;
                while i < items.len()
                    invariant
                        i <= items.len(),
                        *self == JsonValue::Array(*items),
                        json_items_model(out@) == json_items_model(items@.take(i as int)),
                    decreases items.len() - i,
                {
                    proof {
                        vstd::std_specs::vec::axiom_vec_index_decreases(*items, i as int);
                        assert(decreases_to!(*self => (*self)->Array_0));
                    }
                    let c = items[i].deep_clone();
                    proof {
                        lemma_items_model_push(out@, c);
                        lemma_items_model_push(items@.take(i as int), items@[i as int]);
                        assert(items@.take(i as int).push(items@[i as int]) =~= items@.take(i + 1));
                    }
                    out.push(c);
                    i = i + 1;
                }
                assert(items@.take(items.len() as int) =~= items@);
                JsonValue::Array(out)
            },
            JsonValue::Object(fields) => {
                let mut out: Vec<(String, JsonValue)> = Vec::new();
                let mut i: usize = 0;
                while i < fields.len()
                    invariant
                        i <= fields.len(),
                        *self == JsonValue::Object(*fields),
                        json_fields_model(out@) == json_fields_model(fields@.take(i as int)),
                    decreases fields.len() - i,
                {
                    proof {
                        vstd::std_specs::vec::axiom_vec_index_decreases(*fields, i as int);
                        assert(decreases_to!(*self => (*self)->Object_0));
                        assert(decreases_to!(fields@[i as int] => fields@[i as int].1));
                    }
                    let c = fields[i].1.deep_clone();
                    let k = fields[i].0.clone();
                    proof {
                        assert(out@.push((k, c)).drop_last() =~= out@);
                        let t = fields@.take(i as int);
                        assert(t.push(fields@[i as int]) =~= fields@.take(i + 1));
                        assert(t.push(fields@[i as int]).drop_last() =~= t);
                    }
                    out.push((k, c));
                    i = i + 1;
                }
                assert(fields@.take(fields.len() as int) =~= fields@);
                JsonValue::Object(out)
            },
        }
    }
}

impl Clone for JsonValue {
    fn clone(&self) -> (r: JsonValue)
        ensures
            r@ == self@,
    {
        self.deep_clone()
    }
}

// ── objects as maps ─────────────────────────────────────────────────

/// The model of a field list, field by field.
pub open spec fn field_model(p: (String, JsonValue)) -> (Seq<char>, JsonModel) {
    (p.0@, json_model(p.1))
}

pub proof fn lemma_fields_model_map(fields: Seq<(String, JsonValue)>)
    ensures
        json_fields_model(fields) == fields.map_values(|p: (String, JsonValue)| field_model(p)),
    decreases fields.len(),
{
    if fields.len() > 0 {
        lemma_fields_model_map(fields.drop_last());
        assert(fields.map_values(|p: (String, JsonValue)| field_model(p)) =~= fields.drop_last().map_values(
            |p: (String, JsonValue)| field_model(p),
        ).push(field_model(fields.last())));
    } else {
        assert(fields.map_values(|p: (String, JsonValue)| field_model(p)) =~= Seq::<(Seq<char>, JsonModel)>::empty());
    }
}

pub proof fn lemma_items_model_map(items: Seq<JsonValue>)
    ensures
        json_items_model(items) == items.map_values(|v: JsonValue| json_model(v)),
    decreases items.len(),
{
    if items.len() > 0 {
        lemma_items_model_map(items.drop_last());
        assert(items.map_values(|v: JsonValue| json_model(v)) =~= items.drop_last().map_values(
            |v: JsonValue| json_model(v),
        ).push(json_model(items.last())));
    } else {
        assert(items.map_values(|v: JsonValue| json_model(v)) =~= Seq::<JsonModel>::empty());
    }
}

/// The index of the first field named `k`.
pub open spec fn key_index(fs: Seq<(Seq<char>, JsonModel)>, k: Seq<char>) -> Option<int>
    decreases fs.len(),
{
    if fs.len() == 0 {
        None
    } else {
        match key_index(fs.drop_last(), k) {
            Some(i) => Some(i),
            None => if fs.last().0 == k {
                Some(fs.len() - 1)
            } else {
                None
            },
        }
    }
}

pub proof fn lemma_key_index(fs: Seq<(Seq<char>, JsonModel)>, k: Seq<char>)
    ensures
        match key_index(fs, k) {
            Some(i) => 0 <= i < fs.len() && fs[i].0 == k && forall|j: int| 0 <= j < i ==> fs[j].0 != k,
            None => forall|j: int| 0 <= j < fs.len() ==> fs[j].0 != k,
        },
    decreases fs.len(),
{
    if fs.len() > 0 {
        lemma_key_index(fs.drop_last(), k);
        assert forall|j: int| 0 <= j < fs.len() - 1 implies fs.drop_last()[j] == fs[j] by {}
    }
}

/// The value of the first field named `k`.
pub open spec fn field_get(fs: Seq<(Seq<char>, JsonModel)>, k: Seq<char>) -> Option<JsonModel> {
    match key_index(fs, k) {
        Some(i) => Some(fs[i].1),
        None => None,
    }
}

/// The fields with the first one named `k` set to `v`, or `k: v` added at the end.
pub open spec fn field_set(fs: Seq<(Seq<char>, JsonModel)>, k: Seq<char>, v: JsonModel) -> Seq<(Seq<char>, JsonModel)> {
    match key_index(fs, k) {
        Some(i) => fs.update(i, (k, v)),
        None => fs.push((k, v)),
    }
}

/// The fields without the first one named `k`.
pub open spec fn field_remove(fs: Seq<(Seq<char>, JsonModel)>, k: Seq<char>) -> Seq<(Seq<char>, JsonModel)> {
    match key_index(fs, k) {
        Some(i) => fs.remove(i),
        None => fs,
    }
}

/// The value under `k` of an object; nothing for any other value.
pub open spec fn json_get(v: JsonModel, k: Seq<char>) -> Option<JsonModel> {
    match v {
        JsonModel::Object(fs) => field_get(fs, k),
        _ => None,
    }
}

/// The index of the first field named `key` (see `key_index`).
pub fn find_key(fields: &Vec<(String, JsonValue)>, key: &str) -> (r: Option<usize>)
    ensures
        match r {
            Some(i) => key_index(json_fields_model(fields@), key@) == Some(i as int),
            None => key_index(json_fields_model(fields@), key@) is None,
        },
{
    proof {
        lemma_fields_model_map(fields@);
        lemma_key_index(json_fields_model(fields@), key@);
    }
    let k = chars_of(key);
    let mut i: usize = 0;
    while i < fields.len()
        invariant
            i <= fields.len(),
            k@ == key@,
            json_fields_model(fields@) == fields@.map_values(|p: (String, JsonValue)| field_model(p)),
            forall|j: int| 0 <= j < i ==> fields@[j].0@ != key@,
        decreases fields.len() - i,
    {
        let n = chars_of(fields[i].0.as_str());
        if crate::text::chars_eq(&n, &k) {
            proof {
                lemma_key_index_first(json_fields_model(fields@), key@, i as int);
            }
            return Some(i);
        }
        i = i + 1;
    }
    proof {
        let fm = json_fields_model(fields@);
        if let Some(q) = key_index(fm, key@) {
            assert(fm[q].0 == fields@[q].0@);
        }
    }
    None
}

proof fn lemma_key_index_first(fs: Seq<(Seq<char>, JsonModel)>, k: Seq<char>, i: int)
    requires
        0 <= i < fs.len(),
        fs[i].0 == k,
        forall|j: int| 0 <= j < i ==> fs[j].0 != k,
    ensures
        key_index(fs, k) == Some(i),
{
    lemma_key_index(fs, k);
    match key_index(fs, k) {
        Some(q) => {
            if q < i {
            } else if q > i {
            }
        },
        None => {},
    }
}

/// Sets the first field named `key` to `value`, or adds `key: value` at the end (see
/// `field_set`).
pub fn set_field(fields: &mut Vec<(String, JsonValue)>, key: &str, value: JsonValue)
    ensures
        json_fields_model(final(fields)@) == field_set(json_fields_model(old(fields)@), key@, json_model(value)),
{
    let ghost before = fields@;
    proof {
        lemma_fields_model_map(before);
    }
    match find_key(fields, key) {
        Some(i) => {
            proof {
                lemma_key_index(json_fields_model(before), key@);
            }
            let _ = fields.remove(i);
            let ks = key.to_owned();
            let ghost pair = (ks, value);
            fields.insert(i, (ks, value));
            proof {
                lemma_fields_model_map(fields@);
                assert(fields@ =~= before.update(i as int, pair));
                assert(fields@.map_values(|p: (String, JsonValue)| field_model(p)) =~= before.map_values(
                    |p: (String, JsonValue)| field_model(p),
                ).update(i as int, (key@, json_model(value))));
            }
        },
        None => {
            push_field(fields, key, value);
        },
    }
}

/// Takes out the field at `i`.
pub fn take_field(fields: &mut Vec<(String, JsonValue)>, i: usize) -> (r: (String, JsonValue))
    requires
        i < old(fields)@.len(),
    ensures
        r == old(fields)@[i as int],
        final(fields)@ == old(fields)@.remove(i as int),
        json_fields_model(final(fields)@) == json_fields_model(old(fields)@).remove(i as int),
        json_fields_model(old(fields)@)[i as int] == (r.0@, json_model(r.1)),
        json_fields_model(old(fields)@).len() == old(fields)@.len(),
{
    let ghost before = fields@;
    let r = fields.remove(i);
    proof {
        lemma_fields_model_map(before);
        lemma_fields_model_map(fields@);
        assert(fields@.map_values(|p: (String, JsonValue)| field_model(p)) =~= before.map_values(
            |p: (String, JsonValue)| field_model(p),
        ).remove(i as int));
    }
    r
}

/// Puts a field at `i`.
pub fn put_field(fields: &mut Vec<(String, JsonValue)>, i: usize, key: String, value: JsonValue)
    requires
        i <= old(fields)@.len(),
    ensures
        json_fields_model(final(fields)@) == json_fields_model(old(fields)@).insert(
            i as int,
            (key@, json_model(value)),
        ),
{
    let ghost before = fields@;
    let ghost pair = (key, value);
    fields.insert(i, (key, value));
    proof {
        lemma_fields_model_map(before);
        lemma_fields_model_map(fields@);
        assert(fields@ == before.insert(i as int, pair));
        assert(fields@.map_values(|p: (String, JsonValue)| field_model(p)) =~= before.map_values(
            |p: (String, JsonValue)| field_model(p),
        ).insert(i as int, field_model(pair)));
    }
}

/// The value of the first field named `key` (see `field_get`).
pub fn get_field<'a>(fields: &'a Vec<(String, JsonValue)>, key: &str) -> (r: Option<&'a JsonValue>)
    ensures
        match r {
            Some(v) => field_get(json_fields_model(fields@), key@) == Some(json_model(*v)),
            None => field_get(json_fields_model(fields@), key@) is None,
        },
{
    match find_key(fields, key) {
        Some(i) => {
            proof {
                lemma_key_index(json_fields_model(fields@), key@);
                lemma_fields_model_map(fields@);
            }
            Some(&fields[i].1)
        },
        None => None,
    }
}

/// Takes out the first field named `key`, if any (see `field_remove`).
pub fn remove_field(fields: &mut Vec<(String, JsonValue)>, key: &str) -> (r: Option<JsonValue>)
    ensures
        json_fields_model(final(fields)@) == field_remove(json_fields_model(old(fields)@), key@),
        match r {
            Some(v) => field_get(json_fields_model(old(fields)@), key@) == Some(json_model(v)),
            None => field_get(json_fields_model(old(fields)@), key@) is None,
        },
{
    match find_key(fields, key) {
        Some(i) => {
            proof {
                lemma_key_index(json_fields_model(fields@), key@);
                lemma_fields_model_map(fields@);
            }
            let (_, v) = take_field(fields, i);
            Some(v)
        },
        None => None,
    }
}

/// The text of a string value.
pub open spec fn as_str_model(v: Option<JsonModel>) -> Option<Seq<char>> {
    match v {
        Some(JsonModel::Str(s)) => Some(s),
        _ => None,
    }
}

/// The text of a string value, if it is one.
pub fn as_str(v: &JsonValue) -> (r: Option<&String>)
    ensures
        match r {
            Some(s) => json_model(*v) == JsonModel::Str(s@),
            None => !(json_model(*v) is Str),
        },
{
    match v {
        JsonValue::Str(s) => Some(s),
        _ => None,
    }
}

// ── JSON text of strings ────────────────────────────────────────────

/// The lowercase hexadecimal digit of `d` (0 to 15).
pub open spec fn hex_digit(d: int) -> char {
    if d < 10 {
        (d + 48) as char
    } else {
        (d + 87) as char
    }
}

/// How serde_json writes one character inside a string: `"` and `\` and the control
/// characters are escaped (`\b \t \n \f \r`, others as `\u00xx`), every other character
/// stands as it is.
pub open spec fn json_escape_char(c: char) -> Seq<char> {
    if c == '"' {
        seq!['\\', '"']
    } else if c == '\\' {
        seq!['\\', '\\']
    } else if c == '\u{8}' {
        seq!['\\', 'b']
    } else if c == '\t' {
        seq!['\\', 't']
    } else if c == '\n' {
        seq!['\\', 'n']
    } else if c == '\u{c}' {
        seq!['\\', 'f']
    } else if c == '\r' {
        seq!['\\', 'r']
    } else if (c as u32) < 32 {
        seq!['\\', 'u', '0', '0', hex_digit(((c as u32) / 16) as int), hex_digit(((c as u32) % 16) as int)]
    } else {
        seq![c]
    }
}

/// The escaped characters of a string, in order.
pub open spec fn json_escaped(s: Seq<char>) -> Seq<char>
    decreases s.len(),
{
    if s.len() == 0 {
        Seq::empty()
    } else {
        json_escaped(s.drop_last()) + json_escape_char(s.last())
    }
}

/// The JSON text of a string: its escaped characters between double quotes.
pub open spec fn json_quote(s: Seq<char>) -> Seq<char> {
    seq!['"'] + json_escaped(s) + seq!['"']
}

fn hex_char(d: u32) -> (c: char)
    requires
        d < 16,
    ensures
        c == hex_digit(d as int),
{
    if d < 10 {
        let b: u8 = 48u8 + (d as u8);
        b as char
    } else {
        let b: u8 = 87u8 + (d as u8);
        b as char
    }
}

fn push_escaped_char(out: &mut Vec<char>, c: char)
    ensures
        final(out)@ == old(out)@ + json_escape_char(c),
{
    let ghost before = out@;
    if c == '"' {
        out.push('\\');
        out.push('"');
    } else if c == '\\' {
        out.push('\\');
        out.push('\\');
    } else if c == '\u{8}' {
        out.push('\\');
        out.push('b');
    } else if c == '\t' {
        out.push('\\');
        out.push('t');
    } else if c == '\n' {
        out.push('\\');
        out.push('n');
    } else if c == '\u{c}' {
        out.push('\\');
        out.push('f');
    } else if c == '\r' {
        out.push('\\');
        out.push('r');
    } else if (c as u32) < 32 {
        let n = c as u32;
        out.push('\\');
        out.push('u');
        out.push('0');
        out.push('0');
        out.push(hex_char(n / 16));
        out.push(hex_char(n % 16));
    } else {
        out.push(c);
    }
    assert(out@ =~= before + json_escape_char(c));
}

/// Appends the JSON text of the string `s` (see `json_quote`).
pub fn push_json_string(out: &mut Vec<char>, s: &str)
    ensures
        final(out)@ == old(out)@ + json_quote(s@),
{
    let cs = chars_of(s);
    let ghost start = out@;
    out.push('"');
    let mut i: usize = 0;
    while i < cs.len()
        invariant
            i <= cs.len(),
            cs@ == s@,
            out@ == start + seq!['"'] + json_escaped(cs@.take(i as int)),
        decreases cs.len() - i,
    {
        push_escaped_char(out, cs[i]);
        i = i + 1;
        assert(cs@.take(i as int).drop_last() =~= cs@.take(i - 1));
    }
    assert(cs@.take(cs.len() as int) =~= cs@);
    out.push('"');
    assert(out@ =~= start + json_quote(s@));
}

/// The JSON text of the string `s`, as serde_json writes it.
pub fn json_string_literal(s: &str) -> (r: String)
    ensures
        r@ == json_quote(s@),
{
    let mut out: Vec<char> = Vec::new();
    push_json_string(&mut out, s);
    assert(out@ =~= json_quote(s@));
    string_of(&out)
}

} // verus!
