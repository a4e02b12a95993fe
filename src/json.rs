use vstd::prelude::*;
use crate::pointer::{array_index, parse_index, pointer_tokens, segments, tokens, views, get_field_name};

verus! {

/// A JSON document held as plain values.
///
/// Numbers are kept as they were read: `Int` for one that is integral and
/// fits in `i64`, `Float` for any other, as the bit pattern of its IEEE 754
/// double. Object entries keep the document's key order.
#[derive(Debug)]
pub enum Json {
    Null,
    Bool(bool),
    Int(i64),
    Float(u64),
    Str(String),
    Array(Vec<Json>),
    Object(Vec<(String, Json)>),
}

/// The document value of a JSON number: `Int` where the number is integral
/// and fits in `i64` (`as_i64` holds it), else `Float` with the bit pattern of
/// its double.
pub fn from_number(as_i64: Option<i64>, float_bits: u64) -> (r: Json)
    ensures
        r == match as_i64 {
            Some(i) => Json::Int(i),
            None => Json::Float(float_bits),
        },
{
    match as_i64 {
        Some(i) => Json::Int(i),
        None => Json::Float(float_bits),
    }
}

/// No two entries of an object share a key.
pub open spec fn keys_unique(entries: Seq<(String, Json)>) -> bool {
    forall|i: int, j: int|
        0 <= i < j < entries.len() ==> (#[trigger] entries[i]).0@ != (#[trigger] entries[j]).0@
}

/// A document whose objects, at every depth, have unique keys.
pub open spec fn well_formed(v: Json) -> bool
    decreases v,
{
    match v {
        Json::Object(entries) => keys_unique(entries@) && forall|i: int|
            0 <= i < entries@.len() ==> well_formed(#[trigger] entries@[i].1),
        Json::Array(items) => forall|i: int| 0 <= i < items@.len() ==> well_formed(#[trigger] items@[i]),
        _ => true,
    }
}

/// The value of the first entry named `key`.
pub open spec fn entry_value(entries: Seq<(String, Json)>, key: Seq<char>) -> Option<Json>
    decreases entries.len(),
{
    if entries.len() == 0 {
        None
    } else if entries[0].0@ == key {
        Some(entries[0].1)
    } else {
        entry_value(entries.drop_first(), key)
    }
}

/// The value one reference token below `v`.
pub open spec fn child(v: Json, tok: Seq<char>) -> Option<Json> {
    match v {
        Json::Object(entries) => entry_value(entries@, tok),
        Json::Array(items) => match array_index(tok) {
            Some(k) => if k < items@.len() {
                Some(items@[k as int])
            } else {
                None
            },
            None => None,
        },
        _ => None,
    }
}

/// The value reached from `v` by following `toks` in turn.
pub open spec fn follow(v: Json, toks: Seq<Seq<char>>) -> Option<Json>
    decreases toks.len(),
{
    if toks.len() == 0 {
        Some(v)
    } else {
        match child(v, toks[0]) {
            Some(c) => follow(c, toks.drop_first()),
            None => None,
        }
    }
}

/// The value that pointer `p` addresses in `doc`: the empty pointer addresses
/// the root; any other must start with a slash.
pub open spec fn target(doc: Json, p: Seq<char>) -> Option<Json> {
    if p.len() == 0 {
        Some(doc)
    } else if p[0] != '/' {
        None
    } else {
        follow(doc, tokens(p))
    }
}

fn find_entry<'a>(entries: &'a Vec<(String, Json)>, key: &String) -> (r: Option<&'a Json>)
    ensures
        match entry_value(entries@, key@) {
            Some(v) => r is Some && *r->0 == v,
            None => r is None,
        },
{
    let mut i: usize = 0;
    assert(entries@.subrange(0, entries@.len() as int) =~= entries@);
    while i < entries.len()
        invariant
            i <= entries@.len(),
            entry_value(entries@, key@) == entry_value(entries@.subrange(i as int, entries@.len() as int), key@),
        decreases entries@.len() - i,
    {
        let ghost rest = entries@.subrange(i as int, entries@.len() as int);
        assert(rest.drop_first() =~= entries@.subrange(i + 1, entries@.len() as int));
        if entries[i].0 == *key {
            return Some(&entries[i].1);
        }
        i = i + 1;
    }
    None
}

fn child_of<'a>(v: &'a Json, tok: &String) -> (r: Option<&'a Json>)
    ensures
        match child(*v, tok@) {
            Some(c) => r is Some && *r->0 == c,
            None => r is None,
        },
{
    match v {
        Json::Object(entries) => find_entry(entries, tok),
        Json::Array(items) => match parse_index(tok.as_str()) {
            Some(k) => if k < items.len() {
                Some(&items[k])
            } else {
                None
            },
            None => None,
        },
        _ => None,
    }
}

/// The value that `p` addresses in `doc`, if any.
pub fn pointer<'a>(doc: &'a Json, p: &str) -> (r: Option<&'a Json>)
    ensures
        match target(*doc, p@) {
            Some(v) => r is Some && *r->0 == v,
            None => r is None,
        },
{
    if p.unicode_len() == 0 {
        return Some(doc);
    }
    if p.get_char(0) != '/' {
        return None;
    }
    let toks = pointer_tokens(p);
    let mut cur: &Json = doc;
    let mut i: usize = 0;
    assert(tokens(p@).subrange(0, tokens(p@).len() as int) =~= tokens(p@));
    while i < toks.len()
        invariant
            i <= toks@.len(),
            views(toks@) == tokens(p@),
            follow(*doc, tokens(p@)) == follow(*cur, tokens(p@).subrange(i as int, tokens(p@).len() as int)),
        decreases toks@.len() - i,
    {
        let ghost rest = tokens(p@).subrange(i as int, tokens(p@).len() as int);
        assert(rest.drop_first() =~= tokens(p@).subrange(i + 1, tokens(p@).len() as int));
        assert(toks@[i as int]@ == tokens(p@)[i as int]);
        match child_of(cur, &toks[i]) {
            Some(c) => {
                cur = c;
            },
            None => {
                return None;
            },
        }
        i = i + 1;
    }
    assert(tokens(p@).subrange(i as int, tokens(p@).len() as int) =~= Seq::<Seq<char>>::empty());
    Some(cur)
}

/// A scalar taken out of a document. `Float` holds the bit pattern of the
/// IEEE 754 double.
#[derive(Debug, PartialEq)]
pub enum JsonValue {
    PosInt(i64),
    Float(u64),
    Text(String),
    Boolean(bool),
    Null,
}

/// A named scalar: the last pointer segment or the object key, and its value.
#[derive(Debug, PartialEq)]
pub struct JsonEntity {
    pub title: String,
    pub value: JsonValue,
}

/// What one pointer yields: one field, or the scalar fields of an object.
#[derive(Debug, PartialEq)]
pub enum EntityResult {
    Entities(Vec<JsonEntity>),
    Entity(JsonEntity),
}

pub enum Scalar {
    PosInt(i64),
    Float(u64),
    Text(Seq<char>),
    Boolean(bool),
    Null,
}

pub struct Field {
    pub title: Seq<char>,
    pub value: Scalar,
}

pub enum Outcome {
    Entities(Seq<Field>),
    Entity(Field),
}

impl View for JsonValue {
    type V = Scalar;

    open spec fn view(&self) -> Scalar {
        match self {
            JsonValue::PosInt(i) => Scalar::PosInt(*i),
            JsonValue::Float(b) => Scalar::Float(*b),
            JsonValue::Text(s) => Scalar::Text(s@),
            JsonValue::Boolean(b) => Scalar::Boolean(*b),
            JsonValue::Null => Scalar::Null,
        }
    }
}

impl View for JsonEntity {
    type V = Field;

    open spec fn view(&self) -> Field {
        Field { title: self.title@, value: self.value@ }
    }
}

pub open spec fn fields_view(v: Seq<JsonEntity>) -> Seq<Field> {
    v.map_values(|e: JsonEntity| e@)
}

impl View for EntityResult {
    type V = Outcome;

    open spec fn view(&self) -> Outcome {
        match self {
            EntityResult::Entities(v) => Outcome::Entities(fields_view(v@)),
            EntityResult::Entity(e) => Outcome::Entity(e@),
        }
    }
}

pub open spec fn outcome_view(r: Option<EntityResult>) -> Option<Outcome> {
    match r {
        Some(e) => Some(e@),
        None => None,
    }
}

/// The scalar that a JSON value is, if it is one.
pub open spec fn scalar_of(v: Json) -> Option<Scalar> {
    match v {
        Json::Null => Some(Scalar::Null),
        Json::Bool(b) => Some(Scalar::Boolean(b)),
        Json::Int(i) => Some(Scalar::PosInt(i)),
        Json::Float(b) => Some(Scalar::Float(b)),
        Json::Str(s) => Some(Scalar::Text(s@)),
        Json::Array(_) => None,
        Json::Object(_) => None,
    }
}

/// An object entry that flattening keeps: a scalar other than null.
pub open spec fn kept(e: (String, Json)) -> bool {
    scalar_of(e.1) is Some && !(e.1 is Null)
}

pub open spec fn field_of(e: (String, Json)) -> Field {
    Field { title: e.0@, value: scalar_of(e.1)->0 }
}

/// The entries of an object that flattening keeps, in the object's order.
pub open spec fn kept_entries(entries: Seq<(String, Json)>) -> Seq<(String, Json)> {
    entries.filter(|e: (String, Json)| kept(e))
}

/// One field per kept entry of an object, in the object's order.
pub open spec fn flatten(entries: Seq<(String, Json)>) -> Seq<Field> {
    kept_entries(entries).map_values(|e: (String, Json)| field_of(e))
}

/// What pointer `p` yields in `doc`: nothing where its last segment is empty
/// (the empty pointer, or one ending in a slash), where it addresses no value
/// or where it addresses an array; the flattened fields where it addresses an
/// object; else one field named by the pointer's last segment.
pub open spec fn cell_of(doc: Json, p: Seq<char>) -> Option<Outcome> {
    if segments(p).last().len() == 0 {
        None
    } else {
        cell_at(target(doc, p), segments(p).last())
    }
}

/// What an addressed value yields, under the field name `title`.
pub open spec fn cell_at(t: Option<Json>, title: Seq<char>) -> Option<Outcome> {
    match t {
        None => None,
        Some(v) => match v {
            Json::Array(_) => None,
            Json::Object(entries) => Some(Outcome::Entities(flatten(entries@))),
            _ => Some(Outcome::Entity(Field { title, value: scalar_of(v)->0 })),
        },
    }
}

/// The fields that one outcome contributes to a table.
pub open spec fn fields_of(o: Option<Outcome>) -> Seq<Field> {
    match o {
        None => Seq::empty(),
        Some(Outcome::Entities(v)) => v,
        Some(Outcome::Entity(f)) => seq![f],
    }
}

/// The fields of all pointers in `ps`, one after the other.
pub open spec fn resolve_all_spec(doc: Json, ps: Seq<Seq<char>>) -> Seq<Field>
    decreases ps.len(),
{
    if ps.len() == 0 {
        Seq::empty()
    } else {
        resolve_all_spec(doc, ps.drop_last()) + fields_of(cell_of(doc, ps.last()))
    }
}

fn to_value(v: &Json) -> (r: Option<JsonValue>)
    ensures
        match scalar_of(*v) {
            Some(s) => r is Some && r->0@ == s,
            None => r is None,
        },
{
    match v {
        Json::Null => Some(JsonValue::Null),
        Json::Bool(b) => Some(JsonValue::Boolean(*b)),
        Json::Int(i) => Some(JsonValue::PosInt(*i)),
        Json::Float(b) => Some(JsonValue::Float(*b)),
        Json::Str(s) => Some(JsonValue::Text(s.clone())),
        Json::Array(_) => None,
        Json::Object(_) => None,
    }
}

fn flatten_entries(entries: &Vec<(String, Json)>) -> (r: Vec<JsonEntity>)
    ensures
        fields_view(r@) == flatten(entries@),
{
    let mut r: Vec<JsonEntity> = Vec::new();
    let mut i: usize = 0;
    assert(entries@.subrange(0, 0).filter(|e: (String, Json)| kept(e)) =~= Seq::<(String, Json)>::empty());
    assert(fields_view(r@) =~= flatten(entries@.subrange(0, 0)));
    while i < entries.len()
        invariant
            i <= entries@.len(),
            fields_view(r@) =~= flatten(entries@.subrange(0, i as int)),
        decreases entries@.len() - i,
    {
        let ghost prev = r@;
        let ghost e = entries@[i as int];
        proof {
            assert(entries@.subrange(0, i + 1) =~= entries@.subrange(0, i as int) + seq![e]);
            Seq::filter_distributes_over_add(entries@.subrange(0, i as int), seq![e], |e: (String, Json)| kept(e));
            reveal_with_fuel(Seq::filter, 2);
        }
        let is_null = match &entries[i].1 {
            Json::Null => true,
            _ => false,
        };
        if !is_null {
            match to_value(&entries[i].1) {
                Some(value) => {
                    r.push(JsonEntity { title: entries[i].0.clone(), value });
                    proof {
                        assert(seq![e].filter(|e: (String, Json)| kept(e)) =~= seq![e]);
                        assert(fields_view(r@) =~= fields_view(prev) + seq![field_of(e)]);
                    }
                },
                None => {
                    proof {
                        assert(seq![e].filter(|e: (String, Json)| kept(e)) =~= Seq::<(String, Json)>::empty());
                    }
                },
            }
        } else {
            proof {
                assert(seq![e].filter(|e: (String, Json)| kept(e)) =~= Seq::<(String, Json)>::empty());
            }
        }
        i = i + 1;
    }
    assert(entries@.subrange(0, entries@.len() as int) =~= entries@);
    r
}

/// Resolves `pointer` against `json_object`: one field for a scalar, the
/// flattened scalar fields for an object; nothing for an array, for a pointer
/// that addresses no value, or for one whose last segment is empty.
pub fn get_cell(json_object: &Json, pointer: &str) -> (r: Option<EntityResult>)
    ensures
        outcome_view(r) == cell_of(*json_object, pointer@),
{
    let title = match get_field_name(pointer) {
        Some(t) => String::from_str(t),
        None => {
            return None;
        },
    };
    match self::pointer(json_object, pointer) {
        Some(v) => match v {
            Json::Array(_) => None,
            Json::Object(entries) => Some(EntityResult::Entities(flatten_entries(entries))),
            _ => match to_value(v) {
                Some(value) => Some(EntityResult::Entity(JsonEntity { title, value })),
                None => None,
            },
        },
        None => None,
    }
}

/// The fields of every pointer of `pointers` against `doc`, in the pointers'
/// order; a pointer that yields nothing adds nothing.
pub fn resolve_all(doc: &Json, pointers: &Vec<String>) -> (r: Vec<JsonEntity>)
    ensures
        fields_view(r@) == resolve_all_spec(*doc, views(pointers@)),
{
    let mut r: Vec<JsonEntity> = Vec::new();
    let mut i: usize = 0;
    assert(views(pointers@).subrange(0, 0) =~= Seq::<Seq<char>>::empty());
    assert(fields_view(r@) =~= Seq::<Field>::empty());
    while i < pointers.len()
        invariant
            i <= pointers@.len(),
            fields_view(r@) =~= resolve_all_spec(*doc, views(pointers@).subrange(0, i as int)),
        decreases pointers@.len() - i,
    {
        let ghost prev = r@;
        let ghost ps = views(pointers@).subrange(0, i + 1);
        assert(ps.drop_last() =~= views(pointers@).subrange(0, i as int));
        assert(ps.last() == pointers@[i as int]@);
        match get_cell(doc, pointers[i].as_str()) {
            Some(EntityResult::Entities(mut v)) => {
                let ghost added = v@;
                r.append(&mut v);
                assert(fields_view(r@) =~= fields_view(prev) + fields_view(added));
            },
            Some(EntityResult::Entity(e)) => {
                r.push(e);
                assert(fields_view(r@) =~= fields_view(prev) + seq![e@]);
            },
            None => {},
        }
        i = i + 1;
    }
    assert(views(pointers@).subrange(0, pointers@.len() as int) =~= views(pointers@));
    r
}

} // verus!
