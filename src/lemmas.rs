use vstd::prelude::*;
use crate::json::{child, entry_value, follow, keys_unique, well_formed, cell_of, fields_of, flatten, kept, kept_entries, field_of, resolve_all_spec, target, Field, Json, Outcome, Scalar};
use crate::pointer::{lemma_last_segment, segments};

verus! {

/// A pointer that addresses no value in a document yields no match.
pub proof fn lemma_absent_is_no_match(doc: Json, p: Seq<char>)
    requires
        target(doc, p) is None,
    ensures
        cell_of(doc, p) is None,
{
}

/// An integral number is resolved as `PosInt` with its exact signed value,
/// and any other number as `Float` with its exact bit pattern.
pub proof fn lemma_number_classification(doc: Json, p: Seq<char>)
    requires
        segments(p).last().len() > 0,
    ensures
        target(doc, p) matches Some(Json::Int(n)) ==> cell_of(doc, p) == Some(
            Outcome::Entity(Field { title: segments(p).last(), value: Scalar::PosInt(n) }),
        ),
        target(doc, p) matches Some(Json::Float(b)) ==> cell_of(doc, p) == Some(
            Outcome::Entity(Field { title: segments(p).last(), value: Scalar::Float(b) }),
        ),
{
}

/// An addressed object yields one field per entry whose value is a scalar
/// other than null, in the object's order, and none for arrays, objects and
/// nulls.
pub proof fn lemma_object_flattening(doc: Json, p: Seq<char>, entries: Vec<(String, Json)>)
    requires
        segments(p).last().len() > 0,
        target(doc, p) == Some(Json::Object(entries)),
    ensures
        cell_of(doc, p) == Some(Outcome::Entities(flatten(entries@))),
        flatten(entries@).len() == kept_entries(entries@).len(),
        forall|i: int|
            0 <= i < flatten(entries@).len() ==> flatten(entries@)[i] == field_of(
                #[trigger] kept_entries(entries@)[i],
            ),
        forall|e: (String, Json)| #[trigger]
            kept_entries(entries@).contains(e) <==> entries@.contains(e) && kept(e),
{
    broadcast use vstd::seq_lib::group_filter_ensures, Seq::lemma_filter_contains_rev;

}

/// The empty pointer, and any pointer that ends in a slash, yields no match.
pub proof fn lemma_no_name_is_no_match(doc: Json, p: Seq<char>)
    requires
        p.len() == 0 || p.last() == '/',
    ensures
        cell_of(doc, p) is None,
{
    if p.len() > 0 {
        lemma_last_segment(p, p.len() as int);
        assert(p.subrange(p.len() as int, p.len() as int).len() == 0);
    }
}

proof fn lemma_entry_value_well_formed(entries: Seq<(String, Json)>, key: Seq<char>)
    requires
        forall|i: int| 0 <= i < entries.len() ==> well_formed(#[trigger] entries[i].1),
    ensures
        entry_value(entries, key) matches Some(v) ==> well_formed(v),
    decreases entries.len(),
{
    if entries.len() > 0 && entries[0].0@ != key {
        let rest = entries.drop_first();
        assert forall|i: int| 0 <= i < rest.len() implies well_formed(#[trigger] rest[i].1) by {
            assert(rest[i] == entries[i + 1]);
        }
        lemma_entry_value_well_formed(rest, key);
    }
}

proof fn lemma_follow_well_formed(v: Json, toks: Seq<Seq<char>>)
    requires
        well_formed(v),
    ensures
        follow(v, toks) matches Some(w) ==> well_formed(w),
    decreases toks.len(),
{
    if toks.len() > 0 {
        match v {
            Json::Object(entries) => lemma_entry_value_well_formed(entries@, toks[0]),
            _ => {},
        }
        if let Some(c) = child(v, toks[0]) {
            lemma_follow_well_formed(c, toks.drop_first());
        }
    }
}

proof fn lemma_kept_keys_unique(entries: Seq<(String, Json)>)
    requires
        keys_unique(entries),
    ensures
        keys_unique(kept_entries(entries)),
    decreases entries.len(),
{
    reveal(Seq::filter);
    if entries.len() > 0 {
        let t = entries.drop_last();
        assert(keys_unique(t)) by {
            assert forall|i: int, j: int| 0 <= i < j < t.len() implies (#[trigger] t[i]).0@ != (#[trigger] t[j]).0@ by {
                assert(t[i] == entries[i] && t[j] == entries[j]);
            }
        }
        lemma_kept_keys_unique(t);
        let ft = kept_entries(t);
        let last = entries.last();
        if kept(last) {
            assert(kept_entries(entries) == ft.push(last));
            assert forall|i: int| 0 <= i < ft.len() implies (#[trigger] ft[i]).0@ != last.0@ by {
                assert(ft.contains(ft[i]));
                t.lemma_filter_contains_rev(|e: (String, Json)| kept(e), ft[i]);
                let j = choose|j: int| 0 <= j < t.len() && t[j] == ft[i];
                assert(entries[j] == t[j]);
                assert(entries[entries.len() - 1] == last);
            }
            let f = kept_entries(entries);
            assert forall|i: int, j: int| 0 <= i < j < f.len() implies (#[trigger] f[i]).0@ != (#[trigger] f[j]).0@ by {
                if j < ft.len() {
                    assert(f[i] == ft[i] && f[j] == ft[j]);
                } else {
                    assert(f[i] == ft[i] && f[j] == last);
                }
            }
        } else {
            assert(kept_entries(entries) == ft);
        }
    }
}

/// In a well-formed document an addressed object yields at most one field
/// per key: no two of its fields share a name.
pub proof fn lemma_flattening_one_field_per_key(doc: Json, p: Seq<char>, entries: Vec<(String, Json)>)
    requires
        well_formed(doc),
        segments(p).last().len() > 0,
        target(doc, p) == Some(Json::Object(entries)),
    ensures
        cell_of(doc, p) == Some(Outcome::Entities(flatten(entries@))),
        forall|i: int, j: int|
            0 <= i < j < flatten(entries@).len() ==> (#[trigger] flatten(entries@)[i]).title != (
            #[trigger] flatten(entries@)[j]).title,
{
    if p.len() > 0 && p[0] == '/' {
        lemma_follow_well_formed(doc, crate::pointer::tokens(p));
    }
    assert(well_formed(Json::Object(entries)));
    lemma_kept_keys_unique(entries@);
}

/// Resolving one pointer against one unchanged document twice gives the same
/// outcome both times.
pub proof fn lemma_resolve_idempotent(doc: Json, p: Seq<char>, first: Option<Outcome>, second: Option<Outcome>)
    requires
        first == cell_of(doc, p),
        second == cell_of(doc, p),
    ensures
        first == second,
{
}

/// Resolving a list of pointers gives the fields of its first part followed
/// by those of its second.
pub proof fn lemma_resolve_concat(doc: Json, a: Seq<Seq<char>>, b: Seq<Seq<char>>)
    ensures
        resolve_all_spec(doc, a + b) == resolve_all_spec(doc, a) + resolve_all_spec(doc, b),
    decreases b.len(),
{
    if b.len() == 0 {
        assert(a + b =~= a);
        assert(resolve_all_spec(doc, a) + resolve_all_spec(doc, b) =~= resolve_all_spec(doc, a));
    } else {
        lemma_resolve_concat(doc, a, b.drop_last());
        assert((a + b).drop_last() =~= a + b.drop_last());
        assert((a + b).last() == b.last());
        assert(resolve_all_spec(doc, a + b) =~= resolve_all_spec(doc, a) + resolve_all_spec(doc, b));
    }
}

proof fn lemma_resolve_one(doc: Json, p: Seq<char>)
    ensures
        resolve_all_spec(doc, seq![p]) == fields_of(cell_of(doc, p)),
{
    assert(seq![p].drop_last() =~= Seq::<Seq<char>>::empty());
    assert(seq![p].last() == p);
    assert(resolve_all_spec(doc, Seq::<Seq<char>>::empty()) == Seq::<Field>::empty());
    assert(Seq::<Field>::empty() + fields_of(cell_of(doc, p)) =~= fields_of(cell_of(doc, p)));
}

/// Two pointers yield the fields of the first followed by those of the
/// second, a pointer with no match adding none.
pub proof fn lemma_resolve_two(doc: Json, p1: Seq<char>, p2: Seq<char>)
    ensures
        resolve_all_spec(doc, seq![p1, p2]) == fields_of(cell_of(doc, p1)) + fields_of(cell_of(doc, p2)),
        cell_of(doc, p1) is None ==> resolve_all_spec(doc, seq![p1, p2]) == fields_of(cell_of(doc, p2)),
{
    lemma_resolve_one(doc, p1);
    lemma_resolve_one(doc, p2);
    lemma_resolve_concat(doc, seq![p1], seq![p2]);
    assert(seq![p1] + seq![p2] =~= seq![p1, p2]);
    if cell_of(doc, p1) is None {
        assert(fields_of(cell_of(doc, p1)) + fields_of(cell_of(doc, p2)) =~= fields_of(cell_of(doc, p2)));
    }
}

} // verus!
