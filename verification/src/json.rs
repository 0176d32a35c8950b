//! JSON values as the library holds them: schemas, and the document's JSON
//! form. An object is a `StrMap`, so its members are unique and in key order,
//! as in a `serde_json::Map`. A number is carried as it is, never read.

use vstd::prelude::*;

use crate::keyed_map::{entry_views, seq_keys, StrMap};
use crate::text::strictly_sorted;

verus! {

/// A JSON number, as serde_json holds it (an integer or a float); the
/// library carries numbers through and never reads them.
#[verifier::external_type_specification]
#[verifier::external_body]
pub struct ExNumber(serde_json::Number);

/// serde_json's `Number::clone` (a derived `Clone` over a `Copy` field):
/// the copy is the same number.
pub assume_specification[ <serde_json::Number as Clone>::clone ](n: &serde_json::Number) -> (r:
    serde_json::Number)
    ensures
        r == *n,
;

/// A JSON value.
#[derive(Debug, PartialEq)]
pub enum JsonValue {
    Null,
    Bool(bool),
    Number(serde_json::Number),
    String(String),
    Array(Vec<JsonValue>),
    Object(StrMap<JsonValue>),
}

/// What a JSON value holds, as plain values: strings by their characters, an
/// object by its members in key order.
pub enum JsonView {
    Null,
    Bool(bool),
    Number(serde_json::Number),
    String(Seq<char>),
    Array(Seq<JsonView>),
    Object(Seq<(Seq<char>, JsonView)>),
}

/// The view of a JSON value.
pub open spec fn view_json(v: JsonValue) -> JsonView
    decreases v,
{
    match v {
        JsonValue::Null => JsonView::Null,
        JsonValue::Bool(b) => JsonView::Bool(b),
        JsonValue::Number(n) => JsonView::Number(n),
        JsonValue::String(s) => JsonView::String(s@),
        JsonValue::Array(a) => JsonView::Array(
            Seq::new(
                a@.len(),
                |i: int|
                    if 0 <= i < a@.len() {
                        proof {
                            assert(decreases_to!(v => a));
                            assert(decreases_to!(a => a@));
                            assert(decreases_to!(a@ => a@[i]));
                        }
                        view_json(a@[i])
                    } else {
                        JsonView::Null
                    },
            ),
        ),
        JsonValue::Object(o) => JsonView::Object(
            Seq::new(
                o.entries().len(),
                |i: int|
                    if 0 <= i < o.entries().len() {
                        proof {
                            o.lemma_values_decrease(i);
                        }
                        (o.entries()[i].0, view_json(o.entries()[i].1))
                    } else {
                        (Seq::empty(), JsonView::Null)
                    },
            ),
        ),
    }
}

impl View for JsonValue {
    type V = JsonView;

    open spec fn view(&self) -> JsonView {
        view_json(*self)
    }
}

impl JsonValue {
    /// A copy of this value: the same JSON, member for member.
    pub fn copy_value(&self) -> (r: JsonValue)
        ensures
            r@ == self@,
        decreases self,
    {
        match self {
            JsonValue::Null => JsonValue::Null,
            JsonValue::Bool(b) => JsonValue::Bool(*b),
            JsonValue::Number(n) => JsonValue::Number(n.clone()),
            JsonValue::String(s) => JsonValue::String(s.clone()),
            JsonValue::Array(a) => {
                let mut out: Vec<JsonValue> = Vec::new();
                for i in 0..a.len()
                    invariant
                        *self == JsonValue::Array(*a),
                        out@.len() == i,
                        forall|j: int| 0 <= j < i ==> #[trigger] out@[j]@ == a@[j]@,
                {
                    proof {
                        assert(decreases_to!(*self => self->Array_0));
                        assert(decreases_to!(*a => a@));
                        assert(decreases_to!(a@ => a@[i as int]));
                    }
                    let v = a[i].copy_value();
                    let ghost before = out@;
                    out.push(v);
                    proof {
                        assert forall|j: int| 0 <= j < i + 1 implies #[trigger] out@[j]@ == a@[j]@ by {
                            if j < i {
                                assert(out@[j] == before[j]);
                            }
                        }
                    }
                }
                let r = JsonValue::Array(out);
                proof {
                    assert(view_json(r) =~= view_json(*self)) by {
                        match (view_json(r), view_json(*self)) {
                            (JsonView::Array(x), JsonView::Array(y)) => {
                                assert forall|j: int| 0 <= j < x.len() implies x[j] == y[j] by {
                                    assert(out@[j]@ == a@[j]@);
                                }
                                assert(x =~= y);
                            },
                            _ => {},
                        }
                    }
                }
                r
            },
            JsonValue::Object(o) => {
                proof {
                    use_type_invariant(o);
                }
                let es = o.as_slice();
                let mut out: Vec<(String, JsonValue)> = Vec::new();
                for i in 0..es.len()
                    invariant
                        *self == JsonValue::Object(*o),
                        entry_views(es@) == o.entries(),
                        out@.len() == i,
                        forall|j: int| 0 <= j < i ==> #[trigger] out@[j].0@ == es@[j].0@,
                        forall|j: int| 0 <= j < i ==> #[trigger] out@[j].1@ == es@[j].1@,
                {
                    proof {
                        assert(entry_views(es@)[i as int] == o.entries()[i as int]);
                        o.lemma_values_decrease(i as int);
                        assert(decreases_to!(*self => self->Object_0));
                    }
                    let k = es[i].0.clone();
                    let v = es[i].1.copy_value();
                    let ghost before = out@;
                    proof {
                        assert(k@ == es@[i as int].0@);
                        assert(v@ == es@[i as int].1@);
                    }
                    out.push((k, v));
                    proof {
                        assert(out@[i as int].0@ == es@[i as int].0@);
                        assert(out@[i as int].1@ == es@[i as int].1@);
                        assert forall|j: int| 0 <= j < i + 1 implies #[trigger] out@[j].0@
                            == es@[j].0@ by {
                            if j < i {
                                assert(out@[j] == before[j]);
                            }
                        }
                        assert forall|j: int| 0 <= j < i + 1 implies #[trigger] out@[j].1@
                            == es@[j].1@ by {
                            if j < i {
                                assert(out@[j] == before[j]);
                            }
                        }
                    }
                }
                proof {
                    assert(seq_keys(entry_views(out@)) =~= o.keys()) by {
                        assert forall|j: int| 0 <= j < out@.len() implies #[trigger] seq_keys(
                            entry_views(out@),
                        )[j] == o.keys()[j] by {
                            assert(entry_views(es@)[j] == o.entries()[j]);
                        }
                    }
                }
                let m = StrMap::from_sorted(out);
                let r = JsonValue::Object(m);
                proof {
                    lemma_object_entries(m);
                    lemma_object_entries(*o);
                    assert(object_entries(m) =~= object_entries(*o)) by {
                        assert forall|j: int| 0 <= j < object_entries(m).len() implies #[trigger] object_entries(m)[j]
                            == object_entries(*o)[j] by {
                            assert(entry_views(es@)[j] == o.entries()[j]);
                            assert(m.entries()[j] == entry_views(out@)[j]);
                        }
                    }
                }
                r
            },
        }
    }
}

impl Clone for JsonValue {
    /// A copy of this value: the same JSON.
    fn clone(&self) -> (r: Self)
        ensures
            r@ == self@,
    {
        self.copy_value()
    }
}

/// The member `key` of the JSON object entries `es`, if it has one.
pub open spec fn member(es: Seq<(Seq<char>, JsonView)>, key: Seq<char>) -> Option<JsonView> {
    if exists|i: int| 0 <= i < es.len() && #[trigger] es[i].0 == key {
        Some(es[member_index(es, key)].1)
    } else {
        None
    }
}

/// The position of the member `key` among the entries `es`.
pub open spec fn member_index(es: Seq<(Seq<char>, JsonView)>, key: Seq<char>) -> int {
    choose|i: int| 0 <= i < es.len() && #[trigger] es[i].0 == key
}

/// The entries of the view of an object.
pub open spec fn object_entries(o: StrMap<JsonValue>) -> Seq<(Seq<char>, JsonView)> {
    match (JsonValue::Object(o))@ {
        JsonView::Object(es) => es,
        _ => Seq::empty(),
    }
}

/// The members of an object's view are the map's entries, each value by
/// its view.
pub proof fn lemma_object_entries(o: StrMap<JsonValue>)
    ensures
        (JsonValue::Object(o))@ == JsonView::Object(object_entries(o)),
        object_entries(o).len() == o.entries().len(),
        forall|i: int|
            0 <= i < o.entries().len() ==> #[trigger] object_entries(o)[i] == (
            o.entries()[i].0,
            o.entries()[i].1@,
        ),
{
}

/// Looking a member up in an object's view finds the view of what the map
/// holds under that key.
pub proof fn lemma_member(o: StrMap<JsonValue>, key: Seq<char>)
    requires
        strictly_sorted(o.keys()),
    ensures
        member(object_entries(o), key) == (if o@.contains_key(key) {
            Some(o@[key]@)
        } else {
            None
        }),
{
    let es = object_entries(o);
    lemma_object_entries(o);
    if o@.contains_key(key) {
        let i = choose|i: int| 0 <= i < o.entries().len() && #[trigger] o.entries()[i].0 == key;
        crate::keyed_map::lemma_unique_index(o.entries(), key, i);
        assert(es[i].0 == key);
        let j = member_index(es, key);
        assert(o.entries()[j].0 == key);
        crate::keyed_map::lemma_unique_index(o.entries(), key, j);
        assert(i == j);
    } else {
        if exists|j: int| 0 <= j < es.len() && #[trigger] es[j].0 == key {
            let j = choose|j: int| 0 <= j < es.len() && #[trigger] es[j].0 == key;
            assert(o.entries()[j].0 == key);
            assert(crate::keyed_map::seq_has_key(o.entries(), key));
        }
    }
}

} // verus!
