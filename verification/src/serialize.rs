//! The JSON form of the document, as OpenAPI 3.1 spells it: the field names
//! of the specification (`in`, `operationId`, `requestBody`), optional fields
//! left out when absent, empty lists and maps left out where the
//! specification allows it, and every object's members in key order.

use vstd::prelude::*;

use crate::json::{lemma_member, lemma_object_entries, member, JsonValue, JsonView};
use crate::json::member_index;
use crate::keyed_map::{entry_views, lemma_sorted_same_map, lemma_unique_index, seq_as_map, seq_has_key, seq_keys, StrMap};
use crate::spec::{Components, Info, MediaType, OpenApi, Operation, Parameter, RequestBody, Response};
use crate::text::{lemma_differ_at, strictly_sorted};

verus! {

/// The members of `v`, if it is an object.
pub open spec fn members(v: JsonView) -> Seq<(Seq<char>, JsonView)> {
    match v {
        JsonView::Object(es) => es,
        _ => Seq::empty(),
    }
}

/// `v` is an object whose members, in key order, are exactly those named in
/// `keys`.
pub open spec fn is_object_with(v: JsonView, keys: Set<Seq<char>>) -> bool {
    &&& v is Object
    &&& strictly_sorted(seq_keys(members(v)))
    &&& forall|k: Seq<char>| (#[trigger] member(members(v), k) is Some) <==> keys.contains(k)
}

/// The member `k` of the object `v`.
pub open spec fn field(v: JsonView, k: Seq<char>) -> JsonView {
    member(members(v), k).unwrap()
}

/// `v` is an object with the keys of `m`, in the same order, each member
/// related by `rel` to the value of `m` under that key.
pub open spec fn is_object_over<V>(
    v: JsonView,
    m: StrMap<V>,
    rel: spec_fn(JsonView, V) -> bool,
) -> bool {
    &&& v is Object
    &&& members(v).len() == m.entries().len()
    &&& forall|i: int|
        0 <= i < m.entries().len() ==> #[trigger] members(v)[i].0 == m.entries()[i].0 && rel(
            members(v)[i].1,
            m.entries()[i].1,
        )
}

/// A value with a JSON form.
pub trait IntoJson: Sized {
    /// `j` is the JSON form of `self`.
    spec fn json_of(self, j: JsonView) -> bool;

    /// The JSON form of `self`.
    fn into_json(self) -> (j: JsonValue)
        ensures
            self.json_of(j@),
    ;

    /// A value has one JSON form: the document's JSON is determined by the
    /// document, member order included.
    proof fn lemma_json_unique(self, j1: JsonView, j2: JsonView)
        requires
            self.json_of(j1),
            self.json_of(j2),
        ensures
            j1 == j2,
    ;
}

/// Two objects with the same members, in key order, are the same object.
proof fn lemma_objects_equal(v1: JsonView, v2: JsonView, keys: Set<Seq<char>>)
    requires
        is_object_with(v1, keys),
        is_object_with(v2, keys),
        forall|k: Seq<char>| keys.contains(k) ==> field(v1, k) == field(v2, k),
    ensures
        v1 == v2,
{
    let (e1, e2) = (members(v1), members(v2));
    assert forall|k: Seq<char>| #[trigger] seq_as_map(e1).contains_key(k) == seq_as_map(
        e2,
    ).contains_key(k) by {
        assert(member(e1, k) is Some <==> seq_has_key(e1, k));
        assert(member(e2, k) is Some <==> seq_has_key(e2, k));
    }
    assert forall|k: Seq<char>| #[trigger] seq_as_map(e1).contains_key(k) implies seq_as_map(
        e1,
    )[k] == seq_as_map(e2)[k] by {
        let i1 = member_index(e1, k);
        let i2 = member_index(e2, k);
        assert(e1[i1].0 == k);
        assert(e2[i2].0 == k);
        lemma_unique_index(e1, k, i1);
        lemma_unique_index(e2, k, i2);
        assert(member(e1, k) is Some);
        assert(field(v1, k) == e1[i1].1);
        assert(field(v2, k) == e2[i2].1);
    }
    assert(seq_as_map(e1) =~= seq_as_map(e2));
    lemma_sorted_same_map(e1, e2);
}

/// The member names of each object of the JSON form are pairwise distinct.
proof fn lemma_member_names_distinct()
    ensures
        "description"@ != "content"@,
        "required"@ != "content"@,
        "name"@ != "in"@,
        "name"@ != "required"@,
        "name"@ != "schema"@,
        "in"@ != "required"@,
        "in"@ != "schema"@,
        "required"@ != "schema"@,
        "responses"@ != "summary"@,
        "responses"@ != "operationId"@,
        "responses"@ != "parameters"@,
        "responses"@ != "requestBody"@,
        "summary"@ != "operationId"@,
        "summary"@ != "parameters"@,
        "summary"@ != "requestBody"@,
        "operationId"@ != "parameters"@,
        "operationId"@ != "requestBody"@,
        "parameters"@ != "requestBody"@,
        "title"@ != "version"@,
        "title"@ != "description"@,
        "version"@ != "description"@,
        "openapi"@ != "info"@,
        "openapi"@ != "paths"@,
        "openapi"@ != "components"@,
        "info"@ != "paths"@,
        "info"@ != "components"@,
        "paths"@ != "components"@,
{
    reveal_strlit("components");
    reveal_strlit("content");
    reveal_strlit("description");
    reveal_strlit("in");
    reveal_strlit("info");
    reveal_strlit("name");
    reveal_strlit("openapi");
    reveal_strlit("operationId");
    reveal_strlit("parameters");
    reveal_strlit("paths");
    reveal_strlit("requestBody");
    reveal_strlit("required");
    reveal_strlit("responses");
    reveal_strlit("schema");
    reveal_strlit("summary");
    reveal_strlit("title");
    reveal_strlit("version");
    lemma_differ_at("description"@, "content"@, 0);
    lemma_differ_at("required"@, "content"@, 0);
    lemma_differ_at("name"@, "in"@, 0);
    lemma_differ_at("name"@, "required"@, 0);
    lemma_differ_at("name"@, "schema"@, 0);
    lemma_differ_at("in"@, "required"@, 0);
    lemma_differ_at("in"@, "schema"@, 0);
    lemma_differ_at("required"@, "schema"@, 0);
    lemma_differ_at("responses"@, "summary"@, 0);
    lemma_differ_at("responses"@, "operationId"@, 0);
    lemma_differ_at("responses"@, "parameters"@, 0);
    lemma_differ_at("responses"@, "requestBody"@, 2);
    lemma_differ_at("summary"@, "operationId"@, 0);
    lemma_differ_at("summary"@, "parameters"@, 0);
    lemma_differ_at("summary"@, "requestBody"@, 0);
    lemma_differ_at("operationId"@, "parameters"@, 0);
    lemma_differ_at("operationId"@, "requestBody"@, 0);
    lemma_differ_at("parameters"@, "requestBody"@, 0);
    lemma_differ_at("title"@, "version"@, 0);
    lemma_differ_at("title"@, "description"@, 0);
    lemma_differ_at("version"@, "description"@, 0);
    lemma_differ_at("openapi"@, "info"@, 0);
    lemma_differ_at("openapi"@, "paths"@, 0);
    lemma_differ_at("openapi"@, "components"@, 0);
    lemma_differ_at("info"@, "paths"@, 0);
    lemma_differ_at("info"@, "components"@, 0);
    lemma_differ_at("paths"@, "components"@, 0);
}

/// The object value of `m`, with its members' lookup stated.
fn object_value(m: StrMap<JsonValue>) -> (j: JsonValue)
    ensures
        j@ is Object,
        strictly_sorted(seq_keys(members(j@))),
        forall|k: Seq<char>| #[trigger]
            member(members(j@), k) == (if m@.contains_key(k) {
                Some(m@[k]@)
            } else {
                None
            }),
{
    proof {
        use_type_invariant(&m);
        lemma_object_entries(m);
        assert(seq_keys(members((JsonValue::Object(m))@)) =~= m.keys());
        assert forall|k: Seq<char>| #[trigger]
            member(members((JsonValue::Object(m))@), k) == (if m@.contains_key(k) {
                Some(m@[k]@)
            } else {
                None
            }) by {
            lemma_member(m, k);
        }
    }
    JsonValue::Object(m)
}

/// The JSON string `s`.
fn string_value(s: String) -> (j: JsonValue)
    ensures
        j@ == JsonView::String(s@),
{
    JsonValue::String(s)
}

/// The JSON string `s`.
fn str_value(s: &str) -> (j: JsonValue)
    ensures
        j@ == JsonView::String(s@),
{
    JsonValue::String(s.to_owned())
}

impl IntoJson for JsonValue {
    open spec fn json_of(self, j: JsonView) -> bool {
        j == self@
    }

    fn into_json(self) -> (j: JsonValue) {
        self
    }

    proof fn lemma_json_unique(self, j1: JsonView, j2: JsonView) {
    }
}

impl<V: IntoJson> IntoJson for StrMap<V> {
    proof fn lemma_json_unique(self, j1: JsonView, j2: JsonView) {
        self.lemma_object_over_unique(j1, j2);
    }

    open spec fn json_of(self, j: JsonView) -> bool {
        is_object_over(j, self, |jv: JsonView, v: V| v.json_of(jv))
    }

    fn into_json(self) -> (j: JsonValue) {
        let ghost es = self.entries();
        let entries = self.into_entries();
        let mut out: Vec<(String, JsonValue)> = Vec::new();
        for entry in it: entries.into_iter()
            invariant
                it.seq() == entries@,
                entry_views(entries@) == es,
                strictly_sorted(seq_keys(es)),
                out@.len() == it.index(),
                forall|i: int|
                    0 <= i < it.index() ==> #[trigger] out@[i].0@ == es[i].0 && es[i].1.json_of(
                        out@[i].1@,
                    ),
        {
            let ghost k = it.index();
            let (key, value) = entry;
            proof {
                assert(es[k] == (key@, value));
            }
            let converted = value.into_json();
            out.push((key, converted));
        }
        proof {
            assert(seq_keys(entry_views(out@)) =~= seq_keys(es));
        }
        let m = StrMap::from_sorted(out);
        proof {
            lemma_object_entries(m);
        }
        JsonValue::Object(m)
    }
}

impl<V: IntoJson> StrMap<V> {
    proof fn lemma_object_over_unique(self, j1: JsonView, j2: JsonView)
        requires
            self.json_of(j1),
            self.json_of(j2),
        ensures
            j1 == j2,
    {
        let (e1, e2) = (members(j1), members(j2));
        let rel = |jv: JsonView, v: V| v.json_of(jv);
        assert(is_object_over(j1, self, rel));
        assert(is_object_over(j2, self, rel));
        assert forall|i: int| 0 <= i < e1.len() implies e1[i] == e2[i] by {
            let v = self.entries()[i].1;
            assert(members(j1).len() == self.entries().len());
            assert(0 <= i < self.entries().len());
            assert(members(j1)[i].0 == self.entries()[i].0);
            assert(rel(members(j1)[i].1, v));
            assert(members(j2).len() == self.entries().len());
            assert(members(j2)[i].0 == self.entries()[i].0);
            assert(rel(members(j2)[i].1, v));
            v.lemma_json_unique(e1[i].1, e2[i].1);
        }
        assert(e1 =~= e2);
    }
}

impl<T: IntoJson> IntoJson for Vec<T> {
    proof fn lemma_json_unique(self, j1: JsonView, j2: JsonView) {
        let (a1, a2) = match (j1, j2) {
            (JsonView::Array(a1), JsonView::Array(a2)) => (a1, a2),
            _ => (Seq::empty(), Seq::empty()),
        };
        assert forall|i: int| 0 <= i < a1.len() implies a1[i] == a2[i] by {
            self@[i].lemma_json_unique(a1[i], a2[i]);
        }
        assert(a1 =~= a2);
    }

    open spec fn json_of(self, j: JsonView) -> bool {
        &&& j matches JsonView::Array(items)
        &&& items.len() == self@.len()
        &&& forall|i: int| 0 <= i < self@.len() ==> #[trigger] self@[i].json_of(items[i])
    }

    fn into_json(self) -> (j: JsonValue) {
        let ghost all = self@;
        let mut out: Vec<JsonValue> = Vec::new();
        for item in it: self.into_iter()
            invariant
                it.seq() == all,
                out@.len() == it.index(),
                forall|i: int| 0 <= i < it.index() ==> #[trigger] all[i].json_of(out@[i]@),
        {
            let ghost k = it.index();
            let converted = item.into_json();
            out.push(converted);
        }
        let ghost ov = out@;
        let j = JsonValue::Array(out);
        proof {
            let items = match j@ {
                JsonView::Array(items) => items,
                _ => Seq::empty(),
            };
            assert(j@ is Array);
            assert forall|i: int| 0 <= i < all.len() implies #[trigger] all[i].json_of(items[i]) by {
                assert(items[i] == ov[i]@);
            }
        }
        j
    }
}

impl IntoJson for MediaType {
    proof fn lemma_json_unique(self, j1: JsonView, j2: JsonView) {
        lemma_objects_equal(j1, j2, set!["schema"@]);
    }

    open spec fn json_of(self, j: JsonView) -> bool {
        &&& is_object_with(j, set!["schema"@])
        &&& field(j, "schema"@) == self.schema@
    }

    fn into_json(self) -> (j: JsonValue) {
        let mut m = StrMap::new();
        m.insert("schema".to_owned(), self.schema);
        let j = object_value(m);
        proof {
            assert(set!["schema"@] =~= m@.dom());
        }
        j
    }
}

impl IntoJson for Response {
    proof fn lemma_json_unique(self, j1: JsonView, j2: JsonView) {
        if !self.content@.dom().is_empty() {
            self.content.lemma_json_unique(field(j1, "content"@), field(j2, "content"@));
            lemma_objects_equal(j1, j2, set!["description"@, "content"@]);
        } else {
            lemma_objects_equal(j1, j2, set!["description"@]);
        }
    }

    open spec fn json_of(self, j: JsonView) -> bool {
        &&& is_object_with(
            j,
            if self.content@.dom().is_empty() {
                set!["description"@]
            } else {
                set!["description"@, "content"@]
            },
        )
        &&& field(j, "description"@) == JsonView::String(self.description@)
        &&& !self.content@.dom().is_empty() ==> self.content.json_of(field(j, "content"@))
    }

    fn into_json(self) -> (j: JsonValue) {
        proof {
            lemma_member_names_distinct();
        }
        let ghost orig = self;
        let mut m = StrMap::new();
        m.insert("description".to_owned(), string_value(self.description));
        let empty = self.content.is_empty();
        if !empty {
            m.insert("content".to_owned(), self.content.into_json());
        }
        let j = object_value(m);
        proof {
            if empty {
                assert(orig.content@.dom() =~= Set::<Seq<char>>::empty());
                assert(set!["description"@] =~= m@.dom());
            } else {
                assert(orig.content@.dom() != Set::<Seq<char>>::empty()) by {
                    if orig.content@.dom() =~= Set::<Seq<char>>::empty() {
                        assert(orig.content@ =~= Map::<Seq<char>, MediaType>::empty());
                    }
                }
                assert(set!["description"@, "content"@] =~= m@.dom());
            }
        }
        j
    }
}

impl IntoJson for RequestBody {
    proof fn lemma_json_unique(self, j1: JsonView, j2: JsonView) {
        self.content.lemma_json_unique(field(j1, "content"@), field(j2, "content"@));
        lemma_objects_equal(j1, j2, set!["required"@, "content"@]);
    }

    open spec fn json_of(self, j: JsonView) -> bool {
        &&& is_object_with(j, set!["required"@, "content"@])
        &&& field(j, "required"@) == JsonView::Bool(self.required)
        &&& self.content.json_of(field(j, "content"@))
    }

    fn into_json(self) -> (j: JsonValue) {
        proof {
            lemma_member_names_distinct();
        }
        let mut m = StrMap::new();
        m.insert("required".to_owned(), JsonValue::Bool(self.required));
        m.insert("content".to_owned(), self.content.into_json());
        proof {
            assert(set!["required"@, "content"@] =~= m@.dom());
        }
        object_value(m)
    }
}

impl IntoJson for Parameter {
    proof fn lemma_json_unique(self, j1: JsonView, j2: JsonView) {
        lemma_objects_equal(j1, j2, set!["name"@, "in"@, "required"@, "schema"@]);
    }

    open spec fn json_of(self, j: JsonView) -> bool {
        &&& is_object_with(j, set!["name"@, "in"@, "required"@, "schema"@])
        &&& field(j, "name"@) == JsonView::String(self.name@)
        &&& field(j, "in"@) == JsonView::String(self.location@)
        &&& field(j, "required"@) == JsonView::Bool(self.required)
        &&& field(j, "schema"@) == self.schema@
    }

    fn into_json(self) -> (j: JsonValue) {
        proof {
            lemma_member_names_distinct();
        }
        let ghost orig = self;
        let mut m = StrMap::new();
        m.insert("name".to_owned(), string_value(self.name));
        m.insert("in".to_owned(), str_value(self.location));
        m.insert("required".to_owned(), JsonValue::Bool(self.required));
        m.insert("schema".to_owned(), self.schema);
        proof {
            assert(set!["name"@, "in"@, "required"@, "schema"@] =~= m@.dom());
        }
        object_value(m)
    }
}

/// The JSON form of a parameter is an object of exactly four members: its
/// name under `name`, its location under `in`, its own `required` flag
/// under `required` (whatever its location), and its schema under `schema`.
pub proof fn lemma_parameter_json(p: Parameter, j: JsonView)
    requires
        p.json_of(j),
    ensures
        j is Object,
        member(members(j), "name"@) == Some(JsonView::String(p.name@)),
        member(members(j), "in"@) == Some(JsonView::String(p.location@)),
        member(members(j), "required"@) == Some(JsonView::Bool(p.required)),
        member(members(j), "schema"@) == Some(p.schema@),
        forall|k: Seq<char>|
            #[trigger] member(members(j), k) is Some ==> k == "name"@ || k == "in"@ || k
                == "required"@ || k == "schema"@,
{
    assert(member(members(j), "name"@) is Some);
    assert(member(members(j), "in"@) is Some);
    assert(member(members(j), "required"@) is Some);
    assert(member(members(j), "schema"@) is Some);
}

/// The members of the JSON form of `op`: `responses` always, and each
/// optional field only when it is present (`parameters` only when there is
/// one).
pub open spec fn operation_keys(op: Operation) -> Set<Seq<char>> {
    let s0 = set!["responses"@];
    let s1 = if op.summary is Some { s0.insert("summary"@) } else { s0 };
    let s2 = if op.operation_id is Some { s1.insert("operationId"@) } else { s1 };
    let s3 = if op.parameters@.len() > 0 { s2.insert("parameters"@) } else { s2 };
    if op.request_body is Some { s3.insert("requestBody"@) } else { s3 }
}

impl IntoJson for Operation {
    proof fn lemma_json_unique(self, j1: JsonView, j2: JsonView) {
        self.responses.lemma_json_unique(field(j1, "responses"@), field(j2, "responses"@));
        if self.parameters@.len() > 0 {
            self.parameters.lemma_json_unique(field(j1, "parameters"@), field(j2, "parameters"@));
        }
        if let Some(b) = self.request_body {
            b.lemma_json_unique(field(j1, "requestBody"@), field(j2, "requestBody"@));
        }
        lemma_objects_equal(j1, j2, operation_keys(self));
    }

    open spec fn json_of(self, j: JsonView) -> bool {
        &&& is_object_with(j, operation_keys(self))
        &&& self.summary matches Some(s) ==> field(j, "summary"@) == JsonView::String(s@)
        &&& self.operation_id matches Some(s) ==> field(j, "operationId"@) == JsonView::String(s@)
        &&& self.parameters@.len() > 0 ==> self.parameters.json_of(field(j, "parameters"@))
        &&& self.request_body matches Some(b) ==> b.json_of(field(j, "requestBody"@))
        &&& self.responses.json_of(field(j, "responses"@))
    }

    fn into_json(self) -> (j: JsonValue) {
        proof {
            lemma_member_names_distinct();
        }
        let ghost orig = self;
        let mut m = StrMap::new();
        m.insert("responses".to_owned(), self.responses.into_json());
        let ghost d0 = m@.dom();
        match self.summary {
            Some(s) => m.insert("summary".to_owned(), string_value(s)),
            None => {},
        }
        let ghost d1 = m@.dom();
        match self.operation_id {
            Some(s) => m.insert("operationId".to_owned(), string_value(s)),
            None => {},
        }
        let ghost d2 = m@.dom();
        if self.parameters.len() > 0 {
            m.insert("parameters".to_owned(), self.parameters.into_json());
        }
        let ghost d3 = m@.dom();
        match self.request_body {
            Some(b) => m.insert("requestBody".to_owned(), b.into_json()),
            None => {},
        }
        proof {
            assert(d0 =~= set!["responses"@]);
            assert(m@.dom() =~= operation_keys(orig));
        }
        object_value(m)
    }
}

impl IntoJson for Info {
    proof fn lemma_json_unique(self, j1: JsonView, j2: JsonView) {
        if self.description is Some {
            lemma_objects_equal(j1, j2, set!["title"@, "version"@, "description"@]);
        } else {
            lemma_objects_equal(j1, j2, set!["title"@, "version"@]);
        }
    }

    open spec fn json_of(self, j: JsonView) -> bool {
        &&& is_object_with(
            j,
            if self.description is Some {
                set!["title"@, "version"@, "description"@]
            } else {
                set!["title"@, "version"@]
            },
        )
        &&& field(j, "title"@) == JsonView::String(self.title@)
        &&& field(j, "version"@) == JsonView::String(self.version@)
        &&& self.description matches Some(d) ==> field(j, "description"@) == JsonView::String(d@)
    }

    fn into_json(self) -> (j: JsonValue) {
        proof {
            lemma_member_names_distinct();
        }
        let ghost orig = self;
        let mut m = StrMap::new();
        m.insert("title".to_owned(), string_value(self.title));
        m.insert("version".to_owned(), string_value(self.version));
        match self.description {
            Some(d) => m.insert("description".to_owned(), string_value(d)),
            None => {},
        }
        proof {
            if orig.description is Some {
                assert(set!["title"@, "version"@, "description"@] =~= m@.dom());
            } else {
                assert(set!["title"@, "version"@] =~= m@.dom());
            }
        }
        object_value(m)
    }
}

impl IntoJson for Components {
    proof fn lemma_json_unique(self, j1: JsonView, j2: JsonView) {
        if self.schemas@.dom().is_empty() {
            lemma_objects_equal(j1, j2, Set::<Seq<char>>::empty());
        } else {
            self.schemas.lemma_json_unique(field(j1, "schemas"@), field(j2, "schemas"@));
            lemma_objects_equal(j1, j2, set!["schemas"@]);
        }
    }

    open spec fn json_of(self, j: JsonView) -> bool {
        &&& is_object_with(
            j,
            if self.schemas@.dom().is_empty() {
                Set::<Seq<char>>::empty()
            } else {
                set!["schemas"@]
            },
        )
        &&& !self.schemas@.dom().is_empty() ==> self.schemas.json_of(field(j, "schemas"@))
    }

    fn into_json(self) -> (j: JsonValue) {
        let ghost orig = self;
        let mut m = StrMap::new();
        let empty = self.schemas.is_empty();
        if !empty {
            m.insert("schemas".to_owned(), self.schemas.into_json());
        }
        proof {
            if empty {
                assert(orig.schemas@.dom() =~= Set::<Seq<char>>::empty());
                assert(Set::<Seq<char>>::empty() =~= m@.dom());
            } else {
                assert(orig.schemas@.dom() != Set::<Seq<char>>::empty()) by {
                    if orig.schemas@.dom() =~= Set::<Seq<char>>::empty() {
                        assert(orig.schemas@ =~= Map::<Seq<char>, JsonValue>::empty());
                    }
                }
                assert(set!["schemas"@] =~= m@.dom());
            }
        }
        object_value(m)
    }
}

impl IntoJson for OpenApi {
    proof fn lemma_json_unique(self, j1: JsonView, j2: JsonView) {
        self.info.lemma_json_unique(field(j1, "info"@), field(j2, "info"@));
        self.paths.lemma_json_unique(field(j1, "paths"@), field(j2, "paths"@));
        if self.components.schemas@.dom().is_empty() {
            lemma_objects_equal(j1, j2, set!["openapi"@, "info"@, "paths"@]);
        } else {
            self.components.lemma_json_unique(field(j1, "components"@), field(j2, "components"@));
            lemma_objects_equal(j1, j2, set!["openapi"@, "info"@, "paths"@, "components"@]);
        }
    }

    open spec fn json_of(self, j: JsonView) -> bool {
        &&& is_object_with(
            j,
            if self.components.schemas@.dom().is_empty() {
                set!["openapi"@, "info"@, "paths"@]
            } else {
                set!["openapi"@, "info"@, "paths"@, "components"@]
            },
        )
        &&& field(j, "openapi"@) == JsonView::String(self.openapi@)
        &&& self.info.json_of(field(j, "info"@))
        &&& self.paths.json_of(field(j, "paths"@))
        &&& !self.components.schemas@.dom().is_empty() ==> self.components.json_of(
            field(j, "components"@),
        )
    }

    fn into_json(self) -> (j: JsonValue) {
        proof {
            lemma_member_names_distinct();
        }
        let ghost orig = self;
        let mut m = StrMap::new();
        m.insert("openapi".to_owned(), str_value(self.openapi));
        m.insert("info".to_owned(), self.info.into_json());
        m.insert("paths".to_owned(), self.paths.into_json());
        let empty = self.components.is_empty();
        if !empty {
            m.insert("components".to_owned(), self.components.into_json());
        }
        proof {
            if empty {
                assert(orig.components.schemas@.dom() =~= Set::<Seq<char>>::empty());
                assert(set!["openapi"@, "info"@, "paths"@] =~= m@.dom());
            } else {
                assert(orig.components.schemas@.dom() != Set::<Seq<char>>::empty()) by {
                    if orig.components.schemas@.dom() =~= Set::<Seq<char>>::empty() {
                        assert(orig.components.schemas@ =~= Map::<Seq<char>, JsonValue>::empty());
                    }
                }
                assert(set!["openapi"@, "info"@, "paths"@, "components"@] =~= m@.dom());
            }
        }
        object_value(m)
    }
}

/// The JSON form of an operation has a `responses` member always, and a
/// `summary`, `operationId`, `parameters` or `requestBody` member exactly
/// when the operation has a summary, an operation id, at least one
/// parameter or a request body; each member holds what the operation has,
/// and there is no other member.
pub proof fn lemma_operation_json(op: Operation, j: JsonView)
    requires
        op.json_of(j),
    ensures
        j is Object,
        member(members(j), "responses"@) is Some,
        op.responses.json_of(field(j, "responses"@)),
        (member(members(j), "summary"@) is Some) == (op.summary is Some),
        op.summary matches Some(s) ==> member(members(j), "summary"@) == Some(
            JsonView::String(s@),
        ),
        (member(members(j), "operationId"@) is Some) == (op.operation_id is Some),
        op.operation_id matches Some(s) ==> member(members(j), "operationId"@) == Some(
            JsonView::String(s@),
        ),
        (member(members(j), "parameters"@) is Some) == (op.parameters@.len() > 0),
        op.parameters@.len() > 0 ==> op.parameters.json_of(field(j, "parameters"@)),
        (member(members(j), "requestBody"@) is Some) == (op.request_body is Some),
        op.request_body matches Some(b) ==> b.json_of(field(j, "requestBody"@)),
        forall|k: Seq<char>|
            #[trigger] member(members(j), k) is Some ==> k == "responses"@ || k == "summary"@ || k
                == "operationId"@ || k == "parameters"@ || k == "requestBody"@,
{
    lemma_member_names_distinct();
    assert(operation_keys(op).contains("responses"@));
    assert(operation_keys(op).contains("summary"@) == (op.summary is Some));
    assert(operation_keys(op).contains("operationId"@) == (op.operation_id is Some));
    assert(operation_keys(op).contains("parameters"@) == (op.parameters@.len() > 0));
    assert(operation_keys(op).contains("requestBody"@) == (op.request_body is Some));
    assert(member(members(j), "responses"@) is Some);
    assert(member(members(j), "summary"@) is Some == (op.summary is Some));
    assert(member(members(j), "operationId"@) is Some == (op.operation_id is Some));
    assert(member(members(j), "parameters"@) is Some == (op.parameters@.len() > 0));
    assert(member(members(j), "requestBody"@) is Some == (op.request_body is Some));
}

/// The JSON form of a response holds its description under `description`,
/// and its content under `content` exactly when it has some; nothing else.
pub proof fn lemma_response_json(r: Response, j: JsonView)
    requires
        r.json_of(j),
    ensures
        j is Object,
        member(members(j), "description"@) == Some(JsonView::String(r.description@)),
        (member(members(j), "content"@) is Some) == (r.content@.dom() != Set::<
            Seq<char>,
        >::empty()),
        r.content@.dom() != Set::<Seq<char>>::empty() ==> r.content.json_of(
            field(j, "content"@),
        ),
        forall|k: Seq<char>|
            #[trigger] member(members(j), k) is Some ==> k == "description"@ || k == "content"@,
{
    lemma_member_names_distinct();
    assert(member(members(j), "description"@) is Some);
    assert((member(members(j), "content"@) is Some) == !r.content@.dom().is_empty());
    if r.content@.dom().is_empty() {
        assert(r.content@.dom() =~= Set::<Seq<char>>::empty());
    } else {
        assert(r.content@.dom() != Set::<Seq<char>>::empty());
    }
}

/// The JSON form of a request body holds its `required` flag and its
/// content, and nothing else.
pub proof fn lemma_request_body_json(b: RequestBody, j: JsonView)
    requires
        b.json_of(j),
    ensures
        j is Object,
        member(members(j), "required"@) == Some(JsonView::Bool(b.required)),
        member(members(j), "content"@) is Some,
        b.content.json_of(field(j, "content"@)),
        forall|k: Seq<char>|
            #[trigger] member(members(j), k) is Some ==> k == "required"@ || k == "content"@,
{
    assert(member(members(j), "required"@) is Some);
    assert(member(members(j), "content"@) is Some);
}

/// The JSON form of a media type holds its schema, and nothing else.
pub proof fn lemma_media_type_json(m: MediaType, j: JsonView)
    requires
        m.json_of(j),
    ensures
        j is Object,
        member(members(j), "schema"@) == Some(m.schema@),
        forall|k: Seq<char>| #[trigger] member(members(j), k) is Some ==> k == "schema"@,
{
    assert(member(members(j), "schema"@) is Some);
}

/// The JSON form of `info` holds its title and version, and its
/// description exactly when it has one; nothing else.
pub proof fn lemma_info_json(i: Info, j: JsonView)
    requires
        i.json_of(j),
    ensures
        j is Object,
        member(members(j), "title"@) == Some(JsonView::String(i.title@)),
        member(members(j), "version"@) == Some(JsonView::String(i.version@)),
        (member(members(j), "description"@) is Some) == (i.description is Some),
        i.description matches Some(d) ==> member(members(j), "description"@) == Some(
            JsonView::String(d@),
        ),
        forall|k: Seq<char>|
            #[trigger] member(members(j), k) is Some ==> k == "title"@ || k == "version"@ || k
                == "description"@,
{
    lemma_member_names_distinct();
    assert(member(members(j), "title"@) is Some);
    assert(member(members(j), "version"@) is Some);
    assert((member(members(j), "description"@) is Some) == (i.description is Some));
}

/// The JSON form of a document holds its OpenAPI version, its `info` and
/// its paths, and its `components` exactly when there is a named schema;
/// nothing else.
pub proof fn lemma_document_json(d: OpenApi, j: JsonView)
    requires
        d.json_of(j),
    ensures
        j is Object,
        member(members(j), "openapi"@) == Some(JsonView::String(d.openapi@)),
        member(members(j), "info"@) is Some,
        d.info.json_of(field(j, "info"@)),
        member(members(j), "paths"@) is Some,
        d.paths.json_of(field(j, "paths"@)),
        (member(members(j), "components"@) is Some) == (d.components.schemas@.dom() != Set::<
            Seq<char>,
        >::empty()),
        d.components.schemas@.dom() != Set::<Seq<char>>::empty() ==> d.components.json_of(
            field(j, "components"@),
        ),
        forall|k: Seq<char>|
            #[trigger] member(members(j), k) is Some ==> k == "openapi"@ || k == "info"@ || k
                == "paths"@ || k == "components"@,
{
    lemma_member_names_distinct();
    assert(member(members(j), "openapi"@) is Some);
    assert(member(members(j), "info"@) is Some);
    assert(member(members(j), "paths"@) is Some);
    assert((member(members(j), "components"@) is Some) == !d.components.schemas@.dom().is_empty());
    if d.components.schemas@.dom().is_empty() {
        assert(d.components.schemas@.dom() =~= Set::<Seq<char>>::empty());
    } else {
        assert(d.components.schemas@.dom() != Set::<Seq<char>>::empty());
    }
}

/// The JSON form of `components` holds the named schemas under `schemas`
/// exactly when there is one; nothing else.
pub proof fn lemma_components_json(c: Components, j: JsonView)
    requires
        c.json_of(j),
    ensures
        j is Object,
        (member(members(j), "schemas"@) is Some) == (c.schemas@.dom() != Set::<
            Seq<char>,
        >::empty()),
        c.schemas@.dom() != Set::<Seq<char>>::empty() ==> c.schemas.json_of(field(j, "schemas"@)),
        forall|k: Seq<char>| #[trigger] member(members(j), k) is Some ==> k == "schemas"@,
{
    assert((member(members(j), "schemas"@) is Some) == !c.schemas@.dom().is_empty());
    if c.schemas@.dom().is_empty() {
        assert(c.schemas@.dom() =~= Set::<Seq<char>>::empty());
    } else {
        assert(c.schemas@.dom() != Set::<Seq<char>>::empty());
    }
}

} // verus!
