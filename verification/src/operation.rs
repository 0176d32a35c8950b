//! What a handler's inputs document: a JSON body becomes the request body,
//! and a query-string struct becomes one `query` parameter per field.

use vstd::prelude::*;

use crate::json::{lemma_member, lemma_object_entries, member, object_entries, JsonValue, JsonView};
use crate::keyed_map::entry_views;
use crate::spec::{json_content, parameter_views, Operation, Parameter, ParameterView, RequestBody};
use crate::text::{lemma_differ_at, str_equal};

verus! {

/// Whether the JSON array `items` holds the string `name`.
pub open spec fn lists_name(items: Seq<JsonView>, name: Seq<char>) -> bool {
    exists|j: int| 0 <= j < items.len() && #[trigger] items[j] == JsonView::String(name)
}

/// Whether the JSON schema `root` lists `name` among its `required`
/// properties.
pub open spec fn is_required(root: JsonView, name: Seq<char>) -> bool {
    match root {
        JsonView::Object(es) => match member(es, "required"@) {
            Some(JsonView::Array(items)) => lists_name(items, name),
            _ => false,
        },
        _ => false,
    }
}

/// The `query` parameters that the JSON schema `root` of a query-string type
/// documents: one per entry of its `properties`, in order, required when
/// `required` lists it.
pub open spec fn query_parameters(root: JsonView) -> Seq<ParameterView> {
    match root {
        JsonView::Object(es) => match member(es, "properties"@) {
            Some(JsonView::Object(props)) => Seq::new(
                props.len(),
                |i: int|
                    ParameterView {
                        name: props[i].0,
                        location: "query"@,
                        required: is_required(root, props[i].0),
                        schema: props[i].1,
                    },
            ),
            _ => Seq::<ParameterView>::empty(),
        },
        _ => Seq::<ParameterView>::empty(),
    }
}

/// Each property of a query-string schema is documented as one `query`
/// parameter, in property order, named after the property and with its
/// schema; it is required whenever its name occurs as a string at any
/// position of the schema's `required` array.
pub proof fn lemma_query_parameter_listed(
    es: Seq<(Seq<char>, JsonView)>,
    props: Seq<(Seq<char>, JsonView)>,
    items: Seq<JsonView>,
    i: int,
    j: int,
)
    requires
        member(es, "properties"@) == Some(JsonView::Object(props)),
        member(es, "required"@) == Some(JsonView::Array(items)),
        0 <= i < props.len(),
        0 <= j < items.len(),
        items[j] == JsonView::String(props[i].0),
    ensures
        query_parameters(JsonView::Object(es)).len() == props.len(),
        query_parameters(JsonView::Object(es))[i].name == props[i].0,
        query_parameters(JsonView::Object(es))[i].location == "query"@,
        query_parameters(JsonView::Object(es))[i].schema == props[i].1,
        query_parameters(JsonView::Object(es))[i].required,
{
}

/// A property whose name is no string of the schema's `required` array (or
/// whose schema has no such array) is documented as an optional `query`
/// parameter, named after the property and with its schema.
pub proof fn lemma_query_parameter_unlisted(
    es: Seq<(Seq<char>, JsonView)>,
    props: Seq<(Seq<char>, JsonView)>,
    i: int,
)
    requires
        member(es, "properties"@) == Some(JsonView::Object(props)),
        0 <= i < props.len(),
        forall|items: Seq<JsonView>, j: int|
            member(es, "required"@) == Some(JsonView::Array(items)) && 0 <= j < items.len()
                ==> #[trigger] items[j] != JsonView::String(props[i].0),
    ensures
        query_parameters(JsonView::Object(es)).len() == props.len(),
        query_parameters(JsonView::Object(es))[i].name == props[i].0,
        query_parameters(JsonView::Object(es))[i].location == "query"@,
        query_parameters(JsonView::Object(es))[i].schema == props[i].1,
        !query_parameters(JsonView::Object(es))[i].required,
{
    match member(es, "required"@) {
        Some(JsonView::Array(items)) => {
            assert forall|j: int| 0 <= j < items.len() implies items[j] != JsonView::String(
                props[i].0,
            ) by {}
        },
        _ => {},
    }
}

/// A schema that is not an object, or whose `properties` is missing or not
/// an object, documents no query parameter.
pub proof fn lemma_query_parameters_none(root: JsonView)
    requires
        !(root matches JsonView::Object(es) && member(es, "properties"@) is Some && member(
            es,
            "properties"@,
        )->0 is Object),
    ensures
        query_parameters(root) == Seq::<ParameterView>::empty(),
{
}

impl Operation {
    /// Documents a JSON body input: the request body becomes a required
    /// `application/json` body of `schema`, all else unchanged.
    pub fn describe_json_body(&mut self, schema: JsonValue)
        ensures
            final(self).request_body matches Some(b) && b.required && b.content@ == json_content(
                schema,
            ),
            final(self).summary == old(self).summary,
            final(self).operation_id == old(self).operation_id,
            final(self).parameters == old(self).parameters,
            final(self).responses == old(self).responses,
    {
        self.request_body = Some(RequestBody::json(schema));
    }

    /// Documents a query-string input whose JSON schema, with every
    /// subschema inlined, is `root`: appends one `query` parameter per
    /// property, in order, required exactly when `required` lists it. A
    /// schema that is not an object, or has no object of `properties`,
    /// documents nothing.
    pub fn describe_query(&mut self, root: JsonValue)
        ensures
            parameter_views(final(self).parameters@) == parameter_views(old(self).parameters@)
                + query_parameters(root@),
            final(self).summary == old(self).summary,
            final(self).operation_id == old(self).operation_id,
            final(self).request_body == old(self).request_body,
            final(self).responses == old(self).responses,
    {
        let ghost root_view = root@;
        let mut object = match root {
            JsonValue::Object(object) => object,
            _ => {
                proof {
                    assert(parameter_views(self.parameters@) =~= parameter_views(
                        old(self).parameters@,
                    ) + query_parameters(root_view));
                }
                return ;
            },
        };
        proof {
            use_type_invariant(&object);
            lemma_member(object, "required"@);
            lemma_member(object, "properties"@);
        }
        let required = object.remove("required");
        proof {
            reveal_strlit("required");
            reveal_strlit("properties");
            lemma_differ_at("required"@, "properties"@, 0);
            assert forall|n: Seq<char>| #[trigger]
                is_required(root_view, n) == required_in(required, n) by {}
        }
        let props = match object.remove("properties") {
            Some(JsonValue::Object(props)) => props,
            _ => {
                proof {
                    assert(parameter_views(self.parameters@) =~= parameter_views(
                        old(self).parameters@,
                    ) + query_parameters(root_view));
                }
                return ;
            },
        };
        let ghost prop_views = object_entries(props);
        let ghost added = query_parameters(root_view);
        proof {
            lemma_object_entries(props);
            assert(added.len() == prop_views.len());
        }
        let ghost start = parameter_views(self.parameters@);
        let entries = props.into_entries();
        let ghost evs = entry_views(entries@);
        for entry in it: entries.into_iter()
            invariant
                it.seq() == entries@,
                evs == entry_views(entries@),
                evs == props.entries(),
                prop_views.len() == evs.len(),
                forall|i: int|
                    0 <= i < evs.len() ==> #[trigger] prop_views[i] == (evs[i].0, evs[i].1@),
                added == query_parameters(root_view),
                added.len() == prop_views.len(),
                forall|i: int|
                    0 <= i < added.len() ==> #[trigger] added[i] == (ParameterView {
                        name: prop_views[i].0,
                        location: "query"@,
                        required: is_required(root_view, prop_views[i].0),
                        schema: prop_views[i].1,
                    }),
                forall|n: Seq<char>|
                    #[trigger] is_required(root_view, n) == required_in(required, n),
                parameter_views(self.parameters@) == start + added.take(it.index() as int),
                self.summary == old(self).summary,
                self.operation_id == old(self).operation_id,
                self.request_body == old(self).request_body,
                self.responses == old(self).responses,
        {
            let ghost k = it.index();
            assert(k < entries@.len());
            assert(added.take(k).len() == k);
            let (name, schema) = entry;
            proof {
                assert(evs[k] == (name@, schema));
                assert(prop_views[k] == (name@, schema@));
            }
            let is_req = lists(&required, name.as_str());
            assert(parameter_views(self.parameters@).len() == self.parameters@.len());
            assert(self.parameters@.len() == start.len() + k);
            let ghost pushed = Parameter { name, location: "query", required: is_req, schema };
            let ghost before = self.parameters@;
            self.parameters.push(Parameter { name, location: "query", required: is_req, schema });
            proof {
                assert(pushed@ == added[k]);
                assert(self.parameters@.last() == pushed);
                assert(parameter_views(self.parameters@).len() == start.len() + k + 1);
                assert(parameter_views(self.parameters@)[start.len() + k] == added[k]);
                let now = parameter_views(self.parameters@);
                let goal = start + added.take(k + 1);
                assert(now.len() == goal.len());
                assert forall|x: int| 0 <= x < now.len() implies now[x] == goal[x] by {
                    if x < before.len() {
                        assert(self.parameters@[x] == before[x]);
                        assert(now[x] == parameter_views(before)[x]);
                        assert(parameter_views(before)[x] == (start + added.take(k as int))[x]);
                    }
                }
                assert(now =~= goal);
            }
        }
        proof {
            assert(added.take(added.len() as int) =~= added);
        }
    }
}

/// Whether `required`, the `required` member of a schema if it has one,
/// lists `name`.
pub open spec fn required_in(required: Option<JsonValue>, name: Seq<char>) -> bool {
    match required {
        Some(v) => match v@ {
            JsonView::Array(items) => lists_name(items, name),
            _ => false,
        },
        None => false,
    }
}

/// Whether `required` lists `name`.
fn lists(required: &Option<JsonValue>, name: &str) -> (r: bool)
    ensures
        r == required_in(*required, name@),
{
    match required {
        Some(JsonValue::Array(items)) => {
            let ghost iv = match (JsonValue::Array(*items))@ {
                JsonView::Array(iv) => iv,
                _ => Seq::empty(),
            };
            assert((JsonValue::Array(*items))@ is Array);
            assert(*required == Some(JsonValue::Array(*items)));
            assert(required_in(*required, name@) == lists_name(iv, name@));
            let mut i: usize = 0;
            while i < items.len()
                invariant
                    i <= items@.len(),
                    iv.len() == items@.len(),
                    forall|j: int| 0 <= j < items@.len() ==> #[trigger] iv[j] == items@[j]@,
                    forall|j: int| 0 <= j < i ==> iv[j] != JsonView::String(name@),
                    required_in(*required, name@) == lists_name(iv, name@),
                decreases items@.len() - i,
            {
                match &items[i] {
                    JsonValue::String(s) => {
                        if str_equal(s.as_str(), name) {
                            assert(iv[i as int] == JsonView::String(name@));
                            assert(lists_name(iv, name@));
                            return true;
                        }
                    },
                    _ => {},
                }
                i = i + 1;
            }
            false
        },
        Some(_) => false,
        None => false,
    }
}

} // verus!
