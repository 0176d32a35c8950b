use axum_oas::builder::{route_operation, string_schema, with_path_params, DocBuilder};
use axum_oas::path_template::parse_path_template;
use axum_oas::json::JsonValue;
use axum_oas::keyed_map::StrMap;
use axum_oas::response::{describe_ok, Created, NoContent, OkJson};
use axum_oas::serialize::IntoJson;
use axum_oas::spec::{
    Components, Info, MediaType, OpenApi, Operation, Parameter, RequestBody, Response,
};

fn s(text: &str) -> JsonValue {
    JsonValue::String(text.to_string())
}

fn object(entries: Vec<(&str, JsonValue)>) -> JsonValue {
    let mut m = StrMap::new();
    for (k, v) in entries {
        m.insert(k.to_string(), v);
    }
    JsonValue::Object(m)
}

fn keys<V>(m: &StrMap<V>) -> Vec<String> {
    m.as_slice().iter().map(|(k, _)| k.clone()).collect()
}

fn param_names(op: &Operation) -> Vec<(String, &'static str, bool)> {
    op.parameters
        .iter()
        .map(|p| (p.name.clone(), p.location, p.required))
        .collect()
}

#[test]
fn defaults() {
    let doc = OpenApi::default();
    assert_eq!(doc.openapi, "3.1.0");
    assert_eq!(doc.info.title, "API");
    assert_eq!(doc.info.version, "0.0.0");
    assert_eq!(doc.info.description, None);
    assert!(doc.paths.is_empty());
    assert!(doc.components.is_empty());
    let info = Info::default();
    assert_eq!((info.title.as_str(), info.version.as_str()), ("API", "0.0.0"));
    assert!(Components::default().is_empty());
    let op = Operation::default();
    assert!(op.summary.is_none() && op.operation_id.is_none() && op.request_body.is_none());
    assert!(op.parameters.is_empty() && op.responses.is_empty());
    let r = Response::default();
    assert_eq!(r.description, "");
    assert!(r.content.is_empty());
}

#[test]
fn components_with_a_schema_are_not_empty() {
    let mut c = Components::default();
    c.schemas.insert("Pet".to_string(), object(vec![("type", s("object"))]));
    assert!(!c.is_empty());
}

#[test]
fn request_body_and_responses() {
    let body = RequestBody::json(s("x"));
    assert!(body.required);
    assert_eq!(keys(&body.content), vec!["application/json"]);
    assert_eq!(body.content.get("application/json").unwrap().schema, s("x"));
    let ok = Response::json("OK", s("y"));
    assert_eq!(ok.description, "OK");
    assert_eq!(ok.content.get("application/json").unwrap().schema, s("y"));
    let empty = Response::empty("No Content");
    assert_eq!(empty.description, "No Content");
    assert!(empty.content.is_empty());
}

#[test]
fn status_codes_live_in_types() {
    let mut op = Operation::default();
    OkJson::<u8>::describe(&mut op, s("a"));
    Created::<u8>::describe(&mut op, s("b"));
    NoContent::describe(&mut op);
    assert_eq!(keys(&op.responses), vec!["200", "201", "204"]);
    let ok = op.responses.get("200").unwrap();
    assert_eq!(ok.description, "OK");
    assert_eq!(ok.content.get("application/json").unwrap().schema, s("a"));
    let created = op.responses.get("201").unwrap();
    assert_eq!(created.description, "Created");
    assert_eq!(created.content.get("application/json").unwrap().schema, s("b"));
    let none = op.responses.get("204").unwrap();
    assert_eq!(none.description, "No Content");
    assert!(none.content.is_empty());
}

#[test]
fn a_later_response_for_the_same_status_wins() {
    let mut op = Operation::default();
    OkJson::<u8>::describe(&mut op, s("first"));
    describe_ok(&mut op, s("second"));
    assert_eq!(op.responses.len(), 1);
    assert_eq!(
        op.responses.get("200").unwrap().content.get("application/json").unwrap().schema,
        s("second")
    );
}

#[test]
fn json_body_input() {
    let mut op = Operation::default();
    op.describe_json_body(s("body"));
    let body = op.request_body.as_ref().unwrap();
    assert!(body.required);
    assert_eq!(body.content.get("application/json").unwrap().schema, s("body"));
    assert!(op.parameters.is_empty() && op.responses.is_empty());
}

#[test]
fn query_parameters_one_per_property() {
    let root = object(vec![
        ("type", s("object")),
        (
            "properties",
            object(vec![
                ("zeta", object(vec![("type", s("string"))])),
                ("alpha", object(vec![("type", s("integer"))])),
                ("mid", object(vec![])),
            ]),
        ),
        ("required", JsonValue::Array(vec![s("zeta"), JsonValue::Bool(true), s("nothere")])),
    ]);
    let mut op = Operation::default();
    op.describe_query(root);
    assert_eq!(
        param_names(&op),
        vec![
            ("alpha".to_string(), "query", false),
            ("mid".to_string(), "query", false),
            ("zeta".to_string(), "query", true),
        ]
    );
    assert_eq!(op.parameters[2].schema, object(vec![("type", s("string"))]));
}

#[test]
fn query_schemas_without_properties_document_nothing() {
    for root in [
        JsonValue::Null,
        s("object"),
        object(vec![("type", s("object"))]),
        object(vec![("properties", JsonValue::Array(vec![]))]),
    ] {
        let mut op = Operation::default();
        op.describe_query(root);
        assert!(op.parameters.is_empty());
    }
}

#[test]
fn required_that_is_not_an_array_makes_nothing_required() {
    let root = object(vec![
        ("properties", object(vec![("a", JsonValue::Null)])),
        ("required", s("a")),
    ]);
    let mut op = Operation::default();
    op.describe_query(root);
    assert_eq!(param_names(&op), vec![("a".to_string(), "query", false)]);
}

#[test]
fn path_parameters_come_first() {
    let mut op = route_operation("/orgs/{org}/repos/{*repo}");
    assert_eq!(
        param_names(&op),
        vec![("org".to_string(), "path", true), ("repo".to_string(), "path", true)]
    );
    op.describe_query(object(vec![(
        "properties",
        object(vec![("q", JsonValue::Null)]),
    )]));
    assert_eq!(
        param_names(&op),
        vec![
            ("org".to_string(), "path", true),
            ("repo".to_string(), "path", true),
            ("q".to_string(), "query", false),
        ]
    );
    assert_eq!(op.parameters[0].schema, string_schema());
    assert_eq!(string_schema(), object(vec![("type", s("string"))]));
    assert!(op.responses.is_empty() && op.request_body.is_none());
}

#[test]
fn with_path_params_prepends_names() {
    let mut op = Operation::default();
    op.describe_query(object(vec![(
        "properties",
        object(vec![("q", JsonValue::Null)]),
    )]));
    let names = vec!["org".to_string(), "repo".to_string()];
    let op = with_path_params(&names, op);
    assert_eq!(
        param_names(&op),
        vec![
            ("org".to_string(), "path", true),
            ("repo".to_string(), "path", true),
            ("q".to_string(), "query", false),
        ]
    );
}

#[test]
fn route_keeps_what_the_describer_left() {
    let mut op = route_operation("/users/{id}");
    assert_eq!(param_names(&op), vec![("id".to_string(), "path", true)]);
    op.parameters[0].schema = object(vec![("type", s("integer"))]);
    NoContent::describe(&mut op);
    let b = DocBuilder::new().route("/users/{id}", vec![("delete".to_string(), op)]);
    let stored = b.paths().get("/users/{id}").unwrap().get("delete").unwrap();
    assert_eq!(param_names(stored), vec![("id".to_string(), "path", true)]);
    assert_eq!(stored.parameters[0].schema, object(vec![("type", s("integer"))]));
    assert_eq!(keys(&stored.responses), vec!["204"]);
}

#[test]
fn document_types_clone() {
    let mut op = route_operation("/a/{b}");
    op.describe_json_body(object(vec![("x", JsonValue::Array(vec![JsonValue::Bool(true)]))]));
    NoContent::describe(&mut op);
    let copy = op.clone();
    assert_eq!(copy.into_json(), op.into_json());
    let doc = DocBuilder::new()
        .route("/a/{b}", vec![("get".to_string(), route_operation("/a/{b}"))])
        .into_document(StrMap::new());
    let copy = doc.clone();
    assert_eq!(copy.into_json(), doc.into_json());
}

#[test]
fn info_setters_touch_only_their_field() {
    let b = DocBuilder::new();
    assert_eq!(b.info().title, "API");
    let b = b.title("t".to_string());
    assert_eq!((b.info().title.as_str(), b.info().version.as_str()), ("t", "0.0.0"));
    let b = b.version("9".to_string()).description("d".to_string());
    assert_eq!(b.info().title, "t");
    assert_eq!(b.info().version, "9");
    assert_eq!(b.info().description.as_deref(), Some("d"));
    assert!(b.paths().is_empty());
}

#[test]
fn routes_accumulate_per_template() {
    let mut get_op = route_operation("/files/{*rest}");
    NoContent::describe(&mut get_op);
    let b = DocBuilder::new().route("/files/{*rest}", vec![("get".to_string(), get_op)]);
    let mut put_op = route_operation("/files/{*rest}");
    OkJson::<()>::describe(&mut put_op, JsonValue::Null);
    let mut put_again = route_operation("/files/{*rest}");
    Created::<()>::describe(&mut put_again, JsonValue::Null);
    let b = b.route(
        "/files/{*rest}",
        vec![("put".to_string(), put_op), ("put".to_string(), put_again)],
    );
    assert_eq!(keys(b.paths()), vec!["/files/{rest}"]);
    let item = b.paths().get("/files/{rest}").unwrap();
    assert_eq!(keys(item), vec!["get", "put"]);
    let put = item.get("put").unwrap();
    assert_eq!(keys(&put.responses), vec!["201"]);
    assert_eq!(param_names(put), vec![("rest".to_string(), "path", true)]);
    let get = item.get("get").unwrap();
    assert_eq!(keys(&get.responses), vec!["204"]);
}

#[test]
fn document_takes_info_paths_and_schemas() {
    let mut schemas = StrMap::new();
    schemas.insert("A".to_string(), JsonValue::Bool(true));
    let mut op = Operation::default();
    NoContent::describe(&mut op);
    let doc = DocBuilder::new()
        .title("x".to_string())
        .route("/a", vec![("delete".to_string(), op)])
        .into_document(schemas);
    assert_eq!(doc.openapi, "3.1.0");
    assert_eq!(doc.info.title, "x");
    assert_eq!(keys(&doc.paths), vec!["/a"]);
    assert_eq!(keys(doc.paths.get("/a").unwrap()), vec!["delete"]);
    assert_eq!(doc.components.schemas.get("A"), Some(&JsonValue::Bool(true)));
}

#[test]
fn every_path_item_comes_from_a_route() {
    let b = DocBuilder::new();
    assert!(b.paths().is_empty());
    let b = b.title("t".to_string()).version("1".to_string());
    assert!(b.paths().is_empty());
    let mut op = Operation::default();
    NoContent::describe(&mut op);
    let b = b.route("/x/{id}", vec![("post".to_string(), op)]);
    for (path, item) in b.paths().as_slice() {
        assert_eq!(&parse_path_template(path).0, path);
        assert!(!item.is_empty());
        for (method, _) in item.as_slice() {
            assert!(["get", "post", "put", "delete"].contains(&method.as_str()));
        }
    }
}

#[test]
fn json_form_leaves_out_what_is_absent() {
    let doc = DocBuilder::new().into_document(StrMap::new());
    let json = doc.into_json();
    assert_eq!(
        json,
        object(vec![
            ("openapi", s("3.1.0")),
            ("info", object(vec![("title", s("API")), ("version", s("0.0.0"))])),
            ("paths", object(vec![])),
        ])
    );
}

#[test]
fn json_form_of_every_field() {
    let mut op = Operation::default();
    op.summary = Some("sum".to_string());
    op.operation_id = Some("id".to_string());
    op.parameters.push(Parameter {
        name: "p".to_string(),
        location: "query",
        required: false,
        schema: JsonValue::Null,
    });
    op.describe_json_body(s("b"));
    NoContent::describe(&mut op);
    let json = op.into_json();
    let expected = object(vec![
        ("summary", s("sum")),
        ("operationId", s("id")),
        (
            "parameters",
            JsonValue::Array(vec![object(vec![
                ("name", s("p")),
                ("in", s("query")),
                ("required", JsonValue::Bool(false)),
                ("schema", JsonValue::Null),
            ])]),
        ),
        (
            "requestBody",
            object(vec![
                ("required", JsonValue::Bool(true)),
                ("content", object(vec![("application/json", object(vec![("schema", s("b"))]))])),
            ]),
        ),
        ("responses", object(vec![("204", object(vec![("description", s("No Content"))]))])),
    ]);
    assert_eq!(json, expected);
    let info = Info { title: "t".to_string(), version: "v".to_string(), description: Some("d".to_string()) };
    assert_eq!(
        info.into_json(),
        object(vec![("title", s("t")), ("version", s("v")), ("description", s("d"))])
    );
    let media = MediaType { schema: s("m") };
    assert_eq!(media.into_json(), object(vec![("schema", s("m"))]));
}

#[test]
fn json_values_clone_member_for_member() {
    let v = object(vec![
        ("n", JsonValue::Number(serde_json::Number::from(7u64))),
        ("a", JsonValue::Array(vec![s("x"), JsonValue::Null, JsonValue::Bool(false)])),
    ]);
    assert_eq!(v.clone(), v);
    assert_eq!(v.copy_value(), v);
    let mut m = StrMap::new();
    m.insert("k".to_string(), s("v"));
    assert_eq!(m.clone(), m);
}
