//! The document of a small pets API, built the way the router builds it:
//! each handler's inputs and return type described into an operation, the
//! operations registered per route, the named schemas added as components.
//! The schemas are the ones schemars generates for the handlers' types.

use axum_oas::builder::{route_operation, DocBuilder};
use axum_oas::json::JsonValue;
use axum_oas::keyed_map::StrMap;
use axum_oas::response::{describe_ok, Created, NoContent};
use axum_oas::serialize::IntoJson;
use axum_oas::spec::Operation;
use serde_json::Value;

fn from_serde(value: Value) -> JsonValue {
    match value {
        Value::Null => JsonValue::Null,
        Value::Bool(b) => JsonValue::Bool(b),
        Value::Number(n) => JsonValue::Number(n),
        Value::String(s) => JsonValue::String(s),
        Value::Array(items) => JsonValue::Array(items.into_iter().map(from_serde).collect()),
        Value::Object(map) => {
            let mut out = StrMap::new();
            for (k, v) in map {
                out.insert(k, from_serde(v));
            }
            JsonValue::Object(out)
        }
    }
}

fn into_serde(value: JsonValue) -> Value {
    match value {
        JsonValue::Null => Value::Null,
        JsonValue::Bool(b) => Value::Bool(b),
        JsonValue::Number(n) => Value::Number(n),
        JsonValue::String(s) => Value::String(s),
        JsonValue::Array(items) => Value::Array(items.into_iter().map(into_serde).collect()),
        JsonValue::Object(map) => Value::Object(
            map.into_entries()
                .into_iter()
                .map(|(k, v)| (k, into_serde(v)))
                .collect(),
        ),
    }
}

fn json(text: &str) -> JsonValue {
    from_serde(serde_json::from_str(text).unwrap())
}

const PET: &str = r#"{"type":"object","properties":{"id":{"type":"integer","format":"uint64","minimum":0},"name":{"type":"string"},"tag":{"type":["string","null"]}},"required":["id","name"]}"#;
const NEW_PET: &str = r#"{"type":"object","properties":{"name":{"type":"string"},"tag":{"type":["string","null"]}},"required":["name"]}"#;
const LIST_PARAMS: &str = r#"{"title":"ListParams","type":"object","properties":{"limit":{"type":["integer","null"],"format":"uint32","minimum":0},"tag":{"type":["string","null"]}}}"#;
const PET_REF: &str = "{\"$ref\":\"#/components/schemas/Pet\"}";
const NEW_PET_REF: &str = "{\"$ref\":\"#/components/schemas/NewPet\"}";

fn spec() -> Value {
    // list_pets(Query<ListParams>) -> Json<Vec<Pet>>
    let mut list_pets = route_operation("/pets");
    list_pets.describe_query(json(LIST_PARAMS));
    describe_ok(
        &mut list_pets,
        json("{\"type\":\"array\",\"items\":{\"$ref\":\"#/components/schemas/Pet\"}}"),
    );
    // create_pet(Json<NewPet>) -> Created<Pet>
    let mut create_pet = route_operation("/pets");
    create_pet.describe_json_body(json(NEW_PET_REF));
    Created::<()>::describe(&mut create_pet, json(PET_REF));
    // get_pet(Path<u64>) -> Json<Pet>
    let mut get_pet = route_operation("/pets/{id}");
    describe_ok(&mut get_pet, json(PET_REF));
    // delete_pet(State<()>, Path<u64>) -> NoContent
    let mut delete_pet = route_operation("/pets/{id}");
    NoContent::describe(&mut delete_pet);

    let mut schemas = StrMap::new();
    schemas.insert("NewPet".to_string(), json(NEW_PET));
    schemas.insert("Pet".to_string(), json(PET));

    let doc = DocBuilder::new()
        .title("pets".to_string())
        .version("1.2.3".to_string())
        .route(
            "/pets",
            vec![("get".to_string(), list_pets), ("post".to_string(), create_pet)],
        )
        .route(
            "/pets/{id}",
            vec![("get".to_string(), get_pet), ("delete".to_string(), delete_pet)],
        )
        .into_document(schemas);
    into_serde(doc.into_json())
}

#[test]
fn document_root_and_info() {
    let spec = spec();
    assert_eq!(spec["openapi"], "3.1.0");
    assert_eq!(spec["info"]["title"], "pets");
    assert_eq!(spec["info"]["version"], "1.2.3");
}

#[test]
fn all_paths_and_methods_present() {
    let spec = spec();
    let paths = spec["paths"].as_object().unwrap();
    assert_eq!(
        paths.keys().collect::<Vec<_>>(),
        vec!["/pets", "/pets/{id}"]
    );
    let mut pets_methods: Vec<&String> =
        spec["paths"]["/pets"].as_object().unwrap().keys().collect();
    pets_methods.sort();
    assert_eq!(pets_methods, vec!["get", "post"]);
    let mut id_methods: Vec<&String> = spec["paths"]["/pets/{id}"]
        .as_object()
        .unwrap()
        .keys()
        .collect();
    id_methods.sort();
    assert_eq!(id_methods, vec!["delete", "get"]);
}

#[test]
fn request_body_schema_is_referenced_and_defined() {
    let spec = spec();
    let body = &spec["paths"]["/pets"]["post"]["requestBody"];
    assert_eq!(body["required"], true);
    assert_eq!(
        body["content"]["application/json"]["schema"]["$ref"],
        "#/components/schemas/NewPet"
    );
    let new_pet = &spec["components"]["schemas"]["NewPet"];
    assert_eq!(new_pet["type"], "object");
    assert!(new_pet["properties"]["name"].is_object());
    assert!(new_pet["properties"]["tag"].is_object());
}

#[test]
fn response_status_codes_and_schemas() {
    let spec = spec();

    // GET /pets -> 200 with Vec<Pet>
    let ok = &spec["paths"]["/pets"]["get"]["responses"]["200"];
    let schema = &ok["content"]["application/json"]["schema"];
    assert_eq!(schema["type"], "array");
    assert_eq!(schema["items"]["$ref"], "#/components/schemas/Pet");

    // POST /pets -> 201 (typed response Created<Pet>)
    let created = &spec["paths"]["/pets"]["post"]["responses"]["201"];
    assert_eq!(
        created["content"]["application/json"]["schema"]["$ref"],
        "#/components/schemas/Pet"
    );
    assert!(spec["paths"]["/pets"]["post"]["responses"]["200"].is_null());

    // DELETE /pets/{id} -> 204 with no content (typed response NoContent)
    let no_content = &spec["paths"]["/pets/{id}"]["delete"]["responses"]["204"];
    assert_eq!(no_content["description"], "No Content");
    assert!(no_content["content"].is_null());

    // The Pet component schema exists exactly once, in components.
    assert_eq!(spec["components"]["schemas"]["Pet"]["type"], "object");
}

#[test]
fn query_parameters_from_typed_struct() {
    let spec = spec();
    let params = spec["paths"]["/pets"]["get"]["parameters"]
        .as_array()
        .unwrap();
    let names: Vec<&str> = params.iter().map(|p| p["name"].as_str().unwrap()).collect();
    assert!(names.contains(&"limit"));
    assert!(names.contains(&"tag"));
    for p in params {
        assert_eq!(p["in"], "query");
        // Both fields are Option<_> -> not required.
        assert_eq!(p["required"], false);
    }
}

#[test]
fn path_parameters_from_route_template() {
    let spec = spec();
    for method in ["get", "delete"] {
        let params = spec["paths"]["/pets/{id}"][method]["parameters"]
            .as_array()
            .unwrap();
        let id = params.iter().find(|p| p["name"] == "id").unwrap();
        assert_eq!(id["in"], "path");
        assert_eq!(id["required"], true);
        assert_eq!(id["schema"]["type"], "string");
    }
}

#[test]
fn whole_document_json() {
    let expected: Value = serde_json::from_str(&format!(
        "{{\"openapi\":\"3.1.0\",\"info\":{{\"title\":\"pets\",\"version\":\"1.2.3\"}},\
         \"paths\":{{\"/pets\":{{\"get\":{{\"parameters\":[\
         {{\"name\":\"limit\",\"in\":\"query\",\"required\":false,\"schema\":{{\"type\":[\"integer\",\"null\"],\"format\":\"uint32\",\"minimum\":0}}}},\
         {{\"name\":\"tag\",\"in\":\"query\",\"required\":false,\"schema\":{{\"type\":[\"string\",\"null\"]}}}}],\
         \"responses\":{{\"200\":{{\"description\":\"OK\",\"content\":{{\"application/json\":{{\"schema\":{{\"type\":\"array\",\"items\":{pet_ref}}}}}}}}}}}}},\
         \"post\":{{\"requestBody\":{{\"required\":true,\"content\":{{\"application/json\":{{\"schema\":{new_pet_ref}}}}}}},\
         \"responses\":{{\"201\":{{\"description\":\"Created\",\"content\":{{\"application/json\":{{\"schema\":{pet_ref}}}}}}}}}}}}},\
         \"/pets/{{id}}\":{{\"get\":{{\"parameters\":[{{\"name\":\"id\",\"in\":\"path\",\"required\":true,\"schema\":{{\"type\":\"string\"}}}}],\
         \"responses\":{{\"200\":{{\"description\":\"OK\",\"content\":{{\"application/json\":{{\"schema\":{pet_ref}}}}}}}}}}},\
         \"delete\":{{\"parameters\":[{{\"name\":\"id\",\"in\":\"path\",\"required\":true,\"schema\":{{\"type\":\"string\"}}}}],\
         \"responses\":{{\"204\":{{\"description\":\"No Content\"}}}}}}}}}},\
         \"components\":{{\"schemas\":{{\"NewPet\":{new_pet},\"Pet\":{pet}}}}}}}",
        pet_ref = PET_REF,
        new_pet_ref = NEW_PET_REF,
        pet = PET,
        new_pet = NEW_PET,
    ))
    .unwrap();
    assert_eq!(spec(), expected);
}
