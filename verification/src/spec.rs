//! Minimal model of the subset of OpenAPI 3.1 that the router emits.
//!
//! This is intentionally *not* a full OpenAPI object model: it only holds the
//! fields that can be derived from handler types. Every map is a `StrMap`, so
//! the document comes out in one deterministic order.

use vstd::prelude::*;

use crate::json::JsonValue;
use crate::keyed_map::StrMap;

verus! {

/// Where the named schemas of a document are collected, as a JSON pointer
/// into the document: operations reference them as
/// `#/components/schemas/{name}`, and `components.schemas` holds them.
pub const COMPONENT_SCHEMAS_PATH: &'static str = "/components/schemas";

/// Root OpenAPI 3.1 document.
#[derive(Debug, Clone)]
pub struct OpenApi {
    pub openapi: &'static str,
    pub info: Info,
    pub paths: StrMap<PathItem>,
    pub components: Components,
}

/// `info` object.
#[derive(Debug, Clone)]
pub struct Info {
    pub title: String,
    pub version: String,
    pub description: Option<String>,
}

/// `components` object (only `schemas`).
#[derive(Debug, Clone)]
pub struct Components {
    pub schemas: StrMap<JsonValue>,
}

/// A path item: HTTP method (lowercase) -> operation.
pub type PathItem = StrMap<Operation>;

/// A single OpenAPI operation, built up from the descriptions of a handler's
/// extractors and return type.
#[derive(Debug, Clone)]
pub struct Operation {
    pub summary: Option<String>,
    pub operation_id: Option<String>,
    pub parameters: Vec<Parameter>,
    pub request_body: Option<RequestBody>,
    pub responses: StrMap<Response>,
}

/// An OpenAPI parameter (`query` or `path`).
#[derive(Debug, Clone)]
pub struct Parameter {
    pub name: String,
    pub location: &'static str,
    pub required: bool,
    pub schema: JsonValue,
}

/// An OpenAPI request body (always `application/json`).
#[derive(Debug, Clone)]
pub struct RequestBody {
    pub required: bool,
    pub content: StrMap<MediaType>,
}

/// An OpenAPI response.
#[derive(Debug, Clone)]
pub struct Response {
    pub description: String,
    pub content: StrMap<MediaType>,
}

/// A media type object holding a schema.
#[derive(Debug, Clone)]
pub struct MediaType {
    pub schema: JsonValue,
}

/// What a parameter says, as plain values.
pub struct ParameterView {
    pub name: Seq<char>,
    pub location: Seq<char>,
    pub required: bool,
    pub schema: crate::json::JsonView,
}

impl View for Parameter {
    type V = ParameterView;

    open spec fn view(&self) -> ParameterView {
        ParameterView {
            name: self.name@,
            location: self.location@,
            required: self.required,
            schema: self.schema@,
        }
    }
}

/// The views of a sequence of parameters.
pub open spec fn parameter_views(ps: Seq<Parameter>) -> Seq<ParameterView> {
    ps.map_values(|p: Parameter| p@)
}

/// The content map of a body in `application/json` with the schema `schema`.
pub open spec fn json_content(schema: JsonValue) -> Map<Seq<char>, MediaType> {
    Map::<Seq<char>, MediaType>::empty().insert("application/json"@, MediaType { schema })
}

/// `r` is a response described by `description` with an
/// `application/json` body of the schema `schema`.
pub open spec fn is_json_response(r: Response, description: Seq<char>, schema: JsonValue) -> bool {
    &&& r.description@ == description
    &&& r.content@ == json_content(schema)
}

/// `r` is a body-less response described by `description`.
pub open spec fn is_empty_response(r: Response, description: Seq<char>) -> bool {
    &&& r.description@ == description
    &&& r.content@ == Map::<Seq<char>, MediaType>::empty()
}

impl Default for OpenApi {
    /// An empty OpenAPI 3.1.0 document with the default `info`.
    fn default() -> (r: Self)
        ensures
            r.openapi@ == "3.1.0"@,
            r.info.title@ == "API"@,
            r.info.version@ == "0.0.0"@,
            r.info.description is None,
            r.paths@ == Map::<Seq<char>, PathItem>::empty(),
            r.components.schemas@ == Map::<Seq<char>, JsonValue>::empty(),
    {
        OpenApi {
            openapi: "3.1.0",
            info: Info::default(),
            paths: StrMap::new(),
            components: Components::default(),
        }
    }
}

impl Default for Info {
    /// The `info` of a document that was given no title and no version.
    fn default() -> (r: Self)
        ensures
            r.title@ == "API"@,
            r.version@ == "0.0.0"@,
            r.description is None,
    {
        Info { title: "API".to_owned(), version: "0.0.0".to_owned(), description: None }
    }
}

impl Default for Components {
    /// No schemas.
    fn default() -> (r: Self)
        ensures
            r.schemas@ == Map::<Seq<char>, JsonValue>::empty(),
    {
        Components { schemas: StrMap::new() }
    }
}

impl Components {
    /// Whether there is no schema (then the document leaves `components`
    /// out).
    pub fn is_empty(&self) -> (r: bool)
        ensures
            r == (self.schemas@ == Map::<Seq<char>, JsonValue>::empty()),
    {
        self.schemas.is_empty()
    }
}

impl Default for Operation {
    /// An operation with no parameter, no body and no response yet.
    fn default() -> (r: Self)
        ensures
            r.summary is None,
            r.operation_id is None,
            r.parameters@ == Seq::<Parameter>::empty(),
            r.request_body is None,
            r.responses@ == Map::<Seq<char>, Response>::empty(),
    {
        Operation {
            summary: None,
            operation_id: None,
            parameters: Vec::new(),
            request_body: None,
            responses: StrMap::new(),
        }
    }
}

impl Default for Response {
    /// A body-less response with an empty description.
    fn default() -> (r: Self)
        ensures
            r.description@ == Seq::<char>::empty(),
            r.content@ == Map::<Seq<char>, MediaType>::empty(),
    {
        Response { description: String::new(), content: StrMap::new() }
    }
}

/// The content map `{"application/json": {schema}}`.
fn json_media(schema: JsonValue) -> (r: StrMap<MediaType>)
    ensures
        r@ == json_content(schema),
{
    StrMap::singleton("application/json".to_owned(), MediaType { schema })
}

impl RequestBody {
    /// A required `application/json` body with the given schema.
    pub fn json(schema: JsonValue) -> (r: Self)
        ensures
            r.required,
            r.content@ == json_content(schema),
    {
        RequestBody { required: true, content: json_media(schema) }
    }
}

impl Response {
    /// A response with an `application/json` body.
    pub fn json(description: &str, schema: JsonValue) -> (r: Self)
        ensures
            is_json_response(r, description@, schema),
    {
        Response { description: description.to_owned(), content: json_media(schema) }
    }

    /// A body-less response.
    pub fn empty(description: &str) -> (r: Self)
        ensures
            is_empty_response(r, description@),
    {
        Response { description: description.to_owned(), content: StrMap::new() }
    }
}

} // verus!
