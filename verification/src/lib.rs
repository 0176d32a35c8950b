//! Zero-duplication OpenAPI 3.1 documents for axum routers, verified: the
//! document model, what each handler input and typed response documents,
//! how a route template is documented, how routes accumulate into the
//! document, and the document's JSON form.
//!
//! The framework side (capturing a handler's types at route registration,
//! asking schemars for their schemas, sending typed responses, serving
//! `/openapi.json`) lives around this library and hands it plain values.

pub mod builder;
pub mod json;
pub mod keyed_map;
pub mod operation;
pub mod path_template;
pub mod response;
pub mod serialize;
pub mod spec;
pub mod text;

pub use builder::DocBuilder;
pub use json::JsonValue;
pub use keyed_map::StrMap;
pub use path_template::parse_path_template;
pub use response::{Created, NoContent, OkJson};
pub use serialize::IntoJson;
pub use spec::{Components, Info, MediaType, OpenApi, Operation, Parameter, PathItem, RequestBody, Response};
