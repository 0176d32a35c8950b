//! Typed responses: the status code lives in the type, so it is both sent at
//! run time and documented, from a single declaration. Here is what each of
//! them documents; sending them is the web framework's side.

use vstd::prelude::*;

use crate::json::JsonValue;
use crate::spec::{is_empty_response, is_json_response, Operation, Response};

verus! {

/// `200 OK` with a JSON body of `T` (the `Ok` of the typed responses).
#[derive(Debug, Clone)]
pub struct OkJson<T>(pub T);

/// `201 Created` with a JSON body of `T`.
#[derive(Debug, Clone)]
pub struct Created<T>(pub T);

/// `204 No Content`, no body.
#[derive(Debug, Clone, Copy, Default)]
pub struct NoContent;

/// `new` is `old` with its response for `status` set, all else unchanged.
pub open spec fn sets_response(old: Operation, new: Operation, status: Seq<char>) -> bool {
    &&& new.responses@ == old.responses@.insert(status, new.responses@[status])
    &&& new.summary == old.summary
    &&& new.operation_id == old.operation_id
    &&& new.parameters == old.parameters
    &&& new.request_body == old.request_body
}

/// Sets the response of `operation` for `status` to `response`.
fn set_response(operation: &mut Operation, status: &str, response: Response)
    ensures
        sets_response(*old(operation), *final(operation), status@),
        final(operation).responses@[status@] == response,
{
    operation.responses.insert(status.to_owned(), response);
}

/// Documents a `200` response with a JSON body of `schema` (what `OkJson<T>`
/// and a JSON body returned as such both document).
pub fn describe_ok(operation: &mut Operation, schema: JsonValue)
    ensures
        sets_response(*old(operation), *final(operation), "200"@),
        is_json_response(final(operation).responses@["200"@], "OK"@, schema),
{
    set_response(operation, "200", Response::json("OK", schema));
}

impl<T> OkJson<T> {
    /// Documents this return type into `operation`: status `200`, described
    /// as `OK`, with a JSON body of `schema`, the schema of `T`.
    pub fn describe(operation: &mut Operation, schema: JsonValue)
        ensures
            sets_response(*old(operation), *final(operation), "200"@),
            is_json_response(final(operation).responses@["200"@], "OK"@, schema),
    {
        describe_ok(operation, schema);
    }
}

impl<T> Created<T> {
    /// Documents this return type into `operation`: status `201`, described
    /// as `Created`, with a JSON body of `schema`, the schema of `T`.
    pub fn describe(operation: &mut Operation, schema: JsonValue)
        ensures
            sets_response(*old(operation), *final(operation), "201"@),
            is_json_response(final(operation).responses@["201"@], "Created"@, schema),
    {
        set_response(operation, "201", Response::json("Created", schema));
    }
}

impl NoContent {
    /// Documents this return type into `operation`: status `204`, described
    /// as `No Content`, with no body.
    pub fn describe(operation: &mut Operation)
        ensures
            sets_response(*old(operation), *final(operation), "204"@),
            is_empty_response(final(operation).responses@["204"@], "No Content"@),
    {
        set_response(operation, "204", Response::empty("No Content"));
    }
}

/// Describing two responses one after the other documents the union of
/// their status codes (what a `Result<T, E>` return type documents, its `Ok`
/// side first). An operation holds one response per status code, so where
/// both sides use the same code only the later description is kept: the two
/// bodies are not merged.
pub proof fn lemma_responses_union(
    first: Operation,
    middle: Operation,
    last: Operation,
    s1: Seq<char>,
    s2: Seq<char>,
)
    requires
        sets_response(first, middle, s1),
        sets_response(middle, last, s2),
    ensures
        last.responses@.dom() == first.responses@.dom().insert(s1).insert(s2),
        s1 != s2 ==> last.responses@[s1] == middle.responses@[s1],
        forall|s: Seq<char>|
            s != s1 && s != s2 && first.responses@.contains_key(s) ==> #[trigger] last.responses@[s]
                == first.responses@[s],
        last.parameters == first.parameters,
        last.request_body == first.request_body,
{
    assert(last.responses@.dom() =~= first.responses@.dom().insert(s1).insert(s2));
}

/// Setting the response for `status` adds `status` to the documented
/// status codes, keeps the response of every other code, and changes
/// nothing else of the operation.
pub proof fn lemma_sets_response(old: Operation, new: Operation, status: Seq<char>)
    requires
        sets_response(old, new, status),
    ensures
        new.responses@.dom() == old.responses@.dom().insert(status),
        forall|s: Seq<char>|
            s != status && old.responses@.contains_key(s) ==> #[trigger] new.responses@[s]
                == old.responses@[s],
        new.summary == old.summary,
        new.operation_id == old.operation_id,
        new.parameters == old.parameters,
        new.request_body == old.request_body,
{
    assert(new.responses@.dom() =~= old.responses@.dom().insert(status));
}

/// A JSON response is described by its description and has exactly one
/// content type, `application/json`, whose schema is the given one; an
/// empty response has no content at all.
pub proof fn lemma_response_kinds(r: Response, description: Seq<char>, schema: JsonValue)
    ensures
        is_json_response(r, description, schema) ==> {
            &&& r.description@ == description
            &&& r.content@.dom() == set!["application/json"@]
            &&& r.content@["application/json"@].schema == schema
        },
        is_empty_response(r, description) ==> {
            &&& r.description@ == description
            &&& r.content@.dom() == Set::<Seq<char>>::empty()
        },
{
    if is_json_response(r, description, schema) {
        assert(r.content@.dom() =~= set!["application/json"@]);
    }
    if is_empty_response(r, description) {
        assert(r.content@.dom() =~= Set::<Seq<char>>::empty());
    }
}

} // verus!
