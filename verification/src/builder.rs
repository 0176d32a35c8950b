//! `DocBuilder`: the document side of a router. It mirrors the router's
//! `route(path, method_router)` API and accumulates the OpenAPI document:
//! `info`, and one path item per route template, holding one operation per
//! HTTP method.

use vstd::prelude::*;

use crate::json::{JsonValue, JsonView};
use crate::keyed_map::StrMap;
use crate::path_template::{doc_path, parse_path_template, path_params, string_views};
use crate::spec::{parameter_views, Components, Info, OpenApi, Operation, Parameter, ParameterView, PathItem};

verus! {

/// The schema `{"type": "string"}`, with which path parameters are
/// documented.
pub open spec fn string_schema_view() -> JsonView {
    JsonView::Object(seq![("type"@, JsonView::String("string"@))])
}

/// The path parameter `name`: in `path`, required, of type `string`.
pub open spec fn path_parameter(name: Seq<char>) -> ParameterView {
    ParameterView { name, location: "path"@, required: true, schema: string_schema_view() }
}

/// The path parameters named `names`, in order.
pub open spec fn path_parameters(names: Seq<Seq<char>>) -> Seq<ParameterView> {
    names.map_values(|n: Seq<char>| path_parameter(n))
}

/// `documented` is the operation `op` of a route whose path parameters are
/// `names`: those parameters come first, then those of `op`; all else is
/// `op`'s.
pub open spec fn documents(documented: Operation, op: Operation, names: Seq<Seq<char>>) -> bool {
    &&& parameter_views(documented.parameters@) == path_parameters(names) + parameter_views(
        op.parameters@,
    )
    &&& documented.summary == op.summary
    &&& documented.operation_id == op.operation_id
    &&& documented.request_body == op.request_body
    &&& documented.responses == op.responses
}

/// The HTTP methods of `ops`.
pub open spec fn methods_of(ops: Seq<(String, Operation)>) -> Set<Seq<char>> {
    Set::new(|m: Seq<char>| exists|j: int| 0 <= j < ops.len() && #[trigger] ops[j].0@ == m)
}

/// No operation after the `j`-th is for the same method.
pub open spec fn last_for_method(ops: Seq<(String, Operation)>, j: int) -> bool {
    forall|j2: int| j < j2 < ops.len() ==> #[trigger] ops[j2].0@ != ops[j].0@
}

/// `item` is the path item `old_item` once the operations `ops` of a route
/// are registered on it, in order: each method gets the last of its
/// operations, exactly as given; the other methods keep theirs.
pub open spec fn routed_item(
    old_item: Map<Seq<char>, Operation>,
    item: Map<Seq<char>, Operation>,
    ops: Seq<(String, Operation)>,
) -> bool {
    &&& item.dom() == old_item.dom().union(methods_of(ops))
    &&& forall|m: Seq<char>|
        #[trigger] old_item.contains_key(m) && !methods_of(ops).contains(m) ==> item[m]
            == old_item[m]
    &&& forall|j: int|
        0 <= j < ops.len() && #[trigger] last_for_method(ops, j) ==> item[ops[j].0@] == ops[j].1
}

/// The path item that a document holds under `path`, or an empty one.
pub open spec fn item_at(paths: Map<Seq<char>, PathItem>, path: Seq<char>) -> Map<
    Seq<char>,
    Operation,
> {
    if paths.contains_key(path) {
        paths[path]@
    } else {
        Map::empty()
    }
}

/// The schema `{"type": "string"}`.
pub fn string_schema() -> (r: JsonValue)
    ensures
        r@ == string_schema_view(),
{
    let m = StrMap::singleton("type".to_owned(), JsonValue::String("string".to_owned()));
    let r = JsonValue::Object(m);
    proof {
        crate::json::lemma_object_entries(m);
        assert(crate::json::object_entries(m) =~= seq![("type"@, JsonView::String("string"@))]);
    }
    r
}

/// `op` with the path parameters `names` put before its own parameters.
pub fn with_path_params(names: &Vec<String>, op: Operation) -> (r: Operation)
    ensures
        documents(r, op, string_views(names@)),
{
    let mut params: Vec<Parameter> = Vec::new();
    let ghost ns = string_views(names@);
    for i in 0..names.len()
        invariant
            ns == string_views(names@),
            parameter_views(params@) == path_parameters(ns.take(i as int)),
    {
        let ghost before = params@;
        params.push(
            Parameter {
                name: names[i].clone(),
                location: "path",
                required: true,
                schema: string_schema(),
            },
        );
        proof {
            let now = parameter_views(params@);
            let goal = path_parameters(ns.take(i + 1));
            assert(ns.len() == names@.len());
            assert(ns.take(i as int).len() == i);
            assert(parameter_views(before).len() == before.len());
            assert(path_parameters(ns.take(i as int)).len() == i);
            assert(before.len() == i);
            assert(now.len() == goal.len());
            assert forall|x: int| 0 <= x < now.len() implies now[x] == goal[x] by {
                if x < before.len() {
                    assert(params@[x] == before[x]);
                    assert(parameter_views(before)[x] == path_parameters(ns.take(i as int))[x]);
                }
            }
            assert(now =~= goal);
        }
    }
    proof {
        assert(ns.take(names@.len() as int) =~= ns);
    }
    let ghost head = params@;
    let mut rest = op.parameters;
    params.append(&mut rest);
    proof {
        assert(parameter_views(params@) =~= parameter_views(head) + parameter_views(
            op.parameters@,
        ));
    }
    Operation {
        summary: op.summary,
        operation_id: op.operation_id,
        parameters: params,
        request_body: op.request_body,
        responses: op.responses,
    }
}

/// The operation that a route's handlers are described into: the path
/// parameters of the template `path` (each `in: path`, required, of type
/// `string`, in template order) and nothing else yet.
pub fn route_operation(path: &str) -> (r: Operation)
    ensures
        parameter_views(r.parameters@) == path_parameters(path_params(path@)),
        r.summary is None,
        r.operation_id is None,
        r.request_body is None,
        r.responses@ == Map::<Seq<char>, crate::spec::Response>::empty(),
{
    let (_doc, names) = parse_path_template(path);
    let empty = Operation::default();
    let r = with_path_params(&names, empty);
    proof {
        assert(parameter_views(empty.parameters@) =~= Seq::<ParameterView>::empty());
        assert(path_parameters(path_params(path@)) + Seq::<ParameterView>::empty()
            =~= path_parameters(path_params(path@)));
    }
    r
}

/// Registers the operations `ops` of a route on the path item `item`.
fn route_item(item: &mut PathItem, ops: Vec<(String, Operation)>)
    ensures
        routed_item(old(item)@, final(item)@, ops@),
{
    let ghost old_item = item@;
    let ghost all = ops@;
    proof {
        assert(item@.dom() =~= old_item.dom().union(methods_of(all.take(0))));
    }
    for entry in it: ops.into_iter()
        invariant
            it.seq() == all,
            routed_item(old_item, item@, all.take(it.index() as int)),
    {
        let ghost k = it.index();
        let ghost prev = item@;
        let ghost pre_ops = all.take(k);
        let ghost post_ops = all.take(k + 1);
        let (method, op) = entry;
        let ghost m = method@;
        item.insert(method, op);
        proof {
            assert(post_ops[k] == (method, op));
            assert forall|j: int| 0 <= j < k implies #[trigger] post_ops[j] == pre_ops[j] by {}
            assert(methods_of(post_ops) =~= methods_of(pre_ops).insert(m)) by {
                assert forall|q: Seq<char>| #[trigger]
                    methods_of(post_ops).contains(q) implies methods_of(pre_ops).insert(m).contains(q) by {
                    let j = choose|j: int| 0 <= j < post_ops.len() && #[trigger] post_ops[j].0@ == q;
                    if j < k {
                        assert(pre_ops[j].0@ == q);
                    }
                }
                assert forall|q: Seq<char>| #[trigger]
                    methods_of(pre_ops).insert(m).contains(q) implies methods_of(post_ops).contains(q) by {
                    if q == m {
                        assert(post_ops[k].0@ == q);
                    } else {
                        let j = choose|j: int| 0 <= j < pre_ops.len() && #[trigger] pre_ops[j].0@ == q;
                        assert(post_ops[j].0@ == q);
                    }
                }
            }
            assert(item@.dom() =~= old_item.dom().union(methods_of(post_ops)));
            assert forall|q: Seq<char>| #[trigger]
                old_item.contains_key(q) && !methods_of(post_ops).contains(q) implies item@[q]
                == old_item[q] by {
                assert(methods_of(pre_ops).insert(m).contains(q) == methods_of(post_ops).contains(q));
            }
            assert forall|j: int|
                0 <= j < post_ops.len() && #[trigger] last_for_method(post_ops, j) implies item@[post_ops[j].0@]
                == post_ops[j].1 by {
                if j < k {
                    assert(post_ops[k].0@ != post_ops[j].0@);
                    assert(last_for_method(pre_ops, j)) by {
                        assert forall|j2: int| j < j2 < pre_ops.len() implies #[trigger] pre_ops[j2].0@
                            != pre_ops[j].0@ by {
                            assert(post_ops[j2] == pre_ops[j2]);
                        }
                    }
                }
            }
        }
    }
    proof {
        assert(all.take(all.len() as int) =~= all);
    }
}

/// Whether `m` is one of the HTTP methods that routes are registered under.
pub open spec fn is_http_method(m: Seq<char>) -> bool {
    m == "get"@ || m == "post"@ || m == "put"@ || m == "delete"@
}

/// The path items of a document built from the route templates `routed`:
/// each is held under the documented path of one of those templates, holds
/// at least one operation, and only under HTTP methods; and each of those
/// templates has its path item.
pub open spec fn well_formed_paths(paths: Map<Seq<char>, PathItem>, routed: Set<Seq<char>>) -> bool {
    &&& forall|p: Seq<char>| #[trigger]
        paths.contains_key(p) ==> {
            &&& exists|q: Seq<char>| #[trigger] routed.contains(q) && doc_path(q) == p
            &&& paths[p]@.dom() != Set::<Seq<char>>::empty()
            &&& forall|m: Seq<char>| #[trigger] paths[p]@.contains_key(m) ==> is_http_method(m)
        }
    &&& forall|q: Seq<char>| #[trigger] routed.contains(q) ==> paths.contains_key(doc_path(q))
}

/// A document built from routes has no path item exactly when no route was
/// registered.
pub proof fn lemma_no_paths_iff_no_routes(paths: Map<Seq<char>, PathItem>, routed: Set<Seq<char>>)
    requires
        well_formed_paths(paths, routed),
    ensures
        paths == Map::<Seq<char>, PathItem>::empty() <==> routed == Set::<Seq<char>>::empty(),
{
    if routed == Set::<Seq<char>>::empty() {
        assert(paths =~= Map::<Seq<char>, PathItem>::empty());
    } else {
        assert(!(routed =~= Set::<Seq<char>>::empty()));
        let q = choose|q: Seq<char>| routed.contains(q);
        assert(paths.contains_key(doc_path(q)));
        assert(!Map::<Seq<char>, PathItem>::empty().contains_key(doc_path(q)));
    }
}

/// The document side of a router: its `info`, the path items of the routes
/// registered so far, and (as a record for proofs) the route templates they
/// were registered with.
pub struct DocBuilder {
    info: Info,
    paths: StrMap<PathItem>,
    routed: Ghost<Set<Seq<char>>>,
}

impl DocBuilder {
    /// The path items are exactly those of the registered route templates.
    #[verifier::type_invariant]
    closed spec fn routes_well_formed(self) -> bool {
        well_formed_paths(self.paths@, self.routed@)
    }

    /// The `info` of the document.
    pub closed spec fn spec_info(self) -> Info {
        self.info
    }

    /// The path items of the document, by documented path.
    pub closed spec fn spec_paths(self) -> StrMap<PathItem> {
        self.paths
    }

    /// The route templates registered so far.
    pub closed spec fn spec_routed(self) -> Set<Seq<char>> {
        self.routed@
    }

    /// The `info` of the document.
    pub fn info(&self) -> (r: &Info)
        ensures
            *r == self.spec_info(),
    {
        &self.info
    }

    /// The path items of the document, by documented path: exactly those of
    /// the route templates registered so far, and none before the first.
    pub fn paths(&self) -> (r: &StrMap<PathItem>)
        ensures
            *r == self.spec_paths(),
            well_formed_paths(r@, self.spec_routed()),
            r@ == Map::<Seq<char>, PathItem>::empty() <==> self.spec_routed() == Set::<
                Seq<char>,
            >::empty(),
    {
        proof {
            use_type_invariant(self);
            lemma_no_paths_iff_no_routes(self.paths@, self.routed@);
        }
        &self.paths
    }

    /// No route yet, and the default `info` (`API`, version `0.0.0`).
    pub fn new() -> (r: Self)
        ensures
            r.spec_info().title@ == "API"@,
            r.spec_info().version@ == "0.0.0"@,
            r.spec_info().description is None,
            r.spec_paths()@ == Map::<Seq<char>, PathItem>::empty(),
            r.spec_routed() == Set::<Seq<char>>::empty(),
    {
        let paths = StrMap::new();
        DocBuilder { info: Info::default(), paths, routed: Ghost(Set::empty()) }
    }

    /// Sets `info.title`.
    pub fn title(self, title: String) -> (r: Self)
        ensures
            r.spec_info().title == title,
            r.spec_info().version == self.spec_info().version,
            r.spec_info().description == self.spec_info().description,
            r.spec_paths() == self.spec_paths(),
            r.spec_routed() == self.spec_routed(),
    {
        proof {
            use_type_invariant(&self);
        }
        let mut info = self.info;
        info.title = title;
        DocBuilder { info, paths: self.paths, routed: self.routed }
    }

    /// Sets `info.version`.
    pub fn version(self, version: String) -> (r: Self)
        ensures
            r.spec_info().version == version,
            r.spec_info().title == self.spec_info().title,
            r.spec_info().description == self.spec_info().description,
            r.spec_paths() == self.spec_paths(),
            r.spec_routed() == self.spec_routed(),
    {
        proof {
            use_type_invariant(&self);
        }
        let mut info = self.info;
        info.version = version;
        DocBuilder { info, paths: self.paths, routed: self.routed }
    }

    /// Sets `info.description`.
    pub fn description(self, description: String) -> (r: Self)
        ensures
            r.spec_info().description == Some(description),
            r.spec_info().title == self.spec_info().title,
            r.spec_info().version == self.spec_info().version,
            r.spec_paths() == self.spec_paths(),
            r.spec_routed() == self.spec_routed(),
    {
        proof {
            use_type_invariant(&self);
        }
        let mut info = self.info;
        info.description = Some(description);
        DocBuilder { info, paths: self.paths, routed: self.routed }
    }

    /// Registers a route: `path` is its axum route template, and `ops` holds,
    /// in registration order, each HTTP method (lowercase) with the operation
    /// that its handler's description left (described into the
    /// `route_operation` of `path`); a method router always holds at least
    /// one. The route is documented under the path of the template, each
    /// operation stored exactly as given; a later operation for a method
    /// replaces an earlier one.
    pub fn route(self, path: &str, ops: Vec<(String, Operation)>) -> (r: Self)
        requires
            ops@.len() > 0,
            forall|j: int| 0 <= j < ops@.len() ==> is_http_method(#[trigger] ops@[j].0@),
        ensures
            r.spec_info() == self.spec_info(),
            r.spec_routed() == self.spec_routed().insert(path@),
            r.spec_paths()@ == self.spec_paths()@.insert(
                doc_path(path@),
                r.spec_paths()@[doc_path(path@)],
            ),
            routed_item(
                item_at(self.spec_paths()@, doc_path(path@)),
                r.spec_paths()@[doc_path(path@)]@,
                ops@,
            ),
    {
        proof {
            use_type_invariant(&self);
        }
        let ghost old_paths = self.paths@;
        let ghost old_routed = self.routed@;
        let ghost routed = old_routed.insert(path@);
        let ghost all = ops@;
        let (doc, _names) = parse_path_template(path);
        let mut paths = self.paths;
        let mut item = match paths.remove(doc.as_str()) {
            Some(item) => item,
            None => StrMap::new(),
        };
        route_item(&mut item, ops);
        proof {
            let dp = doc_path(path@);
            assert(methods_of(all).contains(all[0].0@));
            assert(item@.contains_key(all[0].0@));
            assert(item@.dom() != Set::<Seq<char>>::empty());
            assert forall|m: Seq<char>| #[trigger] item@.contains_key(m) implies is_http_method(m) by {
                if !methods_of(all).contains(m) {
                    assert(old_paths.contains_key(dp) && old_paths[dp]@.contains_key(m));
                } else {
                    let j = choose|j: int| 0 <= j < all.len() && #[trigger] all[j].0@ == m;
                    assert(is_http_method(all[j].0@));
                }
            }
        }
        paths.insert(doc, item);
        proof {
            let dp = doc_path(path@);
            assert forall|p: Seq<char>| #[trigger] paths@.contains_key(p) implies {
                &&& exists|q: Seq<char>| #[trigger] routed.contains(q) && doc_path(q) == p
                &&& paths@[p]@.dom() != Set::<Seq<char>>::empty()
                &&& forall|m: Seq<char>| #[trigger]
                    paths@[p]@.contains_key(m) ==> is_http_method(m)
            } by {
                if p == dp {
                    assert(routed.contains(path@) && doc_path(path@) == p);
                } else {
                    assert(old_paths.contains_key(p));
                    let q = choose|q: Seq<char>| #[trigger] old_routed.contains(q) && doc_path(q) == p;
                    assert(routed.contains(q) && doc_path(q) == p);
                }
            }
            assert forall|q: Seq<char>| #[trigger] routed.contains(q) implies paths@.contains_key(
                doc_path(q),
            ) by {
                if q != path@ {
                    assert(old_routed.contains(q));
                    assert(old_paths.contains_key(doc_path(q)));
                }
            }
        }
        DocBuilder { info: self.info, paths, routed: Ghost(routed) }
    }

    /// The accumulated document, with `schemas` as its named component
    /// schemas; its path items are exactly those of the route templates
    /// registered, and there are none if no route was.
    pub fn into_document(self, schemas: StrMap<JsonValue>) -> (r: OpenApi)
        ensures
            r.openapi@ == "3.1.0"@,
            r.info == self.spec_info(),
            r.paths == self.spec_paths(),
            r.components.schemas == schemas,
            well_formed_paths(r.paths@, self.spec_routed()),
            r.paths@ == Map::<Seq<char>, PathItem>::empty() <==> self.spec_routed() == Set::<
                Seq<char>,
            >::empty(),
    {
        proof {
            use_type_invariant(&self);
            lemma_no_paths_iff_no_routes(self.paths@, self.routed@);
        }
        OpenApi {
            openapi: "3.1.0",
            info: self.info,
            paths: self.paths,
            components: Components { schemas },
        }
    }
}

/// The path parameters documented for the names `names`: one per name, in
/// order, each `in: path`, required, with the schema `{"type": "string"}`.
pub proof fn lemma_path_parameters(names: Seq<Seq<char>>)
    ensures
        path_parameters(names).len() == names.len(),
        forall|i: int|
            0 <= i < names.len() ==> #[trigger] path_parameters(names)[i] == (ParameterView {
                name: names[i],
                location: "path"@,
                required: true,
                schema: JsonView::Object(seq![("type"@, JsonView::String("string"@))]),
            }),
{
}

/// Registering the operations `ops` on a path item: its methods become
/// those it had and those of `ops`; a method of `ops` holds the last
/// operation given for it; a method not in `ops` keeps its operation.
pub proof fn lemma_routed_item(
    old_item: Map<Seq<char>, Operation>,
    item: Map<Seq<char>, Operation>,
    ops: Seq<(String, Operation)>,
)
    requires
        routed_item(old_item, item, ops),
    ensures
        forall|m: Seq<char>|
            #[trigger] item.contains_key(m) <==> old_item.contains_key(m) || exists|j: int|
                0 <= j < ops.len() && ops[j].0@ == m,
        forall|j: int|
            0 <= j < ops.len() && (forall|j2: int| j < j2 < ops.len() ==> ops[j2].0@ != ops[j].0@)
                ==> item[#[trigger] ops[j].0@] == ops[j].1,
        forall|m: Seq<char>|
            old_item.contains_key(m) && (forall|j: int| 0 <= j < ops.len() ==> ops[j].0@ != m)
                ==> #[trigger] item[m] == old_item[m],
{
    assert forall|m: Seq<char>| #[trigger] item.contains_key(m) <==> old_item.contains_key(m)
        || exists|j: int| 0 <= j < ops.len() && ops[j].0@ == m by {
        if exists|j: int| 0 <= j < ops.len() && ops[j].0@ == m {
            let j = choose|j: int| 0 <= j < ops.len() && ops[j].0@ == m;
            assert(methods_of(ops).contains(m)) by {
                assert(ops[j].0@ == m);
            }
        }
        if methods_of(ops).contains(m) {
            let j = choose|j: int| 0 <= j < ops.len() && #[trigger] ops[j].0@ == m;
            assert(ops[j].0@ == m);
        }
    }
    assert forall|j: int|
        0 <= j < ops.len() && (forall|j2: int| j < j2 < ops.len() ==> ops[j2].0@ != ops[j].0@)
            implies item[#[trigger] ops[j].0@] == ops[j].1 by {
        assert(last_for_method(ops, j));
    }
    assert forall|m: Seq<char>|
        old_item.contains_key(m) && (forall|j: int| 0 <= j < ops.len() ==> ops[j].0@ != m)
            implies #[trigger] item[m] == old_item[m] by {
        if methods_of(ops).contains(m) {
            let j = choose|j: int| 0 <= j < ops.len() && #[trigger] ops[j].0@ == m;
            assert(ops[j].0@ != m);
        }
    }
}

} // verus!
