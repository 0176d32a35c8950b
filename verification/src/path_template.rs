//! Parsing of axum route templates (`/users/{id}`, `/files/{*rest}`) into the
//! OpenAPI path they are documented under and the ordered list of path
//! parameter names.

use vstd::prelude::*;

use crate::text::chars_of;

verus! {

/// The segments of `s` between `/` separators, as `str::split('/')` yields
/// them: `""` gives one empty segment, and a leading or trailing `/` gives an
/// empty first or last segment.
pub open spec fn split_segments(s: Seq<char>) -> Seq<Seq<char>>
    decreases s.len(),
{
    if s.len() == 0 {
        seq![Seq::<char>::empty()]
    } else {
        let prev = split_segments(s.drop_last());
        if s.last() == '/' {
            prev.push(Seq::<char>::empty())
        } else {
            prev.update(prev.len() - 1, prev.last().push(s.last()))
        }
    }
}

/// The parameter named by one template segment: `{name}` names `name`,
/// `{*name}` (a wildcard) names `name` too, any other segment names none.
pub open spec fn param_name(seg: Seq<char>) -> Option<Seq<char>> {
    if seg.len() >= 2 && seg[0] == '{' && seg[seg.len() - 1] == '}' {
        let inner = seg.subrange(1, seg.len() - 1);
        if inner.len() > 0 && inner[0] == '*' {
            Some(inner.drop_first())
        } else {
            Some(inner)
        }
    } else {
        None
    }
}

/// How one template segment is written in the OpenAPI path: a parameter
/// segment becomes `{name}`, any other segment stays as it is.
pub open spec fn doc_segment(seg: Seq<char>) -> Seq<char> {
    match param_name(seg) {
        Some(name) => seq!['{'] + name + seq!['}'],
        None => seg,
    }
}

/// The documented segments joined again with `/`.
pub open spec fn join_doc(segs: Seq<Seq<char>>) -> Seq<char>
    decreases segs.len(),
{
    if segs.len() == 0 {
        Seq::<char>::empty()
    } else if segs.len() == 1 {
        doc_segment(segs[0])
    } else {
        join_doc(segs.drop_last()) + seq!['/'] + doc_segment(segs.last())
    }
}

/// The parameter names of the segments, in order.
pub open spec fn param_names(segs: Seq<Seq<char>>) -> Seq<Seq<char>>
    decreases segs.len(),
{
    if segs.len() == 0 {
        Seq::<Seq<char>>::empty()
    } else {
        let prev = param_names(segs.drop_last());
        match param_name(segs.last()) {
            Some(name) => prev.push(name),
            None => prev,
        }
    }
}

/// The OpenAPI path under which the route template `path` is documented.
pub open spec fn doc_path(path: Seq<char>) -> Seq<char> {
    join_doc(split_segments(path))
}

/// The path parameter names of the route template `path`, in order.
pub open spec fn path_params(path: Seq<char>) -> Seq<Seq<char>> {
    param_names(split_segments(path))
}

/// The views of a sequence of strings.
pub open spec fn string_views(v: Seq<String>) -> Seq<Seq<char>> {
    v.map_values(|s: String| s@)
}

proof fn lemma_split_nonempty(s: Seq<char>)
    ensures
        split_segments(s).len() >= 1,
    decreases s.len(),
{
    if s.len() > 0 {
        lemma_split_nonempty(s.drop_last());
    }
}

/// Appends the documented form of the segment `path[start..end]` to `doc`,
/// and its parameter name, if it has one, to `params`.
fn push_segment(
    path: &str,
    chars: &Vec<char>,
    start: usize,
    end: usize,
    doc: &mut String,
    params: &mut Vec<String>,
)
    requires
        chars@ == path@,
        start <= end <= chars@.len(),
    ensures
        final(doc)@ == old(doc)@ + doc_segment(path@.subrange(start as int, end as int)),
        string_views(final(params)@) == match param_name(path@.subrange(start as int, end as int)) {
            Some(name) => string_views(old(params)@).push(name),
            None => string_views(old(params)@),
        },
{
    let ghost seg = path@.subrange(start as int, end as int);
    if end - start >= 2 && chars[start] == '{' && chars[end - 1] == '}' {
        let mut name_start = start + 1;
        if name_start < end - 1 && chars[name_start] == '*' {
            name_start = name_start + 1;
        }
        let name = path.substring_char(name_start, end - 1);
        proof {
            let inner = seg.subrange(1, seg.len() - 1);
            if inner.len() > 0 && inner[0] == '*' {
                assert(name@ =~= inner.drop_first());
            } else {
                assert(name@ =~= inner);
            }
            reveal_strlit("{");
            reveal_strlit("}");
        }
        doc.append("{");
        doc.append(name);
        doc.append("}");
        params.push(name.to_owned());
        proof {
            assert(string_views(params@) =~= string_views(old(params)@).push(name@));
        }
    } else {
        doc.append(path.substring_char(start, end));
        proof {
            assert(string_views(params@) =~= string_views(old(params)@));
        }
    }
}

/// Parses an axum route template into the OpenAPI path it is documented
/// under and the ordered list of its path parameter names.
///
/// `/users/{id}` gives (`/users/{id}`, `["id"]`); the wildcard
/// `/files/{*rest}` gives (`/files/{rest}`, `["rest"]`).
pub fn parse_path_template(path: &str) -> (res: (String, Vec<String>))
    ensures
        res.0@ == doc_path(path@),
        string_views(res.1@) == path_params(path@),
{
    let chars = chars_of(path);
    let n = chars.len();
    let mut doc = String::new();
    let mut params: Vec<String> = Vec::new();
    let mut start: usize = 0;
    let mut i: usize = 0;
    proof {
        assert(path@.take(0) =~= Seq::<char>::empty());
        assert(path@.subrange(0, 0) =~= Seq::<char>::empty());
    }
    while i < n
        invariant
            chars@ == path@,
            n == chars@.len(),
            start <= i <= n,
            split_segments(path@.take(i as int)).last() == path@.subrange(start as int, i as int),
            doc@ == (if split_segments(path@.take(i as int)).len() == 1 {
                Seq::<char>::empty()
            } else {
                join_doc(split_segments(path@.take(i as int)).drop_last()) + seq!['/']
            }),
            string_views(params@) == param_names(split_segments(path@.take(i as int)).drop_last()),
        decreases n - i,
    {
        let ghost segs = split_segments(path@.take(i as int));
        let ghost next = path@.take(i + 1);
        proof {
            lemma_split_nonempty(path@.take(i as int));
            assert(next.drop_last() =~= path@.take(i as int));
            assert(next.last() == path@[i as int]);
        }
        if chars[i] == '/' {
            push_segment(path, &chars, start, i, &mut doc, &mut params);
            proof {
                reveal_strlit("/");
            }
            doc.append("/");
            proof {
                let nsegs = split_segments(next);
                assert(nsegs == segs.push(Seq::<char>::empty()));
                assert(nsegs.drop_last() =~= segs);
                if segs.len() == 1 {
                    assert(join_doc(segs) == doc_segment(segs[0]));
                } else {
                    assert(join_doc(segs) == join_doc(segs.drop_last()) + seq!['/'] + doc_segment(
                        segs.last(),
                    ));
                }
                assert(doc@ =~= join_doc(nsegs.drop_last()) + seq!['/']);
                assert(param_names(segs) == match param_name(segs.last()) {
                    Some(name) => param_names(segs.drop_last()).push(name),
                    None => param_names(segs.drop_last()),
                });
                assert(path@.subrange(i + 1, i + 1) =~= Seq::<char>::empty());
            }
            start = i + 1;
        } else {
            proof {
                let nsegs = split_segments(next);
                assert(nsegs == segs.update(segs.len() - 1, segs.last().push(path@[i as int])));
                assert(nsegs.drop_last() =~= segs.drop_last());
                assert(nsegs.last() =~= path@.subrange(start as int, i + 1));
            }
        }
        i = i + 1;
    }
    proof {
        assert(path@.take(n as int) =~= path@);
        lemma_split_nonempty(path@);
    }
    push_segment(path, &chars, start, n, &mut doc, &mut params);
    proof {
        let segs = split_segments(path@);
        if segs.len() == 1 {
            assert(join_doc(segs) == doc_segment(segs[0]));
            assert(doc@ =~= join_doc(segs));
        } else {
            assert(join_doc(segs) == join_doc(segs.drop_last()) + seq!['/'] + doc_segment(
                segs.last(),
            ));
            assert(doc@ =~= join_doc(segs));
        }
    }
    (doc, params)
}

/// `s` holds no `/`.
pub open spec fn no_slash(s: Seq<char>) -> bool {
    forall|i: int| 0 <= i < s.len() ==> s[i] != '/'
}

/// The documented form of each segment.
pub open spec fn doc_segments(segs: Seq<Seq<char>>) -> Seq<Seq<char>> {
    segs.map_values(|x: Seq<char>| doc_segment(x))
}

proof fn lemma_split_segments_no_slash(s: Seq<char>)
    ensures
        forall|i: int|
            0 <= i < split_segments(s).len() ==> no_slash(#[trigger] split_segments(s)[i]),
    decreases s.len(),
{
    lemma_split_nonempty(s);
    if s.len() > 0 {
        lemma_split_segments_no_slash(s.drop_last());
        lemma_split_nonempty(s.drop_last());
        let prev = split_segments(s.drop_last());
        if s.last() != '/' {
            assert forall|i: int| 0 <= i < split_segments(s).len() implies no_slash(
                #[trigger] split_segments(s)[i],
            ) by {
                if i == prev.len() - 1 {
                    assert(no_slash(prev[i]));
                    assert(split_segments(s)[i] =~= prev.last().push(s.last()));
                }
            }
        }
    }
}

/// Appending a `/`-free tail extends the last segment.
proof fn lemma_split_append(x: Seq<char>, b: Seq<char>)
    requires
        no_slash(b),
    ensures
        split_segments(x + b) == split_segments(x).update(
            split_segments(x).len() - 1,
            split_segments(x).last() + b,
        ),
    decreases b.len(),
{
    lemma_split_nonempty(x);
    if b.len() == 0 {
        assert(x + b =~= x);
        assert(split_segments(x).last() + b =~= split_segments(x).last());
        assert(split_segments(x).update(split_segments(x).len() - 1, split_segments(x).last())
            =~= split_segments(x));
    } else {
        let b1 = b.drop_last();
        assert(no_slash(b1)) by {
            assert forall|i: int| 0 <= i < b1.len() implies b1[i] != '/' by {
                assert(b1[i] == b[i]);
            }
        }
        assert(b.last() != '/') by {
            assert(b.last() == b[b.len() - 1]);
        }
        lemma_split_append(x, b1);
        assert((x + b).drop_last() =~= x + b1);
        assert((x + b).last() == b.last());
        let prev = split_segments(x + b1);
        lemma_split_nonempty(x + b1);
        let sx = split_segments(x);
        assert(prev.len() == sx.len());
        assert(prev.last() == sx.last() + b1);
        assert(split_segments(x + b) == prev.update(prev.len() - 1, prev.last().push(b.last())));
        assert(prev.last().push(b.last()) =~= sx.last() + b);
        assert(split_segments(x + b) =~= sx.update(sx.len() - 1, sx.last() + b));
    }
}

proof fn lemma_doc_segment_no_slash(x: Seq<char>)
    requires
        no_slash(x),
    ensures
        no_slash(doc_segment(x)),
{
    if let Some(n) = param_name(x) {
        let d = doc_segment(x);
        assert forall|i: int| 0 <= i < d.len() implies d[i] != '/' by {
            if 0 < i < d.len() - 1 {
                let inner = x.subrange(1, x.len() - 1);
                if inner.len() > 0 && inner[0] == '*' {
                    assert(d[i] == x[i + 1]);
                } else {
                    assert(d[i] == x[i]);
                }
            }
        }
    }
}

/// Splitting the documented path gives back the documented segments.
proof fn lemma_split_join(segs: Seq<Seq<char>>)
    requires
        segs.len() >= 1,
        forall|i: int| 0 <= i < segs.len() ==> no_slash(#[trigger] segs[i]),
    ensures
        split_segments(join_doc(segs)) == doc_segments(segs),
    decreases segs.len(),
{
    let last = segs.last();
    lemma_doc_segment_no_slash(last);
    if segs.len() == 1 {
        lemma_split_append(Seq::<char>::empty(), doc_segment(segs[0]));
        assert(Seq::<char>::empty() + doc_segment(segs[0]) =~= doc_segment(segs[0]));
        assert(split_segments(Seq::<char>::empty()) =~= seq![Seq::<char>::empty()]);
        assert(Seq::<char>::empty() + doc_segment(segs[0]) =~= doc_segment(segs[0]));
        assert(doc_segments(segs) =~= seq![doc_segment(segs[0])]);
    } else {
        let front = segs.drop_last();
        lemma_split_join(front);
        let jf = join_doc(front);
        let with_sep = jf + seq!['/'];
        assert(with_sep.drop_last() =~= jf);
        lemma_split_nonempty(jf);
        assert(split_segments(with_sep) == split_segments(jf).push(Seq::<char>::empty()));
        lemma_split_append(with_sep, doc_segment(last));
        assert(join_doc(segs) == with_sep + doc_segment(last));
        assert(Seq::<char>::empty() + doc_segment(last) =~= doc_segment(last));
        assert(doc_segments(segs) =~= doc_segments(front).push(doc_segment(last)));
    }
}

/// The parameter name of a parameter segment does not begin with `*`.
pub open spec fn plain_name(n: Seq<char>) -> bool {
    !(n.len() > 0 && n[0] == '*')
}

proof fn lemma_param_names_contain(segs: Seq<Seq<char>>, i: int)
    requires
        0 <= i < segs.len(),
        param_name(segs[i]) is Some,
    ensures
        param_names(segs).contains(param_name(segs[i])->0),
    decreases segs.len(),
{
    if i < segs.len() - 1 {
        lemma_param_names_contain(segs.drop_last(), i);
        let prev = param_names(segs.drop_last());
        let n = param_name(segs[i])->0;
        let j = choose|j: int| 0 <= j < prev.len() && prev[j] == n;
        if let Some(m) = param_name(segs.last()) {
            assert(param_names(segs)[j] == n);
        }
    } else {
        let n = param_name(segs[i])->0;
        assert(param_names(segs) == param_names(segs.drop_last()).push(n));
        assert(param_names(segs)[param_names(segs).len() - 1] == n);
    }
}

proof fn lemma_docs_fixed(segs: Seq<Seq<char>>)
    requires
        forall|i: int|
            0 <= i < segs.len() && param_name(#[trigger] segs[i]) is Some ==> plain_name(
                param_name(segs[i])->0,
            ),
    ensures
        join_doc(doc_segments(segs)) == join_doc(segs),
        param_names(doc_segments(segs)) == param_names(segs),
    decreases segs.len(),
{
    if segs.len() > 0 {
        let front = segs.drop_last();
        assert forall|i: int|
            0 <= i < front.len() && param_name(#[trigger] front[i]) is Some implies plain_name(
            param_name(front[i])->0,
        ) by {
            assert(front[i] == segs[i]);
        }
        lemma_docs_fixed(front);
        let x = segs.last();
        assert(param_name(x) is Some ==> plain_name(param_name(x)->0)) by {
            assert(x == segs[segs.len() - 1]);
        }
        let d = doc_segment(x);
        if let Some(n) = param_name(x) {
            assert(d.subrange(1, d.len() - 1) =~= n);
            assert(param_name(d) == Some(n));
            assert(doc_segment(d) =~= d);
        }
        let ds = doc_segments(segs);
        assert(ds.drop_last() =~= doc_segments(front));
        assert(ds.last() == d);
        if segs.len() == 1 {
            assert(ds[0] == d);
        }
    }
}

/// Documenting an already documented path changes nothing: parsing the
/// OpenAPI path of a route template gives back that same path and the same
/// parameter names, provided no parameter name begins with `*` (the
/// template `/a/{**b}` names `*b`, documented as `/a/{*b}`, which reads as a
/// wildcard named `b`).
pub proof fn lemma_doc_path_idempotent(path: Seq<char>)
    requires
        forall|n: Seq<char>| path_params(path).contains(n) ==> plain_name(n),
    ensures
        doc_path(doc_path(path)) == doc_path(path),
        path_params(doc_path(path)) == path_params(path),
{
    let segs = split_segments(path);
    lemma_split_nonempty(path);
    lemma_split_segments_no_slash(path);
    lemma_split_join(segs);
    assert forall|i: int|
        0 <= i < segs.len() && param_name(#[trigger] segs[i]) is Some implies plain_name(
        param_name(segs[i])->0,
    ) by {
        lemma_param_names_contain(segs, i);
    }
    lemma_docs_fixed(segs);
}

/// Splitting at a `/` splits the segments there.
proof fn lemma_split_concat(p: Seq<char>, q: Seq<char>)
    ensures
        split_segments(p + seq!['/'] + q) == split_segments(p) + split_segments(q),
    decreases q.len(),
{
    let sep = p + seq!['/'];
    lemma_split_nonempty(p);
    if q.len() == 0 {
        assert(sep + q =~= sep);
        assert(sep.drop_last() =~= p);
        assert(split_segments(sep) == split_segments(p).push(Seq::<char>::empty()));
        assert(split_segments(p) + split_segments(q) =~= split_segments(p).push(
            Seq::<char>::empty(),
        ));
    } else {
        let q1 = q.drop_last();
        lemma_split_concat(p, q1);
        lemma_split_nonempty(q1);
        assert((sep + q).drop_last() =~= sep + q1);
        assert((sep + q).last() == q.last());
        let a = split_segments(p);
        let b = split_segments(q1);
        if q.last() == '/' {
            assert(split_segments(q) == b.push(Seq::<char>::empty()));
            assert(split_segments(sep + q) == (a + b).push(Seq::<char>::empty()));
            assert((a + b).push(Seq::<char>::empty()) =~= a + b.push(Seq::<char>::empty()));
        } else {
            assert(split_segments(q) == b.update(b.len() - 1, b.last().push(q.last())));
            assert((a + b).last() == b.last());
            assert(split_segments(sep + q) == (a + b).update(
                (a + b).len() - 1,
                b.last().push(q.last()),
            ));
            assert((a + b).update((a + b).len() - 1, b.last().push(q.last())) =~= a + b.update(
                b.len() - 1,
                b.last().push(q.last()),
            ));
        }
        assert(sep + q =~= p + seq!['/'] + q);
    }
}

/// A `/`-free template is one segment.
proof fn lemma_split_single(s: Seq<char>)
    requires
        no_slash(s),
    ensures
        split_segments(s) == seq![s],
{
    lemma_split_append(Seq::<char>::empty(), s);
    assert(Seq::<char>::empty() + s =~= s);
    assert(split_segments(Seq::<char>::empty()) == seq![Seq::<char>::empty()]);
    assert(seq![Seq::<char>::empty()].update(0, Seq::<char>::empty() + s) =~= seq![s]);
}

proof fn lemma_param_names_concat(a: Seq<Seq<char>>, b: Seq<Seq<char>>)
    ensures
        param_names(a + b) == param_names(a) + param_names(b),
    decreases b.len(),
{
    if b.len() == 0 {
        assert(a + b =~= a);
        assert(param_names(a) + param_names(b) =~= param_names(a));
    } else {
        lemma_param_names_concat(a, b.drop_last());
        assert((a + b).drop_last() =~= a + b.drop_last());
        assert((a + b).last() == b.last());
        match param_name(b.last()) {
            Some(n) => {
                assert(param_names(a) + param_names(b.drop_last()).push(n) =~= (param_names(a)
                    + param_names(b.drop_last())).push(n));
            },
            None => {},
        }
    }
}

proof fn lemma_join_doc_concat(a: Seq<Seq<char>>, b: Seq<Seq<char>>)
    requires
        a.len() >= 1,
        b.len() >= 1,
    ensures
        join_doc(a + b) == join_doc(a) + seq!['/'] + join_doc(b),
    decreases b.len(),
{
    assert((a + b).drop_last() =~= a + b.drop_last());
    assert((a + b).last() == b.last());
    if b.len() == 1 {
        assert(b.drop_last() =~= Seq::<Seq<char>>::empty());
        assert(a + b.drop_last() =~= a);
        assert(join_doc(b) == doc_segment(b[0]));
    } else {
        lemma_join_doc_concat(a, b.drop_last());
        assert(join_doc(a) + seq!['/'] + join_doc(b.drop_last()) + seq!['/'] + doc_segment(
            b.last(),
        ) =~= join_doc(a) + seq!['/'] + (join_doc(b.drop_last()) + seq!['/'] + doc_segment(
            b.last(),
        )));
    }
}

/// A route template is documented segment by segment: joining two templates
/// with `/` joins their documented paths with `/` and concatenates their
/// path parameter names, in order.
pub proof fn lemma_template_concat(p: Seq<char>, q: Seq<char>)
    ensures
        doc_path(p + seq!['/'] + q) == doc_path(p) + seq!['/'] + doc_path(q),
        path_params(p + seq!['/'] + q) == path_params(p) + path_params(q),
{
    lemma_split_concat(p, q);
    lemma_split_nonempty(p);
    lemma_split_nonempty(q);
    lemma_join_doc_concat(split_segments(p), split_segments(q));
    lemma_param_names_concat(split_segments(p), split_segments(q));
}

/// A segment `{n}` (with no `/` in `n`) is a path parameter named `n`,
/// whatever characters `n` holds, documented as `{n}`; a wildcard `{*n}` is
/// a parameter named `n`, documented as `{n}` too.
pub proof fn lemma_param_segment(n: Seq<char>)
    requires
        no_slash(n),
    ensures
        !(n.len() > 0 && n[0] == '*') ==> path_params(seq!['{'] + n + seq!['}']) == seq![n]
            && doc_path(seq!['{'] + n + seq!['}']) == seq!['{'] + n + seq!['}'],
        n.len() > 0 && n[0] == '*' ==> path_params(seq!['{'] + n + seq!['}']) == seq![
            n.drop_first(),
        ] && doc_path(seq!['{'] + n + seq!['}']) == seq!['{'] + n.drop_first() + seq!['}'],
{
    let seg = seq!['{'] + n + seq!['}'];
    assert(no_slash(seg)) by {
        assert forall|i: int| 0 <= i < seg.len() implies seg[i] != '/' by {
            if 0 < i < seg.len() - 1 {
                assert(seg[i] == n[i - 1]);
            }
        }
    }
    lemma_split_single(seg);
    assert(seg.subrange(1, seg.len() - 1) =~= n);
    assert(seg[0] == '{');
    assert(seg[seg.len() - 1] == '}');
    assert(param_names(seq![seg]) == param_names(Seq::<Seq<char>>::empty()).push(
        param_name(seg)->0,
    )) by {
        assert(seq![seg].drop_last() =~= Seq::<Seq<char>>::empty());
    }
    assert(Seq::<Seq<char>>::empty().push(param_name(seg)->0) =~= seq![param_name(seg)->0]);
    assert(join_doc(seq![seg]) == doc_segment(seg));
}

/// A `/`-free segment that is not enclosed in braces names no parameter and
/// is documented as it is.
pub proof fn lemma_plain_segment(s: Seq<char>)
    requires
        no_slash(s),
        !(s.len() >= 2 && s[0] == '{' && s[s.len() - 1] == '}'),
    ensures
        path_params(s) == Seq::<Seq<char>>::empty(),
        doc_path(s) == s,
{
    lemma_split_single(s);
    assert(seq![s].drop_last() =~= Seq::<Seq<char>>::empty());
    assert(seq![s].last() == s);
    assert(param_name(s) is None);
    assert(param_names(seq![s]) == param_names(Seq::<Seq<char>>::empty()));
    assert(join_doc(seq![s]) == doc_segment(s));
}

} // verus!
