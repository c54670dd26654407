//! What normalising and tightening a schema leave in place.
use vstd::prelude::*;
use crate::decimal::dec;
use crate::grammar::normal::{
    distinct_keys, lemma_del, lemma_get, lemma_get_at, lemma_keys, lemma_put, lemma_put_absent,
};
use crate::grammar::schema::{
    add_merged, add_new, compile, compile_all_of, compile_children, compile_choice, compile_list,
    compile_props, decode_segment, error_text, errors_text, follow, holds, inline_ref,
    is_bare_object, merge_parts, put_all, reason_text, resolve, think_property, tighten,
    tighten_prop, tool_errors, tool_schema, with_min_lengths, with_think, ErrorView, Merged,
    SchemaReason, ToolErrorView, MAX_RECURSION_DEPTH,
};
use crate::json::{
    del, fill, get, key_at, lemma_key_at, member_of, put, put_absent, same_json, JsonView, Members,
    NumberView,
};
use crate::text::{contains, lemma_find_from, occurs_at, CharSet};
use crate::tools::ToolDefinition;
use crate::trim::{law_replacing, lemma_until, split, split_from, until};

verus! {

// ---------------------------------------------------------------------------
// Members
// ---------------------------------------------------------------------------
/// Filling in keeps what is there and adds, of each missing key, the first
/// member that there is.
proof fn lemma_fill_get(o: Members, more: Members, i: int, k: Seq<char>)
    requires
        distinct_keys(o),
        0 <= i,
    ensures
        distinct_keys(fill(o, more, i)),
        get(fill(o, more, i), k) == if get(o, k) is Some {
            get(o, k)
        } else {
            match key_at(more, k, i) {
                Some(j) => Some(more[j].1),
                None => None,
            }
        },
    decreases more.len() - i,
{
    if i < more.len() {
        let p = put_absent(o, more[i].0, more[i].1);
        lemma_put_absent(o, more[i].0, more[i].1);
        lemma_fill_get(p, more, i + 1, k);
    }
}

/// Setting several members sets each of them, and keeps the others.
proof fn lemma_put_all_get(props: Members, more: Members, i: int, k: Seq<char>)
    requires
        distinct_keys(props),
        distinct_keys(more),
        0 <= i,
    ensures
        distinct_keys(put_all(props, more, i)),
        get(put_all(props, more, i), k) == match key_at(more, k, i) {
            Some(j) => Some(more[j].1),
            None => get(props, k),
        },
    decreases more.len() - i,
{
    if i < more.len() {
        let p = put(props, more[i].0, more[i].1);
        lemma_put(props, more[i].0, more[i].1);
        lemma_put_all_get(p, more, i + 1, k);
        if more[i].0 == k {
            lemma_key_at(more, k, i + 1);
            if let Some(j) = key_at(more, k, i + 1) {
                assert(more[i].0 != more[j].0);
            }
        }
    }
}

// ---------------------------------------------------------------------------
// References
// ---------------------------------------------------------------------------
/// A reference gives way to what it leads to, whole: every member of the
/// definition is there, unless one of that name stands beside the reference,
/// which wins, and nothing else is. The schema means what the inlined one means.
pub proof fn law_reference_is_inlined(
    o: Members,
    root: JsonView,
    reference: Seq<char>,
    m: Members,
    depth: nat,
    path: Seq<char>,
)
    requires
        distinct_keys(o),
        get(o, "$ref"@) == Some(JsonView::Str(reference)),
        resolve(reference, root) == Some(JsonView::Object(m)),
        get(m, "$ref"@) is None,
        depth <= MAX_RECURSION_DEPTH,
    ensures
        inline_ref(o, root, 0) is Ok,
        ({
            let r = inline_ref(o, root, 0)->Ok_0;
            &&& distinct_keys(r)
            &&& get(r, "$ref"@) is None
            &&& forall|k: Seq<char>|
                #![trigger get(r, k)]
                k != "$ref"@ ==> get(r, k) == if get(o, k) is Some {
                    get(o, k)
                } else {
                    get(m, k)
                }
            &&& compile(JsonView::Object(o), root, depth, path) == compile(
                JsonView::Object(r),
                root,
                depth,
                path,
            )
        }),
{
    let d = del(o, "$ref"@);
    let r = fill(d, m, 0);
    lemma_del(o, "$ref"@);
    lemma_fill_get(d, m, 0, "$ref"@);
    reveal_with_fuel(inline_ref, 2);
    assert(inline_ref(r, root, 1) == Ok::<Members, SchemaReason>(r));
    assert(inline_ref(o, root, 0) == Ok::<Members, SchemaReason>(r));
    assert(inline_ref(r, root, 0) == Ok::<Members, SchemaReason>(r));
    assert forall|k: Seq<char>|
        #![trigger get(r, k)]
        k != "$ref"@ implies get(r, k) == if get(o, k) is Some {
        get(o, k)
    } else {
        get(m, k)
    } by {
        lemma_fill_get(d, m, 0, k);
        assert(get(d, k) == get(o, k));
    }
}

/// A schema whose reference leads nowhere is left with it.
pub proof fn law_dead_reference_stays(o: Members, root: JsonView, reference: Seq<char>)
    requires
        get(o, "$ref"@) == Some(JsonView::Str(reference)),
        resolve(reference, root) is None,
    ensures
        inline_ref(o, root, 0) == Ok::<Members, SchemaReason>(o),
{
}

proof fn lemma_plain_segment(s: Seq<char>)
    requires
        forall|i: int| 0 <= i < s.len() ==> #[trigger] s[i] != '~',
    ensures
        decode_segment(s) == s,
{
    reveal_strlit("~1");
    reveal_strlit("~0");
    let e = Seq::<char>::empty();
    lemma_no_tilde(s, "~1"@);
    lemma_no_tilde(s, "~0"@);
    law_replacing(s, "~1"@, "/"@, e, e);
    law_replacing(s, "~0"@, "~"@, e, e);
}

proof fn lemma_no_tilde(s: Seq<char>, p: Seq<char>)
    requires
        p.len() == 2,
        p[0] == '~',
        forall|i: int| 0 <= i < s.len() ==> #[trigger] s[i] != '~',
    ensures
        crate::text::find(s, p) is None,
{
    lemma_find_from(s, p, 0);
    if let Some(i) = crate::text::find(s, p) {
        assert(s.subrange(i, i + 2)[0] == s[i]);
    }
}

/// A local reference leads where its segments say: `#/a/b` to the member `b` of
/// the member `a` of the whole, and to nothing where one of them is missing.
pub proof fn law_references_lead_by_their_segments(a: Seq<char>, b: Seq<char>, root: JsonView)
    requires
        forall|i: int| 0 <= i < a.len() ==> #[trigger] a[i] != '~' && a[i] != '/',
        forall|i: int| 0 <= i < b.len() ==> #[trigger] b[i] != '~' && b[i] != '/',
    ensures
        resolve("#/"@ + a, root) == member_of(root, a),
        resolve("#/"@ + a + "/"@ + b, root) == match member_of(root, a) {
            Some(v) => member_of(v, b),
            None => None,
        },
        resolve(a, root) is None || crate::text::starts_with(a, "#/"@),
{
    reveal_strlit("#/");
    reveal_strlit("/");
    lemma_plain_segment(a);
    lemma_plain_segment(b);
    let s = "#/"@ + a;
    assert(s.subrange(0, 2) =~= "#/"@);
    assert(s.skip(2) =~= a);
    lemma_until(a, CharSet::Slash, 0);
    assert(until(a, CharSet::Slash, 0) == a.len());
    assert(a.subrange(0, a.len() as int) =~= a);
    assert(split(a, CharSet::Slash) =~= seq![a]);
    reveal_with_fuel(follow, 3);
    let t = "#/"@ + a + "/"@ + b;
    let u = a + "/"@ + b;
    assert(t.subrange(0, 2) =~= "#/"@);
    assert(t.skip(2) =~= u);
    lemma_until(u, CharSet::Slash, 0);
    let k = until(u, CharSet::Slash, 0);
    assert(u[a.len() as int] == '/');
    if k < a.len() {
        assert(u[k] == a[k]);
    }
    assert(k == a.len());
    assert(u.subrange(0, k) =~= a);
    lemma_until(u, CharSet::Slash, k + 1);
    let l = until(u, CharSet::Slash, k + 1);
    if l < u.len() {
        assert(u[l] == b[l - k - 1]);
    }
    assert(u.subrange(k + 1, l) =~= b);
    reveal_with_fuel(split_from, 3);
    assert(split(u, CharSet::Slash) =~= seq![a, b]);
}

// ---------------------------------------------------------------------------
// The steps of normalising
// ---------------------------------------------------------------------------
proof fn lemma_list_each(
    list: Seq<JsonView>,
    root: JsonView,
    depth: nat,
    prefix: Seq<char>,
    n: nat,
    out: Seq<JsonView>,
)
    requires
        depth <= MAX_RECURSION_DEPTH,
        n <= list.len(),
        compile_list(list, root, depth, prefix, n) == Ok::<Seq<JsonView>, ErrorView>(out),
    ensures
        out.len() == n,
        forall|i: int|
            0 <= i < n ==> compile(
                #[trigger] list[i],
                root,
                depth + 1,
                prefix + dec(i as nat),
            ) == Ok::<JsonView, ErrorView>(out[i]),
    decreases n,
{
    if n > 0 {
        let less = (n - 1) as nat;
        let done = compile_list(list, root, depth, prefix, less)->Ok_0;
        lemma_list_each(list, root, depth, prefix, less, done);
        assert(out.drop_last() =~= done);
    }
}

proof fn lemma_props_each(
    p: Members,
    root: JsonView,
    depth: nat,
    path: Seq<char>,
    n: nat,
    q: Members,
)
    requires
        depth <= MAX_RECURSION_DEPTH,
        n <= p.len(),
        distinct_keys(p),
        compile_props(p, root, depth, path, n) == Ok::<Members, ErrorView>(q),
    ensures
        q.len() == n,
        distinct_keys(q),
        forall|i: int| 0 <= i < n ==> (#[trigger] q[i]).0 == p[i].0,
        forall|i: int|
            0 <= i < n ==> compile(
                (#[trigger] p[i]).1,
                root,
                depth + 1,
                path + "/properties/"@ + p[i].0,
            ) == Ok::<JsonView, ErrorView>(q[i].1),
    decreases n,
{
    if n > 0 {
        let less = (n - 1) as nat;
        let done = compile_props(p, root, depth, path, less)->Ok_0;
        lemma_props_each(p, root, depth, path, less, done);
        let k = p[n - 1].0;
        lemma_key_at(done, k, 0);
        if let Some(i) = key_at(done, k, 0) {
            assert(done[i].0 == p[i].0);
            assert(p[i].0 != p[n - 1].0);
        }
        let w = compile(p[n - 1].1, root, depth + 1, path + "/properties/"@ + k)->Ok_0;
        assert(q == done.push((k, w)));
        lemma_put(done, k, w);
        assert forall|i: int| 0 <= i < n implies (#[trigger] q[i]).0 == p[i].0 by {
            if i < less {
                assert(q[i] == done[i]);
            }
        }
    }
}

/// Alternatives are kept: none of several is lost or changed but by being
/// normalised itself, a single one gives all its members, and all else that the
/// schema says stays.
pub proof fn law_alternatives_are_kept(
    o: Members,
    key: Seq<char>,
    alts: Seq<JsonView>,
    root: JsonView,
    depth: nat,
    path: Seq<char>,
    p: Members,
    k: Seq<char>,
)
    requires
        distinct_keys(o),
        depth <= MAX_RECURSION_DEPTH,
        get(o, key) == Some(JsonView::Array(alts)),
        compile_choice(o, key, root, depth, path) == Ok::<Members, ErrorView>(p),
    ensures
        distinct_keys(p),
        k != key && get(o, k) is Some ==> get(p, k) == get(o, k),
        alts.len() == 0 ==> get(p, key) is None,
        alts.len() == 1 ==> ({
            let inner = compile(alts[0], root, depth + 1, path + "/"@ + key + "/0"@);
            &&& inner is Ok
            &&& inner->Ok_0 matches JsonView::Object(m) ==> (k != key && get(o, k) is None
                ==> get(p, k) == get(m, k))
        }),
        alts.len() > 1 ==> (get(p, key) matches Some(JsonView::Array(list)) && list.len()
            == alts.len() && forall|i: int|
            0 <= i < alts.len() ==> compile(
                #[trigger] alts[i],
                root,
                depth + 1,
                path + "/"@ + key + "/"@ + dec(i as nat),
            ) == Ok::<JsonView, ErrorView>(list[i])),
        alts.len() != 1 && k != key ==> get(p, k) == get(o, k),
{
    lemma_del(o, key);
    if alts.len() == 1 {
        let inner = compile(alts[0], root, depth + 1, path + "/"@ + key + "/0"@)->Ok_0;
        if let JsonView::Object(m) = inner {
            lemma_fill_get(del(o, key), m, 0, k);
        }
    } else if alts.len() > 1 {
        let place = path + "/"@ + key + "/"@;
        let list = compile_list(alts, root, depth, place, alts.len())->Ok_0;
        lemma_list_each(alts, root, depth, place, alts.len(), list);
        lemma_put(o, key, JsonView::Array(list));
    }
}

proof fn lemma_choice_keeps(
    o: Members,
    key: Seq<char>,
    root: JsonView,
    depth: nat,
    path: Seq<char>,
    p: Members,
    k: Seq<char>,
)
    requires
        distinct_keys(o),
        depth <= MAX_RECURSION_DEPTH,
        compile_choice(o, key, root, depth, path) == Ok::<Members, ErrorView>(p),
    ensures
        distinct_keys(p),
        k != key && get(o, k) is Some ==> get(p, k) == get(o, k),
        !(get(o, key) matches Some(JsonView::Array(_))) ==> p == o,
{
    if let Some(JsonView::Array(alts)) = get(o, key) {
        law_alternatives_are_kept(o, key, alts, root, depth, path, p, k);
    }
}

proof fn lemma_add_merged(o: Members, m: Merged, k: Seq<char>)
    requires
        distinct_keys(o),
    ensures
        ({
            let r = add_merged(o, m);
            &&& distinct_keys(r)
            &&& get(o, k) is Some ==> get(r, k) == get(o, k)
            &&& k != "type"@ && k != "properties"@ && k != "required"@ ==> get(r, k) == get(o, k)
            &&& get(o, "type"@) is None ==> get(r, "type"@) == m.kind
            &&& get(o, "properties"@) is None && m.props.len() > 0 ==> get(r, "properties"@)
                == Some(JsonView::Object(m.props))
            &&& get(o, "required"@) is None && m.required.len() > 0 ==> get(r, "required"@)
                == Some(JsonView::Array(m.required))
        }),
{
    lemma_keys();
    let a = match m.kind {
        Some(t) => put_absent(o, "type"@, t),
        None => o,
    };
    if let Some(t) = m.kind {
        lemma_put_absent(o, "type"@, t);
    }
    let b = if m.props.len() > 0 {
        put_absent(a, "properties"@, JsonView::Object(m.props))
    } else {
        a
    };
    lemma_put_absent(a, "properties"@, JsonView::Object(m.props));
    lemma_put_absent(b, "required"@, JsonView::Array(m.required));
    assert("type"@ != "properties"@ && "type"@ != "required"@ && "properties"@ != "required"@);
}

proof fn lemma_all_of_keeps(
    o: Members,
    root: JsonView,
    depth: nat,
    path: Seq<char>,
    p: Members,
    k: Seq<char>,
)
    requires
        distinct_keys(o),
        depth <= MAX_RECURSION_DEPTH,
        compile_all_of(o, root, depth, path) == Ok::<Members, ErrorView>(p),
    ensures
        distinct_keys(p),
        k != "allOf"@ && get(o, k) is Some ==> get(p, k) == get(o, k),
        !(get(o, "allOf"@) matches Some(JsonView::Array(_))) ==> p == o,
{
    if let Some(JsonView::Array(parts)) = get(o, "allOf"@) {
        lemma_del(o, "allOf"@);
        let rest = del(o, "allOf"@);
        if parts.len() == 1 {
            let inner = compile(parts[0], root, depth + 1, path + "/allOf/0"@)->Ok_0;
            if let JsonView::Object(m) = inner {
                lemma_fill_get(rest, m, 0, k);
            }
        } else if parts.len() > 1 {
            let list = compile_list(parts, root, depth, path + "/allOf/"@, parts.len())->Ok_0;
            lemma_add_merged(rest, merge_parts(list), k);
        }
    }
}

proof fn lemma_children_keep(
    o: Members,
    root: JsonView,
    depth: nat,
    path: Seq<char>,
    f: Members,
    k: Seq<char>,
)
    requires
        distinct_keys(o),
        depth <= MAX_RECURSION_DEPTH,
        compile_children(o, root, depth, path) == Ok::<Members, ErrorView>(f),
    ensures
        distinct_keys(f),
        k != "properties"@ && k != "items"@ && k != "additionalProperties"@ ==> get(f, k) == get(
            o,
            k,
        ),
        get(o, "properties"@) matches Some(JsonView::Object(p)) ==> (get(
            f,
            "properties"@,
        ) matches Some(JsonView::Object(q)) && compile_props(p, root, depth, path, p.len()) == Ok::<
            Members,
            ErrorView,
        >(q)),
        !(get(o, "properties"@) matches Some(JsonView::Object(_))) ==> get(f, "properties"@) == get(
            o,
            "properties"@,
        ),
        match get(o, "items"@) {
            Some(v) => get(f, "items"@) is Some && compile(
                v,
                root,
                depth + 1,
                path + "/"@ + "items"@,
            ) == Ok::<JsonView, ErrorView>(get(f, "items"@)->0),
            None => get(f, "items"@) is None,
        },
        match get(o, "additionalProperties"@) {
            Some(JsonView::Object(m)) => get(f, "additionalProperties"@) is Some && compile(
                JsonView::Object(m),
                root,
                depth + 1,
                path + "/"@ + "additionalProperties"@,
            ) == Ok::<JsonView, ErrorView>(get(f, "additionalProperties"@)->0),
            other => get(f, "additionalProperties"@) == other,
        },
{
    lemma_keys();
    let pk = "properties"@;
    let a = match get(o, pk) {
        Some(JsonView::Object(p)) => put(
            o,
            pk,
            JsonView::Object(compile_props(p, root, depth, path, p.len())->Ok_0),
        ),
        _ => o,
    };
    if let Some(JsonView::Object(p)) = get(o, pk) {
        lemma_put(o, pk, JsonView::Object(compile_props(p, root, depth, path, p.len())->Ok_0));
    }
    let ik = "items"@;
    let b = match get(a, ik) {
        Some(v) => put(a, ik, compile(v, root, depth + 1, path + "/"@ + ik)->Ok_0),
        None => a,
    };
    if let Some(v) = get(a, ik) {
        lemma_put(a, ik, compile(v, root, depth + 1, path + "/"@ + ik)->Ok_0);
    }
    let ak = "additionalProperties"@;
    if let Some(JsonView::Object(m)) = get(b, ak) {
        lemma_put(
            b,
            ak,
            compile(JsonView::Object(m), root, depth + 1, path + "/"@ + ak)->Ok_0,
        );
    }
    assert(pk != ik && pk != ak && ik != ak);
}

/// The keys under which schemas stand, or alternatives of them.
pub open spec fn structural(k: Seq<char>) -> bool {
    k == "anyOf"@ || k == "oneOf"@ || k == "allOf"@ || k == "properties"@ || k == "items"@ || k
        == "additionalProperties"@
}

/// The members of a schema, stage by stage.
spec fn staged(
    o: Members,
    root: JsonView,
    depth: nat,
    path: Seq<char>,
    b: Members,
    c: Members,
    d: Members,
    f: Members,
) -> bool {
    &&& compile_choice(o, "anyOf"@, root, depth, path) == Ok::<Members, ErrorView>(b)
    &&& compile_choice(b, "oneOf"@, root, depth, path) == Ok::<Members, ErrorView>(c)
    &&& compile_all_of(c, root, depth, path) == Ok::<Members, ErrorView>(d)
    &&& compile_children(d, root, depth, path) == Ok::<Members, ErrorView>(f)
}

proof fn lemma_staged(o: Members, root: JsonView, depth: nat, path: Seq<char>, r: JsonView) -> (s: (
    Members,
    Members,
    Members,
    Members,
))
    requires
        distinct_keys(o),
        get(o, "$ref"@) is None,
        compile(JsonView::Object(o), root, depth, path) == Ok::<JsonView, ErrorView>(r),
    ensures
        depth <= MAX_RECURSION_DEPTH,
        staged(o, root, depth, path, s.0, s.1, s.2, s.3),
        r == JsonView::Object(s.3),
        distinct_keys(s.0),
        distinct_keys(s.1),
        distinct_keys(s.2),
        distinct_keys(s.3),
        !is_bare_object(s.2),
{
    assert(inline_ref(o, root, 0) == Ok::<Members, SchemaReason>(o));
    let b = compile_choice(o, "anyOf"@, root, depth, path)->Ok_0;
    let c = compile_choice(b, "oneOf"@, root, depth, path)->Ok_0;
    let d = compile_all_of(c, root, depth, path)->Ok_0;
    let f = compile_children(d, root, depth, path)->Ok_0;
    lemma_choice_keeps(o, "anyOf"@, root, depth, path, b, "type"@);
    lemma_choice_keeps(b, "oneOf"@, root, depth, path, c, "type"@);
    lemma_all_of_keeps(c, root, depth, path, d, "type"@);
    lemma_children_keep(d, root, depth, path, f, "type"@);
    (b, c, d, f)
}

/// Whatever a schema says beside the schemas in it is kept as it is: its type,
/// its description, what it requires, its enumeration and all else.
pub proof fn law_schema_keeps_what_it_says(
    o: Members,
    root: JsonView,
    depth: nat,
    path: Seq<char>,
    r: JsonView,
    k: Seq<char>,
)
    requires
        distinct_keys(o),
        get(o, "$ref"@) is None,
        compile(JsonView::Object(o), root, depth, path) == Ok::<JsonView, ErrorView>(r),
        get(o, k) is Some,
        !structural(k),
    ensures
        member_of(r, k) == get(o, k),
{
    let (b, c, d, f) = lemma_staged(o, root, depth, path, r);
    lemma_choice_keeps(o, "anyOf"@, root, depth, path, b, k);
    lemma_choice_keeps(b, "oneOf"@, root, depth, path, c, k);
    lemma_all_of_keeps(c, root, depth, path, d, k);
    lemma_children_keep(d, root, depth, path, f, k);
}

/// Every property of a schema is kept, under its name and in its place, and is
/// what its own schema normalises to; the same holds of its items and of its
/// additional properties.
pub proof fn law_schema_keeps_its_properties(
    o: Members,
    root: JsonView,
    depth: nat,
    path: Seq<char>,
    r: JsonView,
    p: Members,
    i: int,
)
    requires
        distinct_keys(o),
        distinct_keys(p),
        get(o, "$ref"@) is None,
        compile(JsonView::Object(o), root, depth, path) == Ok::<JsonView, ErrorView>(r),
        get(o, "properties"@) == Some(JsonView::Object(p)),
        0 <= i < p.len(),
    ensures
        member_of(r, "properties"@) matches Some(JsonView::Object(q)) && q.len() == p.len()
            && q[i].0 == p[i].0 && compile(
            p[i].1,
            root,
            depth + 1,
            path + "/properties/"@ + p[i].0,
        ) == Ok::<JsonView, ErrorView>(q[i].1),
        get(o, "items"@) matches Some(v) ==> (member_of(r, "items"@) is Some && compile(
            v,
            root,
            depth + 1,
            path + "/"@ + "items"@,
        ) == Ok::<JsonView, ErrorView>(member_of(r, "items"@)->0)),
{
    let (b, c, d, f) = lemma_staged(o, root, depth, path, r);
    lemma_keys();
    lemma_kept_to_children(o, root, depth, path, b, c, d, f, "properties"@);
    lemma_kept_to_children(o, root, depth, path, b, c, d, f, "items"@);
    lemma_children_keep(d, root, depth, path, f, "type"@);
    let q = compile_props(p, root, depth, path, p.len())->Ok_0;
    lemma_props_each(p, root, depth, path, p.len(), q);
}

proof fn lemma_kept_to_children(
    o: Members,
    root: JsonView,
    depth: nat,
    path: Seq<char>,
    b: Members,
    c: Members,
    d: Members,
    f: Members,
    k: Seq<char>,
)
    requires
        distinct_keys(o),
        distinct_keys(b),
        distinct_keys(c),
        depth <= MAX_RECURSION_DEPTH,
        staged(o, root, depth, path, b, c, d, f),
        k != "anyOf"@ && k != "oneOf"@ && k != "allOf"@,
    ensures
        get(o, k) is Some ==> get(d, k) == get(o, k),
{
    lemma_choice_keeps(o, "anyOf"@, root, depth, path, b, k);
    lemma_choice_keeps(b, "oneOf"@, root, depth, path, c, k);
    lemma_all_of_keeps(c, root, depth, path, d, k);
}

/// The items of a schema, and a schema for its additional properties, are what
/// they normalise to; a plain word on additional properties stays.
pub proof fn law_schema_keeps_its_items(
    o: Members,
    root: JsonView,
    depth: nat,
    path: Seq<char>,
    r: JsonView,
)
    requires
        distinct_keys(o),
        get(o, "$ref"@) is None,
        compile(JsonView::Object(o), root, depth, path) == Ok::<JsonView, ErrorView>(r),
    ensures
        get(o, "items"@) matches Some(v) ==> (member_of(r, "items"@) is Some && compile(
            v,
            root,
            depth + 1,
            path + "/"@ + "items"@,
        ) == Ok::<JsonView, ErrorView>(member_of(r, "items"@)->0)),
        get(o, "additionalProperties"@) matches Some(JsonView::Object(m)) ==> (member_of(
            r,
            "additionalProperties"@,
        ) is Some && compile(
            JsonView::Object(m),
            root,
            depth + 1,
            path + "/"@ + "additionalProperties"@,
        ) == Ok::<JsonView, ErrorView>(member_of(r, "additionalProperties"@)->0)),
        get(o, "additionalProperties"@) matches Some(JsonView::Bool(x)) ==> member_of(
            r,
            "additionalProperties"@,
        ) == Some(JsonView::Bool(x)),
{
    let (b, c, d, f) = lemma_staged(o, root, depth, path, r);
    lemma_keys();
    lemma_kept_to_children(o, root, depth, path, b, c, d, f, "additionalProperties"@);
    lemma_kept_to_children(o, root, depth, path, b, c, d, f, "items"@);
    lemma_children_keep(d, root, depth, path, f, "type"@);
}

/// Several alternatives of a schema stay alternatives, each of them normalised,
/// none lost.
pub proof fn law_schema_keeps_its_alternatives(
    o: Members,
    root: JsonView,
    depth: nat,
    path: Seq<char>,
    r: JsonView,
    key: Seq<char>,
    alts: Seq<JsonView>,
    i: int,
)
    requires
        distinct_keys(o),
        get(o, "$ref"@) is None,
        compile(JsonView::Object(o), root, depth, path) == Ok::<JsonView, ErrorView>(r),
        key == "anyOf"@ || key == "oneOf"@,
        get(o, key) == Some(JsonView::Array(alts)),
        alts.len() > 1,
        0 <= i < alts.len(),
    ensures
        member_of(r, key) matches Some(JsonView::Array(list)) && list.len() == alts.len()
            && compile(
            alts[i],
            root,
            depth + 1,
            path + "/"@ + key + "/"@ + dec(i as nat),
        ) == Ok::<JsonView, ErrorView>(list[i]),
{
    let (b, c, d, f) = lemma_staged(o, root, depth, path, r);
    lemma_keys();
    if key == "anyOf"@ {
        law_alternatives_are_kept(o, key, alts, root, depth, path, b, key);
        lemma_choice_keeps(b, "oneOf"@, root, depth, path, c, key);
    } else {
        lemma_choice_keeps(o, "anyOf"@, root, depth, path, b, key);
        law_alternatives_are_kept(b, key, alts, root, depth, path, c, key);
    }
    lemma_all_of_keeps(c, root, depth, path, d, key);
    lemma_children_keep(d, root, depth, path, f, key);
    assert(alts[i] == alts[i]);
}

/// A single alternative is the schema: what it says, the schema says, where it
/// says nothing of its own.
pub proof fn law_single_alternative_is_the_schema(
    o: Members,
    root: JsonView,
    depth: nat,
    path: Seq<char>,
    r: JsonView,
    alt: JsonView,
    m: Members,
    k: Seq<char>,
)
    requires
        distinct_keys(o),
        get(o, "$ref"@) is None,
        compile(JsonView::Object(o), root, depth, path) == Ok::<JsonView, ErrorView>(r),
        get(o, "anyOf"@) == Some(JsonView::Array(seq![alt])),
        compile(alt, root, depth + 1, path + "/"@ + "anyOf"@ + "/0"@) == Ok::<JsonView, ErrorView>(
            JsonView::Object(m),
        ),
        get(o, k) is None,
        get(m, k) is Some,
        !structural(k),
    ensures
        member_of(r, k) == get(m, k),
{
    let (b, c, d, f) = lemma_staged(o, root, depth, path, r);
    lemma_keys();
    law_alternatives_are_kept(o, "anyOf"@, seq![alt], root, depth, path, b, k);
    lemma_choice_keeps(b, "oneOf"@, root, depth, path, c, k);
    lemma_all_of_keeps(c, root, depth, path, d, k);
    lemma_children_keep(d, root, depth, path, f, k);
}

// ---------------------------------------------------------------------------
// allOf
// ---------------------------------------------------------------------------
proof fn lemma_add_new_keeps(list: Seq<JsonView>, more: Seq<JsonView>, i: int, name: Seq<char>)
    requires
        0 <= i,
    ensures
        list.contains(JsonView::Str(name)) || (exists|j: int|
            i <= j < more.len() && #[trigger] more[j] == JsonView::Str(name)) ==> add_new(
            list,
            more,
            i,
        ).contains(JsonView::Str(name)),
    decreases more.len() - i,
{
    let s = JsonView::Str(name);
    if i < more.len() {
        let next = if holds(list, more[i]) {
            list
        } else {
            list.push(more[i])
        };
        lemma_add_new_keeps(next, more, i + 1, name);
        if list.contains(s) {
            let k = choose|k: int| 0 <= k < list.len() && list[k] == s;
            assert(next[k] == s);
        }
        if more[i] == s {
            if holds(list, s) {
                let k = choose|k: int| 0 <= k < list.len() && #[trigger] same_json(list[k], s);
                assert(list[k] == s);
                assert(next[k] == s);
            } else {
                assert(next[next.len() - 1] == s);
            }
        }
    }
}

/// The names that a part requires.
pub open spec fn requires_name(part: JsonView, name: Seq<char>) -> bool {
    member_of(part, "required"@) matches Some(JsonView::Array(r)) && r.contains(
        JsonView::Str(name),
    )
}

proof fn lemma_merged_required(parts: Seq<JsonView>, i: int, name: Seq<char>)
    requires
        0 <= i < parts.len(),
        requires_name(parts[i], name),
    ensures
        merge_parts(parts).required.contains(JsonView::Str(name)),
    decreases parts.len(),
{
    let less = parts.drop_last();
    let m = merge_parts(less);
    if i < less.len() {
        assert(less[i] == parts[i]);
        lemma_merged_required(less, i, name);
    }
    if let JsonView::Object(o) = parts.last() {
        if let Some(JsonView::Array(r)) = get(o, "required"@) {
            lemma_add_new_keeps(m.required, r, 0, name);
            if i == less.len() {
                let k = choose|k: int| 0 <= k < r.len() && r[k] == JsonView::Str(name);
                assert(r[k] == JsonView::Str(name));
            }
        }
    }
}

proof fn lemma_merged_props(parts: Seq<JsonView>, k: Seq<char>)
    requires
        forall|i: int| 0 <= i < parts.len() ==> well_keyed(#[trigger] parts[i]),
    ensures
        distinct_keys(merge_parts(parts).props),
        forall|i: int|
            0 <= i < parts.len() && has_property(#[trigger] parts[i], k) ==> get(
                merge_parts(parts).props,
                k,
            ) is Some,
        parts.len() > 0 && has_property(parts.last(), k) ==> get(merge_parts(parts).props, k)
            == member_of(member_of(parts.last(), "properties"@)->0, k),
    decreases parts.len(),
{
    if parts.len() > 0 {
        let less = parts.drop_last();
        assert forall|i: int| 0 <= i < less.len() implies well_keyed(#[trigger] less[i]) by {
            assert(less[i] == parts[i]);
        }
        lemma_merged_props(less, k);
        let m = merge_parts(less);
        assert(well_keyed(parts[parts.len() - 1]));
        if let JsonView::Object(o) = parts.last() {
            if let Some(JsonView::Object(p)) = get(o, "properties"@) {
                lemma_put_all_get(m.props, p, 0, k);
            }
        }
        assert forall|i: int|
            0 <= i < parts.len() && has_property(#[trigger] parts[i], k) implies get(
            merge_parts(parts).props,
            k,
        ) is Some by {
            if i < less.len() {
                assert(less[i] == parts[i]);
            }
        }
    }
}

/// The keys of the properties of a schema are different ones.
pub open spec fn well_keyed(part: JsonView) -> bool {
    member_of(part, "properties"@) matches Some(JsonView::Object(p)) ==> distinct_keys(p)
}

/// A schema has a property of this name.
pub open spec fn has_property(part: JsonView, k: Seq<char>) -> bool {
    member_of(part, "properties"@) matches Some(JsonView::Object(p)) && get(p, k) is Some
}

proof fn lemma_merged_kind(parts: Seq<JsonView>, i: int)
    requires
        0 <= i < parts.len(),
        member_of(parts[i], "type"@) is Some,
        forall|j: int| 0 <= j < i ==> member_of(#[trigger] parts[j], "type"@) is None,
    ensures
        merge_parts(parts).kind == member_of(parts[i], "type"@),
    decreases parts.len(),
{
    let less = parts.drop_last();
    if i < less.len() {
        assert(less[i] == parts[i]);
        assert forall|j: int| 0 <= j < i implies member_of(#[trigger] less[j], "type"@) is None by {
            assert(less[j] == parts[j]);
        }
        lemma_merged_kind(less, i);
    } else {
        lemma_no_kind(less, parts);
    }
}

proof fn lemma_no_kind(less: Seq<JsonView>, parts: Seq<JsonView>)
    requires
        less.len() <= parts.len(),
        forall|j: int| 0 <= j < less.len() ==> #[trigger] less[j] == parts[j],
        forall|j: int| 0 <= j < less.len() ==> member_of(#[trigger] parts[j], "type"@) is None,
    ensures
        merge_parts(less).kind is None,
    decreases less.len(),
{
    if less.len() > 0 {
        lemma_no_kind(less.drop_last(), parts);
        assert(less[less.len() - 1] == parts[less.len() - 1]);
        assert(member_of(parts[less.len() - 1], "type"@) is None);
    }
}

/// All the parts of a schema are in it: where it says nothing of its own, it
/// requires every name that a part requires, has every property that a part
/// has, and is of the type that the first part with one names.
pub proof fn law_parts_are_merged(
    o: Members,
    root: JsonView,
    depth: nat,
    path: Seq<char>,
    d: Members,
    parts: Seq<JsonView>,
    list: Seq<JsonView>,
    i: int,
    name: Seq<char>,
)
    requires
        distinct_keys(o),
        depth <= MAX_RECURSION_DEPTH,
        get(o, "allOf"@) == Some(JsonView::Array(parts)),
        parts.len() > 1,
        list.len() == parts.len(),
        forall|j: int|
            0 <= j < parts.len() ==> compile(
                #[trigger] parts[j],
                root,
                depth + 1,
                path + "/allOf/"@ + dec(j as nat),
            ) == Ok::<JsonView, ErrorView>(list[j]),
        compile_all_of(o, root, depth, path) == Ok::<Members, ErrorView>(d),
        0 <= i < list.len(),
        forall|j: int| 0 <= j < list.len() ==> well_keyed(#[trigger] list[j]),
    ensures
        get(d, "allOf"@) is None,
        get(o, "required"@) is None && requires_name(list[i], name) ==> (get(
            d,
            "required"@,
        ) matches Some(JsonView::Array(r)) && r.contains(JsonView::Str(name))),
        get(o, "properties"@) is None && has_property(list[i], name) ==> (get(
            d,
            "properties"@,
        ) matches Some(JsonView::Object(q)) && get(q, name) is Some),
        get(o, "properties"@) is None && i == list.len() - 1 && has_property(list[i], name) ==> (
        get(d, "properties"@) matches Some(JsonView::Object(q)) && get(q, name) == member_of(
            member_of(list[i], "properties"@)->0,
            name,
        )),
        get(o, "type"@) is None && member_of(list[i], "type"@) is Some && (forall|j: int|
            0 <= j < i ==> member_of(#[trigger] list[j], "type"@) is None) ==> get(d, "type"@)
            == member_of(list[i], "type"@),
{
    lemma_keys();
    lemma_del(o, "allOf"@);
    let rest = del(o, "allOf"@);
    let place = path + "/allOf/"@;
    let made = compile_list(parts, root, depth, place, parts.len())->Ok_0;
    lemma_list_each(parts, root, depth, place, parts.len(), made);
    assert(made =~= list) by {
        assert forall|j: int| 0 <= j < made.len() implies made[j] == list[j] by {
            assert(parts[j] == parts[j]);
        }
    }
    let m = merge_parts(list);
    lemma_add_merged(rest, m, "allOf"@);
    lemma_add_merged(rest, m, name);
    if requires_name(list[i], name) {
        lemma_merged_required(list, i, name);
    }
    lemma_merged_props(list, name);
    if has_property(list[i], name) {
        assert(get(m.props, name) is Some);
        if m.props.len() == 0 {
            lemma_get(m.props, name);
        }
    }
    if get(o, "type"@) is None && member_of(list[i], "type"@) is Some && (forall|j: int|
        0 <= j < i ==> member_of(#[trigger] list[j], "type"@) is None) {
        lemma_merged_kind(list, i);
    }
    assert("allOf"@ != "type"@ && "allOf"@ != "properties"@ && "allOf"@ != "required"@);
}

/// What the parts of a schema require, the normalised schema requires.
pub proof fn law_schema_requires_what_its_parts_require(
    o: Members,
    root: JsonView,
    depth: nat,
    path: Seq<char>,
    r: JsonView,
    parts: Seq<JsonView>,
    list: Seq<JsonView>,
    i: int,
    name: Seq<char>,
)
    requires
        distinct_keys(o),
        get(o, "$ref"@) is None,
        get(o, "anyOf"@) is None,
        get(o, "oneOf"@) is None,
        get(o, "required"@) is None,
        compile(JsonView::Object(o), root, depth, path) == Ok::<JsonView, ErrorView>(r),
        get(o, "allOf"@) == Some(JsonView::Array(parts)),
        parts.len() > 1,
        list.len() == parts.len(),
        forall|j: int|
            0 <= j < parts.len() ==> compile(
                #[trigger] parts[j],
                root,
                depth + 1,
                path + "/allOf/"@ + dec(j as nat),
            ) == Ok::<JsonView, ErrorView>(list[j]),
        0 <= i < list.len(),
        forall|j: int| 0 <= j < list.len() ==> well_keyed(#[trigger] list[j]),
    ensures
        requires_name(list[i], name) ==> requires_name(r, name),
        get(o, "properties"@) is None && has_property(list[i], name) ==> has_property(r, name),
{
    let (b, c, d, f) = lemma_staged(o, root, depth, path, r);
    assert(b == o && c == o);
    lemma_keys();
    law_parts_are_merged(o, root, depth, path, d, parts, list, i, name);
    lemma_children_keep(d, root, depth, path, f, "required"@);
    if get(o, "properties"@) is None && has_property(list[i], name) {
        let q = get(d, "properties"@)->0->Object_0;
        let q2 = compile_props(q, root, depth, path, q.len())->Ok_0;
        lemma_merged_props(list, name);
        lemma_del(o, "allOf"@);
        let place = path + "/allOf/"@;
        let made = compile_list(parts, root, depth, place, parts.len())->Ok_0;
        lemma_list_each(parts, root, depth, place, parts.len(), made);
        assert(made =~= list) by {
            assert forall|j: int| 0 <= j < made.len() implies made[j] == list[j] by {
                assert(parts[j] == parts[j]);
            }
        }
        lemma_add_merged(del(o, "allOf"@), merge_parts(list), name);
        if merge_parts(list).props.len() == 0 {
            lemma_get(merge_parts(list).props, name);
        }
        assert(q == merge_parts(list).props);
        lemma_props_each(q, root, depth, path, q.len(), q2);
        lemma_get(q, name);
        let v = get(q, name)->0;
        let j = choose|j: int| 0 <= j < q.len() && #[trigger] q[j] == (name, v);
        assert(q2[j].0 == name);
        lemma_get_at(q2, j);
    }
}

/// A value that is neither a truth value nor an object is no schema to speak of
/// and is left alone; an object of which nothing is said is rejected.
pub proof fn law_other_schemas(v: JsonView, o: Members, root: JsonView, depth: nat, path: Seq<char>)
    requires
        depth <= MAX_RECURSION_DEPTH,
    ensures
        !(v is Bool) && !(v is Object) ==> compile(v, root, depth, path) == Ok::<
            JsonView,
            ErrorView,
        >(v),
        get(o, "$ref"@) is None && get(o, "anyOf"@) is None && get(o, "oneOf"@) is None && get(
            o,
            "allOf"@,
        ) is None && get(o, "enum"@) is None && get(o, "type"@) == Some(JsonView::Str("object"@))
            && get(o, "properties"@) is None && get(o, "patternProperties"@) is None && get(
            o,
            "additionalProperties"@,
        ) is None && get(o, "unevaluatedProperties"@) is None && get(o, "propertyNames"@) is None
            ==> compile(JsonView::Object(o), root, depth, path) == Err::<JsonView, ErrorView>(
            ErrorView { path, reason: SchemaReason::EmptyObjectNoStructuralKey },
        ),
{
}

// ---------------------------------------------------------------------------
// Tightening
// ---------------------------------------------------------------------------
/// A required string that says nothing of its length must not be empty any
/// more; all else that it says stays, and so does everything that is not such a
/// string.
pub proof fn law_strings_are_tightened(o: Members, k: Seq<char>)
    requires
        distinct_keys(o),
    ensures
        ({
            let t = tighten_prop(JsonView::Object(o));
            &&& get(o, "type"@) == Some(JsonView::Str("string"@)) && get(o, "minLength"@) is None
                ==> member_of(t, "minLength"@) == Some(JsonView::Number(NumberView::Unsigned(1)))
            &&& k != "minLength"@ ==> member_of(t, k) == get(o, k)
            &&& get(o, "minLength"@) is Some ==> t == JsonView::Object(o)
            &&& get(o, "type"@) != Some(JsonView::Str("string"@)) ==> t == JsonView::Object(o)
        }),
{
    lemma_put(o, "minLength"@, JsonView::Number(NumberView::Unsigned(1)));
}

proof fn lemma_tighten_twice(v: JsonView)
    requires
        v matches JsonView::Object(o) ==> distinct_keys(o),
    ensures
        tighten_prop(tighten_prop(v)) == tighten_prop(v),
{
    if let JsonView::Object(o) = v {
        lemma_put(o, "minLength"@, JsonView::Number(NumberView::Unsigned(1)));
    }
}

proof fn lemma_tighten(props: Members, required: Seq<JsonView>, i: int, k: Seq<char>)
    requires
        distinct_keys(props),
        get(props, k) matches Some(JsonView::Object(o)) ==> distinct_keys(o),
        0 <= i,
    ensures
        distinct_keys(tighten(props, required, i)),
        (get(tighten(props, required, i), k) is Some) == (get(props, k) is Some),
        get(props, k) matches Some(v) ==> get(tighten(props, required, i), k) == Some(
            if exists|j: int| i <= j < required.len() && #[trigger] required[j] == JsonView::Str(k) {
                tighten_prop(v)
            } else {
                v
            },
        ),
    decreases required.len() - i,
{
    if i < required.len() {
        let next = match required[i] {
            JsonView::Str(n) => match get(props, n) {
                Some(v) => put(props, n, tighten_prop(v)),
                None => props,
            },
            _ => props,
        };
        if let JsonView::Str(n) = required[i] {
            if let Some(v) = get(props, n) {
                lemma_put(props, n, tighten_prop(v));
            }
        }
        if let Some(v) = get(props, k) {
            lemma_tighten_twice(v);
            if let JsonView::Object(o) = v {
                lemma_put(o, "minLength"@, JsonView::Number(NumberView::Unsigned(1)));
            }
        }
        lemma_tighten(next, required, i + 1, k);
        if let Some(v) = get(props, k) {
            let later = exists|j: int|
                i + 1 <= j < required.len() && #[trigger] required[j] == JsonView::Str(k);
            let now = exists|j: int|
                i <= j < required.len() && #[trigger] required[j] == JsonView::Str(k);
            if required[i] == JsonView::Str(k) {
                assert(now);
                assert(get(next, k) == Some(tighten_prop(v)));
            } else {
                assert(get(next, k) == Some(v));
                if now {
                    let j = choose|j: int|
                        i <= j < required.len() && #[trigger] required[j] == JsonView::Str(k);
                    assert(i + 1 <= j);
                }
                assert(now == later);
            }
        }
    }
}

/// Tightening touches the required properties alone, and each of them; what
/// else a schema says stays.
pub proof fn law_required_properties_are_tightened(
    o: Members,
    p: Members,
    required: Seq<JsonView>,
    k: Seq<char>,
)
    requires
        distinct_keys(o),
        distinct_keys(p),
        get(p, k) matches Some(JsonView::Object(v)) ==> distinct_keys(v),
        get(o, "required"@) == Some(JsonView::Array(required)),
        get(o, "properties"@) == Some(JsonView::Object(p)),
    ensures
        ({
            let r = with_min_lengths(JsonView::Object(o));
            &&& k != "properties"@ ==> member_of(r, k) == get(o, k)
            &&& member_of(r, "properties"@) matches Some(JsonView::Object(q)) && (get(
                q,
                k,
            ) is Some) == (get(p, k) is Some) && (required.contains(JsonView::Str(k)) ==> (get(
                p,
                k,
            ) matches Some(v) ==> get(q, k) == Some(tighten_prop(v)))) && (!required.contains(
                JsonView::Str(k),
            ) ==> get(q, k) == get(p, k))
        }),
{
    lemma_tighten(p, required, 0, k);
    lemma_put(o, "properties"@, JsonView::Object(tighten(p, required, 0)));
    if required.contains(JsonView::Str(k)) {
        let j = choose|j: int| 0 <= j < required.len() && required[j] == JsonView::Str(k);
        assert(required[j] == JsonView::Str(k));
    }
}

/// A scratchpad is added as the first property, a text that is not required;
/// the properties that were there follow, and all else stays. One that is there
/// is left alone.
pub proof fn law_scratchpad_is_added(o: Members, p: Members, k: Seq<char>)
    requires
        distinct_keys(o),
        distinct_keys(p),
        get(o, "properties"@) == Some(JsonView::Object(p)),
    ensures
        get(p, "_think"@) is Some ==> with_think(JsonView::Object(o)) == JsonView::Object(o),
        get(p, "_think"@) is None ==> ({
            let r = with_think(JsonView::Object(o));
            &&& k != "properties"@ ==> member_of(r, k) == get(o, k)
            &&& member_of(r, "properties"@) matches Some(JsonView::Object(q)) && q.len() > 0
                && q[0].0 == "_think"@ && member_of(q[0].1, "type"@) == Some(
                JsonView::Str("string"@),
            ) && (k != "_think"@ ==> get(q, k) == get(p, k))
        }),
{
    lemma_key_at(p, "_think"@, 0);
    if get(p, "_think"@) is None {
        let start = seq![("_think"@, think_property())];
        lemma_put_all_get(start, p, 0, k);
        lemma_put_all_first(start, p, 0);
        let q = put_all(start, p, 0);
        lemma_put(o, "properties"@, JsonView::Object(q));
        lemma_key_at(start, k, 0);
        reveal_with_fuel(key_at, 3);
    }
}

proof fn lemma_put_all_first(props: Members, more: Members, i: int)
    requires
        props.len() > 0,
        0 <= i,
        forall|j: int| 0 <= j < more.len() ==> (#[trigger] more[j]).0 != props[0].0,
    ensures
        put_all(props, more, i).len() > 0,
        put_all(props, more, i)[0] == props[0],
    decreases more.len() - i,
{
    if i < more.len() {
        assert(more[i].0 != props[0].0);
        lemma_key_at(props, more[i].0, 0);
        let next = put(props, more[i].0, more[i].1);
        assert(next[0] == props[0]);
        lemma_put_all_first(next, more, i + 1);
    }
}

// ---------------------------------------------------------------------------
// Errors
// ---------------------------------------------------------------------------
/// Every tool whose schema cannot be encoded is reported under its name, with
/// the place and the reason, and no other is.
pub proof fn law_each_bad_tool_is_reported(
    tools: Seq<ToolDefinition>,
    i: int,
    e: ErrorView,
    x: ToolErrorView,
)
    ensures
        0 <= i < tools.len() && compile(
            tool_schema(tools[i]),
            tool_schema(tools[i]),
            0,
            "#"@,
        ) == Err::<JsonView, ErrorView>(e) ==> tool_errors(tools).contains(
            ToolErrorView {
                tool_name: tools[i].function.name@,
                path: e.path,
                reason: e.reason,
            },
        ),
        tool_errors(tools).contains(x) ==> exists|j: int|
            0 <= j < tools.len() && (#[trigger] tools[j]).function.name@ == x.tool_name,
        tool_errors(tools).len() <= tools.len(),
    decreases tools.len(),
{
    if tools.len() > 0 {
        let less = tools.drop_last();
        let before = tool_errors(less);
        let all = tool_errors(tools);
        law_each_bad_tool_is_reported(less, i, e, x);
        let want = ToolErrorView {
            tool_name: tools[i].function.name@,
            path: e.path,
            reason: e.reason,
        };
        if 0 <= i < less.len() && before.contains(want) {
            let k = choose|k: int| 0 <= k < before.len() && before[k] == want;
            assert(all[k] == want);
        }
        if i == less.len() && all.len() > before.len() {
            assert(all[before.len() as int] == all.last());
        }
        if all.contains(x) {
            let k = choose|k: int| 0 <= k < all.len() && all[k] == x;
            if k < before.len() {
                assert(before[k] == x);
                let j = choose|j: int|
                    0 <= j < less.len() && (#[trigger] less[j]).function.name@ == x.tool_name;
                assert(tools[j] == less[j]);
            } else {
                assert(tools[tools.len() - 1].function.name@ == x.tool_name);
            }
        }
    }
}

/// What a client is told names every tool that is wrong, the place and the
/// reason.
pub proof fn law_errors_are_all_told(errors: Seq<ToolErrorView>, i: int)
    requires
        0 <= i < errors.len(),
    ensures
        contains(errors_text(errors), error_text(errors[i])),
        contains(error_text(errors[i]), errors[i].tool_name),
        contains(error_text(errors[i]), errors[i].path),
        contains(error_text(errors[i]), reason_text(errors[i].reason)),
    decreases errors.len(),
{
    let e = errors[i];
    let t = error_text(e);
    let n = "tool `"@.len() as int;
    assert(t.subrange(n, n + e.tool_name.len()) =~= e.tool_name);
    assert(occurs_at(t, e.tool_name, n));
    let n2 = n + e.tool_name.len() + "` at `"@.len();
    assert(t.subrange(n2, n2 + e.path.len()) =~= e.path);
    assert(occurs_at(t, e.path, n2));
    let n3 = n2 + e.path.len() + "`: "@.len();
    let why = reason_text(e.reason);
    assert(t.subrange(n3, n3 + why.len()) =~= why);
    assert(occurs_at(t, why, n3));
    let all = errors_text(errors);
    if errors.len() == 1 {
        assert(all.subrange(0, all.len() as int) =~= t);
        assert(occurs_at(all, t, 0));
    } else if i < errors.len() - 1 {
        let less = errors.drop_last();
        law_errors_are_all_told(less, i);
        let before = errors_text(less);
        let k = choose|k: int| occurs_at(before, error_text(less[i]), k);
        assert(all.subrange(k, k + t.len()) =~= before.subrange(k, k + t.len()));
        assert(occurs_at(all, t, k));
    } else {
        let k = all.len() - t.len();
        assert(all.subrange(k, all.len() as int) =~= t);
        assert(occurs_at(all, t, k));
    }
}

/// A schema without schemas in it, of another type than an object, is taken as
/// it is.
pub proof fn law_plain_schema_is_taken(o: Members, root: JsonView, depth: nat, path: Seq<char>)
    requires
        depth <= MAX_RECURSION_DEPTH,
        get(o, "$ref"@) is None,
        get(o, "anyOf"@) is None,
        get(o, "oneOf"@) is None,
        get(o, "allOf"@) is None,
        get(o, "properties"@) is None,
        get(o, "items"@) is None,
        get(o, "additionalProperties"@) is None,
        get(o, "enum"@) is None,
        get(o, "type"@) == Some(JsonView::Str("string"@)),
    ensures
        compile(JsonView::Object(o), root, depth, path) == Ok::<JsonView, ErrorView>(
            JsonView::Object(o),
        ),
{
    reveal_strlit("string");
    reveal_strlit("object");
    assert("string"@[0] != "object"@[0]);
    assert("string"@.len() == 6 && "object"@.len() == 6);
}

/// A tool is checked by what it says it takes; one that says nothing takes an
/// object of no properties.
pub proof fn law_tools_are_checked_by_their_parameters(t: ToolDefinition)
    ensures
        t.function.parameters matches Some(j) ==> tool_schema(t) == j@,
        t.function.parameters is None ==> member_of(tool_schema(t), "type"@) == Some(
            JsonView::Str("object"@),
        ) && member_of(tool_schema(t), "properties"@) == Some(JsonView::Object(Seq::empty())),
{
    lemma_keys();
    reveal_with_fuel(key_at, 3);
    assert("type"@ != "properties"@);
}

} // verus!
