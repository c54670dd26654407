//! What a normalised schema looks like, and that it is left alone.
use vstd::prelude::*;
use crate::decimal::dec;
use crate::grammar::schema::{
    add_merged, compile, compile_all_of, compile_children, compile_choice, compile_list,
    compile_members, compile_props, compile_under, inline_ref, is_bare_object, merge_inner,
    merge_parts, put_all, ErrorView, SchemaReason, MAX_RECURSION_DEPTH,
};
use crate::json::{del, fill, get, key_at, lemma_key_at, put, put_absent, JsonView, Members};

verus! {

// ---------------------------------------------------------------------------
// Members
// ---------------------------------------------------------------------------
/// No key stands twice.
pub open spec fn distinct_keys(o: Members) -> bool {
    forall|i: int, j: int| 0 <= i < j < o.len() ==> (#[trigger] o[i]).0 != (#[trigger] o[j]).0
}

pub proof fn lemma_get_at(o: Members, i: int)
    requires
        distinct_keys(o),
        0 <= i < o.len(),
    ensures
        get(o, o[i].0) == Some(o[i].1),
        key_at(o, o[i].0, 0) == Some(i),
{
    lemma_key_at(o, o[i].0, 0);
    let k = key_at(o, o[i].0, 0);
    if k is None {
        assert(o[i].0 != o[i].0);
    } else if k->0 < i {
        assert(o[k->0].0 != o[i].0);
    } else if k->0 > i {
        assert(o[i].0 != o[k->0].0);
    }
}

pub proof fn lemma_get(o: Members, key: Seq<char>)
    ensures
        match get(o, key) {
            Some(v) => exists|i: int| 0 <= i < o.len() && #[trigger] o[i] == (key, v),
            None => forall|i: int| 0 <= i < o.len() ==> (#[trigger] o[i]).0 != key,
        },
{
    lemma_key_at(o, key, 0);
    if let Some(i) = key_at(o, key, 0) {
        assert(o[i] == (key, o[i].1));
    }
}

proof fn lemma_get_absent(o: Members, key: Seq<char>)
    requires
        forall|i: int| 0 <= i < o.len() ==> (#[trigger] o[i]).0 != key,
    ensures
        get(o, key) is None,
{
    lemma_key_at(o, key, 0);
}

pub proof fn lemma_put(o: Members, key: Seq<char>, v: JsonView)
    requires
        distinct_keys(o),
    ensures
        distinct_keys(put(o, key, v)),
        get(put(o, key, v), key) == Some(v),
        forall|k: Seq<char>| k != key ==> #[trigger] get(put(o, key, v), k) == get(o, k),
        get(o, key) == Some(v) ==> put(o, key, v) == o,
        put(o, key, v).len() >= o.len(),
        put(o, key, v).len() > 0,
{
    lemma_key_at(o, key, 0);
    let p = put(o, key, v);
    assert(distinct_keys(p)) by {
        assert forall|i: int, j: int| 0 <= i < j < p.len() implies (#[trigger] p[i]).0 != (
        #[trigger] p[j]).0 by {
            if j < o.len() {
                assert(o[i].0 != o[j].0);
            } else {
                assert(o[i].0 != key);
            }
        }
    }
    match key_at(o, key, 0) {
        Some(i) => {
            lemma_get_at(p, i);
            if get(o, key) == Some(v) {
                assert(p =~= o);
            }
        },
        None => {
            lemma_get_at(p, o.len() as int);
        },
    }
    assert forall|k: Seq<char>| k != key implies #[trigger] get(p, k) == get(o, k) by {
        lemma_get(o, k);
        match get(o, k) {
            Some(w) => {
                let i = choose|i: int| 0 <= i < o.len() && #[trigger] o[i] == (k, w);
                assert(p[i] == o[i]);
                lemma_get_at(p, i);
            },
            None => {
                assert forall|i: int| 0 <= i < p.len() implies (#[trigger] p[i]).0 != k by {
                    if i < o.len() {
                        assert(o[i].0 != k);
                    }
                }
                lemma_get_absent(p, k);
            },
        }
    }
}

pub proof fn lemma_del(o: Members, key: Seq<char>)
    requires
        distinct_keys(o),
    ensures
        distinct_keys(del(o, key)),
        get(del(o, key), key) is None,
        forall|k: Seq<char>| k != key ==> #[trigger] get(del(o, key), k) == get(o, k),
{
    lemma_key_at(o, key, 0);
    let p = del(o, key);
    match key_at(o, key, 0) {
        None => {},
        Some(at) => {
            let last = o.len() - 1;
            assert forall|i: int| 0 <= i < p.len() implies #[trigger] p[i] == o[if i == at {
                last
            } else {
                i
            }] by {}
            assert(distinct_keys(p)) by {
                assert forall|i: int, j: int| 0 <= i < j < p.len() implies (#[trigger] p[i]).0 != (
                #[trigger] p[j]).0 by {
                    let a = if i == at {
                        last
                    } else {
                        i
                    };
                    let b = if j == at {
                        last
                    } else {
                        j
                    };
                    if a < b {
                        assert(o[a].0 != o[b].0);
                    } else {
                        assert(o[b].0 != o[a].0);
                    }
                }
            }
            assert forall|i: int| 0 <= i < p.len() implies (#[trigger] p[i]).0 != key by {
                let a = if i == at {
                    last
                } else {
                    i
                };
                if a < at {
                    assert(o[a].0 != o[at].0);
                } else {
                    assert(o[at].0 != o[a].0);
                }
            }
            lemma_get_absent(p, key);
            assert forall|k: Seq<char>| k != key implies #[trigger] get(p, k) == get(o, k) by {
                lemma_get(o, k);
                match get(o, k) {
                    Some(w) => {
                        let i = choose|i: int| 0 <= i < o.len() && #[trigger] o[i] == (k, w);
                        let at_p = if i == last {
                            at
                        } else {
                            i
                        };
                        assert(p[at_p] == o[i]);
                        lemma_get_at(p, at_p);
                    },
                    None => {
                        assert forall|i: int| 0 <= i < p.len() implies (#[trigger] p[i]).0 != k by {
                            let a = if i == at {
                                last
                            } else {
                                i
                            };
                            assert(o[a].0 != k);
                        }
                        lemma_get_absent(p, k);
                    },
                }
            }
        },
    }
}

pub proof fn lemma_put_absent(o: Members, key: Seq<char>, v: JsonView)
    requires
        distinct_keys(o),
    ensures
        distinct_keys(put_absent(o, key, v)),
        get(put_absent(o, key, v), key) == match get(o, key) {
            Some(w) => Some(w),
            None => Some(v),
        },
        forall|k: Seq<char>| k != key ==> #[trigger] get(put_absent(o, key, v), k) == get(o, k),
{
    lemma_put(o, key, v);
    lemma_key_at(o, key, 0);
}

proof fn lemma_fill(o: Members, more: Members, i: int)
    requires
        distinct_keys(o),
        distinct_keys(more),
        0 <= i,
    ensures
        distinct_keys(fill(o, more, i)),
        forall|k: Seq<char>| #[trigger]
            get(fill(o, more, i), k) == get(o, k) || (get(o, k) is None && get(
                fill(o, more, i),
                k,
            ) == get(more, k)),
    decreases more.len() - i,
{
    if i < more.len() {
        let (key, v) = more[i];
        let p = put_absent(o, key, v);
        lemma_put_absent(o, key, v);
        lemma_fill(p, more, i + 1);
        lemma_get_at(more, i);
        assert forall|k: Seq<char>| #[trigger]
            get(fill(o, more, i), k) == get(o, k) || (get(o, k) is None && get(
                fill(o, more, i),
                k,
            ) == get(more, k)) by {
            assert(get(fill(p, more, i + 1), k) == get(p, k) || (get(p, k) is None && get(
                fill(p, more, i + 1),
                k,
            ) == get(more, k)));
            if k == key {
                assert(get(p, k) is Some);
            }
        }
    }
}

// ---------------------------------------------------------------------------
// The normal form
// ---------------------------------------------------------------------------
/// No reference stands in the value, at any depth, and no key twice in an
/// object of it.
pub open spec fn reference_free(j: JsonView) -> bool
    decreases j,
{
    match j {
        JsonView::Array(a) => all_free(a),
        JsonView::Object(o) => distinct_keys(o) && members_free(o),
        _ => true,
    }
}

/// No reference stands in the values.
pub open spec fn all_free(a: Seq<JsonView>) -> bool
    decreases a,
{
    a.len() == 0 || (all_free(a.drop_last()) && reference_free(a.last()))
}

/// None of the members is a reference, and none stands in their values.
pub open spec fn members_free(o: Members) -> bool
    decreases o,
{
    o.len() == 0 || (members_free(o.drop_last()) && o.last().0 != "$ref"@ && reference_free(
        o.last().1,
    ))
}

proof fn lemma_all_free(a: Seq<JsonView>, i: int)
    requires
        all_free(a),
        0 <= i < a.len(),
    ensures
        reference_free(a[i]),
    decreases a.len(),
{
    if i < a.len() - 1 {
        lemma_all_free(a.drop_last(), i);
    }
}

proof fn lemma_members_free(o: Members, i: int)
    requires
        members_free(o),
        0 <= i < o.len(),
    ensures
        o[i].0 != "$ref"@,
        reference_free(o[i].1),
    decreases o.len(),
{
    if i < o.len() - 1 {
        lemma_members_free(o.drop_last(), i);
    }
}

/// A schema in normal form, `depth` levels down.
pub open spec fn normal(j: JsonView, depth: nat) -> bool
    decreases 34 - depth, 1nat,
{
    &&& depth <= MAX_RECURSION_DEPTH
    &&& match j {
        JsonView::Bool(_) => false,
        JsonView::Object(o) => {
            &&& distinct_keys(o)
            &&& !is_bare_object(o)
            &&& forall|k: Seq<char>|
                #![trigger get(o, k)]
                get(o, k) is Some ==> normal_member(k, get(o, k)->0, depth)
        },
        _ => true,
    }
}

/// A member of a schema in normal form.
pub open spec fn normal_member(k: Seq<char>, v: JsonView, depth: nat) -> bool
    decreases 34 - depth, 0nat,
{
    &&& depth <= MAX_RECURSION_DEPTH
    &&& k != "$ref"@
    &&& k == "enum"@ ==> v != JsonView::Array(Seq::empty())
    &&& k == "anyOf"@ || k == "oneOf"@ ==> match v {
        JsonView::Array(a) => a.len() >= 2 && forall|i: int|
            0 <= i < a.len() ==> normal(#[trigger] a[i], depth + 1),
        _ => true,
    }
    &&& k == "allOf"@ ==> !(v is Array)
    &&& k == "properties"@ ==> match v {
        JsonView::Object(p) => distinct_keys(p) && forall|i: int|
            0 <= i < p.len() ==> normal((#[trigger] p[i]).1, depth + 1),
        _ => true,
    }
    &&& k == "items"@ ==> normal(v, depth + 1)
    &&& k == "additionalProperties"@ && v is Object ==> normal(v, depth + 1)
}

/// What is in normal form is so nearer to the root too.
proof fn lemma_nearer(j: JsonView, depth: nat)
    requires
        normal(j, depth + 1),
    ensures
        normal(j, depth),
    decreases 34 - depth, 1nat,
{
    if let JsonView::Object(o) = j {
        assert forall|k: Seq<char>|
            #![trigger get(o, k)]
            get(o, k) is Some implies normal_member(k, get(o, k)->0, depth) by {
            lemma_member_nearer(k, get(o, k)->0, depth);
        }
    }
}

proof fn lemma_member_nearer(k: Seq<char>, v: JsonView, depth: nat)
    requires
        normal_member(k, v, depth + 1),
    ensures
        normal_member(k, v, depth),
    decreases 34 - depth, 0nat,
{
    if k == "anyOf"@ || k == "oneOf"@ {
        if let JsonView::Array(a) = v {
            assert forall|i: int| 0 <= i < a.len() implies normal(#[trigger] a[i], depth + 1) by {
                lemma_nearer(a[i], depth + 1);
            }
        }
    }
    if k == "properties"@ {
        if let JsonView::Object(p) = v {
            assert forall|i: int| 0 <= i < p.len() implies normal(
                (#[trigger] p[i]).1,
                depth + 1,
            ) by {
                lemma_nearer(p[i].1, depth + 1);
            }
        }
    }
    if k == "items"@ {
        lemma_nearer(v, depth + 1);
    }
    if k == "additionalProperties"@ && v is Object {
        lemma_nearer(v, depth + 1);
    }
}

// ---------------------------------------------------------------------------
// The normal form is left alone
// ---------------------------------------------------------------------------
/// What is in normal form normalises to itself, wherever it stands.
proof fn lemma_left_alone(j: JsonView, root: JsonView, depth: nat, path: Seq<char>)
    requires
        normal(j, depth),
    ensures
        compile(j, root, depth, path) == Ok::<JsonView, ErrorView>(j),
    decreases 34 - depth, 0nat, 0nat,
{
    if let JsonView::Object(o) = j {
        lemma_ref_absent(o, depth);
        assert(inline_ref(o, root, 0) == Ok::<Members, SchemaReason>(o));
        assert(get(o, "enum"@) != Some(JsonView::Array(Seq::empty())));
        lemma_choice_alone(o, "anyOf"@, root, depth, path);
        lemma_choice_alone(o, "oneOf"@, root, depth, path);
        assert(get(o, "allOf"@) is Some ==> normal_member("allOf"@, get(o, "allOf"@)->0, depth));
        assert(compile_all_of(o, root, depth, path) == Ok::<Members, ErrorView>(o));
        lemma_children_alone(o, root, depth, path);
    }
}

proof fn lemma_ref_absent(o: Members, depth: nat)
    requires
        normal(JsonView::Object(o), depth),
    ensures
        get(o, "$ref"@) is None,
{
    if get(o, "$ref"@) is Some {
        assert(normal_member("$ref"@, get(o, "$ref"@)->0, depth));
    }
}

proof fn lemma_list_alone(
    list: Seq<JsonView>,
    root: JsonView,
    depth: nat,
    prefix: Seq<char>,
    n: nat,
)
    requires
        depth <= MAX_RECURSION_DEPTH,
        n <= list.len(),
        forall|i: int| 0 <= i < list.len() ==> normal(#[trigger] list[i], depth + 1),
    ensures
        compile_list(list, root, depth, prefix, n) == Ok::<Seq<JsonView>, ErrorView>(
            list.take(n as int),
        ),
    decreases 33 - depth, 1nat, n,
{
    if n == 0 {
        assert(list.take(0) =~= Seq::<JsonView>::empty());
    } else {
        lemma_list_alone(list, root, depth, prefix, (n - 1) as nat);
        lemma_left_alone(
            list[n - 1],
            root,
            depth + 1,
            prefix + dec((n - 1) as nat),
        );
        assert(list.take(n - 1).push(list[n - 1]) =~= list.take(n as int));
    }
}

proof fn lemma_choice_alone(o: Members, key: Seq<char>, root: JsonView, depth: nat, path: Seq<char>)
    requires
        normal(JsonView::Object(o), depth),
        key == "anyOf"@ || key == "oneOf"@,
    ensures
        compile_choice(o, key, root, depth, path) == Ok::<Members, ErrorView>(o),
    decreases 33 - depth, 2nat, 0nat,
{
    if let Some(JsonView::Array(alts)) = get(o, key) {
        assert(normal_member(key, get(o, key)->0, depth));
        lemma_list_alone(alts, root, depth, path + "/"@ + key + "/"@, alts.len());
        assert(alts.take(alts.len() as int) =~= alts);
        lemma_put(o, key, JsonView::Array(alts));
    }
}

proof fn lemma_props_alone(p: Members, root: JsonView, depth: nat, path: Seq<char>, n: nat)
    requires
        depth <= MAX_RECURSION_DEPTH,
        n <= p.len(),
        distinct_keys(p),
        forall|i: int| 0 <= i < p.len() ==> normal((#[trigger] p[i]).1, depth + 1),
    ensures
        compile_props(p, root, depth, path, n) == Ok::<Members, ErrorView>(p.take(n as int)),
    decreases 33 - depth, 1nat, n,
{
    if n == 0 {
        assert(p.take(0) =~= Seq::<(Seq<char>, JsonView)>::empty());
    } else {
        lemma_props_alone(p, root, depth, path, (n - 1) as nat);
        let (k, v) = p[n - 1];
        lemma_left_alone(v, root, depth + 1, path + "/properties/"@ + k);
        let done = p.take(n - 1);
        lemma_key_at(done, k, 0);
        if let Some(i) = key_at(done, k, 0) {
            assert(done[i] == p[i]);
            assert(p[i].0 != p[n - 1].0);
        }
        assert(done.push((k, v)) =~= p.take(n as int));
    }
}

proof fn lemma_children_alone(o: Members, root: JsonView, depth: nat, path: Seq<char>)
    requires
        normal(JsonView::Object(o), depth),
    ensures
        compile_children(o, root, depth, path) == Ok::<Members, ErrorView>(o),
    decreases 33 - depth, 2nat, 0nat,
{
    if let Some(JsonView::Object(p)) = get(o, "properties"@) {
        assert(normal_member("properties"@, get(o, "properties"@)->0, depth));
        lemma_props_alone(p, root, depth, path, p.len());
        assert(p.take(p.len() as int) =~= p);
        lemma_put(o, "properties"@, JsonView::Object(p));
    }
    if let Some(v) = get(o, "items"@) {
        assert(normal_member("items"@, v, depth));
        lemma_left_alone(v, root, depth + 1, path + "/"@ + "items"@);
        lemma_put(o, "items"@, v);
    }
    if let Some(JsonView::Object(m)) = get(o, "additionalProperties"@) {
        let v = JsonView::Object(m);
        assert(normal_member("additionalProperties"@, v, depth));
        lemma_left_alone(v, root, depth + 1, path + "/"@ + "additionalProperties"@);
        lemma_put(o, "additionalProperties"@, v);
    }
}

// ---------------------------------------------------------------------------
// Normalising leads to the normal form
// ---------------------------------------------------------------------------
/// A schema that holds no reference, or is in normal form already.
spec fn ready(j: JsonView, depth: nat) -> bool {
    reference_free(j) || normal(j, depth)
}

/// Members that hold no reference each, or are in normal form already.
spec fn ready_members(o: Members, depth: nat) -> bool {
    &&& distinct_keys(o)
    &&& forall|k: Seq<char>|
        #![trigger get(o, k)]
        get(o, k) is Some ==> k != "$ref"@ && (reference_free(get(o, k)->0) || normal_member(
            k,
            get(o, k)->0,
            depth,
        ))
}

/// The member with this key, where there is one, is in normal form.
spec fn settled(o: Members, k: Seq<char>, depth: nat) -> bool {
    get(o, k) is Some ==> normal_member(k, get(o, k)->0, depth)
}

/// All members but that with `key` stay, or are added in normal form.
spec fn keeps(o: Members, p: Members, key: Seq<char>, depth: nat) -> bool {
    forall|k: Seq<char>|
        #![trigger get(p, k)]
        k != key ==> get(p, k) == get(o, k) || (get(o, k) is None && get(p, k) is Some
            && normal_member(k, get(p, k)->0, depth))
}

proof fn lemma_ready_after(o: Members, p: Members, key: Seq<char>, depth: nat)
    requires
        ready_members(o, depth),
        distinct_keys(p),
        keeps(o, p, key, depth),
        settled(p, key, depth),
    ensures
        ready_members(p, depth),
        forall|k: Seq<char>| settled(o, k, depth) ==> #[trigger] settled(p, k, depth),
{
    assert forall|k: Seq<char>|
        #![trigger get(p, k)]
        get(p, k) is Some implies k != "$ref"@ && (reference_free(get(p, k)->0) || normal_member(
        k,
        get(p, k)->0,
        depth,
    )) by {
        if k != key && get(p, k) == get(o, k) {
            assert(get(o, k) is Some);
        }
    }
    assert forall|k: Seq<char>| settled(o, k, depth) implies #[trigger] settled(p, k, depth) by {
        if k != key && get(p, k) is Some {
            assert(get(p, k) == get(o, k) || normal_member(k, get(p, k)->0, depth));
        }
    }
}

/// The members of an inner schema in normal form are merged in.
proof fn lemma_merge_inner(o: Members, key: Seq<char>, inner: JsonView, depth: nat)
    requires
        ready_members(o, depth),
        normal(inner, depth + 1),
    ensures
        distinct_keys(merge_inner(del(o, key), inner)),
        keeps(o, merge_inner(del(o, key), inner), key, depth),
        settled(merge_inner(del(o, key), inner), key, depth),
{
    let d = del(o, key);
    let p = merge_inner(d, inner);
    lemma_del(o, key);
    if let JsonView::Object(m) = inner {
        lemma_fill(d, m, 0);
        assert forall|k: Seq<char>|
            #![trigger get(p, k)]
            get(p, k) is Some && get(p, k) != get(d, k) implies normal_member(
            k,
            get(p, k)->0,
            depth,
        ) by {
            assert(get(p, k) == get(m, k));
            lemma_member_nearer(k, get(m, k)->0, depth);
        }
    }
}

proof fn lemma_list_normal(
    list: Seq<JsonView>,
    root: JsonView,
    depth: nat,
    prefix: Seq<char>,
    n: nat,
    out: Seq<JsonView>,
)
    requires
        depth <= MAX_RECURSION_DEPTH,
        n <= list.len(),
        forall|i: int| 0 <= i < list.len() ==> ready(#[trigger] list[i], depth + 1),
        compile_list(list, root, depth, prefix, n) == Ok::<Seq<JsonView>, ErrorView>(out),
    ensures
        out.len() == n,
        forall|i: int| 0 <= i < out.len() ==> normal(#[trigger] out[i], depth + 1),
    decreases 33 - depth, 1nat, n,
{
    if n > 0 {
        let less = (n - 1) as nat;
        let done = compile_list(list, root, depth, prefix, less)->Ok_0;
        lemma_list_normal(list, root, depth, prefix, less, done);
        let place = prefix + dec(less);
        let v = compile(list[n - 1], root, depth + 1, place)->Ok_0;
        lemma_normalises(list[n - 1], root, depth + 1, place, v);
        assert(out == done.push(v));
    }
}

proof fn lemma_choice_settles(
    o: Members,
    key: Seq<char>,
    root: JsonView,
    depth: nat,
    path: Seq<char>,
    p: Members,
)
    requires
        depth <= MAX_RECURSION_DEPTH,
        ready_members(o, depth),
        key == "anyOf"@ || key == "oneOf"@,
        compile_choice(o, key, root, depth, path) == Ok::<Members, ErrorView>(p),
    ensures
        distinct_keys(p),
        keeps(o, p, key, depth),
        settled(p, key, depth),
    decreases 33 - depth, 2nat, 0nat,
{
    lemma_keys();
    match get(o, key) {
        Some(JsonView::Array(alts)) => {
            let v = get(o, key)->0;
            lemma_del(o, key);
            assert(reference_free(v) || normal_member(key, v, depth));
            assert forall|i: int| 0 <= i < alts.len() implies ready(
                #[trigger] alts[i],
                depth + 1,
            ) by {
                if reference_free(v) {
                    lemma_all_free(alts, i);
                }
            }
            if alts.len() == 1 {
                let place = path + "/"@ + key + "/0"@;
                let inner = compile(alts[0], root, depth + 1, place)->Ok_0;
                assert(ready(alts[0], depth + 1));
                lemma_normalises(alts[0], root, depth + 1, place, inner);
                lemma_merge_inner(o, key, inner, depth);
            } else if alts.len() > 1 {
                let place = path + "/"@ + key + "/"@;
                let list = compile_list(alts, root, depth, place, alts.len())->Ok_0;
                lemma_list_normal(alts, root, depth, place, alts.len(), list);
                lemma_put(o, key, JsonView::Array(list));
                assert(normal_member(key, JsonView::Array(list), depth));
            }
        },
        Some(v) => {
            assert(normal_member(key, v, depth));
        },
        None => {},
    }
}

/// The keys that say something here are different ones.
pub proof fn lemma_keys()
    ensures
        "anyOf"@ != "oneOf"@,
        "anyOf"@ != "allOf"@,
        "oneOf"@ != "allOf"@,
        "items"@ != "anyOf"@,
        "items"@ != "oneOf"@,
        "items"@ != "allOf"@,
        "$ref"@ != "enum"@,
        "$ref"@ != "type"@,
        "enum"@ != "type"@,
        "anyOf"@.len() == 5,
        "oneOf"@.len() == 5,
        "allOf"@.len() == 5,
        "items"@.len() == 5,
        "enum"@.len() == 4,
        "$ref"@.len() == 4,
        "type"@.len() == 4,
        "required"@.len() == 8,
        "properties"@.len() == 10,
        "additionalProperties"@.len() == 20,
{
    reveal_strlit("anyOf");
    reveal_strlit("oneOf");
    reveal_strlit("allOf");
    reveal_strlit("items");
    reveal_strlit("enum");
    reveal_strlit("$ref");
    reveal_strlit("type");
    reveal_strlit("required");
    reveal_strlit("properties");
    reveal_strlit("additionalProperties");
    assert("anyOf"@[1] == 'n' && "allOf"@[1] == 'l');
    assert("oneOf"@[0] == 'o' && "items"@[0] == 'i' && "anyOf"@[0] == 'a' && "allOf"@[0] == 'a');
    assert("$ref"@[0] == '$' && "enum"@[0] == 'e' && "type"@[0] == 't');
}

proof fn lemma_put_all_normal(props: Members, more: Members, i: int, depth: nat)
    requires
        0 <= i,
        distinct_keys(props),
        forall|j: int| 0 <= j < props.len() ==> normal((#[trigger] props[j]).1, depth),
        forall|j: int| 0 <= j < more.len() ==> normal((#[trigger] more[j]).1, depth),
    ensures
        distinct_keys(put_all(props, more, i)),
        forall|j: int|
            0 <= j < put_all(props, more, i).len() ==> normal(
                (#[trigger] put_all(props, more, i)[j]).1,
                depth,
            ),
    decreases more.len() - i,
{
    if i < more.len() {
        let (k, v) = more[i];
        let p = put(props, k, v);
        lemma_put(props, k, v);
        lemma_put_values(props, k, v, depth);
        lemma_put_all_normal(p, more, i + 1, depth);
    }
}

proof fn lemma_put_values(props: Members, k: Seq<char>, v: JsonView, depth: nat)
    requires
        forall|j: int| 0 <= j < props.len() ==> normal((#[trigger] props[j]).1, depth),
        normal(v, depth),
    ensures
        forall|j: int|
            0 <= j < put(props, k, v).len() ==> normal((#[trigger] put(props, k, v)[j]).1, depth),
{
    let p = put(props, k, v);
    lemma_key_at(props, k, 0);
    assert forall|j: int| 0 <= j < p.len() implies normal((#[trigger] p[j]).1, depth) by {
        if p[j] != (k, v) {
            assert(p[j] == props[j]);
        }
    }
}

proof fn lemma_merged_normal(parts: Seq<JsonView>, depth: nat)
    requires
        forall|i: int| 0 <= i < parts.len() ==> normal(#[trigger] parts[i], depth),
    ensures
        distinct_keys(merge_parts(parts).props),
        forall|j: int|
            0 <= j < merge_parts(parts).props.len() ==> normal(
                (#[trigger] merge_parts(parts).props[j]).1,
                depth,
            ),
    decreases parts.len(),
{
    if parts.len() > 0 {
        let less = parts.drop_last();
        assert forall|i: int| 0 <= i < less.len() implies normal(#[trigger] less[i], depth) by {
            assert(less[i] == parts[i]);
        }
        lemma_merged_normal(less, depth);
        let last = parts.last();
        assert(normal(parts[parts.len() - 1], depth));
        if let JsonView::Object(o) = last {
            if let Some(JsonView::Object(p)) = get(o, "properties"@) {
                assert(normal_member("properties"@, get(o, "properties"@)->0, depth));
                assert forall|j: int| 0 <= j < p.len() implies normal(
                    (#[trigger] p[j]).1,
                    depth,
                ) by {
                    lemma_nearer(p[j].1, depth);
                }
                lemma_put_all_normal(merge_parts(less).props, p, 0, depth);
            }
        }
    }
}

proof fn lemma_all_of_settles(
    o: Members,
    root: JsonView,
    depth: nat,
    path: Seq<char>,
    p: Members,
)
    requires
        depth <= MAX_RECURSION_DEPTH,
        ready_members(o, depth),
        compile_all_of(o, root, depth, path) == Ok::<Members, ErrorView>(p),
    ensures
        distinct_keys(p),
        keeps(o, p, "allOf"@, depth),
        settled(p, "allOf"@, depth),
    decreases 33 - depth, 2nat, 0nat,
{
    lemma_keys();
    match get(o, "allOf"@) {
        Some(JsonView::Array(parts)) => {
            let v = get(o, "allOf"@)->0;
            let rest = del(o, "allOf"@);
            lemma_del(o, "allOf"@);
            assert(reference_free(v));
            assert forall|i: int| 0 <= i < parts.len() implies ready(
                #[trigger] parts[i],
                depth + 1,
            ) by {
                lemma_all_free(parts, i);
            }
            if parts.len() == 1 {
                let place = path + "/allOf/0"@;
                let inner = compile(parts[0], root, depth + 1, place)->Ok_0;
                assert(ready(parts[0], depth + 1));
                lemma_normalises(parts[0], root, depth + 1, place, inner);
                lemma_merge_inner(o, "allOf"@, inner, depth);
            } else if parts.len() > 1 {
                let place = path + "/allOf/"@;
                let list = compile_list(parts, root, depth, place, parts.len())->Ok_0;
                lemma_list_normal(parts, root, depth, place, parts.len(), list);
                assert(normal(list[0], depth + 1));
                lemma_merged_normal(list, depth + 1);
                let m = merge_parts(list);
                let a = match m.kind {
                    Some(t) => put_absent(rest, "type"@, t),
                    None => rest,
                };
                if let Some(t) = m.kind {
                    lemma_put_absent(rest, "type"@, t);
                    assert(normal_member("type"@, t, depth));
                }
                let props = JsonView::Object(m.props);
                let b = if m.props.len() > 0 {
                    put_absent(a, "properties"@, props)
                } else {
                    a
                };
                lemma_put_absent(a, "properties"@, props);
                assert(normal_member("properties"@, props, depth));
                let required = JsonView::Array(m.required);
                lemma_put_absent(b, "required"@, required);
                assert(normal_member("required"@, required, depth));
                assert(p == add_merged(rest, m));
                assert("type"@ != "allOf"@);
                assert("properties"@ != "allOf"@);
                assert("required"@ != "allOf"@);
                assert(get(a, "allOf"@) is None);
                assert(get(b, "allOf"@) is None);
                assert(get(p, "allOf"@) is None);
                assert forall|k: Seq<char>| #![trigger get(p, k)] k != "allOf"@ implies get(p, k)
                    == get(o, k) || (get(o, k) is None && get(p, k) is Some && normal_member(
                    k,
                    get(p, k)->0,
                    depth,
                )) by {
                    assert(get(rest, k) == get(o, k));
                    assert(get(a, k) == get(rest, k) || k == "type"@);
                    assert(get(b, k) == get(a, k) || k == "properties"@);
                    assert(get(p, k) == get(b, k) || k == "required"@);
                    assert("type"@ != "properties"@ && "type"@ != "required"@ && "properties"@
                        != "required"@);
                }
            }
        },
        Some(v) => {
            assert(normal_member("allOf"@, v, depth));
        },
        None => {},
    }
}

proof fn lemma_props_normal(
    p: Members,
    root: JsonView,
    depth: nat,
    path: Seq<char>,
    n: nat,
    q: Members,
)
    requires
        depth <= MAX_RECURSION_DEPTH,
        n <= p.len(),
        forall|i: int| 0 <= i < p.len() ==> ready((#[trigger] p[i]).1, depth + 1),
        compile_props(p, root, depth, path, n) == Ok::<Members, ErrorView>(q),
    ensures
        distinct_keys(q),
        n > 0 ==> q.len() > 0,
        forall|i: int| 0 <= i < q.len() ==> normal((#[trigger] q[i]).1, depth + 1),
    decreases 33 - depth, 1nat, n,
{
    if n > 0 {
        let less = (n - 1) as nat;
        let done = compile_props(p, root, depth, path, less)->Ok_0;
        lemma_props_normal(p, root, depth, path, less, done);
        let (k, v) = p[n - 1];
        let place = path + "/properties/"@ + k;
        let w = compile(v, root, depth + 1, place)->Ok_0;
        assert(ready(p[n - 1].1, depth + 1));
        lemma_normalises(v, root, depth + 1, place, w);
        lemma_put(done, k, w);
        lemma_put_values(done, k, w, depth + 1);
    }
}

proof fn lemma_under_settles(
    o: Members,
    key: Seq<char>,
    v: JsonView,
    root: JsonView,
    depth: nat,
    path: Seq<char>,
    p: Members,
)
    requires
        depth <= MAX_RECURSION_DEPTH,
        ready_members(o, depth),
        key == "items"@ || (key == "additionalProperties"@ && v is Object),
        get(o, key) == Some(v),
        compile_under(o, key, v, root, depth, path) == Ok::<Members, ErrorView>(p),
    ensures
        distinct_keys(p),
        keeps(o, p, key, depth),
        settled(p, key, depth),
        forall|k: Seq<char>| #[trigger] get(p, k) is Some <==> get(o, k) is Some,
        forall|k: Seq<char>| k != key ==> #[trigger] get(p, k) == get(o, k),
    decreases 33 - depth, 2nat, 0nat,
{
    lemma_keys();
    let place = path + "/"@ + key;
    let w = compile(v, root, depth + 1, place)->Ok_0;
    assert(reference_free(get(o, key)->0) || normal_member(key, get(o, key)->0, depth));
    lemma_normalises(v, root, depth + 1, place, w);
    lemma_put(o, key, w);
    assert(normal_member(key, w, depth));
    assert forall|k: Seq<char>| #[trigger] get(p, k) is Some <==> get(o, k) is Some by {
        if k != key {
            assert(get(p, k) == get(o, k));
        }
    }
}

proof fn lemma_children_settle(
    o: Members,
    root: JsonView,
    depth: nat,
    path: Seq<char>,
    f: Members,
)
    requires
        depth <= MAX_RECURSION_DEPTH,
        ready_members(o, depth),
        !is_bare_object(o),
        settled(o, "enum"@, depth),
        settled(o, "anyOf"@, depth),
        settled(o, "oneOf"@, depth),
        settled(o, "allOf"@, depth),
        compile_children(o, root, depth, path) == Ok::<Members, ErrorView>(f),
    ensures
        normal(JsonView::Object(f), depth),
    decreases 33 - depth, 3nat, 0nat,
{
    lemma_keys();
    let pk = "properties"@;
    let a = match get(o, pk) {
        Some(JsonView::Object(p)) => put(
            o,
            pk,
            JsonView::Object(compile_props(p, root, depth, path, p.len())->Ok_0),
        ),
        _ => o,
    };
    match get(o, pk) {
        Some(JsonView::Object(p)) => {
            let v = get(o, pk)->0;
            assert(reference_free(v) || normal_member(pk, v, depth));
            assert forall|i: int| 0 <= i < p.len() implies ready(
                (#[trigger] p[i]).1,
                depth + 1,
            ) by {
                if reference_free(v) {
                    lemma_members_free(p, i);
                }
            }
            let q = compile_props(p, root, depth, path, p.len())->Ok_0;
            lemma_props_normal(p, root, depth, path, p.len(), q);
            lemma_put(o, pk, JsonView::Object(q));
            assert(normal_member(pk, JsonView::Object(q), depth));
        },
        Some(v) => {
            assert(normal_member(pk, v, depth));
        },
        None => {},
    }
    assert(keeps(o, a, pk, depth));
    lemma_ready_after(o, a, pk, depth);
    let b = match get(a, "items"@) {
        Some(v) => compile_under(a, "items"@, v, root, depth, path)->Ok_0,
        None => a,
    };
    if let Some(v) = get(a, "items"@) {
        lemma_under_settles(a, "items"@, v, root, depth, path, b);
    }
    assert(keeps(a, b, "items"@, depth));
    lemma_ready_after(a, b, "items"@, depth);
    let ak = "additionalProperties"@;
    match get(b, ak) {
        Some(JsonView::Object(m)) => {
            lemma_under_settles(b, ak, JsonView::Object(m), root, depth, path, f);
        },
        Some(v) => {
            assert(normal_member(ak, v, depth));
        },
        None => {},
    }
    assert(keeps(b, f, ak, depth));
    lemma_ready_after(b, f, ak, depth);
    assert(settled(f, "enum"@, depth)) by {
        assert(settled(a, "enum"@, depth));
        assert(settled(b, "enum"@, depth));
    }
    assert(settled(f, "anyOf"@, depth)) by {
        assert(settled(a, "anyOf"@, depth));
        assert(settled(b, "anyOf"@, depth));
    }
    assert(settled(f, "oneOf"@, depth)) by {
        assert(settled(a, "oneOf"@, depth));
        assert(settled(b, "oneOf"@, depth));
    }
    assert(settled(f, "allOf"@, depth)) by {
        assert(settled(a, "allOf"@, depth));
        assert(settled(b, "allOf"@, depth));
    }
    assert(settled(f, pk, depth)) by {
        assert(settled(b, pk, depth));
    }
    assert(settled(f, "items"@, depth));
    assert(settled(f, ak, depth));
    assert forall|k: Seq<char>|
        #![trigger get(f, k)]
        get(f, k) is Some implies normal_member(k, get(f, k)->0, depth) by {
        assert(k != "$ref"@);
        if k == "enum"@ || k == "anyOf"@ || k == "oneOf"@ || k == "allOf"@ || k == pk || k
            == "items"@ || k == ak {
            assert(settled(f, k, depth));
        }
    }
    assert(!is_bare_object(f)) by {
        lemma_bare_keys(o, f);
    }
}

/// Members that have the keys of others, the same type, and properties where
/// those have some, are bare only where those are.
proof fn lemma_bare_keys(o: Members, f: Members)
    requires
        !is_bare_object(o),
        forall|k: Seq<char>| #[trigger] get(f, k) is Some <==> get(o, k) is Some,
        get(f, "type"@) == get(o, "type"@),
        get(o, "properties"@) matches Some(JsonView::Object(p)) && p.len() > 0 ==> (get(
            f,
            "properties"@,
        ) matches Some(JsonView::Object(q)) && q.len() > 0),
    ensures
        !is_bare_object(f),
{
    assert(get(f, "patternProperties"@) is Some <==> get(o, "patternProperties"@) is Some);
    assert(get(f, "additionalProperties"@) is Some <==> get(o, "additionalProperties"@) is Some);
    assert(get(f, "unevaluatedProperties"@) is Some <==> get(o, "unevaluatedProperties"@) is Some);
    assert(get(f, "propertyNames"@) is Some <==> get(o, "propertyNames"@) is Some);
}

/// What a schema without references normalises to is in normal form.
proof fn lemma_normalises(s: JsonView, root: JsonView, depth: nat, path: Seq<char>, r: JsonView)
    requires
        ready(s, depth),
        compile(s, root, depth, path) == Ok::<JsonView, ErrorView>(r),
    ensures
        normal(r, depth),
    decreases 34 - depth, 0nat, 0nat,
{
    if normal(s, depth) {
        lemma_left_alone(s, root, depth, path);
    } else {
        match s {
            JsonView::Bool(true) => {
                let none = Seq::<(Seq<char>, JsonView)>::empty();
                assert forall|k: Seq<char>|
                    #![trigger get(none, k)]
                    get(none, k) is Some implies normal_member(k, get(none, k)->0, depth) by {}
            },
            JsonView::Object(o) => {
                lemma_keys();
                assert forall|k: Seq<char>|
                    #![trigger get(o, k)]
                    get(o, k) is Some implies k != "$ref"@ && reference_free(get(o, k)->0) by {
                    lemma_get(o, k);
                    let i = choose|i: int|
                        0 <= i < o.len() && #[trigger] o[i] == (k, get(o, k)->0);
                    lemma_members_free(o, i);
                }
                assert(get(o, "$ref"@) is None);
                assert(ready_members(o, depth));
                assert(compile_members(o, root, depth, path) == Ok::<JsonView, ErrorView>(r));
                assert(settled(o, "enum"@, depth));
                let b = compile_choice(o, "anyOf"@, root, depth, path)->Ok_0;
                lemma_choice_settles(o, "anyOf"@, root, depth, path, b);
                lemma_ready_after(o, b, "anyOf"@, depth);
                assert(settled(b, "enum"@, depth));
                let c = compile_choice(b, "oneOf"@, root, depth, path)->Ok_0;
                lemma_choice_settles(b, "oneOf"@, root, depth, path, c);
                lemma_ready_after(b, c, "oneOf"@, depth);
                assert(settled(c, "enum"@, depth) && settled(c, "anyOf"@, depth));
                let d = compile_all_of(c, root, depth, path)->Ok_0;
                lemma_all_of_settles(c, root, depth, path, d);
                lemma_ready_after(c, d, "allOf"@, depth);
                assert(settled(d, "enum"@, depth) && settled(d, "anyOf"@, depth) && settled(
                    d,
                    "oneOf"@,
                    depth,
                ));
                let f = compile_children(d, root, depth, path)->Ok_0;
                lemma_children_settle(d, root, depth, path, f);
            },
            _ => {},
        }
    }
}

/// A normalised schema is left alone: what a schema without references
/// normalises to normalises to itself. References are left out because what
/// one leads to is taken from the whole schema, which normalising changes;
/// an object whose keys repeat is no JSON object.
pub proof fn law_normalised_is_left_alone(schema: JsonView, r: JsonView)
    requires
        reference_free(schema),
        compile(schema, schema, 0, "#"@) == Ok::<JsonView, ErrorView>(r),
    ensures
        compile(r, r, 0, "#"@) == Ok::<JsonView, ErrorView>(r),
{
    lemma_normalises(schema, schema, 0, "#"@, r);
    lemma_left_alone(r, r, 0, "#"@);
}

} // verus!
