//! Tool schemas, normalised for a grammar without loosening them.
//!
//! References are inlined, empty and single alternatives are dropped or
//! flattened, `allOf` is merged. What could only be encoded by accepting more
//! than the schema does is an error that names its place.
use vstd::prelude::*;
use crate::decimal::dec_u64;
use crate::decimal::dec;
use crate::json::{
    insert, insert_absent, insert_all_absent, json_same, lookup, remove, Json, JsonNumber,
};
use crate::json::{
    del, fill, get, has_key, json_views, lemma_json_views, lemma_json_views_push,
    lemma_member_views, lemma_member_views_push, member_of, member_views, put, put_absent,
    same_json, JsonView, Members, NumberView,
};
use crate::text::{begins, chars_of, same, string_of_all, CharSet};
use crate::text::starts_with;
use crate::tools::ToolDefinition;
use crate::trim::{char_views, part, replace_chars, split_of};
use crate::trim::{replace, split};

verus! {

/// How deep schemas may nest.
pub const MAX_RECURSION_DEPTH: usize = 32;

/// Why a schema cannot be encoded.
#[derive(Debug, Clone, Copy, PartialEq, Eq, Structural)]
pub enum SchemaReason {
    /// `enum: []` allows no value.
    EmptyEnum,
    /// An object without properties and without a key that says what other
    /// members it may have.
    EmptyObjectNoStructuralKey,
    /// The schema `false` allows no value.
    BoolFalseSchema,
    /// The schema nests too deep.
    DepthExceeded,
}

/// What is said of a [`SchemaReason`].
pub open spec fn reason_text(r: SchemaReason) -> Seq<char> {
    match r {
        SchemaReason::EmptyEnum => "empty `enum: []` — no valid values"@,
        SchemaReason::EmptyObjectNoStructuralKey => {
            "object schema has no `properties` and no `additionalProperties` / `patternProperties` / `unevaluatedProperties` / `propertyNames` — cannot be encoded without loosening"@
        },
        SchemaReason::BoolFalseSchema => "`false` schema accepts no values"@,
        SchemaReason::DepthExceeded => {
            "schema recursion exceeded 32 levels (probable `$ref` cycle)"@
        },
    }
}

impl SchemaReason {
    /// The reason in words.
    pub fn text(&self) -> (r: String)
        ensures
            r@ == reason_text(*self),
    {
        match self {
            SchemaReason::EmptyEnum => "empty `enum: []` — no valid values".to_owned(),
            SchemaReason::EmptyObjectNoStructuralKey => {
                "object schema has no `properties` and no `additionalProperties` / `patternProperties` / `unevaluatedProperties` / `propertyNames` — cannot be encoded without loosening".to_owned()
            },
            SchemaReason::BoolFalseSchema => "`false` schema accepts no values".to_owned(),
            SchemaReason::DepthExceeded => {
                "schema recursion exceeded 32 levels (probable `$ref` cycle)".to_owned()
            },
        }
    }
}

/// A schema that cannot be encoded: the place and the reason.
#[derive(Debug, PartialEq, Eq)]
pub struct SchemaValidationError {
    pub path: String,
    pub reason: SchemaReason,
}

/// What a [`SchemaValidationError`] says.
pub struct ErrorView {
    pub path: Seq<char>,
    pub reason: SchemaReason,
}

impl View for SchemaValidationError {
    type V = ErrorView;

    open spec fn view(&self) -> ErrorView {
        ErrorView { path: self.path@, reason: self.reason }
    }
}

/// A tool whose schema cannot be encoded.
#[derive(Debug, PartialEq, Eq)]
pub struct ToolSchemaError {
    pub tool_name: String,
    pub path: String,
    pub reason: SchemaReason,
}

/// What a [`ToolSchemaError`] says.
pub struct ToolErrorView {
    pub tool_name: Seq<char>,
    pub path: Seq<char>,
    pub reason: SchemaReason,
}

impl View for ToolSchemaError {
    type V = ToolErrorView;

    open spec fn view(&self) -> ToolErrorView {
        ToolErrorView { tool_name: self.tool_name@, path: self.path@, reason: self.reason }
    }
}

/// An error in words.
pub open spec fn error_text(e: ToolErrorView) -> Seq<char> {
    "tool `"@ + e.tool_name + "` at `"@ + e.path + "`: "@ + reason_text(e.reason)
}

impl ToolSchemaError {
    /// The error in words.
    pub fn text(&self) -> (r: String)
        ensures
            r@ == error_text(self@),
    {
        let mut r = "tool `".to_owned();
        r.append(self.tool_name.as_str());
        r.append("` at `");
        r.append(self.path.as_str());
        r.append("`: ");
        r.append(self.reason.text().as_str());
        r
    }
}

// ---------------------------------------------------------------------------
// The normalisation
// ---------------------------------------------------------------------------
/// A segment of a reference with its escapes undone.
pub open spec fn decode_segment(s: Seq<char>) -> Seq<char> {
    replace(replace(s, "~1"@, "/"@), "~0"@, "~"@)
}

/// What the segments, from the `i`th on, lead to.
pub open spec fn follow(segments: Seq<Seq<char>>, i: int, current: JsonView) -> Option<JsonView>
    decreases segments.len() - i,
{
    if i < 0 || i >= segments.len() {
        Some(current)
    } else {
        match member_of(current, decode_segment(segments[i])) {
            Some(v) => follow(segments, i + 1, v),
            None => None,
        }
    }
}

/// What a local reference `#/a/b` leads to.
pub open spec fn resolve(reference: Seq<char>, root: JsonView) -> Option<JsonView> {
    if starts_with(reference, "#/"@) {
        follow(split(reference.skip(2), CharSet::Slash), 0, root)
    } else {
        None
    }
}

/// The members with a resolvable reference replaced by what it leads to, and
/// so on while that holds a reference itself; members that stand beside a
/// reference win. A reference to `false` allows no value, and one that leads
/// on and on is a cycle.
pub open spec fn inline_ref(o: Members, root: JsonView, hops: nat) -> Result<Members, SchemaReason>
    decreases MAX_RECURSION_DEPTH - hops,
{
    match get(o, "$ref"@) {
        Some(JsonView::Str(s)) => match resolve(s, root) {
            Some(JsonView::Object(m)) => if hops >= MAX_RECURSION_DEPTH {
                Err(SchemaReason::DepthExceeded)
            } else {
                inline_ref(fill(del(o, "$ref"@), m, 0), root, hops + 1)
            },
            Some(JsonView::Bool(false)) => Err(SchemaReason::BoolFalseSchema),
            Some(_) => Ok(del(o, "$ref"@)),
            None => Ok(o),
        },
        _ => Ok(o),
    }
}

/// The members that an inner schema adds to those around it.
pub open spec fn merge_inner(o: Members, inner: JsonView) -> Members {
    match inner {
        JsonView::Object(m) => fill(o, m, 0),
        _ => o,
    }
}

/// Whether the members describe an object of which nothing is said.
pub open spec fn is_bare_object(o: Members) -> bool {
    &&& get(o, "type"@) == Some(JsonView::Str("object"@))
    &&& !(get(o, "properties"@) matches Some(JsonView::Object(p)) && p.len() > 0)
    &&& !has_key(o, "patternProperties"@)
    &&& !has_key(o, "additionalProperties"@)
    &&& !has_key(o, "unevaluatedProperties"@)
    &&& !has_key(o, "propertyNames"@)
}

/// Whether `list` holds a value equal to `v`.
pub open spec fn holds(list: Seq<JsonView>, v: JsonView) -> bool {
    exists|i: int| 0 <= i < list.len() && #[trigger] same_json(list[i], v)
}

/// What the parts of an `allOf` amount to.
pub struct Merged {
    pub kind: Option<JsonView>,
    pub props: Members,
    pub required: Seq<JsonView>,
}

/// `props` with the members of `more`, from the `i`th on, set.
pub open spec fn put_all(props: Members, more: Members, i: int) -> Members
    decreases more.len() - i,
{
    if i < 0 || i >= more.len() {
        props
    } else {
        put_all(put(props, more[i].0, more[i].1), more, i + 1)
    }
}

/// `list` with the values of `more`, from the `i`th on, that it does not hold.
pub open spec fn add_new(list: Seq<JsonView>, more: Seq<JsonView>, i: int) -> Seq<JsonView>
    decreases more.len() - i,
{
    if i < 0 || i >= more.len() {
        list
    } else {
        add_new(
            if holds(list, more[i]) {
                list
            } else {
                list.push(more[i])
            },
            more,
            i + 1,
        )
    }
}

/// One part more: the first type stays, later properties win, required names
/// are collected once.
pub open spec fn merge_part(m: Merged, part: JsonView) -> Merged {
    match part {
        JsonView::Object(o) => Merged {
            kind: if m.kind is None {
                get(o, "type"@)
            } else {
                m.kind
            },
            props: match get(o, "properties"@) {
                Some(JsonView::Object(p)) => put_all(m.props, p, 0),
                _ => m.props,
            },
            required: match get(o, "required"@) {
                Some(JsonView::Array(r)) => add_new(m.required, r, 0),
                _ => m.required,
            },
        },
        _ => m,
    }
}

/// The parts merged.
pub open spec fn merge_parts(parts: Seq<JsonView>) -> Merged
    decreases parts.len(),
{
    if parts.len() == 0 {
        Merged { kind: None, props: Seq::empty(), required: Seq::empty() }
    } else {
        merge_part(merge_parts(parts.drop_last()), parts.last())
    }
}

/// The members with what the parts amount to, where it is not there.
pub open spec fn add_merged(o: Members, m: Merged) -> Members {
    let a = match m.kind {
        Some(t) => put_absent(o, "type"@, t),
        None => o,
    };
    let b = if m.props.len() > 0 {
        put_absent(a, "properties"@, JsonView::Object(m.props))
    } else {
        a
    };
    if m.required.len() > 0 {
        put_absent(b, "required"@, JsonView::Array(m.required))
    } else {
        b
    }
}

/// The normalised schema, or the first place where it cannot be encoded.
pub open spec fn compile(
    schema: JsonView,
    root: JsonView,
    depth: nat,
    path: Seq<char>,
) -> Result<JsonView, ErrorView>
    decreases 34 - depth, 0nat, 0nat,
{
    if depth > MAX_RECURSION_DEPTH {
        Err(ErrorView { path, reason: SchemaReason::DepthExceeded })
    } else {
        match schema {
            JsonView::Bool(true) => Ok(JsonView::Object(Seq::empty())),
            JsonView::Bool(false) => Err(
                ErrorView { path, reason: SchemaReason::BoolFalseSchema },
            ),
            JsonView::Object(o) => {
                match inline_ref(o, root, 0) {
                    Err(reason) => Err(ErrorView { path, reason }),
                    Ok(a) => compile_members(a, root, depth, path),
                }
            },
            _ => Ok(schema),
        }
    }
}

/// The members of a schema without a reference, normalised.
pub open spec fn compile_members(
    a: Members,
    root: JsonView,
    depth: nat,
    path: Seq<char>,
) -> Result<JsonView, ErrorView>
    decreases 33 - depth, 4nat, 0nat,
{
    if get(a, "enum"@) == Some(JsonView::Array(Seq::empty())) {
        Err(ErrorView { path: path + "/enum"@, reason: SchemaReason::EmptyEnum })
    } else {
        match compile_choice(a, "anyOf"@, root, depth, path) {
            Err(e) => Err(e),
            Ok(b) => match compile_choice(b, "oneOf"@, root, depth, path) {
                Err(e) => Err(e),
                Ok(c) => match compile_all_of(c, root, depth, path) {
                    Err(e) => Err(e),
                    Ok(d) => if is_bare_object(d) {
                        Err(ErrorView { path, reason: SchemaReason::EmptyObjectNoStructuralKey })
                    } else {
                        match compile_children(d, root, depth, path) {
                            Err(e) => Err(e),
                            Ok(f) => Ok(JsonView::Object(f)),
                        }
                    },
                },
            },
        }
    }
}

/// Alternatives: none are dropped, a single one is merged in, several are
/// normalised each.
pub open spec fn compile_choice(
    o: Members,
    key: Seq<char>,
    root: JsonView,
    depth: nat,
    path: Seq<char>,
) -> Result<Members, ErrorView>
    decreases 33 - depth, 2nat, 0nat,
{
    match get(o, key) {
        Some(JsonView::Array(alts)) => if depth > MAX_RECURSION_DEPTH {
            Ok(o)
        } else if alts.len() == 0 {
            Ok(del(o, key))
        } else if alts.len() == 1 {
            match compile(alts[0], root, depth + 1, path + "/"@ + key + "/0"@) {
                Err(e) => Err(e),
                Ok(inner) => Ok(merge_inner(del(o, key), inner)),
            }
        } else {
            match compile_list(alts, root, depth, path + "/"@ + key + "/"@, alts.len()) {
                Err(e) => Err(e),
                Ok(list) => Ok(put(o, key, JsonView::Array(list))),
            }
        },
        _ => Ok(o),
    }
}

/// The first `n` of a list of schemas, normalised each.
pub open spec fn compile_list(
    list: Seq<JsonView>,
    root: JsonView,
    depth: nat,
    prefix: Seq<char>,
    n: nat,
) -> Result<Seq<JsonView>, ErrorView>
    decreases 33 - depth, 1nat, n,
{
    if n == 0 || n > list.len() || depth > MAX_RECURSION_DEPTH {
        Ok(Seq::empty())
    } else {
        match compile_list(list, root, depth, prefix, (n - 1) as nat) {
            Err(e) => Err(e),
            Ok(done) => match compile(
                list[n - 1],
                root,
                depth + 1,
                prefix + dec((n - 1) as nat),
            ) {
                Err(e) => Err(e),
                Ok(v) => Ok(done.push(v)),
            },
        }
    }
}

/// `allOf`: none are dropped, a single one is merged in, several are
/// normalised each and merged together.
pub open spec fn compile_all_of(
    o: Members,
    root: JsonView,
    depth: nat,
    path: Seq<char>,
) -> Result<Members, ErrorView>
    decreases 33 - depth, 2nat, 0nat,
{
    match get(o, "allOf"@) {
        Some(JsonView::Array(parts)) => if depth > MAX_RECURSION_DEPTH {
            Ok(o)
        } else if parts.len() == 0 {
            Ok(del(o, "allOf"@))
        } else if parts.len() == 1 {
            match compile(parts[0], root, depth + 1, path + "/allOf/0"@) {
                Err(e) => Err(e),
                Ok(inner) => Ok(merge_inner(del(o, "allOf"@), inner)),
            }
        } else {
            match compile_list(parts, root, depth, path + "/allOf/"@, parts.len()) {
                Err(e) => Err(e),
                Ok(list) => Ok(add_merged(del(o, "allOf"@), merge_parts(list))),
            }
        },
        _ => Ok(o),
    }
}

/// The first `n` properties, normalised each.
pub open spec fn compile_props(
    props: Members,
    root: JsonView,
    depth: nat,
    path: Seq<char>,
    n: nat,
) -> Result<Members, ErrorView>
    decreases 33 - depth, 1nat, n,
{
    if n == 0 || n > props.len() || depth > MAX_RECURSION_DEPTH {
        Ok(Seq::empty())
    } else {
        match compile_props(props, root, depth, path, (n - 1) as nat) {
            Err(e) => Err(e),
            Ok(done) => {
                let (k, v) = props[n - 1];
                match compile(v, root, depth + 1, path + "/properties/"@ + k) {
                    Err(e) => Err(e),
                    Ok(w) => Ok(put(done, k, w)),
                }
            },
        }
    }
}

/// The schema under one key, normalised.
pub open spec fn compile_under(
    o: Members,
    key: Seq<char>,
    v: JsonView,
    root: JsonView,
    depth: nat,
    path: Seq<char>,
) -> Result<Members, ErrorView>
    decreases 33 - depth, 1nat, 0nat,
{
    if depth > MAX_RECURSION_DEPTH {
        Ok(o)
    } else {
        match compile(v, root, depth + 1, path + "/"@ + key) {
            Err(e) => Err(e),
            Ok(w) => Ok(put(o, key, w)),
        }
    }
}

/// The schemas inside: of the properties, of the items, and of additional
/// properties where that is a schema.
pub open spec fn compile_children(
    o: Members,
    root: JsonView,
    depth: nat,
    path: Seq<char>,
) -> Result<Members, ErrorView>
    decreases 33 - depth, 3nat, 0nat,
{
    let a = match get(o, "properties"@) {
        Some(JsonView::Object(p)) => match compile_props(p, root, depth, path, p.len()) {
            Err(e) => Err(e),
            Ok(q) => Ok(put(o, "properties"@, JsonView::Object(q))),
        },
        _ => Ok(o),
    };
    match a {
        Err(e) => Err(e),
        Ok(o1) => {
            let b = match get(o1, "items"@) {
                Some(v) => compile_under(o1, "items"@, v, root, depth, path),
                None => Ok(o1),
            };
            match b {
                Err(e) => Err(e),
                Ok(o2) => match get(o2, "additionalProperties"@) {
                    Some(JsonView::Object(m)) => compile_under(
                        o2,
                        "additionalProperties"@,
                        JsonView::Object(m),
                        root,
                        depth,
                        path,
                    ),
                    _ => Ok(o2),
                },
            }
        },
    }
}

// ---------------------------------------------------------------------------
// Computing it
// ---------------------------------------------------------------------------
/// Computes [`resolve`].
pub fn resolve_local_ref(ref_str: &str, root: &Json) -> (r: Option<Json>)
    ensures
        match r {
            Some(j) => resolve(ref_str@, root@) == Some(j@),
            None => resolve(ref_str@, root@) is None,
        },
{
    proof {
        reveal_strlit("#/");
        reveal_strlit("~1");
        reveal_strlit("~0");
    }
    if !begins(ref_str, "#/") {
        return None;
    }
    let chars = chars_of(ref_str);
    let n = chars.len();
    let rest = part(&chars, 2, n);
    assert(rest@ =~= ref_str@.skip(2));
    let segments = split_of(&rest, CharSet::Slash);
    let ghost segs = char_views(segments@);
    let slash_code = chars_of("~1");
    let slash = chars_of("/");
    let tilde_code = chars_of("~0");
    let tilde = chars_of("~");
    let mut current: &Json = root;
    let mut i: usize = 0;
    while i < segments.len()
        invariant
            i <= segments@.len(),
            segs == char_views(segments@),
            slash_code@ == "~1"@,
            slash@ == "/"@,
            tilde_code@ == "~0"@,
            tilde@ == "~"@,
            slash_code@.len() > 0,
            tilde_code@.len() > 0,
            resolve(ref_str@, root@) == follow(segs, i as int, current@),
        decreases segments@.len() - i,
    {
        assert(segs[i as int] == segments@[i as int]@);
        let once = replace_chars(&segments[i], &slash_code, &slash);
        let decoded = replace_chars(&once, &tilde_code, &tilde);
        let key = string_of_all(&decoded);
        match current.get(key.as_str()) {
            Some(v) => {
                current = v;
            },
            None => {
                return None;
            },
        }
        i += 1;
    }
    Some(current.copy())
}

/// A path with one more piece.
fn extend(path: &str, piece: &str) -> (r: String)
    ensures
        r@ == path@ + piece@,
{
    let mut r = path.to_owned();
    r.append(piece);
    r
}

/// A path with three more pieces.
fn extend3(path: &str, a: &str, b: &str, c: &str) -> (r: String)
    ensures
        r@ == path@ + a@ + b@ + c@,
{
    let mut r = path.to_owned();
    r.append(a);
    r.append(b);
    r.append(c);
    r
}

/// A copy of an object's members.
fn copy_members(o: &Vec<(String, Json)>) -> (r: Vec<(String, Json)>)
    ensures
        member_views(r@) == member_views(o@),
{
    let mut r: Vec<(String, Json)> = Vec::new();
    let mut i: usize = 0;
    while i < o.len()
        invariant
            i <= o@.len(),
            member_views(r@) == member_views(o@.take(i as int)),
        decreases o@.len() - i,
    {
        let ghost before = r@;
        let k = o[i].0.clone();
        let x = o[i].1.copy();
        r.push((k, x));
        proof {
            lemma_member_views_push(before, (k, x));
            lemma_member_views_push(o@.take(i as int), o@[i as int]);
            assert(o@.take(i + 1) =~= o@.take(i as int).push(o@[i as int]));
        }
        i += 1;
    }
    assert(o@.take(i as int) =~= o@);
    r
}

/// Computes [`inline_ref`].
fn inline_local_ref(members: Vec<(String, Json)>, root: &Json, hops: usize) -> (r: Result<
    Vec<(String, Json)>,
    SchemaReason,
>)
    requires
        hops <= MAX_RECURSION_DEPTH,
    ensures
        match r {
            Ok(o) => inline_ref(member_views(members@), root@, hops as nat) == Ok::<
                Members,
                SchemaReason,
            >(member_views(o@)),
            Err(e) => inline_ref(member_views(members@), root@, hops as nat) == Err::<
                Members,
                SchemaReason,
            >(e),
        },
    decreases MAX_RECURSION_DEPTH - hops,
{
    let mut o = members;
    let mut target: Option<Json> = None;
    if let Some(v) = lookup(&o, "$ref") {
        if let Some(s) = v.as_str() {
            target = resolve_local_ref(s.as_str(), root);
        }
    }
    match target {
        None => Ok(o),
        Some(Json::Object(m)) => {
            if hops >= MAX_RECURSION_DEPTH {
                return Err(SchemaReason::DepthExceeded);
            }
            remove(&mut o, "$ref");
            insert_all_absent(&mut o, &m);
            inline_local_ref(o, root, hops + 1)
        },
        Some(Json::Bool(false)) => Err(SchemaReason::BoolFalseSchema),
        Some(_) => {
            remove(&mut o, "$ref");
            Ok(o)
        },
    }
}

/// Whether an array of no elements stands under the key.
fn is_empty_array(o: &Vec<(String, Json)>, key: &str) -> (r: bool)
    ensures
        r == (get(member_views(o@), key@) == Some(JsonView::Array(Seq::empty()))),
{
    match lookup(o, key) {
        Some(v) => match v.as_array() {
            Some(a) => {
                proof {
                    lemma_json_views(a@);
                    if a@.len() == 0 {
                        assert(json_views(a@) =~= Seq::<JsonView>::empty());
                    }
                }
                a.len() == 0
            },
            None => false,
        },
        None => false,
    }
}

/// Decides [`is_bare_object`].
fn bare_object(o: &Vec<(String, Json)>) -> (r: bool)
    ensures
        r == is_bare_object(member_views(o@)),
{
    let is_object = match lookup(o, "type") {
        Some(v) => match v.as_str() {
            Some(s) => same(s.as_str(), "object"),
            None => false,
        },
        None => false,
    };
    let has_props = match lookup(o, "properties") {
        Some(v) => match v.as_object() {
            Some(p) => {
                proof {
                    lemma_member_views(p@);
                }
                p.len() > 0
            },
            None => false,
        },
        None => false,
    };
    is_object && !has_props && lookup(o, "patternProperties").is_none() && lookup(
        o,
        "additionalProperties",
    ).is_none() && lookup(o, "unevaluatedProperties").is_none() && lookup(
        o,
        "propertyNames",
    ).is_none()
}

/// Decides [`holds`].
fn list_holds(list: &Vec<Json>, v: &Json) -> (r: bool)
    ensures
        r == holds(json_views(list@), v@),
{
    let ghost lv = json_views(list@);
    proof {
        lemma_json_views(list@);
    }
    let mut i: usize = 0;
    while i < list.len()
        invariant
            i <= list@.len(),
            lv == json_views(list@),
            lv.len() == list@.len(),
            forall|k: int| 0 <= k < list@.len() ==> lv[k] == (#[trigger] list@[k])@,
            forall|k: int| 0 <= k < i ==> !#[trigger] same_json(lv[k], v@),
        decreases list@.len() - i,
    {
        assert(lv[i as int] == list@[i as int]@);
        if json_same(&list[i], v) {
            assert(same_json(lv[i as int], v@));
            return true;
        }
        i += 1;
    }
    false
}

/// What the parts of an `allOf` amount to so far.
struct MergedParts {
    kind: Option<Json>,
    props: Vec<(String, Json)>,
    required: Vec<Json>,
}

impl MergedParts {
    spec fn said(self) -> Merged {
        Merged {
            kind: match self.kind {
                Some(j) => Some(j@),
                None => None,
            },
            props: member_views(self.props@),
            required: json_views(self.required@),
        }
    }
}

/// Computes [`merge_part`].
fn add_part(m: &mut MergedParts, value: &Json)
    ensures
        final(m).said() == merge_part(old(m).said(), value@),
{
    if let Some(o) = value.as_object() {
        if m.kind.is_none() {
            if let Some(t) = lookup(o, "type") {
                m.kind = Some(t.copy());
            }
        }
        if let Some(p) = lookup(o, "properties") {
            if let Some(p) = p.as_object() {
                let ghost pv = member_views(p@);
                let ghost start = member_views(m.props@);
                proof {
                    lemma_member_views(p@);
                }
                let ghost kind = m.kind;
                let ghost required = m.required;
                let mut i: usize = 0;
                while i < p.len()
                    invariant
                        i <= p@.len(),
                        pv == member_views(p@),
                        pv.len() == p@.len(),
                        forall|k: int|
                            0 <= k < p@.len() ==> pv[k] == ((#[trigger] p@[k]).0@, p@[k].1@),
                        put_all(member_views(m.props@), pv, i as int) == put_all(start, pv, 0),
                        m.kind == kind,
                        m.required == required,
                    decreases p@.len() - i,
                {
                    assert(pv[i as int] == (p@[i as int].0@, p@[i as int].1@));
                    insert(&mut m.props, p[i].0.as_str(), p[i].1.copy());
                    i += 1;
                }
            }
        }
        if let Some(r) = lookup(o, "required") {
            if let Some(r) = r.as_array() {
                let ghost rv = json_views(r@);
                let ghost start = json_views(m.required@);
                proof {
                    lemma_json_views(r@);
                }
                let ghost kind = m.kind;
                let ghost props = m.props;
                let mut i: usize = 0;
                while i < r.len()
                    invariant
                        i <= r@.len(),
                        rv == json_views(r@),
                        rv.len() == r@.len(),
                        forall|k: int| 0 <= k < r@.len() ==> rv[k] == (#[trigger] r@[k])@,
                        add_new(json_views(m.required@), rv, i as int) == add_new(start, rv, 0),
                        m.kind == kind,
                        m.props == props,
                    decreases r@.len() - i,
                {
                    assert(rv[i as int] == r@[i as int]@);
                    if !list_holds(&m.required, &r[i]) {
                        let ghost before = m.required@;
                        let x = r[i].copy();
                        m.required.push(x);
                        proof {
                            lemma_json_views_push(before, x);
                        }
                    }
                    i += 1;
                }
            }
        }
    }
}

/// Computes [`add_merged`].
fn add_merged_parts(o: &mut Vec<(String, Json)>, m: MergedParts)
    ensures
        member_views(final(o)@) == add_merged(member_views(old(o)@), m.said()),
{
    proof {
        lemma_member_views(m.props@);
        lemma_json_views(m.required@);
    }
    if let Some(t) = m.kind {
        insert_absent(o, "type", t);
    }
    if m.props.len() > 0 {
        insert_absent(o, "properties", Json::Object(m.props));
    }
    if m.required.len() > 0 {
        insert_absent(o, "required", Json::Array(m.required));
    }
}

/// The outcome in views.
pub open spec fn outcome(r: Result<Json, SchemaValidationError>) -> Result<JsonView, ErrorView> {
    match r {
        Ok(j) => Ok(j@),
        Err(e) => Err(e@),
    }
}

spec fn members_outcome(
    r: Result<Vec<(String, Json)>, SchemaValidationError>,
) -> Result<Members, ErrorView> {
    match r {
        Ok(o) => Ok(member_views(o@)),
        Err(e) => Err(e@),
    }
}

spec fn list_outcome(r: Result<Vec<Json>, SchemaValidationError>) -> Result<
    Seq<JsonView>,
    ErrorView,
> {
    match r {
        Ok(l) => Ok(json_views(l@)),
        Err(e) => Err(e@),
    }
}

/// Computes [`compile`].
fn compile_recursive(schema: &Json, root: &Json, depth: usize, path: &str) -> (r: Result<
    Json,
    SchemaValidationError,
>)
    requires
        depth <= MAX_RECURSION_DEPTH + 1,
    ensures
        outcome(r) == compile(schema@, root@, depth as nat, path@),
    decreases 34 - depth, 0nat,
{
    if depth > MAX_RECURSION_DEPTH {
        return Err(
            SchemaValidationError { path: path.to_owned(), reason: SchemaReason::DepthExceeded },
        );
    }
    let members = match schema {
        Json::Bool(b) => {
            if *b {
                let empty: Vec<(String, Json)> = Vec::new();
                return Ok(Json::Object(empty));
            }
            return Err(
                SchemaValidationError {
                    path: path.to_owned(),
                    reason: SchemaReason::BoolFalseSchema,
                },
            );
        },
        Json::Object(o) => o,
        _ => {
            return Ok(schema.copy());
        },
    };
    let result = match inline_local_ref(copy_members(members), root, 0) {
        Ok(o) => o,
        Err(reason) => {
            return Err(SchemaValidationError { path: path.to_owned(), reason });
        },
    };
    if is_empty_array(&result, "enum") {
        return Err(
            SchemaValidationError { path: extend(path, "/enum"), reason: SchemaReason::EmptyEnum },
        );
    }
    let result = match choice_recursive(result, "anyOf", root, depth, path) {
        Ok(o) => o,
        Err(e) => {
            return Err(e);
        },
    };
    let result = match choice_recursive(result, "oneOf", root, depth, path) {
        Ok(o) => o,
        Err(e) => {
            return Err(e);
        },
    };
    let result = match all_of_recursive(result, root, depth, path) {
        Ok(o) => o,
        Err(e) => {
            return Err(e);
        },
    };
    if bare_object(&result) {
        return Err(
            SchemaValidationError {
                path: path.to_owned(),
                reason: SchemaReason::EmptyObjectNoStructuralKey,
            },
        );
    }
    match children_recursive(result, root, depth, path) {
        Ok(o) => Ok(Json::Object(o)),
        Err(e) => Err(e),
    }
}

/// Computes [`compile_list`] of the whole list.
fn list_recursive(list: &Vec<Json>, root: &Json, depth: usize, prefix: &str) -> (r: Result<
    Vec<Json>,
    SchemaValidationError,
>)
    requires
        depth <= MAX_RECURSION_DEPTH,
    ensures
        list_outcome(r) == compile_list(
            json_views(list@),
            root@,
            depth as nat,
            prefix@,
            list@.len(),
        ),
    decreases 33 - depth, 1nat,
{
    let ghost lv = json_views(list@);
    proof {
        lemma_json_views(list@);
    }
    let mut done: Vec<Json> = Vec::new();
    let mut i: usize = 0;
    while i < list.len()
        invariant
            i <= list@.len(),
            depth <= MAX_RECURSION_DEPTH,
            lv == json_views(list@),
            lv.len() == list@.len(),
            forall|k: int| 0 <= k < list@.len() ==> lv[k] == (#[trigger] list@[k])@,
            compile_list(lv, root@, depth as nat, prefix@, i as nat) == Ok::<
                Seq<JsonView>,
                ErrorView,
            >(json_views(done@)),
        decreases list@.len() - i,
    {
        assert(lv[i as int] == list@[i as int]@);
        let path = extend(prefix, dec_u64(i as u64).as_str());
        match compile_recursive(&list[i], root, depth + 1, path.as_str()) {
            Ok(v) => {
                let ghost before = done@;
                done.push(v);
                proof {
                    lemma_json_views_push(before, v);
                }
            },
            Err(e) => {
                proof {
                    lemma_list_error(
                        lv,
                        root@,
                        depth as nat,
                        prefix@,
                        (i + 1) as nat,
                        list@.len(),
                        e@,
                    );
                }
                return Err(e);
            },
        }
        i += 1;
    }
    Ok(done)
}

/// An error among the first schemas is the error of the list.
proof fn lemma_list_error(
    list: Seq<JsonView>,
    root: JsonView,
    depth: nat,
    prefix: Seq<char>,
    n: nat,
    m: nat,
    e: ErrorView,
)
    requires
        n <= m <= list.len(),
        depth <= MAX_RECURSION_DEPTH,
        compile_list(list, root, depth, prefix, n) == Err::<Seq<JsonView>, ErrorView>(e),
    ensures
        compile_list(list, root, depth, prefix, m) == Err::<Seq<JsonView>, ErrorView>(e),
    decreases m,
{
    if n < m {
        lemma_list_error(list, root, depth, prefix, n, (m - 1) as nat, e);
    }
}

/// Computes [`compile_choice`].
fn choice_recursive(
    o: Vec<(String, Json)>,
    key: &str,
    root: &Json,
    depth: usize,
    path: &str,
) -> (r: Result<Vec<(String, Json)>, SchemaValidationError>)
    requires
        depth <= MAX_RECURSION_DEPTH,
    ensures
        members_outcome(r) == compile_choice(
            member_views(o@),
            key@,
            root@,
            depth as nat,
            path@,
        ),
    decreases 33 - depth, 2nat,
{
    let mut o = o;
    let mut single: Option<Json> = None;
    let mut several: Option<Vec<Json>> = None;
    let mut drop_it = false;
    match lookup(&o, key) {
        Some(v) => match v.as_array() {
            Some(alts) => {
                proof {
                    lemma_json_views(alts@);
                }
                if alts.len() == 0 {
                    drop_it = true;
                } else if alts.len() == 1 {
                    assert(json_views(alts@)[0] == alts@[0]@);
                    let p = extend3(path, "/", key, "/0");
                    match compile_recursive(&alts[0], root, depth + 1, p.as_str()) {
                        Ok(inner) => {
                            single = Some(inner);
                        },
                        Err(e) => {
                            return Err(e);
                        },
                    }
                } else {
                    let p = extend3(path, "/", key, "/");
                    match list_recursive(alts, root, depth, p.as_str()) {
                        Ok(list) => {
                            several = Some(list);
                        },
                        Err(e) => {
                            return Err(e);
                        },
                    }
                }
            },
            None => {},
        },
        None => {},
    }
    if drop_it {
        remove(&mut o, key);
    } else if let Some(inner) = single {
        remove(&mut o, key);
        if let Some(m) = inner.as_object() {
            insert_all_absent(&mut o, m);
        }
    } else if let Some(list) = several {
        insert(&mut o, key, Json::Array(list));
    }
    Ok(o)
}

/// Computes [`compile_all_of`].
fn all_of_recursive(o: Vec<(String, Json)>, root: &Json, depth: usize, path: &str) -> (r: Result<
    Vec<(String, Json)>,
    SchemaValidationError,
>)
    requires
        depth <= MAX_RECURSION_DEPTH,
    ensures
        members_outcome(r) == compile_all_of(member_views(o@), root@, depth as nat, path@),
    decreases 33 - depth, 2nat,
{
    let mut o = o;
    let mut single: Option<Json> = None;
    let mut several: Option<MergedParts> = None;
    let mut drop_it = false;
    match lookup(&o, "allOf") {
        Some(v) => match v.as_array() {
            Some(parts) => {
                proof {
                    lemma_json_views(parts@);
                }
                if parts.len() == 0 {
                    drop_it = true;
                } else if parts.len() == 1 {
                    assert(json_views(parts@)[0] == parts@[0]@);
                    let p = extend(path, "/allOf/0");
                    match compile_recursive(&parts[0], root, depth + 1, p.as_str()) {
                        Ok(inner) => {
                            single = Some(inner);
                        },
                        Err(e) => {
                            return Err(e);
                        },
                    }
                } else {
                    let p = extend(path, "/allOf/");
                    match list_recursive(parts, root, depth, p.as_str()) {
                        Ok(list) => {
                            several = Some(merge_list(&list));
                        },
                        Err(e) => {
                            return Err(e);
                        },
                    }
                }
            },
            None => {},
        },
        None => {},
    }
    if drop_it {
        remove(&mut o, "allOf");
    } else if let Some(inner) = single {
        remove(&mut o, "allOf");
        if let Some(m) = inner.as_object() {
            insert_all_absent(&mut o, m);
        }
    } else if let Some(m) = several {
        remove(&mut o, "allOf");
        add_merged_parts(&mut o, m);
    }
    Ok(o)
}

/// Computes [`merge_parts`].
fn merge_list(list: &Vec<Json>) -> (r: MergedParts)
    ensures
        r.said() == merge_parts(json_views(list@)),
{
    let ghost lv = json_views(list@);
    proof {
        lemma_json_views(list@);
    }
    let mut m = MergedParts { kind: None, props: Vec::new(), required: Vec::new() };
    let mut i: usize = 0;
    assert(lv.take(0) =~= Seq::<JsonView>::empty());
    while i < list.len()
        invariant
            i <= list@.len(),
            lv == json_views(list@),
            lv.len() == list@.len(),
            forall|k: int| 0 <= k < list@.len() ==> lv[k] == (#[trigger] list@[k])@,
            m.said() == merge_parts(lv.take(i as int)),
        decreases list@.len() - i,
    {
        assert(lv[i as int] == list@[i as int]@);
        assert(lv.take(i + 1).drop_last() =~= lv.take(i as int));
        add_part(&mut m, &list[i]);
        i += 1;
    }
    assert(lv.take(i as int) =~= lv);
    m
}

/// Computes [`compile_props`] of all properties.
fn props_recursive(props: &Vec<(String, Json)>, root: &Json, depth: usize, path: &str) -> (r:
    Result<Vec<(String, Json)>, SchemaValidationError>)
    requires
        depth <= MAX_RECURSION_DEPTH,
    ensures
        members_outcome(r) == compile_props(
            member_views(props@),
            root@,
            depth as nat,
            path@,
            props@.len(),
        ),
    decreases 33 - depth, 1nat,
{
    let ghost pv = member_views(props@);
    proof {
        lemma_member_views(props@);
    }
    let mut done: Vec<(String, Json)> = Vec::new();
    let mut i: usize = 0;
    while i < props.len()
        invariant
            i <= props@.len(),
            depth <= MAX_RECURSION_DEPTH,
            pv == member_views(props@),
            pv.len() == props@.len(),
            forall|k: int| 0 <= k < props@.len() ==> pv[k] == (
                (#[trigger] props@[k]).0@,
                props@[k].1@,
            ),
            compile_props(pv, root@, depth as nat, path@, i as nat) == Ok::<Members, ErrorView>(
                member_views(done@),
            ),
        decreases props@.len() - i,
    {
        assert(pv[i as int] == (props@[i as int].0@, props@[i as int].1@));
        let head = extend(path, "/properties/");
        let p = extend(head.as_str(), props[i].0.as_str());
        match compile_recursive(&props[i].1, root, depth + 1, p.as_str()) {
            Ok(v) => {
                insert(&mut done, props[i].0.as_str(), v);
            },
            Err(e) => {
                proof {
                    lemma_props_error(
                        pv,
                        root@,
                        depth as nat,
                        path@,
                        (i + 1) as nat,
                        props@.len(),
                        e@,
                    );
                }
                return Err(e);
            },
        }
        i += 1;
    }
    Ok(done)
}

/// An error among the first properties is the error of the object.
proof fn lemma_props_error(
    props: Members,
    root: JsonView,
    depth: nat,
    path: Seq<char>,
    n: nat,
    m: nat,
    e: ErrorView,
)
    requires
        n <= m <= props.len(),
        depth <= MAX_RECURSION_DEPTH,
        compile_props(props, root, depth, path, n) == Err::<Members, ErrorView>(e),
    ensures
        compile_props(props, root, depth, path, m) == Err::<Members, ErrorView>(e),
    decreases m,
{
    if n < m {
        lemma_props_error(props, root, depth, path, n, (m - 1) as nat, e);
    }
}

/// Computes [`compile_children`].
fn children_recursive(o: Vec<(String, Json)>, root: &Json, depth: usize, path: &str) -> (r:
    Result<Vec<(String, Json)>, SchemaValidationError>)
    requires
        depth <= MAX_RECURSION_DEPTH,
    ensures
        members_outcome(r) == compile_children(member_views(o@), root@, depth as nat, path@),
    decreases 33 - depth, 3nat,
{
    let mut o = o;
    let mut props: Option<Vec<(String, Json)>> = None;
    if let Some(v) = lookup(&o, "properties") {
        if let Some(p) = v.as_object() {
            proof {
                lemma_member_views(p@);
            }
            match props_recursive(p, root, depth, path) {
                Ok(q) => {
                    props = Some(q);
                },
                Err(e) => {
                    return Err(e);
                },
            }
        }
    }
    if let Some(q) = props {
        insert(&mut o, "properties", Json::Object(q));
    }
    let mut items: Option<Json> = None;
    if let Some(v) = lookup(&o, "items") {
        let p = extend(extend(path, "/").as_str(), "items");
        match compile_recursive(v, root, depth + 1, p.as_str()) {
            Ok(w) => {
                items = Some(w);
            },
            Err(e) => {
                return Err(e);
            },
        }
    }
    if let Some(w) = items {
        insert(&mut o, "items", w);
    }
    let mut additional: Option<Json> = None;
    if let Some(v) = lookup(&o, "additionalProperties") {
        if v.as_object().is_some() {
            let p = extend(extend(path, "/").as_str(), "additionalProperties");
            match compile_recursive(v, root, depth + 1, p.as_str()) {
                Ok(w) => {
                    additional = Some(w);
                },
                Err(e) => {
                    return Err(e);
                },
            }
        }
    }
    if let Some(w) = additional {
        insert(&mut o, "additionalProperties", w);
    }
    Ok(o)
}

/// Normalises a schema. The result, or the first place where the schema
/// cannot be encoded, is that of [`compile`] from the root.
pub fn compile_schema_strict(schema: &Json) -> (r: Result<Json, SchemaValidationError>)
    ensures
        outcome(r) == compile(schema@, schema@, 0, "#"@),
{
    compile_recursive(schema, schema, 0, "#")
}

// ---------------------------------------------------------------------------
// Tools
// ---------------------------------------------------------------------------
/// The schema of a tool; one without parameters has the empty object schema.
pub open spec fn tool_schema(t: ToolDefinition) -> JsonView {
    match t.function.parameters {
        Some(j) => j@,
        None => JsonView::Object(
            seq![
                ("type"@, JsonView::Str("object"@)),
                ("properties"@, JsonView::Object(Seq::empty())),
            ],
        ),
    }
}

/// The views of a list of errors.
pub open spec fn tool_error_views(s: Seq<ToolSchemaError>) -> Seq<ToolErrorView> {
    s.map_values(|e: ToolSchemaError| e@)
}

/// The error of each tool whose schema cannot be encoded, in the order of the
/// tools.
pub open spec fn tool_errors(tools: Seq<ToolDefinition>) -> Seq<ToolErrorView>
    decreases tools.len(),
{
    if tools.len() == 0 {
        Seq::empty()
    } else {
        let before = tool_errors(tools.drop_last());
        let t = tools.last();
        match compile(tool_schema(t), tool_schema(t), 0, "#"@) {
            Ok(_) => before,
            Err(e) => before.push(
                ToolErrorView {
                    tool_name: t.function.name@,
                    path: e.path,
                    reason: e.reason,
                },
            ),
        }
    }
}

/// Checks every tool's schema and reports all that cannot be encoded.
pub fn validate_tools_for_grammar(tools: &[ToolDefinition]) -> (r: Result<
    (),
    Vec<ToolSchemaError>,
>)
    ensures
        match r {
            Ok(_) => tool_errors(tools@).len() == 0,
            Err(errors) => tool_errors(tools@).len() > 0 && tool_error_views(errors@)
                == tool_errors(tools@),
        },
{
    let mut errors: Vec<ToolSchemaError> = Vec::new();
    let mut i: usize = 0;
    assert(tool_error_views(errors@) =~= tool_errors(tools@.take(0)));
    while i < tools.len()
        invariant
            i <= tools@.len(),
            tool_error_views(errors@) == tool_errors(tools@.take(i as int)),
        decreases tools@.len() - i,
    {
        let tool = &tools[i];
        assert(tools@.take(i + 1).drop_last() =~= tools@.take(i as int));
        let schema = match &tool.function.parameters {
            Some(j) => j.copy(),
            None => empty_object_schema(),
        };
        match compile_schema_strict(&schema) {
            Ok(_) => {},
            Err(e) => {
                let ghost before = errors@;
                errors.push(
                    ToolSchemaError {
                        tool_name: tool.function.name.clone(),
                        path: e.path,
                        reason: e.reason,
                    },
                );
                assert(tool_error_views(errors@) =~= tool_error_views(before).push(
                    errors@.last()@,
                ));
            },
        }
        i += 1;
    }
    assert(tools@.take(i as int) =~= tools@);
    assert(tool_error_views(errors@).len() == errors@.len());
    if errors.len() == 0 {
        Ok(())
    } else {
        Err(errors)
    }
}

/// Errors in words, one after the other.
pub open spec fn errors_text(errors: Seq<ToolErrorView>) -> Seq<char>
    decreases errors.len(),
{
    if errors.len() == 0 {
        Seq::empty()
    } else if errors.len() == 1 {
        error_text(errors[0])
    } else {
        errors_text(errors.drop_last()) + "; "@ + error_text(errors.last())
    }
}

/// Computes [`errors_text`].
pub fn describe_errors(errors: &Vec<ToolSchemaError>) -> (r: String)
    ensures
        r@ == errors_text(tool_error_views(errors@)),
{
    let ghost ev = tool_error_views(errors@);
    let mut r = "".to_owned();
    proof {
        reveal_strlit("");
        assert(r@ =~= errors_text(ev.take(0)));
    }
    let mut i: usize = 0;
    while i < errors.len()
        invariant
            i <= errors@.len(),
            ev == tool_error_views(errors@),
            r@ == errors_text(ev.take(i as int)),
        decreases errors@.len() - i,
    {
        if i > 0 {
            r.append("; ");
        }
        r.append(errors[i].text().as_str());
        proof {
            let next = ev.take(i + 1);
            assert(next.drop_last() =~= ev.take(i as int));
            assert(next.last() == errors@[i as int]@);
            if i == 0 {
                assert(next[0] == errors@[0]@);
                assert(r@ =~= error_text(next[0]));
            }
        }
        i += 1;
    }
    assert(ev.take(i as int) =~= ev);
    r
}

/// The schema of a tool without parameters.
fn empty_object_schema() -> (r: Json)
    ensures
        r@ == JsonView::Object(
            seq![
                ("type"@, JsonView::Str("object"@)),
                ("properties"@, JsonView::Object(Seq::empty())),
            ],
        ),
{
    let none: Vec<(String, Json)> = Vec::new();
    let mut o: Vec<(String, Json)> = Vec::new();
    let ghost o0 = o@;
    o.push(("type".to_owned(), Json::Str("object".to_owned())));
    proof {
        lemma_member_views_push(o0, o@.last());
        assert(o@ =~= o0.push(o@.last()));
    }
    let ghost o1 = o@;
    o.push(("properties".to_owned(), Json::Object(none)));
    proof {
        lemma_member_views_push(o1, o@.last());
        assert(o@ =~= o1.push(o@.last()));
        assert(member_views(o@) =~= seq![
            ("type"@, JsonView::Str("object"@)),
            ("properties"@, JsonView::Object(Seq::empty())),
        ]);
    }
    Json::Object(o)
}

// ---------------------------------------------------------------------------
// Tightening
// ---------------------------------------------------------------------------
/// A property with `minLength: 1`, where it is a string that says nothing of
/// its length.
pub open spec fn tighten_prop(v: JsonView) -> JsonView {
    match v {
        JsonView::Object(o) => if get(o, "type"@) == Some(JsonView::Str("string"@)) && !has_key(
            o,
            "minLength"@,
        ) {
            JsonView::Object(
                put(o, "minLength"@, JsonView::Number(NumberView::Unsigned(1))),
            )
        } else {
            v
        },
        _ => v,
    }
}

/// The properties with those that `required` names, from the `i`th name on,
/// tightened.
pub open spec fn tighten(props: Members, required: Seq<JsonView>, i: int) -> Members
    decreases required.len() - i,
{
    if i < 0 || i >= required.len() {
        props
    } else {
        let next = match required[i] {
            JsonView::Str(k) => match get(props, k) {
                Some(v) => put(props, k, tighten_prop(v)),
                None => props,
            },
            _ => props,
        };
        tighten(next, required, i + 1)
    }
}

/// An object schema with its required string properties tightened.
pub open spec fn with_min_lengths(schema: JsonView) -> JsonView {
    match schema {
        JsonView::Object(o) => match (get(o, "required"@), get(o, "properties"@)) {
            (Some(JsonView::Array(r)), Some(JsonView::Object(p))) => JsonView::Object(
                put(o, "properties"@, JsonView::Object(tighten(p, r, 0))),
            ),
            _ => schema,
        },
        _ => schema,
    }
}

/// Forbids the empty string for the required string properties of an object
/// schema, where the schema does not speak of the length.
pub fn enforce_min_length_on_required_strings(schema: &Json) -> (r: Json)
    ensures
        r@ == with_min_lengths(schema@),
{
    let o = match schema.as_object() {
        Some(o) => o,
        None => {
            return schema.copy();
        },
    };
    let required = match lookup(o, "required") {
        Some(v) => match v.as_array() {
            Some(a) => a,
            None => {
                return schema.copy();
            },
        },
        None => {
            return schema.copy();
        },
    };
    let mut props = match lookup(o, "properties") {
        Some(v) => match v.as_object() {
            Some(p) => copy_members(p),
            None => {
                return schema.copy();
            },
        },
        None => {
            return schema.copy();
        },
    };
    let ghost rv = json_views(required@);
    let ghost start = member_views(props@);
    proof {
        lemma_json_views(required@);
    }
    let mut i: usize = 0;
    while i < required.len()
        invariant
            i <= required@.len(),
            rv == json_views(required@),
            rv.len() == required@.len(),
            forall|k: int| 0 <= k < required@.len() ==> rv[k] == (#[trigger] required@[k])@,
            tighten(member_views(props@), rv, i as int) == tighten(start, rv, 0),
        decreases required@.len() - i,
    {
        assert(rv[i as int] == required@[i as int]@);
        if let Some(k) = required[i].as_str() {
            let next = match lookup(&props, k.as_str()) {
                Some(v) => Some(tightened(v)),
                None => None,
            };
            if let Some(w) = next {
                insert(&mut props, k.as_str(), w);
            }
        }
        i += 1;
    }
    let mut out = copy_members(o);
    insert(&mut out, "properties", Json::Object(props));
    Json::Object(out)
}

/// Computes [`tighten_prop`].
fn tightened(v: &Json) -> (r: Json)
    ensures
        r@ == tighten_prop(v@),
{
    match v.as_object() {
        Some(o) => {
            let is_string = match lookup(o, "type") {
                Some(t) => match t.as_str() {
                    Some(s) => same(s.as_str(), "string"),
                    None => false,
                },
                None => false,
            };
            if is_string && lookup(o, "minLength").is_none() {
                let mut out = copy_members(o);
                insert(&mut out, "minLength", Json::Number(JsonNumber::Unsigned(1)));
                Json::Object(out)
            } else {
                v.copy()
            }
        },
        None => v.copy(),
    }
}

/// The description of the scratchpad property.
pub open spec fn think_property() -> JsonView {
    JsonView::Object(
        seq![
            ("type"@, JsonView::Str("string"@)),
            (
                "description"@,
                JsonView::Str(
                    "Optional scratchpad: brief rationale for selecting this tool and these arguments. Server-side only — not forwarded to the tool implementation."@,
                ),
            ),
        ],
    )
}

/// An object schema with a scratchpad as the first of its properties, unless
/// it has one.
pub open spec fn with_think(schema: JsonView) -> JsonView {
    match schema {
        JsonView::Object(o) => match get(o, "properties"@) {
            Some(JsonView::Object(p)) => if has_key(p, "_think"@) {
                schema
            } else {
                JsonView::Object(
                    put(
                        o,
                        "properties"@,
                        JsonView::Object(put_all(seq![("_think"@, think_property())], p, 0)),
                    ),
                )
            },
            _ => schema,
        },
        _ => schema,
    }
}

/// Adds an optional `_think` scratchpad at the head of an object schema's
/// properties.
pub fn augment_schema_with_tafc_think(schema: &Json) -> (r: Json)
    ensures
        r@ == with_think(schema@),
{
    let o = match schema.as_object() {
        Some(o) => o,
        None => {
            return schema.copy();
        },
    };
    let p = match lookup(o, "properties") {
        Some(v) => match v.as_object() {
            Some(p) => p,
            None => {
                return schema.copy();
            },
        },
        None => {
            return schema.copy();
        },
    };
    if lookup(p, "_think").is_some() {
        return schema.copy();
    }
    let mut think: Vec<(String, Json)> = Vec::new();
    let ghost t0 = think@;
    think.push(("type".to_owned(), Json::Str("string".to_owned())));
    proof {
        lemma_member_views_push(t0, think@.last());
        assert(think@ =~= t0.push(think@.last()));
    }
    let ghost t1 = think@;
    think.push(
        (
            "description".to_owned(),
            Json::Str(
                "Optional scratchpad: brief rationale for selecting this tool and these arguments. Server-side only — not forwarded to the tool implementation.".to_owned(),
            ),
        ),
    );
    proof {
        lemma_member_views_push(t1, think@.last());
        assert(think@ =~= t1.push(think@.last()));
        assert(member_views(t0) =~= Members::empty());
        assert(member_views(think@) =~= think_property()->Object_0);
    }
    let mut props: Vec<(String, Json)> = Vec::new();
    let ghost p0 = props@;
    props.push(("_think".to_owned(), Json::Object(think)));
    proof {
        lemma_member_views_push(p0, props@.last());
        assert(props@ =~= p0.push(props@.last()));
        assert(member_views(props@) =~= seq![("_think"@, think_property())]);
        lemma_member_views(p@);
    }
    let ghost pv = member_views(p@);
    let ghost start = member_views(props@);
    let mut i: usize = 0;
    while i < p.len()
        invariant
            i <= p@.len(),
            pv == member_views(p@),
            pv.len() == p@.len(),
            forall|k: int| 0 <= k < p@.len() ==> pv[k] == ((#[trigger] p@[k]).0@, p@[k].1@),
            put_all(member_views(props@), pv, i as int) == put_all(start, pv, 0),
        decreases p@.len() - i,
    {
        assert(pv[i as int] == (p@[i as int].0@, p@[i as int].1@));
        insert(&mut props, p[i].0.as_str(), p[i].1.copy());
        i += 1;
    }
    let mut out = copy_members(o);
    insert(&mut out, "properties", Json::Object(props));
    Json::Object(out)
}

// ---------------------------------------------------------------------------
// Laws
// ---------------------------------------------------------------------------
/// An empty enumeration is rejected, at its own place.
pub proof fn law_empty_enum_is_rejected(
    o: Members,
    root: JsonView,
    depth: nat,
    path: Seq<char>,
)
    requires
        depth <= MAX_RECURSION_DEPTH,
        inline_ref(o, root, 0) is Ok,
        get(inline_ref(o, root, 0)->Ok_0, "enum"@) == Some(JsonView::Array(Seq::empty())),
    ensures
        compile(JsonView::Object(o), root, depth, path) == Err::<JsonView, ErrorView>(
            ErrorView { path: path + "/enum"@, reason: SchemaReason::EmptyEnum },
        ),
{
}

/// The schema that accepts nothing is rejected; the one that accepts
/// everything becomes the empty schema.
pub proof fn law_boolean_schemas(root: JsonView, depth: nat, path: Seq<char>)
    requires
        depth <= MAX_RECURSION_DEPTH,
    ensures
        compile(JsonView::Bool(false), root, depth, path) == Err::<JsonView, ErrorView>(
            ErrorView { path, reason: SchemaReason::BoolFalseSchema },
        ),
        compile(JsonView::Bool(true), root, depth, path) == Ok::<JsonView, ErrorView>(
            JsonView::Object(Seq::empty()),
        ),
{
}

/// A reference to the schema that accepts nothing is rejected where it stands.
pub proof fn law_reference_to_false_is_rejected(
    o: Members,
    reference: Seq<char>,
    root: JsonView,
    depth: nat,
    path: Seq<char>,
)
    requires
        depth <= MAX_RECURSION_DEPTH,
        get(o, "$ref"@) == Some(JsonView::Str(reference)),
        resolve(reference, root) == Some(JsonView::Bool(false)),
    ensures
        compile(JsonView::Object(o), root, depth, path) == Err::<JsonView, ErrorView>(
            ErrorView { path, reason: SchemaReason::BoolFalseSchema },
        ),
{
}

/// A schema that normalises says more of an object than that it is one: the
/// members left after the merges are not those of a bare object. And every
/// property in them normalises too; none is dropped.
pub proof fn law_success_is_strict(o: Members, root: JsonView, depth: nat, path: Seq<char>)
    requires
        compile(JsonView::Object(o), root, depth, path) is Ok,
    ensures
        depth <= MAX_RECURSION_DEPTH,
        exists|d: Members|
            !(#[trigger] is_bare_object(d)) && (get(d, "properties"@) matches Some(
                JsonView::Object(p),
            ) ==> forall|i: int|
                0 <= i < p.len() ==> compile(
                    (#[trigger] p[i]).1,
                    root,
                    depth + 1,
                    path + "/properties/"@ + p[i].0,
                ) is Ok) && compile_children(d, root, depth, path) is Ok
                && compile(JsonView::Object(o), root, depth, path)->Ok_0 == JsonView::Object(
                compile_children(d, root, depth, path)->Ok_0,
            ),
{
    let a = inline_ref(o, root, 0)->Ok_0;
    let b = compile_choice(a, "anyOf"@, root, depth, path)->Ok_0;
    let c = compile_choice(b, "oneOf"@, root, depth, path)->Ok_0;
    let d = compile_all_of(c, root, depth, path)->Ok_0;
    assert(!is_bare_object(d));
    if let Some(JsonView::Object(p)) = get(d, "properties"@) {
        assert(compile_props(p, root, depth, path, p.len()) is Ok);
        assert forall|i: int| 0 <= i < p.len() implies compile(
            (#[trigger] p[i]).1,
            root,
            depth + 1,
            path + "/properties/"@ + p[i].0,
        ) is Ok by {
            lemma_props_ok(p, root, depth, path, (i + 1) as nat, p.len());
        }
    }
}

/// Where all properties normalise, so do the first ones, the last of these
/// too.
proof fn lemma_props_ok(
    props: Members,
    root: JsonView,
    depth: nat,
    path: Seq<char>,
    n: nat,
    m: nat,
)
    requires
        0 < n <= m <= props.len(),
        depth <= MAX_RECURSION_DEPTH,
        compile_props(props, root, depth, path, m) is Ok,
    ensures
        compile_props(props, root, depth, path, n) is Ok,
        compile(
            props[n - 1].1,
            root,
            depth + 1,
            path + "/properties/"@ + props[n - 1].0,
        ) is Ok,
    decreases m,
{
    if n < m {
        lemma_props_ok(props, root, depth, path, n, (m - 1) as nat);
    }
}

/// The error of the first property that cannot be encoded is the error of
/// the object, unchanged.
pub proof fn law_property_error_surfaces(
    d: Members,
    p: Members,
    i: int,
    root: JsonView,
    depth: nat,
    path: Seq<char>,
    e: ErrorView,
)
    requires
        depth <= MAX_RECURSION_DEPTH,
        get(d, "properties"@) == Some(JsonView::Object(p)),
        0 <= i < p.len(),
        compile_props(p, root, depth, path, i as nat) is Ok,
        compile(p[i].1, root, depth + 1, path + "/properties/"@ + p[i].0) == Err::<
            JsonView,
            ErrorView,
        >(e),
    ensures
        compile_children(d, root, depth, path) == Err::<Members, ErrorView>(e),
{
    assert(compile_props(p, root, depth, path, (i + 1) as nat) == Err::<Members, ErrorView>(e));
    lemma_props_error(p, root, depth, path, (i + 1) as nat, p.len(), e);
}

/// A tool list is accepted exactly when every schema in it normalises.
pub proof fn law_tools_ok_iff_all_ok(tools: Seq<ToolDefinition>)
    ensures
        tool_errors(tools).len() == 0 <==> forall|i: int|
            0 <= i < tools.len() ==> compile(
                tool_schema(#[trigger] tools[i]),
                tool_schema(tools[i]),
                0,
                "#"@,
            ) is Ok,
    decreases tools.len(),
{
    if tools.len() > 0 {
        let less = tools.drop_last();
        law_tools_ok_iff_all_ok(less);
        if tool_errors(tools).len() == 0 {
            assert forall|i: int| 0 <= i < tools.len() implies compile(
                tool_schema(#[trigger] tools[i]),
                tool_schema(tools[i]),
                0,
                "#"@,
            ) is Ok by {
                if i < less.len() {
                    assert(less[i] == tools[i]);
                }
            }
        } else if forall|i: int|
            0 <= i < tools.len() ==> compile(
                tool_schema(#[trigger] tools[i]),
                tool_schema(tools[i]),
                0,
                "#"@,
            ) is Ok {
            assert forall|i: int| 0 <= i < less.len() implies compile(
                tool_schema(#[trigger] less[i]),
                tool_schema(less[i]),
                0,
                "#"@,
            ) is Ok by {
                assert(less[i] == tools[i]);
            }
            assert(compile(
                tool_schema(tools[tools.len() - 1]),
                tool_schema(tools[tools.len() - 1]),
                0,
                "#"@,
            ) is Ok);
        }
    }
}

} // verus!
