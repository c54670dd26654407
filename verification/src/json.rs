//! JSON values.
use vstd::prelude::*;
use crate::text::{own, same};

verus! {

/// A JSON number: an integer where it is one, else its text.
#[derive(Debug, PartialEq, Eq)]
pub enum JsonNumber {
    /// A non-negative integer.
    Unsigned(u64),
    /// A negative integer.
    Negative(i64),
    /// Any other number, in its shortest notation.
    Other(String),
}

/// A JSON value. An object keeps its members in their order.
#[derive(Debug, PartialEq, Eq)]
pub enum Json {
    Null,
    Bool(bool),
    Number(JsonNumber),
    Str(String),
    Array(Vec<Json>),
    Object(Vec<(String, Json)>),
}

/// What a [`JsonNumber`] says.
pub enum NumberView {
    Unsigned(u64),
    Negative(i64),
    Other(Seq<char>),
}

/// The members of an object: their keys and their values.
pub type Members = Seq<(Seq<char>, JsonView)>;

/// What a [`Json`] says.
#[verifier::ext_equal]
pub enum JsonView {
    Null,
    Bool(bool),
    Number(NumberView),
    Str(Seq<char>),
    Array(Seq<JsonView>),
    Object(Seq<(Seq<char>, JsonView)>),
}

impl View for JsonNumber {
    type V = NumberView;

    open spec fn view(&self) -> NumberView {
        match *self {
            JsonNumber::Unsigned(n) => NumberView::Unsigned(n),
            JsonNumber::Negative(n) => NumberView::Negative(n),
            JsonNumber::Other(s) => NumberView::Other(s@),
        }
    }
}

/// The view of a value.
pub open spec fn json_view(j: Json) -> JsonView
    decreases j,
{
    match j {
        Json::Null => JsonView::Null,
        Json::Bool(b) => JsonView::Bool(b),
        Json::Number(n) => JsonView::Number(n@),
        Json::Str(s) => JsonView::Str(s@),
        Json::Array(a) => JsonView::Array(json_views(a@)),
        Json::Object(o) => JsonView::Object(member_views(o@)),
    }
}

/// The views of the elements of an array.
pub open spec fn json_views(s: Seq<Json>) -> Seq<JsonView>
    decreases s,
{
    if s.len() == 0 {
        Seq::empty()
    } else {
        json_views(s.drop_last()).push(json_view(s.last()))
    }
}

/// The views of the members of an object.
pub open spec fn member_views(s: Seq<(String, Json)>) -> Seq<(Seq<char>, JsonView)>
    decreases s,
{
    if s.len() == 0 {
        Seq::empty()
    } else {
        member_views(s.drop_last()).push((s.last().0@, json_view(s.last().1)))
    }
}

impl View for Json {
    type V = JsonView;

    open spec fn view(&self) -> JsonView {
        json_view(*self)
    }
}

/// The elements of [`json_views`].
pub proof fn lemma_json_views(s: Seq<Json>)
    ensures
        json_views(s).len() == s.len(),
        forall|i: int| 0 <= i < s.len() ==> json_views(s)[i] == (#[trigger] s[i])@,
    decreases s.len(),
{
    if s.len() > 0 {
        lemma_json_views(s.drop_last());
        assert forall|i: int| 0 <= i < s.len() implies json_views(s)[i] == (#[trigger] s[i])@ by {
            if i < s.len() - 1 {
                assert(s.drop_last()[i] == s[i]);
            }
        }
    }
}

/// The elements of [`member_views`].
pub proof fn lemma_member_views(s: Seq<(String, Json)>)
    ensures
        member_views(s).len() == s.len(),
        forall|i: int|
            0 <= i < s.len() ==> member_views(s)[i] == ((#[trigger] s[i]).0@, s[i].1@),
    decreases s.len(),
{
    if s.len() > 0 {
        lemma_member_views(s.drop_last());
        assert forall|i: int| 0 <= i < s.len() implies member_views(s)[i] == (
            (#[trigger] s[i]).0@,
            s[i].1@,
        ) by {
            if i < s.len() - 1 {
                assert(s.drop_last()[i] == s[i]);
            }
        }
    }
}

/// Appending a member appends its view.
pub proof fn lemma_member_views_push(s: Seq<(String, Json)>, m: (String, Json))
    ensures
        member_views(s.push(m)) == member_views(s).push((m.0@, m.1@)),
{
    assert(s.push(m).drop_last() =~= s);
}

/// Appending an element appends its view.
pub proof fn lemma_json_views_push(s: Seq<Json>, j: Json)
    ensures
        json_views(s.push(j)) == json_views(s).push(j@),
{
    assert(s.push(j).drop_last() =~= s);
}

impl JsonNumber {
    /// A copy.
    pub fn copy(&self) -> (r: JsonNumber)
        ensures
            r@ == self@,
    {
        match self {
            JsonNumber::Unsigned(n) => JsonNumber::Unsigned(*n),
            JsonNumber::Negative(n) => JsonNumber::Negative(*n),
            JsonNumber::Other(s) => JsonNumber::Other(s.clone()),
        }
    }
}

impl Json {
    /// A copy.
    pub fn copy(&self) -> (r: Json)
        ensures
            r@ == self@,
        decreases self,
    {
        match self {
            Json::Null => Json::Null,
            Json::Bool(b) => Json::Bool(*b),
            Json::Number(n) => Json::Number(n.copy()),
            Json::Str(s) => Json::Str(s.clone()),
            Json::Array(a) => {
                let mut r: Vec<Json> = Vec::new();
                let mut i: usize = 0;
                while i < a.len()
                    invariant
                        i <= a@.len(),
                        *self == Json::Array(*a),
                        json_views(r@) == json_views(a@.take(i as int)),
                    decreases a@.len() - i,
                {
                    let ghost before = r@;
                    assert(decreases_to!(*self => self->Array_0));
                    assert(decreases_to!(self->Array_0 => a@));
                    assert(decreases_to!(a@ => a@[i as int]));
                    let x = a[i].copy();
                    r.push(x);
                    proof {
                        lemma_json_views_push(before, x);
                        lemma_json_views_push(a@.take(i as int), a@[i as int]);
                        assert(a@.take(i + 1) =~= a@.take(i as int).push(a@[i as int]));
                    }
                    i += 1;
                }
                assert(a@.take(i as int) =~= a@);
                Json::Array(r)
            },
            Json::Object(o) => {
                let mut r: Vec<(String, Json)> = Vec::new();
                let mut i: usize = 0;
                while i < o.len()
                    invariant
                        i <= o@.len(),
                        *self == Json::Object(*o),
                        member_views(r@) == member_views(o@.take(i as int)),
                    decreases o@.len() - i,
                {
                    let ghost before = r@;
                    let k = o[i].0.clone();
                    assert(decreases_to!(*self => self->Object_0));
                    assert(decreases_to!(self->Object_0 => o@));
                    assert(decreases_to!(o@ => o@[i as int]));
                    assert(decreases_to!(o@[i as int] => o@[i as int].1));
                    let x = o[i].1.copy();
                    r.push((k, x));
                    proof {
                        lemma_member_views_push(before, (k, x));
                        lemma_member_views_push(o@.take(i as int), o@[i as int]);
                        assert(o@.take(i + 1) =~= o@.take(i as int).push(o@[i as int]));
                    }
                    i += 1;
                }
                assert(o@.take(i as int) =~= o@);
                Json::Object(r)
            },
        }
    }

    /// The text of a string.
    pub fn as_str(&self) -> (r: Option<&String>)
        ensures
            match r {
                Some(s) => self@ == JsonView::Str(s@),
                None => !(self@ is Str),
            },
    {
        match self {
            Json::Str(s) => Some(s),
            _ => None,
        }
    }

    /// The elements of an array.
    pub fn as_array(&self) -> (r: Option<&Vec<Json>>)
        ensures
            match r {
                Some(a) => self@ == JsonView::Array(json_views(a@)) && *self == Json::Array(*a),
                None => !(self@ is Array),
            },
    {
        match self {
            Json::Array(a) => Some(a),
            _ => None,
        }
    }

    /// The members of an object.
    pub fn as_object(&self) -> (r: Option<&Vec<(String, Json)>>)
        ensures
            match r {
                Some(o) => self@ == JsonView::Object(member_views(o@)) && *self == Json::Object(*o),
                None => !(self@ is Object),
            },
    {
        match self {
            Json::Object(o) => Some(o),
            _ => None,
        }
    }

    /// A number that is a non-negative integer.
    pub fn as_u64(&self) -> (r: Option<u64>)
        ensures
            r == unsigned_of(self@),
    {
        match self {
            Json::Number(JsonNumber::Unsigned(n)) => Some(*n),
            _ => None,
        }
    }

    /// The value of a member; `None` where this is no object or has no such
    /// member.
    pub fn get(&self, key: &str) -> (r: Option<&Json>)
        ensures
            match r {
                Some(v) => member_of(self@, key@) == Some(v@),
                None => member_of(self@, key@) is None,
            },
    {
        match self {
            Json::Object(o) => lookup(o, key),
            _ => None,
        }
    }
}

/// The non-negative integer that a value is.
pub open spec fn unsigned_of(j: JsonView) -> Option<u64> {
    match j {
        JsonView::Number(NumberView::Unsigned(n)) => Some(n),
        _ => None,
    }
}

/// The text that a value is.
pub open spec fn str_of(j: JsonView) -> Option<Seq<char>> {
    match j {
        JsonView::Str(s) => Some(s),
        _ => None,
    }
}

// ---------------------------------------------------------------------------
// Members of an object
// ---------------------------------------------------------------------------
/// The position of the member with this key, from the `i`th on.
pub open spec fn key_at(o: Members, key: Seq<char>, i: int) -> Option<int>
    decreases o.len() - i,
{
    if i < 0 || i >= o.len() {
        None
    } else if o[i].0 == key {
        Some(i)
    } else {
        key_at(o, key, i + 1)
    }
}

/// The value of the member with this key.
pub open spec fn get(o: Members, key: Seq<char>) -> Option<JsonView> {
    match key_at(o, key, 0) {
        Some(i) => Some(o[i].1),
        None => None,
    }
}

/// Whether there is a member with this key.
pub open spec fn has_key(o: Members, key: Seq<char>) -> bool {
    key_at(o, key, 0) is Some
}

/// The members with this one set: its value replaced where the key is there,
/// else the member appended.
pub open spec fn put(
    o: Members,
    key: Seq<char>,
    value: JsonView,
) -> Members {
    match key_at(o, key, 0) {
        Some(i) => o.update(i, (key, value)),
        None => o.push((key, value)),
    }
}

/// The members with this one appended, unless its key is there.
pub open spec fn put_absent(
    o: Members,
    key: Seq<char>,
    value: JsonView,
) -> Members {
    if has_key(o, key) {
        o
    } else {
        o.push((key, value))
    }
}

/// The members without this one, the last member taking its place.
pub open spec fn del(o: Members, key: Seq<char>) -> Members {
    match key_at(o, key, 0) {
        Some(i) => if i == o.len() - 1 {
            o.drop_last()
        } else {
            o.update(i, o.last()).drop_last()
        },
        None => o,
    }
}

/// The members with those of `more`, from the `i`th on, appended whose keys
/// are not there.
pub open spec fn fill(
    o: Members,
    more: Members,
    i: int,
) -> Members
    decreases more.len() - i,
{
    if i < 0 || i >= more.len() {
        o
    } else {
        fill(put_absent(o, more[i].0, more[i].1), more, i + 1)
    }
}

/// The member of a value, where it is an object.
pub open spec fn member_of(j: JsonView, key: Seq<char>) -> Option<JsonView> {
    match j {
        JsonView::Object(o) => get(o, key),
        _ => None,
    }
}

/// What [`key_at`] returns is the first member with the key.
pub proof fn lemma_key_at(o: Members, key: Seq<char>, i: int)
    requires
        0 <= i,
    ensures
        match key_at(o, key, i) {
            Some(k) => i <= k < o.len() && o[k].0 == key,
            None => forall|j: int| i <= j < o.len() ==> (#[trigger] o[j]).0 != key,
        },
    decreases o.len() - i,
{
    if i < o.len() && o[i].0 != key {
        lemma_key_at(o, key, i + 1);
    }
}

/// Computes [`key_at`] from the start.
pub fn find_key(o: &Vec<(String, Json)>, key: &str) -> (r: Option<usize>)
    ensures
        match r {
            Some(i) => key_at(member_views(o@), key@, 0) == Some(i as int) && i < o@.len(),
            None => key_at(member_views(o@), key@, 0) is None,
        },
{
    let ghost m = member_views(o@);
    proof {
        lemma_member_views(o@);
    }
    let mut i: usize = 0;
    while i < o.len()
        invariant
            i <= o@.len(),
            m == member_views(o@),
            m.len() == o@.len(),
            forall|k: int| 0 <= k < o@.len() ==> m[k] == ((#[trigger] o@[k]).0@, o@[k].1@),
            key_at(m, key@, 0) == key_at(m, key@, i as int),
        decreases o@.len() - i,
    {
        assert(m[i as int] == (o@[i as int].0@, o@[i as int].1@));
        if same(o[i].0.as_str(), key) {
            return Some(i);
        }
        i += 1;
    }
    None
}

/// Computes [`get`].
pub fn lookup<'a>(o: &'a Vec<(String, Json)>, key: &str) -> (r: Option<&'a Json>)
    ensures
        match r {
            Some(v) => get(member_views(o@), key@) == Some(v@),
            None => get(member_views(o@), key@) is None,
        },
{
    proof {
        lemma_member_views(o@);
    }
    match find_key(o, key) {
        Some(i) => {
            assert(member_views(o@)[i as int] == (o@[i as int].0@, o@[i as int].1@));
            Some(&o[i].1)
        },
        None => None,
    }
}

/// Computes [`put`].
pub fn insert(o: &mut Vec<(String, Json)>, key: &str, value: Json)
    ensures
        member_views(final(o)@) == put(member_views(old(o)@), key@, value@),
{
    let ghost m = member_views(o@);
    proof {
        lemma_member_views(o@);
    }
    match find_key(o, key) {
        Some(i) => {
            let ghost before = o@;
            let mut old_member = (key.to_owned(), value);
            o.set(i, old_member);
            proof {
                lemma_member_views(o@);
                assert(member_views(o@) =~= m.update(i as int, (key@, value@))) by {
                    assert forall|k: int| 0 <= k < o@.len() implies member_views(o@)[k] == m.update(
                        i as int,
                        (key@, value@),
                    )[k] by {
                        assert(member_views(o@)[k] == (o@[k].0@, o@[k].1@));
                        assert(m[k] == (before[k].0@, before[k].1@));
                    }
                }
            }
        },
        None => {
            let ghost before = o@;
            o.push((key.to_owned(), value));
            proof {
                lemma_member_views_push(before, o@.last());
                assert(o@ =~= before.push(o@.last()));
            }
        },
    }
}

/// Computes [`put_absent`].
pub fn insert_absent(o: &mut Vec<(String, Json)>, key: &str, value: Json)
    ensures
        member_views(final(o)@) == put_absent(member_views(old(o)@), key@, value@),
{
    if find_key(o, key).is_none() {
        let ghost before = o@;
        o.push((key.to_owned(), value));
        proof {
            lemma_member_views_push(before, o@.last());
            assert(o@ =~= before.push(o@.last()));
        }
    }
}

/// Computes [`del`].
pub fn remove(o: &mut Vec<(String, Json)>, key: &str)
    ensures
        member_views(final(o)@) == del(member_views(old(o)@), key@),
{
    let ghost m = member_views(o@);
    proof {
        lemma_member_views(o@);
    }
    if let Some(i) = find_key(o, key) {
        let ghost before = o@;
        let _gone = o.swap_remove(i);
        proof {
            lemma_member_views(o@);
            let goal = del(m, key@);
            assert(member_views(o@) =~= goal) by {
                assert forall|k: int| 0 <= k < o@.len() implies member_views(o@)[k] == goal[k] by {
                    assert(member_views(o@)[k] == (o@[k].0@, o@[k].1@));
                    if k == i && i < before.len() - 1 {
                        assert(m[m.len() - 1] == (
                            before[before.len() - 1].0@,
                            before[before.len() - 1].1@,
                        ));
                    } else {
                        assert(m[k] == (before[k].0@, before[k].1@));
                    }
                }
            }
        }
    }
}

/// Computes [`fill`].
pub fn insert_all_absent(o: &mut Vec<(String, Json)>, more: &Vec<(String, Json)>)
    ensures
        member_views(final(o)@) == fill(member_views(old(o)@), member_views(more@), 0),
{
    let ghost m = member_views(more@);
    let ghost start = member_views(o@);
    proof {
        lemma_member_views(more@);
    }
    let mut i: usize = 0;
    while i < more.len()
        invariant
            i <= more@.len(),
            m == member_views(more@),
            m.len() == more@.len(),
            forall|k: int| 0 <= k < more@.len() ==> m[k] == (
                (#[trigger] more@[k]).0@,
                more@[k].1@,
            ),
            fill(member_views(o@), m, i as int) == fill(start, m, 0),
        decreases more@.len() - i,
    {
        assert(m[i as int] == (more@[i as int].0@, more@[i as int].1@));
        insert_absent(o, more[i].0.as_str(), more[i].1.copy());
        i += 1;
    }
}

// ---------------------------------------------------------------------------
// Equality
// ---------------------------------------------------------------------------
/// Whether two numbers are equal. The two notations of zero that are no
/// integers are.
pub open spec fn same_number(a: NumberView, b: NumberView) -> bool {
    match (a, b) {
        (NumberView::Unsigned(x), NumberView::Unsigned(y)) => x == y,
        (NumberView::Negative(x), NumberView::Negative(y)) => x == y,
        (NumberView::Other(x), NumberView::Other(y)) => x == y || (is_zero_text(x)
            && is_zero_text(y)),
        _ => false,
    }
}

/// The notations of a zero that is no integer.
pub open spec fn is_zero_text(s: Seq<char>) -> bool {
    s == "0.0"@ || s == "-0.0"@
}

/// Whether two values are equal; the order of an object's members does not
/// count.
pub open spec fn same_json(a: JsonView, b: JsonView) -> bool
    decreases a,
{
    match (a, b) {
        (JsonView::Null, JsonView::Null) => true,
        (JsonView::Bool(x), JsonView::Bool(y)) => x == y,
        (JsonView::Number(x), JsonView::Number(y)) => same_number(x, y),
        (JsonView::Str(x), JsonView::Str(y)) => x == y,
        (JsonView::Array(x), JsonView::Array(y)) => x.len() == y.len() && same_elements(x, y),
        (JsonView::Object(x), JsonView::Object(y)) => x.len() == y.len() && same_members(x, y),
        _ => false,
    }
}

/// Whether the elements of `x` equal those of `y` at the same positions.
pub open spec fn same_elements(x: Seq<JsonView>, y: Seq<JsonView>) -> bool
    decreases x,
{
    if x.len() == 0 {
        true
    } else {
        same_elements(x.drop_last(), y) && same_json(x.last(), y[x.len() - 1])
    }
}

/// Whether each member of `x` has an equal one in `y`.
pub open spec fn same_members(
    x: Members,
    y: Members,
) -> bool
    decreases x,
{
    if x.len() == 0 {
        true
    } else {
        same_members(x.drop_last(), y) && match get(y, x.last().0) {
            Some(v) => same_json(x.last().1, v),
            None => false,
        }
    }
}

/// Decides [`same_number`].
fn numbers_same(a: &JsonNumber, b: &JsonNumber) -> (r: bool)
    ensures
        r == same_number(a@, b@),
{
    match (a, b) {
        (JsonNumber::Unsigned(x), JsonNumber::Unsigned(y)) => *x == *y,
        (JsonNumber::Negative(x), JsonNumber::Negative(y)) => *x == *y,
        (JsonNumber::Other(x), JsonNumber::Other(y)) => {
            same(x.as_str(), y.as_str()) || (zero_text(x.as_str()) && zero_text(y.as_str()))
        },
        _ => false,
    }
}

fn zero_text(s: &str) -> (r: bool)
    ensures
        r == is_zero_text(s@),
{
    same(s, "0.0") || same(s, "-0.0")
}

/// Decides [`same_json`].
pub fn json_same(a: &Json, b: &Json) -> (r: bool)
    ensures
        r == same_json(a@, b@),
    decreases a,
{
    match (a, b) {
        (Json::Null, Json::Null) => true,
        (Json::Bool(x), Json::Bool(y)) => *x == *y,
        (Json::Number(x), Json::Number(y)) => numbers_same(x, y),
        (Json::Str(x), Json::Str(y)) => same(x.as_str(), y.as_str()),
        (Json::Array(x), Json::Array(y)) => {
            let ghost xv = json_views(x@);
            let ghost yv = json_views(y@);
            proof {
                lemma_json_views(x@);
                lemma_json_views(y@);
            }
            if x.len() != y.len() {
                return false;
            }
            let mut r = true;
            let mut i: usize = 0;
            assert(xv.take(0) =~= Seq::<JsonView>::empty());
            while i < x.len()
                invariant
                    i <= x@.len(),
                    x@.len() == y@.len(),
                    *a == Json::Array(*x),
                    xv == json_views(x@),
                    yv == json_views(y@),
                    xv.len() == x@.len(),
                    yv.len() == y@.len(),
                    forall|k: int| 0 <= k < x@.len() ==> xv[k] == (#[trigger] x@[k])@,
                    forall|k: int| 0 <= k < y@.len() ==> yv[k] == (#[trigger] y@[k])@,
                    r == same_elements(xv.take(i as int), yv),
                decreases x@.len() - i,
            {
                assert(decreases_to!(*a => a->Array_0));
                assert(decreases_to!(a->Array_0 => x@));
                assert(decreases_to!(x@ => x@[i as int]));
                let e = json_same(&x[i], &y[i]);
                proof {
                    assert(xv[i as int] == x@[i as int]@);
                    assert(yv[i as int] == y@[i as int]@);
                    assert(xv.take(i + 1).drop_last() =~= xv.take(i as int));
                }
                r = r && e;
                i += 1;
            }
            assert(xv.take(i as int) =~= xv);
            r
        },
        (Json::Object(x), Json::Object(y)) => {
            let ghost xv = member_views(x@);
            let ghost yv = member_views(y@);
            proof {
                lemma_member_views(x@);
                lemma_member_views(y@);
            }
            if x.len() != y.len() {
                return false;
            }
            let mut r = true;
            let mut i: usize = 0;
            assert(xv.take(0) =~= Members::empty());
            while i < x.len()
                invariant
                    i <= x@.len(),
                    *a == Json::Object(*x),
                    xv == member_views(x@),
                    yv == member_views(y@),
                    xv.len() == x@.len(),
                    forall|k: int| 0 <= k < x@.len() ==> xv[k] == ((#[trigger] x@[k]).0@, x@[k].1@),
                    r == same_members(xv.take(i as int), yv),
                decreases x@.len() - i,
            {
                proof {
                    assert(xv[i as int] == (x@[i as int].0@, x@[i as int].1@));
                    assert(xv.take(i + 1).drop_last() =~= xv.take(i as int));
                }
                assert(decreases_to!(*a => a->Object_0));
                assert(decreases_to!(a->Object_0 => x@));
                assert(decreases_to!(x@ => x@[i as int]));
                assert(decreases_to!(x@[i as int] => x@[i as int].1));
                let e = match lookup(y, x[i].0.as_str()) {
                    Some(v) => json_same(&x[i].1, v),
                    None => false,
                };
                r = r && e;
                i += 1;
            }
            assert(xv.take(i as int) =~= xv);
            r
        },
        _ => false,
    }
}

/// No members.
pub fn no_members() -> (r: Vec<(String, Json)>)
    ensures
        member_views(r@) == Seq::<(Seq<char>, JsonView)>::empty(),
{
    Vec::new()
}

/// No values.
pub fn no_values() -> (r: Vec<Json>)
    ensures
        json_views(r@) == Seq::<JsonView>::empty(),
{
    Vec::new()
}

/// An object of these members.
pub fn object(o: Vec<(String, Json)>) -> (r: Json)
    ensures
        r@ == JsonView::Object(member_views(o@)),
{
    Json::Object(o)
}

/// An array of these values.
pub fn array(a: Vec<Json>) -> (r: Json)
    ensures
        r@ == JsonView::Array(json_views(a@)),
{
    Json::Array(a)
}

/// Adds a member at the end of an object.
pub fn push_member(o: &mut Vec<(String, Json)>, key: &str, value: Json)
    ensures
        member_views(final(o)@) == member_views(old(o)@).push((key@, value@)),
{
    proof {
        assert forall|k: String| k@ == key@ implies #[trigger] member_views(
            old(o)@.push((k, value)),
        ) == member_views(old(o)@).push((key@, value@)) by {
            lemma_member_views_push(old(o)@, (k, value));
        }
    }
    o.push((own(key), value));
}

impl Json {
    /// A text.
    pub fn text(s: &str) -> (r: Json)
        ensures
            r@ == JsonView::Str(s@),
    {
        Json::Str(own(s))
    }

    /// A number.
    pub fn number(n: u64) -> (r: Json)
        ensures
            r@ == JsonView::Number(NumberView::Unsigned(n)),
    {
        Json::Number(JsonNumber::Unsigned(n))
    }
}

/// Adds a value at the end of an array.
pub fn push_value(a: &mut Vec<Json>, value: Json)
    ensures
        json_views(final(a)@) == json_views(old(a)@).push(value@),
{
    proof {
        lemma_json_views_push(old(a)@, value);
    }
    a.push(value);
}

/// Copies of some values.
pub fn copy_values(a: &Vec<Json>) -> (r: Vec<Json>)
    ensures
        json_views(r@) == json_views(a@),
{
    let mut r: Vec<Json> = Vec::new();
    let ghost av = json_views(a@);
    let mut i: usize = 0;
    proof {
        lemma_json_views(a@);
        assert(av.take(0) =~= Seq::<JsonView>::empty());
    }
    while i < a.len()
        invariant
            i <= a@.len(),
            av.len() == a@.len(),
            forall|k: int| 0 <= k < a@.len() ==> av[k] == (#[trigger] a@[k])@,
            json_views(r@) == av.take(i as int),
        decreases a@.len() - i,
    {
        assert(av[i as int] == a@[i as int]@);
        push_value(&mut r, a[i].copy());
        i += 1;
        assert(json_views(r@) =~= av.take(i as int));
    }
    assert(av.take(i as int) =~= av);
    r
}

/// The keys of messages and calls are different ones.
pub proof fn lemma_message_keys()
    ensures
        "role"@ != "content"@,
        "role"@ != "tool_calls"@,
        "content"@ != "tool_calls"@,
        "type"@ != "text"@,
        "type"@ != "role"@,
        "type"@ != "content"@,
        "id"@ != "type"@,
        "id"@ != "function"@,
        "type"@ != "function"@,
        "name"@ != "arguments"@,
        "call_id"@ != "id"@,
{
    reveal_strlit("role");
    reveal_strlit("content");
    reveal_strlit("tool_calls");
    reveal_strlit("type");
    reveal_strlit("text");
    reveal_strlit("id");
    reveal_strlit("function");
    reveal_strlit("name");
    reveal_strlit("arguments");
    reveal_strlit("call_id");
    assert("role"@.len() == 4 && "content"@.len() == 7 && "tool_calls"@.len() == 10);
    assert("type"@[1] == 'y' && "text"@[1] == 'e');
    assert("type"@[0] == 't' && "role"@[0] == 'r');
    assert("id"@.len() == 2 && "function"@.len() == 8 && "type"@.len() == 4);
    assert("name"@.len() == 4 && "arguments"@.len() == 9);
}

/// A member that is set is there with its value, and every other stays; one that
/// is only set where it is missing stays where it is there.
pub proof fn law_members_are_set(o: Members, key: Seq<char>, value: JsonView, k: Seq<char>)
    ensures
        get(put(o, key, value), key) == Some(value),
        k != key ==> get(put(o, key, value), k) == get(o, k),
        get(o, key) is None ==> get(put_absent(o, key, value), key) == Some(value),
        get(o, key) is Some ==> put_absent(o, key, value) == o,
        k != key ==> get(put_absent(o, key, value), k) == get(o, k),
{
    lemma_key_at(o, key, 0);
    lemma_key_at(o, k, 0);
    let p = put(o, key, value);
    let q = put_absent(o, key, value);
    lemma_key_at(p, key, 0);
    lemma_key_at(p, k, 0);
    lemma_key_at(q, key, 0);
    lemma_key_at(q, k, 0);
    lemma_key_first(o, key, 0);
    lemma_key_first(o, k, 0);
    lemma_key_first(p, key, 0);
    lemma_key_first(p, k, 0);
    lemma_key_first(q, key, 0);
    lemma_key_first(q, k, 0);
    match key_at(o, key, 0) {
        Some(i) => {
            assert(p[i] == (key, value));
            assert(key_at(p, key, 0) is Some);
            let x = key_at(p, key, 0)->0;
            if x < i {
                assert(o[x] == p[x]);
            }
            if x > i {
                assert(p[i].0 != key);
            }
            assert(x == i);
        },
        None => {
            assert(p[o.len() as int] == (key, value));
            assert(q[o.len() as int] == (key, value));
            let x = key_at(p, key, 0)->0;
            if x < o.len() {
                assert(o[x] == p[x]);
            }
            let y = key_at(q, key, 0)->0;
            if y < o.len() {
                assert(o[y] == q[y]);
            }
        },
    }
    if k != key {
        if let Some(j) = key_at(o, k, 0) {
            assert(p[j] == o[j]);
            assert(q[j] == o[j]);
            assert(key_at(p, k, 0) is Some);
            let x = key_at(p, k, 0)->0;
            if x < j {
                assert(p[x] == o[x] || p[x].0 == key);
            }
            if x > j {
                assert(p[j].0 != k);
            }
            assert(x == j);
            let y = key_at(q, k, 0)->0;
            if y < j {
                assert(q[y] == o[y]);
            }
            assert(y == j);
        } else {
            if let Some(x) = key_at(p, k, 0) {
                assert(x < o.len() && o[x] == p[x]);
            }
            if let Some(y) = key_at(q, k, 0) {
                assert(y < o.len() && o[y] == q[y]);
            }
        }
    }
}

proof fn lemma_key_first(o: Members, key: Seq<char>, i: int)
    requires
        0 <= i,
    ensures
        key_at(o, key, i) matches Some(k) ==> forall|j: int|
            i <= j < k ==> (#[trigger] o[j]).0 != key,
    decreases o.len() - i,
{
    if i < o.len() && o[i].0 != key {
        lemma_key_first(o, key, i + 1);
    }
}

/// Numbers and texts are read as what they are.
pub proof fn law_plain_values_are_read(n: u64, s: Seq<char>)
    ensures
        unsigned_of(JsonView::Number(NumberView::Unsigned(n))) == Some(n),
        unsigned_of(JsonView::Str(s)) is None,
        str_of(JsonView::Str(s)) == Some(s),
        str_of(JsonView::Number(NumberView::Unsigned(n))) is None,
{
}

} // verus!
