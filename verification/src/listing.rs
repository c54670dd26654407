//! Pages of stored items.
use vstd::prelude::*;
use crate::decimal::read_unsigned;
use crate::decimal::{dec, law_numbers_read_back, parse_unsigned};
use crate::json::{array, no_members, no_values, object, push_member, push_value, Json};
use crate::json::{json_views, key_at, lemma_json_views, member_of, member_views, JsonView};
use crate::responses::text_at;
use crate::responses::text_field;
use crate::text::{chars_of, own, same};
use crate::tools::opt_view;

verus! {

/// What a client asks of a listing.
#[derive(Debug, Clone)]
pub struct ListQuery {
    /// `asc`, the default, or `desc`.
    pub order: Option<String>,
    /// The most items; 20 by default.
    pub limit: Option<String>,
    /// The item behind which the page begins.
    pub after: Option<String>,
    /// The item before which the page ends.
    pub before: Option<String>,
}

/// What a [`ListQuery`] says.
pub struct QueryView {
    pub order: Option<Seq<char>>,
    pub limit: Option<Seq<char>>,
    pub after: Option<Seq<char>>,
    pub before: Option<Seq<char>>,
}

impl View for ListQuery {
    type V = QueryView;

    open spec fn view(&self) -> QueryView {
        QueryView {
            order: opt_view(self.order),
            limit: opt_view(self.limit),
            after: opt_view(self.after),
            before: opt_view(self.before),
        }
    }
}

/// The items of a page where nothing else is said.
pub const DEFAULT_LIMIT: usize = 20;

/// The most items of a page.
pub const MAX_LIMIT: usize = 100;

/// The items in the order asked for.
pub open spec fn ordered(items: Seq<JsonView>, order: Option<Seq<char>>) -> Seq<JsonView> {
    if order == Some("desc"@) {
        items.reverse()
    } else {
        items
    }
}

/// The first item from `i` on with this identifier.
pub open spec fn item_at(items: Seq<JsonView>, id: Seq<char>, i: int) -> Option<int>
    decreases items.len() - i,
{
    if i < 0 || i >= items.len() {
        None
    } else if text_field(items[i], "id"@) == Some(id) {
        Some(i)
    } else {
        item_at(items, id, i + 1)
    }
}

/// What follows the item that the cursor names; all where it names none.
pub open spec fn after_cursor(items: Seq<JsonView>, cursor: Option<Seq<char>>) -> Seq<JsonView> {
    match cursor {
        Some(id) => match item_at(items, id, 0) {
            Some(i) => items.skip(i + 1),
            None => items,
        },
        None => items,
    }
}

/// What precedes the item that the cursor names; all where it names none.
pub open spec fn before_cursor(items: Seq<JsonView>, cursor: Option<Seq<char>>) -> Seq<JsonView> {
    match cursor {
        Some(id) => match item_at(items, id, 0) {
            Some(i) => items.take(i),
            None => items,
        },
        None => items,
    }
}

/// The most items of a page.
pub open spec fn page_limit(limit: Option<Seq<char>>) -> int {
    let n = match limit {
        Some(s) => match parse_unsigned(s, usize::MAX as nat) {
            Some(n) => n as int,
            None => DEFAULT_LIMIT as int,
        },
        None => DEFAULT_LIMIT as int,
    };
    if n <= MAX_LIMIT {
        n
    } else {
        MAX_LIMIT as int
    }
}

/// The items of a page.
pub open spec fn page(items: Seq<JsonView>, q: QueryView) -> Seq<JsonView> {
    let s = before_cursor(after_cursor(ordered(items, q.order), q.after), q.before);
    let n = page_limit(q.limit);
    if s.len() > n {
        s.take(n)
    } else {
        s
    }
}

/// The identifier of an item, or nothing.
pub open spec fn id_of(item: Option<JsonView>) -> Seq<char> {
    match item {
        Some(j) => match text_field(j, "id"@) {
            Some(s) => s,
            None => ""@,
        },
        None => ""@,
    }
}

/// The body that lists some items.
pub open spec fn list_body(items: Seq<JsonView>) -> JsonView {
    let first = if items.len() > 0 {
        Some(items[0])
    } else {
        None
    };
    let last = if items.len() > 0 {
        Some(items.last())
    } else {
        None
    };
    JsonView::Object(
        seq![
            ("object"@, JsonView::Str("list"@)),
            ("data"@, JsonView::Array(items)),
            ("first_id"@, JsonView::Str(id_of(first))),
            ("last_id"@, JsonView::Str(id_of(last))),
            ("has_more"@, JsonView::Bool(false)),
        ],
    )
}

/// Copies of the values from `lo` to `hi`.
pub fn some_values(v: &Vec<Json>, lo: usize, hi: usize) -> (r: Vec<Json>)
    requires
        lo <= hi <= v@.len(),
    ensures
        json_views(r@) == json_views(v@).subrange(lo as int, hi as int),
{
    let ghost all = json_views(v@);
    let mut out = no_values();
    let mut i: usize = lo;
    proof {
        lemma_json_views(v@);
    }
    assert(json_views(out@) =~= all.subrange(lo as int, lo as int));
    while i < hi
        invariant
            lo <= i <= hi <= v@.len(),
            all.len() == v@.len(),
            forall|k: int| 0 <= k < v@.len() ==> all[k] == (#[trigger] v@[k])@,
            json_views(out@) == all.subrange(lo as int, i as int),
        decreases hi - i,
    {
        assert(all[i as int] == v@[i as int]@);
        push_value(&mut out, v[i].copy());
        i += 1;
        assert(json_views(out@) =~= all.subrange(lo as int, i as int));
    }
    out
}

/// Copies of the values in reverse order.
fn reversed(v: &Vec<Json>) -> (r: Vec<Json>)
    ensures
        json_views(r@) == json_views(v@).reverse(),
{
    let ghost all = json_views(v@);
    let mut out = no_values();
    let mut i: usize = v.len();
    proof {
        lemma_json_views(v@);
    }
    assert(json_views(out@) =~= all.reverse().take(0));
    while i > 0
        invariant
            i <= v@.len(),
            all.len() == v@.len(),
            forall|k: int| 0 <= k < v@.len() ==> all[k] == (#[trigger] v@[k])@,
            json_views(out@) == all.reverse().take(v@.len() - i),
        decreases i,
    {
        assert(all[i - 1] == v@[i - 1]@);
        push_value(&mut out, v[i - 1].copy());
        i -= 1;
        assert(json_views(out@) =~= all.reverse().take(v@.len() - i));
    }
    assert(all.reverse().take(v@.len() as int) =~= all.reverse());
    out
}

/// Finds an item by its identifier.
pub fn find_item(v: &Vec<Json>, id: &str) -> (r: Option<usize>)
    ensures
        match r {
            Some(i) => item_at(json_views(v@), id@, 0) == Some(i as int) && i < v@.len(),
            None => item_at(json_views(v@), id@, 0) is None,
        },
{
    let ghost all = json_views(v@);
    proof {
        lemma_json_views(v@);
    }
    let mut i: usize = 0;
    while i < v.len()
        invariant
            i <= v@.len(),
            all == json_views(v@),
            all.len() == v@.len(),
            forall|k: int| 0 <= k < v@.len() ==> all[k] == (#[trigger] v@[k])@,
            item_at(all, id@, 0) == item_at(all, id@, i as int),
        decreases v@.len() - i,
    {
        assert(all[i as int] == v@[i as int]@);
        match text_at(&v[i], "id") {
            Some(s) => {
                if same(s.as_str(), id) {
                    return Some(i);
                }
            },
            None => {},
        }
        i += 1;
    }
    None
}

/// Computes [`page_limit`].
fn read_limit(limit: &Option<String>) -> (r: usize)
    ensures
        r == page_limit(opt_view(*limit)),
        r <= MAX_LIMIT,
{
    let n: usize = match limit {
        Some(s) => match read_unsigned(&chars_of(s.as_str()), usize::MAX as u64) {
            Some(n) => n as usize,
            None => DEFAULT_LIMIT,
        },
        None => DEFAULT_LIMIT,
    };
    if n <= MAX_LIMIT {
        n
    } else {
        MAX_LIMIT
    }
}

/// Computes [`page`].
pub fn take_page(items: &Vec<Json>, q: &ListQuery) -> (r: Vec<Json>)
    ensures
        json_views(r@) == page(json_views(items@), q@),
{
    let ghost iv = json_views(items@);
    let desc = match &q.order {
        Some(o) => same(o.as_str(), "desc"),
        None => false,
    };
    let all = if desc {
        reversed(items)
    } else {
        crate::json::copy_values(items)
    };
    let ghost ov = json_views(all@);
    assert(ov == ordered(iv, q@.order));
    proof {
        lemma_json_views(all@);
    }
    let lo: usize = match &q.after {
        Some(id) => match find_item(&all, id.as_str()) {
            Some(i) => {
                assert(i < all.len());
                i + 1
            },
            None => 0,
        },
        None => 0,
    };
    let behind = some_values(&all, lo, all.len());
    let ghost bv = json_views(behind@);
    assert(bv =~= after_cursor(ov, q@.after));
    proof {
        lemma_json_views(behind@);
    }
    let hi: usize = match &q.before {
        Some(id) => match find_item(&behind, id.as_str()) {
            Some(i) => i,
            None => behind.len(),
        },
        None => behind.len(),
    };
    assert(bv.take(hi as int) =~= before_cursor(bv, q@.before));
    let limit = read_limit(&q.limit);
    let end: usize = if hi > limit {
        limit
    } else {
        hi
    };
    let r = some_values(&behind, 0, end);
    assert(json_views(r@) =~= page(iv, q@));
    r
}

/// Computes [`list_body`].
pub fn build_list(items: Vec<Json>) -> (r: Json)
    ensures
        r@ == list_body(json_views(items@)),
{
    let ghost iv = json_views(items@);
    proof {
        lemma_json_views(items@);
    }
    let mut first = own("");
    let mut last = own("");
    if items.len() > 0 {
        assert(iv[0] == items@[0]@);
        match text_at(&items[0], "id") {
            Some(s) => {
                first = s.clone();
            },
            None => {},
        }
        let k = items.len() - 1;
        assert(iv.last() == items@[k as int]@);
        match text_at(&items[k], "id") {
            Some(s) => {
                last = s.clone();
            },
            None => {},
        }
    }
    let mut o = no_members();
    push_member(&mut o, "object", Json::text("list"));
    push_member(&mut o, "data", array(items));
    push_member(&mut o, "first_id", Json::text(first.as_str()));
    push_member(&mut o, "last_id", Json::text(last.as_str()));
    push_member(&mut o, "has_more", Json::Bool(false));
    proof {
        let want = list_body(iv)->Object_0;
        assert(member_views(o@) =~= want);
    }
    object(o)
}

/// The body that says that something was deleted.
pub open spec fn deleted_json(id: Seq<char>, kind: Seq<char>) -> JsonView {
    JsonView::Object(
        seq![
            ("id"@, JsonView::Str(id)),
            ("object"@, JsonView::Str(kind)),
            ("deleted"@, JsonView::Bool(true)),
        ],
    )
}

/// Computes [`deleted_json`].
pub fn deleted_body(id: &str, kind: &str) -> (r: Json)
    ensures
        r@ == deleted_json(id@, kind@),
{
    let mut o = no_members();
    push_member(&mut o, "id", Json::text(id));
    push_member(&mut o, "object", Json::text(kind));
    push_member(&mut o, "deleted", Json::Bool(true));
    proof {
        let want = deleted_json(id@, kind@)->Object_0;
        assert(member_views(o@) =~= want);
    }
    object(o)
}

/// A page never holds more than the most items.
pub proof fn law_page_is_bounded(items: Seq<JsonView>, q: QueryView)
    ensures
        page(items, q).len() <= MAX_LIMIT,
{
}

/// Without cursors, a page is the head of the listing.
pub proof fn law_page_is_head(items: Seq<JsonView>, q: QueryView)
    requires
        q.after is None,
        q.before is None,
    ensures
        page(items, q).is_prefix_of(ordered(items, q.order)),
{
}

/// A page behind an item begins with the item that follows it.
pub proof fn law_page_continues(items: Seq<JsonView>, q: QueryView, i: int)
    requires
        q.before is None,
        q.after matches Some(id) && item_at(ordered(items, q.order), id, 0) == Some(i),
        0 <= i,
        i + 1 < items.len(),
        page_limit(q.limit) > 0,
    ensures
        page(items, q).len() > 0,
        page(items, q)[0] == ordered(items, q.order)[i + 1],
{
}

/// An item is found by its identifier, and it is the first that has it.
pub proof fn law_items_are_found(items: Seq<JsonView>, id: Seq<char>)
    ensures
        match item_at(items, id, 0) {
            Some(i) => 0 <= i < items.len() && text_field(items[i], "id"@) == Some(id)
                && forall|j: int|
                0 <= j < i ==> text_field(#[trigger] items[j], "id"@) != Some(id),
            None => forall|j: int|
                0 <= j < items.len() ==> text_field(#[trigger] items[j], "id"@) != Some(id),
        },
{
    lemma_item_at(items, id, 0);
}

proof fn lemma_item_at(items: Seq<JsonView>, id: Seq<char>, i: int)
    requires
        0 <= i,
    ensures
        match item_at(items, id, i) {
            Some(n) => i <= n < items.len() && text_field(items[n], "id"@) == Some(id)
                && forall|j: int|
                i <= j < n ==> text_field(#[trigger] items[j], "id"@) != Some(id),
            None => forall|j: int|
                i <= j < items.len() ==> text_field(#[trigger] items[j], "id"@) != Some(id),
        },
    decreases items.len() - i,
{
    if i < items.len() && text_field(items[i], "id"@) != Some(id) {
        lemma_item_at(items, id, i + 1);
    }
}

/// What fits on a page is on it, all of it: in the order in which it came, or
/// the other way round where that is asked for.
pub proof fn law_short_listing_is_whole(items: Seq<JsonView>, q: QueryView)
    requires
        q.after is None,
        q.before is None,
        items.len() <= page_limit(q.limit),
    ensures
        q.order is None || q.order == Some("asc"@) ==> page(items, q) == items,
        q.order == Some("desc"@) ==> page(items, q).len() == items.len() && forall|i: int|
            0 <= i < items.len() ==> page(items, q)[i] == #[trigger] items[items.len() - 1 - i],
{
    reveal_strlit("asc");
    reveal_strlit("desc");
    assert("asc"@.len() != "desc"@.len());
}

/// A page holds as many items as are asked for, up to the most, as long as
/// there are so many; where no number is given it holds the default.
pub proof fn law_page_size_is_what_was_asked(items: Seq<JsonView>, q: QueryView, n: nat)
    requires
        q.after is None,
        q.before is None,
        n <= usize::MAX,
    ensures
        q.limit is None && items.len() >= DEFAULT_LIMIT ==> page(items, q).len() == DEFAULT_LIMIT,
        q.limit == Some(dec(n)) && n <= MAX_LIMIT && items.len() >= n ==> page(items, q).len() == n,
        q.limit == Some(dec(n)) && n > MAX_LIMIT && items.len() >= MAX_LIMIT ==> page(
            items,
            q,
        ).len() == MAX_LIMIT,
{
    law_numbers_read_back(n, n, usize::MAX as nat);
}

/// A page ahead of an item ends where the item stands.
pub proof fn law_page_stops_before(items: Seq<JsonView>, q: QueryView, i: int)
    requires
        q.after is None,
        q.before matches Some(id) && item_at(ordered(items, q.order), id, 0) == Some(i),
        0 <= i <= page_limit(q.limit),
    ensures
        page(items, q).len() == i,
        forall|j: int| 0 <= j < i ==> #[trigger] page(items, q)[j] == ordered(items, q.order)[j],
{
    law_items_are_found(ordered(items, q.order), q.before->0);
}

/// A listing holds its items, and names the first and the last of them.
pub proof fn law_listing_holds_its_items(items: Seq<JsonView>, id: Seq<char>)
    ensures
        member_of(list_body(items), "data"@) == Some(JsonView::Array(items)),
        member_of(list_body(items), "object"@) == Some(JsonView::Str("list"@)),
        items.len() > 0 && text_field(items[0], "id"@) == Some(id) ==> member_of(
            list_body(items),
            "first_id"@,
        ) == Some(JsonView::Str(id)),
        items.len() == 0 ==> member_of(list_body(items), "first_id"@) == Some(JsonView::Str(""@)),
        items.len() == 0 ==> member_of(list_body(items), "last_id"@) == Some(JsonView::Str(""@)),
        items.len() > 0 && text_field(items.last(), "id"@) == Some(id) ==> member_of(
            list_body(items),
            "last_id"@,
        ) == Some(JsonView::Str(id)),
{
    lemma_listing_keys();
    reveal_with_fuel(key_at, 6);
}

/// Keys of what is listed and of what is deleted differ.
pub proof fn lemma_listing_keys()
    ensures
        "object"@ != "data"@,
        "object"@ != "first_id"@,
        "object"@ != "last_id"@,
        "data"@ != "first_id"@,
        "data"@ != "last_id"@,
        "first_id"@ != "last_id"@,
        "id"@ != "object"@,
        "id"@ != "deleted"@,
        "object"@ != "deleted"@,
        "id"@ != "created_at"@,
        "id"@ != "metadata"@,
        "object"@ != "created_at"@,
        "object"@ != "metadata"@,
        "created_at"@ != "metadata"@,
{
    reveal_strlit("object");
    reveal_strlit("data");
    reveal_strlit("first_id");
    reveal_strlit("last_id");
    reveal_strlit("id");
    reveal_strlit("deleted");
    reveal_strlit("created_at");
    reveal_strlit("metadata");
    assert("object"@.len() == 6 && "data"@.len() == 4 && "first_id"@.len() == 8);
    assert("last_id"@.len() == 7 && "id"@.len() == 2 && "deleted"@.len() == 7);
    assert("created_at"@.len() == 10 && "metadata"@.len() == 8);
}

/// The word that something was deleted names it.
pub proof fn law_deletion_names_what_is_gone(id: Seq<char>, kind: Seq<char>)
    ensures
        member_of(deleted_json(id, kind), "id"@) == Some(JsonView::Str(id)),
        member_of(deleted_json(id, kind), "object"@) == Some(JsonView::Str(kind)),
        member_of(deleted_json(id, kind), "deleted"@) == Some(JsonView::Bool(true)),
{
    lemma_listing_keys();
    reveal_with_fuel(key_at, 4);
}

} // verus!
