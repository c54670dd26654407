//! The table of parsers by model type, a TOML text.
use vstd::prelude::*;
use crate::text::same;

verus! {

/// A TOML value, as far as the table uses it.
pub enum TomlView {
    Str(Seq<char>),
    Table(Seq<(Seq<char>, TomlView)>),
    /// A number, a date, a truth value or an array.
    Other,
}

/// The value type of the `toml` crate.
#[verifier::external_type_specification]
#[verifier::external_body]
pub struct ExTomlValue(toml::Value);

/// What a value of the `toml` crate holds.
pub uninterp spec fn toml_view(v: toml::Value) -> TomlView;

/// What the `toml` crate reads out of a text; nothing where it refuses the
/// text.
pub uninterp spec fn text_toml(s: Seq<char>) -> Option<TomlView>;

/// The outermost layer of a value.
pub enum TomlLayer {
    Str(String),
    Table(Vec<(String, toml::Value)>),
    Other,
}

/// The entries of a table.
pub open spec fn toml_entries(s: Seq<(String, toml::Value)>) -> Seq<(Seq<char>, TomlView)> {
    s.map_values(|m: (String, toml::Value)| (m.0@, toml_view(m.1)))
}

/// What a layer holds.
pub open spec fn layer_toml(l: TomlLayer) -> TomlView {
    match l {
        TomlLayer::Str(s) => TomlView::Str(s@),
        TomlLayer::Table(t) => TomlView::Table(toml_entries(t@)),
        TomlLayer::Other => TomlView::Other,
    }
}

/// `toml::from_str`, into a `Value`. Claimed: whether it succeeds, and what the
/// value holds, depends on the text alone and has the name [`text_toml`].
#[verifier::external_body]
fn parse_toml(text: &str) -> (r: Option<toml::Value>)
    ensures
        match r {
            Some(v) => text_toml(text@) == Some(toml_view(v)),
            None => text_toml(text@) is None,
        },
{
    toml::from_str(text).ok()
}

/// The variants of `toml::Value`, told apart. Claimed: the layer holds what
/// the value holds.
#[verifier::external_body]
fn open_toml(v: toml::Value) -> (l: TomlLayer)
    ensures
        layer_toml(l) == toml_view(v),
{
    match v {
        toml::Value::String(s) => TomlLayer::Str(s),
        toml::Value::Table(t) => TomlLayer::Table(t.into_iter().collect()),
        _ => TomlLayer::Other,
    }
}

/// The first entry from `i` on under a key.
pub open spec fn entry_from(t: Seq<(Seq<char>, TomlView)>, key: Seq<char>, i: int) -> Option<TomlView>
    decreases t.len() - i,
{
    if i < 0 || i >= t.len() {
        None
    } else if t[i].0 == key {
        Some(t[i].1)
    } else {
        entry_from(t, key, i + 1)
    }
}

/// What a table holds under a key.
pub open spec fn entry_of(v: Option<TomlView>, key: Seq<char>) -> Option<TomlView> {
    match v {
        Some(TomlView::Table(t)) => entry_from(t, key, 0),
        _ => None,
    }
}

/// The text that a defaults table holds for a model type.
pub open spec fn default_text(
    defaults: Option<TomlView>,
    section: Seq<char>,
    model_type: Seq<char>,
) -> Option<Seq<char>> {
    match entry_of(entry_of(defaults, section), model_type) {
        Some(TomlView::Str(s)) => Some(s),
        _ => None,
    }
}

/// Takes what stands under a key out of a table.
fn take_entry(table: Vec<(String, toml::Value)>, key: &str) -> (r: Option<toml::Value>)
    ensures
        match r {
            Some(v) => entry_from(toml_entries(table@), key@, 0) == Some(toml_view(v)),
            None => entry_from(toml_entries(table@), key@, 0) is None,
        },
{
    let ghost all = toml_entries(table@);
    let ghost whole = table@;
    let mut rest = table;
    let mut found: Option<toml::Value> = None;
    while rest.len() > 0
        invariant
            rest@.len() <= whole.len(),
            rest@ == whole.take(rest@.len() as int),
            all == toml_entries(whole),
            match found {
                Some(v) => entry_from(all, key@, rest@.len() as int) == Some(toml_view(v)),
                None => entry_from(all, key@, rest@.len() as int) is None,
            },
        decreases rest@.len(),
    {
        let ghost n = rest@.len();
        assert(rest@.last() == whole[n - 1]);
        match rest.pop() {
            Some((k, v)) => {
                assert(rest@ =~= whole.take(n - 1));
                assert(all[n - 1] == (k@, toml_view(v)));
                if same(k.as_str(), key) {
                    found = Some(v);
                }
            },
            None => {},
        }
    }
    found
}

/// Looks up the text that a defaults table holds for a model type.
pub fn default_for(defaults: &str, section: &str, model_type: &str) -> (r: Option<String>)
    ensures
        match r {
            Some(s) => default_text(text_toml(defaults@), section@, model_type@) == Some(s@),
            None => default_text(text_toml(defaults@), section@, model_type@) is None,
        },
{
    let root = match parse_toml(defaults) {
        Some(v) => v,
        None => {
            return None;
        },
    };
    let table = match open_toml(root) {
        TomlLayer::Table(t) => t,
        _ => {
            return None;
        },
    };
    let part = match take_entry(table, section) {
        Some(v) => v,
        None => {
            return None;
        },
    };
    let entries = match open_toml(part) {
        TomlLayer::Table(t) => t,
        _ => {
            return None;
        },
    };
    let entry = match take_entry(entries, model_type) {
        Some(v) => v,
        None => {
            return None;
        },
    };
    match open_toml(entry) {
        TomlLayer::Str(s) => Some(s),
        _ => None,
    }
}

/// The default of a model is the text that stands under its type in the section;
/// where the section or the type is missing there is none.
pub proof fn law_default_is_the_entry(
    t: Seq<(Seq<char>, TomlView)>,
    i: int,
    u: Seq<(Seq<char>, TomlView)>,
    j: int,
    s: Seq<char>,
)
    requires
        0 <= i < t.len(),
        t[i].1 == TomlView::Table(u),
        forall|k: int| 0 <= k < i ==> (#[trigger] t[k]).0 != t[i].0,
    ensures
        0 <= j < u.len() && u[j].1 == TomlView::Str(s) && (forall|k: int|
            0 <= k < j ==> (#[trigger] u[k]).0 != u[j].0) ==> default_text(
            Some(TomlView::Table(t)),
            t[i].0,
            u[j].0,
        ) == Some(s),
        (forall|k: int| 0 <= k < u.len() ==> (#[trigger] u[k]).0 != s) ==> default_text(
            Some(TomlView::Table(t)),
            t[i].0,
            s,
        ) is None,
        (forall|k: int| 0 <= k < t.len() ==> (#[trigger] t[k]).0 != s) ==> default_text(
            Some(TomlView::Table(t)),
            s,
            s,
        ) is None,
{
    lemma_entry(t, t[i].0, 0);
    lemma_entry(t, s, 0);
    lemma_entry(u, s, 0);
    if 0 <= j < u.len() {
        lemma_entry(u, u[j].0, 0);
    }
}

proof fn lemma_entry(t: Seq<(Seq<char>, TomlView)>, key: Seq<char>, i: int)
    requires
        0 <= i,
    ensures
        match entry_from(t, key, i) {
            Some(v) => exists|k: int|
                i <= k < t.len() && (#[trigger] t[k]).0 == key && t[k].1 == v && forall|j: int|
                    i <= j < k ==> (#[trigger] t[j]).0 != key,
            None => forall|j: int| i <= j < t.len() ==> (#[trigger] t[j]).0 != key,
        },
    decreases t.len() - i,
{
    if i < t.len() {
        if t[i].0 != key {
            lemma_entry(t, key, i + 1);
        }
    }
}

} // verus!
