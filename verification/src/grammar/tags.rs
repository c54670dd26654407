//! Structural tags: where in an answer a grammar takes hold.
use vstd::prelude::*;
use crate::json::{array, no_members, no_values, object, push_member, push_value, Json};
use crate::json::{json_views, key_at, member_of, member_views, JsonView};
use crate::text::views;

verus! {

/// Texts as an array.
pub open spec fn text_array(s: Seq<Seq<char>>) -> JsonView {
    JsonView::Array(s.map_values(|t: Seq<char>| JsonView::Str(t)))
}

/// What may not stand in an answer behind its thinking: it has one thinking
/// block at most.
pub open spec fn answer_excludes() -> Seq<Seq<char>> {
    seq!["<think>"@, "</think>"@]
}

/// What may not stand in a thinking block: another one, and the openers and
/// closers of a tool call.
pub open spec fn thinking_excludes() -> Seq<Seq<char>> {
    seq![
        "<think>"@,
        "<function="@,
        "<tool_call>"@,
        "<parameter="@,
        "</function>"@,
        "</tool_call>"@,
        "</parameter>"@,
    ]
}

/// Free text in which triggers lead into tags.
pub open spec fn triggered_tags(
    triggers: Seq<Seq<char>>,
    tags: Seq<JsonView>,
    at_least_one: bool,
    stop_after_first: bool,
) -> JsonView {
    JsonView::Object(
        seq![
            ("type"@, JsonView::Str("triggered_tags"@)),
            ("triggers"@, text_array(triggers)),
            ("tags"@, JsonView::Array(tags)),
            ("at_least_one"@, JsonView::Bool(at_least_one)),
            ("stop_after_first"@, JsonView::Bool(stop_after_first)),
            ("excludes"@, text_array(answer_excludes())),
        ],
    )
}

/// A structural tag of this format.
pub open spec fn structural_tag(format: JsonView) -> JsonView {
    JsonView::Object(
        seq![("type"@, JsonView::Str("structural_tag"@)), ("format"@, format)],
    )
}

/// A thinking block, its end, and the answer behind it.
pub open spec fn thinking_sequence(answer: JsonView) -> JsonView {
    JsonView::Object(
        seq![
            ("type"@, JsonView::Str("sequence"@)),
            (
                "elements"@,
                JsonView::Array(
                    seq![
                        JsonView::Object(
                            seq![
                                ("type"@, JsonView::Str("any_text"@)),
                                ("excludes"@, text_array(thinking_excludes())),
                            ],
                        ),
                        JsonView::Object(
                            seq![
                                ("type"@, JsonView::Str("const_string"@)),
                                ("value"@, JsonView::Str("</think>"@)),
                            ],
                        ),
                        answer,
                    ],
                ),
            ),
        ],
    )
}

/// Computes [`text_array`].
fn build_texts(v: &Vec<String>) -> (r: Json)
    ensures
        r@ == text_array(views(v@)),
{
    let ghost want = views(v@).map_values(|t: Seq<char>| JsonView::Str(t));
    let mut a = no_values();
    let mut i: usize = 0;
    assert(json_views(a@) =~= want.take(0));
    while i < v.len()
        invariant
            i <= v@.len(),
            want == views(v@).map_values(|t: Seq<char>| JsonView::Str(t)),
            json_views(a@) == want.take(i as int),
        decreases v@.len() - i,
    {
        push_value(&mut a, Json::text(v[i].as_str()));
        i += 1;
        assert(json_views(a@) =~= want.take(i as int));
    }
    assert(want.take(i as int) =~= want);
    array(a)
}

/// The excluded texts of an answer.
fn build_answer_excludes() -> (r: Json)
    ensures
        r@ == text_array(answer_excludes()),
{
    let mut a = no_values();
    push_value(&mut a, Json::text("<think>"));
    push_value(&mut a, Json::text("</think>"));
    proof {
        let want = answer_excludes().map_values(|t: Seq<char>| JsonView::Str(t));
        assert(json_views(a@) =~= want);
    }
    array(a)
}

/// The excluded texts of a thinking block.
fn build_thinking_excludes() -> (r: Json)
    ensures
        r@ == text_array(thinking_excludes()),
{
    let mut a = no_values();
    push_value(&mut a, Json::text("<think>"));
    push_value(&mut a, Json::text("<function="));
    push_value(&mut a, Json::text("<tool_call>"));
    push_value(&mut a, Json::text("<parameter="));
    push_value(&mut a, Json::text("</function>"));
    push_value(&mut a, Json::text("</tool_call>"));
    push_value(&mut a, Json::text("</parameter>"));
    proof {
        let want = thinking_excludes().map_values(|t: Seq<char>| JsonView::Str(t));
        assert(json_views(a@) =~= want);
    }
    array(a)
}

/// Computes [`triggered_tags`].
fn build_triggered(
    triggers: &Vec<String>,
    tags: Vec<Json>,
    at_least_one: bool,
    stop_after_first: bool,
) -> (r: Json)
    ensures
        r@ == triggered_tags(views(triggers@), json_views(tags@), at_least_one, stop_after_first),
{
    let ghost tv = json_views(tags@);
    let mut o = no_members();
    push_member(&mut o, "type", Json::text("triggered_tags"));
    push_member(&mut o, "triggers", build_texts(triggers));
    push_member(&mut o, "tags", array(tags));
    push_member(&mut o, "at_least_one", Json::Bool(at_least_one));
    push_member(&mut o, "stop_after_first", Json::Bool(stop_after_first));
    push_member(&mut o, "excludes", build_answer_excludes());
    proof {
        let want = triggered_tags(
            views(triggers@),
            tv,
            at_least_one,
            stop_after_first,
        )->Object_0;
        assert(member_views(o@) =~= want);
    }
    object(o)
}

/// Computes [`structural_tag`].
fn build_tag(format: Json) -> (r: Json)
    ensures
        r@ == structural_tag(format@),
{
    let ghost fv = format@;
    let mut o = no_members();
    push_member(&mut o, "type", Json::text("structural_tag"));
    push_member(&mut o, "format", format);
    proof {
        let want = structural_tag(fv)->Object_0;
        assert(member_views(o@) =~= want);
    }
    object(o)
}

/// The structural tag of an answer without thinking.
pub fn build_structural_tag(
    triggers: &Vec<String>,
    tags: Vec<Json>,
    at_least_one: bool,
    stop_after_first: bool,
) -> (r: Json)
    ensures
        r@ == structural_tag(
            triggered_tags(views(triggers@), json_views(tags@), at_least_one, stop_after_first),
        ),
{
    build_tag(build_triggered(triggers, tags, at_least_one, stop_after_first))
}

/// The structural tag of an answer that begins inside its thinking block.
pub fn build_thinking_wrapped_structural_tag(
    triggers: &Vec<String>,
    tags: Vec<Json>,
    at_least_one: bool,
    stop_after_first: bool,
) -> (r: Json)
    ensures
        r@ == structural_tag(
            thinking_sequence(
                triggered_tags(views(triggers@), json_views(tags@), at_least_one, stop_after_first),
            ),
        ),
{
    let answer = build_triggered(triggers, tags, at_least_one, stop_after_first);
    let ghost av = answer@;
    let ghost all = thinking_sequence(av);
    let ghost elements = all->Object_0[1].1->Array_0;
    let mut thinking = no_members();
    push_member(&mut thinking, "type", Json::text("any_text"));
    push_member(&mut thinking, "excludes", build_thinking_excludes());
    assert(member_views(thinking@) =~= elements[0]->Object_0);
    let mut end = no_members();
    push_member(&mut end, "type", Json::text("const_string"));
    push_member(&mut end, "value", Json::text("</think>"));
    assert(member_views(end@) =~= elements[1]->Object_0);
    let mut parts = no_values();
    push_value(&mut parts, object(thinking));
    push_value(&mut parts, object(end));
    push_value(&mut parts, answer);
    assert(json_views(parts@) =~= elements);
    let mut o = no_members();
    push_member(&mut o, "type", Json::text("sequence"));
    push_member(&mut o, "elements", array(parts));
    assert(member_views(o@) =~= all->Object_0);
    build_tag(object(o))
}

/// The tags of a grammar hold what they are made of: what triggers them, each
/// tag, and whether there must be one and may be more.
pub proof fn law_tags_hold_what_they_are_made_of(
    triggers: Seq<Seq<char>>,
    tags: Seq<JsonView>,
    at_least_one: bool,
    stop_after_first: bool,
    i: int,
)
    ensures
        ({
            let t = triggered_tags(triggers, tags, at_least_one, stop_after_first);
            &&& member_of(t, "tags"@) == Some(JsonView::Array(tags))
            &&& member_of(t, "at_least_one"@) == Some(JsonView::Bool(at_least_one))
            &&& member_of(t, "stop_after_first"@) == Some(JsonView::Bool(stop_after_first))
            &&& member_of(t, "triggers"@) matches Some(JsonView::Array(l)) && l.len()
                == triggers.len() && (0 <= i < l.len() ==> l[i] == JsonView::Str(triggers[i]))
            &&& member_of(t, "type"@) == Some(JsonView::Str("triggered_tags"@))
            &&& member_of(structural_tag(t), "type"@) == Some(JsonView::Str("structural_tag"@))
            &&& member_of(structural_tag(t), "format"@) == Some(t)
        }),
{
    reveal_strlit("type");
    reveal_strlit("triggers");
    reveal_strlit("tags");
    reveal_strlit("at_least_one");
    reveal_strlit("stop_after_first");
    reveal_strlit("format");
    assert("type"@.len() == 4 && "triggers"@.len() == 8 && "tags"@.len() == 4);
    assert("type"@[1] == 'y' && "tags"@[1] == 'a');
    assert("at_least_one"@.len() == 12 && "stop_after_first"@.len() == 16 && "format"@.len() == 6);
    reveal_with_fuel(key_at, 6);
}

/// An answer behind thinking is the answer, after any text and the end of the
/// thinking block.
pub proof fn law_thinking_leads_to_the_answer(answer: JsonView)
    ensures
        member_of(thinking_sequence(answer), "type"@) == Some(JsonView::Str("sequence"@)),
        member_of(thinking_sequence(answer), "elements"@) matches Some(JsonView::Array(l))
            && l.len() == 3 && l[2] == answer && member_of(l[1], "value"@) == Some(
            JsonView::Str("</think>"@),
        ),
{
    reveal_strlit("type");
    reveal_strlit("elements");
    reveal_strlit("value");
    assert("type"@.len() == 4 && "elements"@.len() == 8 && "value"@.len() == 5);
    reveal_with_fuel(key_at, 3);
}

} // verus!
