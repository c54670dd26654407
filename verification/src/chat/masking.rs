//! Stale bodies, replaced before the template is rendered.
use vstd::prelude::*;
use crate::chat::entries::MsgEntry;
use crate::chat::entries::{entry_views, EntryView};

verus! {

/// An entry with its body replaced, where there is a replacement.
pub open spec fn replaced(e: EntryView, new: Option<String>) -> EntryView {
    match new {
        Some(s) => EntryView { content: s@, ..e },
        None => e,
    }
}

/// Entries with their bodies replaced.
pub open spec fn with_mask(es: Seq<EntryView>, mask: Seq<Option<String>>) -> Seq<EntryView> {
    Seq::new(
        es.len(),
        |i: int|
            if i < mask.len() {
                replaced(es[i], mask[i])
            } else {
                es[i]
            },
    )
}

/// The number of replacements.
pub open spec fn replacements(mask: Seq<Option<String>>) -> nat
    decreases mask.len(),
{
    if mask.len() == 0 {
        0
    } else {
        replacements(mask.drop_last()) + if mask.last() is Some {
            1nat
        } else {
            0
        }
    }
}

proof fn lemma_replacements(mask: Seq<Option<String>>)
    ensures
        replacements(mask) <= mask.len(),
    decreases mask.len(),
{
    if mask.len() > 0 {
        lemma_replacements(mask.drop_last());
    }
}

/// Replaces the bodies for which there is a replacement, and counts them.
pub fn apply_mask(messages: &mut Vec<MsgEntry>, mask: &Vec<Option<String>>) -> (r: usize)
    requires
        mask@.len() <= old(messages)@.len(),
    ensures
        entry_views(final(messages)@) == with_mask(entry_views(old(messages)@), mask@),
        r == replacements(mask@),
{
    let ghost before = entry_views(messages@);
    let mut count: usize = 0;
    let mut i: usize = 0;
    assert(entry_views(messages@) =~= with_mask(before, mask@.take(0)));
    while i < mask.len()
        invariant
            i <= mask@.len(),
            mask@.len() <= messages@.len(),
            before.len() == messages@.len(),
            entry_views(messages@) == with_mask(before, mask@.take(i as int)),
            count == replacements(mask@.take(i as int)),
            count <= i,
        decreases mask@.len() - i,
    {
        assert(mask@.take(i + 1).drop_last() =~= mask@.take(i as int));
        let ghost now = messages@;
        assert(entry_views(now)[i as int] == now[i as int]@);
        assert(with_mask(before, mask@.take(i as int))[i as int] == before[i as int]);
        match &mask[i] {
            Some(body) => {
                let e = MsgEntry {
                    role: messages[i].role.clone(),
                    content: body.clone(),
                    tool_calls: match &messages[i].tool_calls {
                        Some(c) => Some(crate::json::copy_values(c)),
                        None => None,
                    },
                    image_count: messages[i].image_count,
                    failures_in_a_row: messages[i].failures_in_a_row,
                };
                assert(e@ =~= replaced(before[i as int], mask@[i as int]));
                messages.set(i, e);
                count += 1;
                assert(entry_views(messages@) =~= entry_views(now).update(i as int, e@));
            },
            None => {},
        }
        i += 1;
        assert(entry_views(messages@) =~= with_mask(before, mask@.take(i as int)));
    }
    proof {
        lemma_replacements(mask@);
    }
    assert(mask@.take(i as int) =~= mask@);
    count
}

/// Masking changes nothing but bodies.
pub proof fn law_mask_keeps_the_rest(es: Seq<EntryView>, mask: Seq<Option<String>>, i: int)
    requires
        0 <= i < es.len(),
    ensures
        with_mask(es, mask).len() == es.len(),
        with_mask(es, mask)[i].role == es[i].role,
        with_mask(es, mask)[i].tool_calls == es[i].tool_calls,
        with_mask(es, mask)[i].image_count == es[i].image_count,
        i >= mask.len() || mask[i] is None ==> with_mask(es, mask)[i] == es[i],
{
}

/// A replacement takes the place of the body that it is for, and each one is
/// counted.
pub proof fn law_mask_replaces_the_bodies(es: Seq<EntryView>, mask: Seq<Option<String>>, i: int)
    requires
        0 <= i < es.len(),
        i < mask.len(),
    ensures
        mask[i] matches Some(s) ==> with_mask(es, mask)[i].content == s@,
        mask[i] is Some ==> replacements(mask) > 0,
        (forall|j: int| 0 <= j < mask.len() ==> #[trigger] mask[j] is Some) ==> replacements(mask)
            == mask.len(),
{
    lemma_one_replacement(mask, i);
    if forall|j: int| 0 <= j < mask.len() ==> #[trigger] mask[j] is Some {
        lemma_all_replaced(mask);
    }
}

proof fn lemma_one_replacement(mask: Seq<Option<String>>, i: int)
    requires
        0 <= i < mask.len(),
    ensures
        mask[i] is Some ==> replacements(mask) > 0,
    decreases mask.len(),
{
    if i < mask.len() - 1 {
        lemma_one_replacement(mask.drop_last(), i);
    }
}

proof fn lemma_all_replaced(mask: Seq<Option<String>>)
    requires
        forall|j: int| 0 <= j < mask.len() ==> #[trigger] mask[j] is Some,
    ensures
        replacements(mask) == mask.len(),
    decreases mask.len(),
{
    if mask.len() > 0 {
        assert(mask[mask.len() - 1] is Some);
        assert forall|j: int| 0 <= j < mask.drop_last().len() implies #[trigger] mask.drop_last()[j] is Some
            by {
            assert(mask[j] is Some);
        }
        lemma_all_replaced(mask.drop_last());
    }
}

} // verus!
