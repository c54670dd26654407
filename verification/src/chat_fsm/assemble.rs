//! Finish reasons and whole responses.
use vstd::prelude::*;
use crate::chat_fsm::choice_builder::ChoiceBuilder;
use crate::chat_fsm::choice_builder::{lemma_applied_all_add, BuilderView};
use crate::chat_fsm::events::{FsmEvent, StopReason};
use crate::chat_fsm::events::{event_views, EventView, StopView};
use crate::chat_fsm::laws::{complete, run, StepInput};
use crate::chat_fsm::stepper::{Stepper, ThinkingScanner, ToolDetector};
use crate::chat_fsm::stepper::ScanView;
use crate::tools::{opt_view, OutputView};

verus! {

/// The finish reason that a client sees. A finished tool call wins over
/// everything; a completed grammar counts as one; a stop string is `stop`; the
/// scheduler's word is passed on; without a reason it is `stop`.
pub open spec fn finish_reason(stop: Option<StopView>, has_tool_calls: bool) -> Seq<char> {
    if has_tool_calls {
        "tool_calls"@
    } else {
        match stop {
            Some(StopView::GrammarTerminated) => "tool_calls"@,
            Some(StopView::StopString(_)) => "stop"@,
            Some(StopView::Upstream(s)) => s,
            None => "stop"@,
        }
    }
}

/// The view of an optional reason.
pub open spec fn stop_view(r: Option<&StopReason>) -> Option<StopView> {
    match r {
        Some(s) => Some(s@),
        None => None,
    }
}

/// Computes [`finish_reason`].
pub fn compute_finish_reason(stop_reason: Option<&StopReason>, has_tool_calls: bool) -> (r: String)
    ensures
        r@ == finish_reason(stop_view(stop_reason), has_tool_calls),
{
    if has_tool_calls {
        return "tool_calls".to_owned();
    }
    match stop_reason {
        Some(StopReason::GrammarTerminated) => "tool_calls".to_owned(),
        Some(StopReason::StopString { .. }) => "stop".to_owned(),
        Some(StopReason::Upstream(s)) => s.clone(),
        None => "stop".to_owned(),
    }
}

/// The decoded texts are fed one per step, and `states` are the steppers
/// before, between and after the steps: in each step the scanner and the
/// detector of the stepper before it made what `ins` says of the text.
pub open spec fn feeds<S: ThinkingScanner, D: ToolDetector>(
    states: Seq<Stepper<S, D>>,
    ins: Seq<StepInput>,
    decoded: Seq<Option<String>>,
) -> bool {
    &&& ins.len() == decoded.len()
    &&& states.len() == ins.len() + 1
    &&& forall|i: int|
        0 <= i < ins.len() ==> (#[trigger] ins[i]).chunk == opt_view(decoded[i])
            && states[i].reads(ins[i].chunk, ins[i].scan, ins[i].outs, states[i + 1])
            && states[i + 1].model() == states[i].model().step(
            ins[i].chunk,
            ins[i].scan,
            ins[i].outs,
        ).0
}

/// Collects a batch of events.
pub fn apply_events(builder: &mut ChoiceBuilder, events: Vec<FsmEvent>)
    ensures
        final(builder)@ == old(builder)@.applied_all(event_views(events@)),
{
    let ghost all = event_views(events@);
    let mut rest = events;
    assert(all.take(0) =~= Seq::<EventView>::empty());
    let ghost mut i: int = 0;
    while rest.len() > 0
        invariant
            0 <= i <= all.len(),
            event_views(rest@) == all.skip(i),
            builder@ == old(builder)@.applied_all(all.take(i)),
        decreases rest@.len(),
    {
        let ghost before = event_views(rest@);
        let ev = rest.remove(0);
        proof {
            assert(event_views(rest@) =~= before.drop_first());
            assert(all.take(i + 1).drop_last() =~= all.take(i));
            assert(before[0] == all[i]);
            assert(before.drop_first() =~= all.skip(i + 1));
            i = i + 1;
        }
        builder.apply(ev);
    }
    assert(all.take(i) =~= all);
}

/// Reads the decoded texts of a finished completion into one choice. What is
/// collected is what a whole completion emits, each step given its own text,
/// with what the scanner and the detector made of it when it was handed to
/// them, and the end given what they held back.
pub fn assemble_choice<S: ThinkingScanner, D: ToolDetector>(
    stepper: Stepper<S, D>,
    decoded: Vec<Option<String>>,
    finish_reason: String,
    choice_idx: usize,
) -> (r: ChoiceBuilder)
    requires
        stepper.wf(),
    ensures
        exists|
            states: Seq<Stepper<S, D>>,
            ins: Seq<StepInput>,
            tail: Option<Seq<char>>,
            outs: Option<Seq<OutputView>>,
            end: Stepper<S, D>,
        |
            #![trigger feeds(states, ins, decoded@), states.last().ends(tail, outs, end)]
            feeds(states, ins, decoded@) && states[0] == stepper && states.last().ends(
                tail,
                outs,
                end,
            ) && r@ == BuilderView::empty(choice_idx).applied_all(
                complete(stepper.model(), ins, tail, outs, finish_reason@).1,
            ),
{
    let ghost first = stepper;
    let mut stepper = stepper;
    let mut builder = ChoiceBuilder::new(choice_idx);
    let ghost m0 = stepper.model();
    let ghost mut states: Seq<Stepper<S, D>> = seq![stepper];
    let ghost start = builder@;
    let ghost mut ins: Seq<StepInput> = Seq::empty();
    let ghost mut events: Seq<EventView> = Seq::empty();
    let ghost texts = decoded@;
    let mut rest = decoded;
    let ghost mut n: int = 0;
    assert(rest@ =~= texts.skip(0));
    while rest.len() > 0
        invariant
            stepper.wf(),
            states.len() == n + 1,
            states[0] == first,
            states.last() == stepper,
            start == BuilderView::empty(choice_idx),
            0 <= n <= texts.len(),
            rest@ == texts.skip(n),
            ins.len() == n,
            feeds(states, ins, texts.take(n)),
            run(m0, ins) == (stepper.model(), events),
            builder@ == start.applied_all(events),
        decreases rest@.len(),
    {
        let ghost held = stepper;
        let ghost before = rest@;
        let text = rest.remove(0);
        let ghost view = opt_view(text);
        let evs = stepper.step_token(text);
        let ghost step_events = event_views(evs@);
        apply_events(&mut builder, evs);
        proof {
            let (scan, outs) = choose|scan: ScanView, outs: Option<Seq<OutputView>>|
                held.reads(view, scan, outs, stepper) && (stepper.model(), step_events)
                    == #[trigger] held.model().step(view, scan, outs);
            let i = StepInput { chunk: view, scan, outs };
            let more = ins.push(i);
            let longer = states.push(stepper);
            assert(more.drop_last() =~= ins);
            assert(before[0] == texts[n]);
            assert(rest@ =~= texts.skip(n + 1));
            assert forall|k: int| 0 <= k < more.len() implies (#[trigger] more[k]).chunk
                == opt_view(texts.take(n + 1)[k]) && longer[k].reads(
                more[k].chunk,
                more[k].scan,
                more[k].outs,
                longer[k + 1],
            ) && longer[k + 1].model() == longer[k].model().step(
                more[k].chunk,
                more[k].scan,
                more[k].outs,
            ).0 by {
                if k < n {
                    assert(ins[k].chunk == opt_view(texts.take(n)[k]));
                }
            }
            assert(feeds(longer, more, texts.take(n + 1)));
            lemma_applied_all_add(start, events, step_events);
            events = events + step_events;
            ins = more;
            states = longer;
            n = n + 1;
        }
    }
    assert(texts.take(n) =~= texts);
    let ghost held = stepper;
    let ghost reason = finish_reason@;
    let last = stepper.flush(finish_reason);
    let ghost last_events = event_views(last@);
    apply_events(&mut builder, last);
    proof {
        let (tail, outs) = choose|tail: Option<Seq<char>>, outs: Option<Seq<OutputView>>|
            held.ends(tail, outs, stepper) && (stepper.model(), last_events)
                == #[trigger] held.model().finish(tail, outs, reason);
        assert(states.last().ends(tail, outs, stepper));
        lemma_applied_all_add(start, events, last_events);
        assert(complete(m0, ins, tail, outs, reason).1 == events + last_events);
    }
    builder
}

} // verus!
