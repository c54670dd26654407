//! One streamed completion: tokens in, stream items out.
use vstd::prelude::*;
use crate::chat_fsm::choice_builder::ChoiceBuilder;
use crate::chat_fsm::choice_builder::{lemma_applied_all_add, BuilderView};
use crate::chat_fsm::events::FsmEvent;
use crate::chat_fsm::events::{event_views, EventView};
use crate::chat_fsm::laws::{complete, run, StepInput};
use crate::chat_fsm::stepper::{Stepper, ThinkingScanner, ToolDetector};
use crate::chat_fsm::stepper::{CoreView, ScanView};
use crate::chat_stream::adapter::{Ended, StreamingAdapter, UsageInputs};
use crate::chat_stream::adapter::{all_items, law_record_is_stream, wire_content, AdapterView};
use crate::chat_stream::wire::Wire;
use crate::chat_stream::wire::{wire_views, WireView};
use crate::text::views;
use crate::tools::{opt_view, OutputView};

verus! {

/// What a token or the end of a completion leads to.
#[derive(Debug)]
pub struct Streamed<F> {
    /// The stream items.
    pub items: Vec<Wire<F>>,
    /// The lines to log.
    pub logs: Vec<String>,
    /// Set once the completion has ended.
    pub ended: Option<Ended>,
}

/// One of the events ends the completion.
pub open spec fn has_stop(s: Seq<EventView>) -> bool {
    exists|i: int| 0 <= i < s.len() && #[trigger] s[i] is Stopped
}

/// The lines that a sequence of events leads to.
pub open spec fn all_logs<F>(a: AdapterView<F>, s: Seq<EventView>) -> Seq<Seq<char>>
    decreases s.len(),
{
    if s.len() == 0 {
        Seq::empty()
    } else {
        let head = all_logs(a, s.drop_last());
        match a.collected(s.drop_last()).log(s.last()) {
            Some(line) => head.push(line),
            None => head,
        }
    }
}

/// The outcome of a sequence of events.
pub open spec fn streams<F>(a: AdapterView<F>, s: Seq<EventView>, r: Streamed<F>) -> bool {
    &&& wire_views(r.items@) == all_items(a, s)
    &&& views(r.logs@) == all_logs(a, s)
    &&& r.ended == if has_stop(s) {
        Some(a.ended())
    } else {
        None
    }
}

/// Puts a sequence of events through an adapter.
fn translate_all<F: Copy>(adapter: &mut StreamingAdapter<F>, events: Vec<FsmEvent>) -> (r: Streamed<F>)
    requires
        old(adapter)@.prompt_len + old(adapter)@.inputs.completion_tokens <= usize::MAX,
    ensures
        final(adapter)@ == old(adapter)@.collected(event_views(events@)),
        streams(old(adapter)@, event_views(events@), r),
{
    let ghost a = adapter@;
    let ghost all = event_views(events@);
    let mut items: Vec<Wire<F>> = Vec::new();
    let mut logs: Vec<String> = Vec::new();
    let mut ended: Option<Ended> = None;
    let mut rest = events;
    let ghost mut i: int = 0;
    proof {
        assert(all.take(0) =~= Seq::<EventView>::empty());
        assert(wire_views(items@) =~= Seq::<WireView<F>>::empty());
        assert(views(logs@) =~= Seq::<Seq<char>>::empty());
        assert(a.collected(all.take(0)) == a);
    }
    while rest.len() > 0
        invariant
            0 <= i <= all.len(),
            event_views(rest@) == all.skip(i),
            a.prompt_len + a.inputs.completion_tokens <= usize::MAX,
            adapter@ == a.collected(all.take(i)),
            wire_views(items@) == all_items(a, all.take(i)),
            views(logs@) == all_logs(a, all.take(i)),
            ended == if has_stop(all.take(i)) {
                Some(a.ended())
            } else {
                None
            },
        decreases rest@.len(),
    {
        let ghost before = event_views(rest@);
        let ghost head = all.take(i);
        let ev = rest.remove(0);
        let ghost e = ev@;
        proof {
            assert(event_views(rest@) =~= before.drop_first());
            assert(before[0] == all[i]);
            assert(before.drop_first() =~= all.skip(i + 1));
            assert(all.take(i + 1).drop_last() =~= head);
            assert(all.take(i + 1).last() == e);
        }
        let ghost b = adapter@;
        let t = adapter.translate(ev, &mut items);
        match t.log {
            Some(line) => {
                let ghost kept = logs@;
                let ghost lv = line@;
                logs.push(line);
                assert(views(logs@) =~= views(kept).push(lv));
            },
            None => {},
        }
        match t.ended {
            Some(x) => {
                ended = Some(x);
            },
            None => {},
        }
        proof {
            let more = all.take(i + 1);
            if e is Stopped {
                assert(more[i] is Stopped);
            } else if has_stop(more) {
                let k = choose|k: int| 0 <= k < more.len() && #[trigger] more[k] is Stopped;
                assert(head[k] is Stopped);
            }
            if has_stop(head) {
                let k = choose|k: int| 0 <= k < head.len() && #[trigger] head[k] is Stopped;
                assert(more[k] is Stopped);
            }
            assert(b.ended() == a.ended());
            assert(adapter@ == a.collected(more));
            i = i + 1;
        }
    }
    assert(all.take(i) =~= all);
    Streamed { items, logs, ended }
}

/// A streamed completion: what reads its text, and what turns its events into
/// stream items.
#[derive(Debug)]
pub struct StreamRun<F, S: ThinkingScanner, D: ToolDetector> {
    stepper: Stepper<S, D>,
    adapter: StreamingAdapter<F>,
}

impl<F: Copy, S: ThinkingScanner, D: ToolDetector> StreamRun<F, S, D> {
    /// What reads the text.
    pub closed spec fn reader(self) -> Stepper<S, D> {
        self.stepper
    }

    /// The state of the decisions.
    pub open spec fn model(self) -> CoreView {
        self.reader().model()
    }

    /// Whether content goes through a detector.
    pub open spec fn detects(self) -> bool {
        self.reader().detects()
    }

    /// What was collected.
    pub closed spec fn record(self) -> AdapterView<F> {
        self.adapter@
    }

    /// The stepper is sound, and the tokens can be counted.
    pub open spec fn wf(self) -> bool {
        &&& self.reader().wf()
        &&& self.record().prompt_len + self.record().inputs.completion_tokens <= usize::MAX
    }

    /// Before the first token.
    pub fn new(stepper: Stepper<S, D>, adapter: StreamingAdapter<F>) -> (r: StreamRun<F, S, D>)
        requires
            stepper.wf(),
            adapter@.prompt_len + adapter@.inputs.completion_tokens <= usize::MAX,
        ensures
            r.wf(),
            r.reader() == stepper,
            r.record() == adapter@,
    {
        StreamRun { stepper, adapter }
    }

    /// Takes the text that one token decoded to, if any.
    pub fn take_token(&mut self, decoded: Option<String>) -> (r: Streamed<F>)
        requires
            old(self).wf(),
        ensures
            final(self).wf(),
            final(self).detects() == old(self).detects(),
            old(self).model().stopped ==> final(self).reader() == old(self).reader(),
            exists|scan: ScanView, outs: Option<Seq<OutputView>>|
                {
                    let (m, s) = #[trigger] old(self).model().step(opt_view(decoded), scan, outs);
                    &&& old(self).reader().reads(
                        opt_view(decoded),
                        scan,
                        outs,
                        final(self).reader(),
                    )
                    &&& final(self).model() == m
                    &&& final(self).record() == old(self).record().collected(s)
                    &&& streams(old(self).record(), s, r)
                },
    {
        let ghost held = self.stepper;
        let ghost view = opt_view(decoded);
        let events = self.stepper.step_token(decoded);
        let ghost s = event_views(events@);
        let r = translate_all(&mut self.adapter, events);
        proof {
            let (scan, outs) = choose|scan: ScanView, outs: Option<Seq<OutputView>>|
                held.reads(view, scan, outs, self.stepper) && (self.stepper.model(), s)
                    == #[trigger] held.model().step(view, scan, outs);
            assert(held.model().step(view, scan, outs) == (self.model(), s));
        }
        r
    }

    /// Takes the end of the completion, with the scheduler's report.
    pub fn take_done(&mut self, finish_reason: String, inputs: UsageInputs<F>) -> (r: Streamed<F>)
        requires
            old(self).wf(),
            old(self).record().prompt_len + inputs.completion_tokens <= usize::MAX,
        ensures
            final(self).wf(),
            final(self).model().stopped,
            final(self).detects() == old(self).detects(),
            old(self).model().stopped ==> final(self).reader() == old(self).reader(),
            exists|tail: Option<Seq<char>>, outs: Option<Seq<OutputView>>|
                {
                    let (m, s) = #[trigger] old(self).model().finish(tail, outs, finish_reason@);
                    let a = AdapterView { inputs, ..old(self).record() };
                    &&& old(self).reader().ends(tail, outs, final(self).reader())
                    &&& final(self).model() == m
                    &&& final(self).record() == a.collected(s)
                    &&& streams(a, s, r)
                },
    {
        let ghost held = self.stepper;
        let ghost reason = finish_reason@;
        self.adapter.set_usage_inputs(inputs);
        let events = self.stepper.flush(finish_reason);
        let ghost s = event_views(events@);
        let r = translate_all(&mut self.adapter, events);
        proof {
            let (tail, outs) = choose|tail: Option<Seq<char>>, outs: Option<Seq<OutputView>>|
                held.ends(tail, outs, self.stepper) && (self.stepper.model(), s)
                    == #[trigger] held.model().finish(tail, outs, reason);
            assert(held.model().finish(tail, outs, reason) == (self.model(), s));
        }
        r
    }

    /// Hands out what was collected.
    pub fn take_choice(&mut self) -> (r: ChoiceBuilder)
        ensures
            r@ == old(self).record().choice,
    {
        self.adapter.take_choice()
    }
}

/// What is collected of a completion that is streamed token by token.
pub open spec fn record_after<F>(a: AdapterView<F>, m: CoreView, ins: Seq<StepInput>) -> AdapterView<F>
    decreases ins.len(),
{
    if ins.len() == 0 {
        a
    } else {
        let i = ins.last();
        record_after(a, m, ins.drop_last()).collected(
            run(m, ins.drop_last()).0.step(i.chunk, i.scan, i.outs).1,
        )
    }
}

/// What a client reads of a completion that is streamed token by token.
pub open spec fn items_after<F>(a: AdapterView<F>, m: CoreView, ins: Seq<StepInput>) -> Seq<
    WireView<F>,
>
    decreases ins.len(),
{
    if ins.len() == 0 {
        Seq::empty()
    } else {
        let i = ins.last();
        items_after(a, m, ins.drop_last()) + all_items(
            record_after(a, m, ins.drop_last()),
            run(m, ins.drop_last()).0.step(i.chunk, i.scan, i.outs).1,
        )
    }
}

pub proof fn lemma_record_after<F>(a: AdapterView<F>, m: CoreView, ins: Seq<StepInput>)
    ensures
        record_after(a, m, ins) == a.collected(run(m, ins).1),
    decreases ins.len(),
{
    if ins.len() > 0 {
        let head = ins.drop_last();
        let i = ins.last();
        lemma_record_after(a, m, head);
        lemma_applied_all_add(
            a.choice,
            run(m, head).1,
            run(m, head).0.step(i.chunk, i.scan, i.outs).1,
        );
    }
}

proof fn lemma_items_add<F>(a: AdapterView<F>, s: Seq<EventView>, t: Seq<EventView>)
    ensures
        all_items(a, s + t) == all_items(a, s) + all_items(a.collected(s), t),
    decreases t.len(),
{
    if t.len() == 0 {
        assert(s + t =~= s);
        assert(all_items(a, s) + all_items(a.collected(s), t) =~= all_items(a, s));
    } else {
        let head = t.drop_last();
        lemma_items_add(a, s, head);
        assert((s + t).drop_last() =~= s + head);
        lemma_applied_all_add(a.choice, s, head);
        assert(a.collected(s + head) == a.collected(s).collected(head));
        let last = a.collected(s + head).items(t.last());
        assert(all_items(a, s) + (all_items(a.collected(s), head) + last) =~= (all_items(a, s)
            + all_items(a.collected(s), head)) + last);
    }
}

pub proof fn lemma_items_after<F>(a: AdapterView<F>, m: CoreView, ins: Seq<StepInput>)
    ensures
        items_after(a, m, ins) == all_items(a, run(m, ins).1),
    decreases ins.len(),
{
    if ins.len() > 0 {
        let head = ins.drop_last();
        let i = ins.last();
        lemma_items_after(a, m, head);
        lemma_record_after(a, m, head);
        lemma_items_add(a, run(m, head).1, run(m, head).0.step(i.chunk, i.scan, i.outs).1);
    }
}

/// A completion that is streamed amounts to the choice that it amounts to when
/// it comes back whole: the record of the stream is what a whole completion
/// collects.
pub proof fn law_streamed_is_whole<F>(
    a: AdapterView<F>,
    m: CoreView,
    ins: Seq<StepInput>,
    tail: Option<Seq<char>>,
    outs: Option<Seq<OutputView>>,
    reason: Seq<char>,
)
    requires
        a.choice == BuilderView::empty(0),
    ensures
        record_after(a, m, ins).collected(run(m, ins).0.finish(tail, outs, reason).1).choice
            == BuilderView::empty(0).applied_all(complete(m, ins, tail, outs, reason).1),
{
    lemma_record_after(a, m, ins);
    lemma_applied_all_add(
        a.choice,
        run(m, ins).1,
        run(m, ins).0.finish(tail, outs, reason).1,
    );
}

/// What a client reads off the stream of a completion, token by token and to
/// its end, is the content that the completion has when it comes back whole.
pub proof fn law_stream_reads_as_whole<F>(
    a: AdapterView<F>,
    m: CoreView,
    ins: Seq<StepInput>,
    tail: Option<Seq<char>>,
    outs: Option<Seq<OutputView>>,
    reason: Seq<char>,
)
    requires
        a.choice == BuilderView::empty(0),
    ensures
        wire_content(
            items_after(a, m, ins) + all_items(
                record_after(a, m, ins),
                run(m, ins).0.finish(tail, outs, reason).1,
            ),
        ) == BuilderView::empty(0).applied_all(complete(m, ins, tail, outs, reason).1).content,
{
    let s = run(m, ins).1;
    let t = run(m, ins).0.finish(tail, outs, reason).1;
    lemma_items_after(a, m, ins);
    lemma_record_after(a, m, ins);
    lemma_items_add(a, s, t);
    law_record_is_stream(a, s + t);
}

} // verus!
