//! Answers that come back whole.
use spark_server::chat::validate::tokenization_failed;
use spark_server::chat_blocking::{
    build_choice_message, choice_seed, clean, decode_response_text, finalize_response,
    inference_cancelled, inference_failed, plan_decoding, queue_full, strip_stop_sequences, AnswerCounts, BlockingRun,
    DecodePlan, FoundCalls,
};
use spark_server::inference::{
    build_logprobs, InferenceRequest, Job, TokenLogprobs, TokenTexts,
};
use spark_server::tools::{FunctionCall, ToolCall};

fn counts(n: usize, cached: u32) -> AnswerCounts {
    AnswerCounts {
        completion_tokens: n,
        reasoning_tokens: 1,
        cached_prompt_tokens: cached,
        accepted_prediction_tokens: 2,
        rejected_prediction_tokens: 3,
    }
}

#[test]
fn a_text_ends_before_its_first_stop() {
    let stops = vec!["</answer".to_string(), "</answer>".to_string()];
    assert_eq!(strip_stop_sequences("yes</answer>".to_string(), &stops), "yes");
    assert_eq!(strip_stop_sequences("yes</answer".to_string(), &stops), "yes");
    assert_eq!(strip_stop_sequences("yes</answer> no".to_string(), &stops), "yes");
    assert_eq!(strip_stop_sequences("no end".to_string(), &stops), "no end");
    let stop = vec!["STOP".to_string(), String::new()];
    assert_eq!(strip_stop_sequences("xSTOPSTOP".to_string(), &stop), "x");
}

#[test]
fn thinking_ends_at_its_last_end() {
    match plan_decoding(&vec![1, 9, 2, 9, 3], Some(9), true) {
        DecodePlan::Split { at } => assert_eq!(at, 3),
        _ => panic!("expected a split"),
    }
    assert!(matches!(plan_decoding(&vec![1, 9], Some(9), false), DecodePlan::Whole));
    let (reasoning, text) =
        decode_response_text(Some(" think ".to_string()), Some("\n\nanswer".to_string()));
    assert!(reasoning.is_some());
    assert_eq!(text.trim(), "answer");
}

#[test]
fn calls_finish_a_choice() {
    let call = ToolCall {
        id: "c".to_string(),
        call_type: "function".to_string(),
        function: FunctionCall { name: "f".to_string(), arguments: "{}".to_string() },
    };
    let found = FoundCalls { content: Some("  prose ".to_string()), valid: vec![call] };
    let (m, finish) =
        build_choice_message(None, "raw".to_string(), None, "stop".to_string(), Some(found));
    assert_eq!(finish, "tool_calls");
    assert_eq!(m.content.as_deref(), Some("prose"));
    assert_eq!(m.tool_calls.unwrap().len(), 1);
    let (m, finish) =
        build_choice_message(None, "raw".to_string(), None, "length".to_string(), None);
    assert_eq!(finish, "length");
    assert_eq!(m.content.as_deref(), Some("raw"));
    assert_eq!(clean("  plain  "), "plain");
}

#[test]
fn seeds_count_on_and_wrap() {
    assert_eq!(choice_seed(Some(5), 2), Some(7));
    assert_eq!(choice_seed(Some(u64::MAX), 2), Some(1));
    assert_eq!(choice_seed(None, 2), None);
    assert_eq!(queue_full().status, 503);
    assert_eq!(inference_failed("oom").message, "Inference error: oom");
}

#[test]
fn choices_are_taken_in_order_and_summed() {
    let mut run: BlockingRun<f64, ()> = BlockingRun::new(2, 0.0);
    assert_eq!(run.next_choice(), Some(0));
    for (i, (n, cached)) in [(10usize, 4u32), (5, 6)].iter().enumerate() {
        let (m, f) =
            build_choice_message(None, format!("t{i}"), None, "stop".to_string(), None);
        run.take_answer(m, f, None, counts(*n, *cached), 1.0 + i as f64, 7.0 + i as f64);
    }
    assert_eq!(run.next_choice(), None);
    let (choices, totals) = run.finish();
    assert_eq!(choices.len(), 2);
    assert_eq!(choices[1].index, 1);
    assert_eq!(totals.counts.completion_tokens, 15);
    assert_eq!(totals.counts.cached_prompt_tokens, 6);
    assert_eq!(totals.counts.rejected_prediction_tokens, 6);
    assert_eq!(totals.time_to_first_token_ms, 1.0);
    assert_eq!(totals.decode_time_ms, 8.0);
    let done = finalize_response(
        "id".to_string(),
        "m".to_string(),
        3,
        choices,
        &totals,
        2.5,
        20,
        "req",
        None,
        None,
        Some(true),
        Some(100),
    );
    assert!(done.store);
    assert_eq!(done.refund, 65);
    assert_eq!(done.response.usage.total_tokens, 35);
    assert_eq!(done.response.choices.len(), 2);
    let empty: BlockingRun<f64, ()> = BlockingRun::new(0, 0.0);
    assert_eq!(empty.next_choice(), Some(0));
}

#[test]
fn logprobs_carry_their_texts() {
    let lps = vec![TokenLogprobs { token_id: 1, logprob: -0.5f32, top: vec![(1, -0.5), (2, -1.5)] }];
    let texts = vec![TokenTexts {
        token: Some("a".to_string()),
        top: vec![Some("a".to_string()), None],
    }];
    let c = build_logprobs(&lps, &texts).unwrap();
    assert_eq!(c.content.len(), 1);
    assert_eq!(c.content[0].token, "a");
    assert_eq!(c.content[0].top_logprobs[1].token, "");
    assert_eq!(c.content[0].top_logprobs[1].logprob, -1.5);
    let none: Vec<TokenLogprobs<f32>> = vec![];
    assert!(build_logprobs(&none, &vec![]).is_none());
}

fn job() -> Job<f32, u64> {
    Job {
        request_id: "r".to_string(),
        prompt_tokens: vec![1, 2, 3],
        session_hash: 9,
        image_pixels: vec![(vec![0.5], 1, 1)],
        max_tokens: 10,
        min_tokens: 1,
        temperature: 0.5,
        top_k: 20,
        top_p: 0.9,
        top_n_sigma: 1.0,
        min_p: 0.1,
        repetition_penalty: 1.1,
        presence_penalty: 0.2,
        frequency_penalty: 0.3,
        dry_multiplier: 0.4,
        dry_base: 1.75,
        dry_allowed_length: 2,
        lz_penalty: 0.6,
        logit_bias: vec![(3, 0.7)],
        stop_tokens: vec![8],
        enable_thinking: true,
        thinking_budget: Some(64),
        require_tool_call: false,
        disable_mtp: true,
        grammar_spec: None,
        seed: Some(4),
        top_logprobs: Some(2),
        timeout_at: Some(11),
    }
}

#[test]
fn a_request_gives_its_parts_and_hands_over_others() {
    let mut r: InferenceRequest<f32, u64, (), ()> =
        InferenceRequest::Streaming { job: job(), token_tx: () };
    assert_eq!(r.prompt_len(), 3);
    assert_eq!(r.request_id(), "r");
    assert_eq!(r.top_k(), 20);
    assert_eq!(r.lz_penalty(), 0.6);
    assert_eq!(r.logit_bias().len(), 1);
    assert_eq!(r.timeout_at(), Some(11));
    assert_eq!(r.take_image_pixels().len(), 1);
    assert!(r.take_image_pixels().is_empty());
    assert_eq!(r.take_stop_tokens(), vec![8]);
    assert!(r.take_stop_tokens().is_empty());
    assert!(r.take_grammar_spec().is_none());
}

#[test]
fn each_choice_has_a_job_of_its_own() {
    let j = job();
    let first = j.for_choice(0);
    assert_eq!(first.seed, Some(4));
    assert_eq!(first.image_pixels, vec![(vec![0.5], 1, 1)]);
    let third = j.for_choice(2);
    assert_eq!(third.seed, Some(6));
    assert!(third.image_pixels.is_empty());
    assert_eq!(third.prompt_tokens, vec![1, 2, 3]);
    assert_eq!(third.logit_bias, vec![(3, 0.7)]);
    assert_eq!(third.stop_tokens, vec![8]);
    assert_eq!(third.max_tokens, 10);
    assert_eq!(third.dry_base, 1.75);
}

#[test]
fn a_scheduler_without_an_answer_is_an_error() {
    let e = inference_cancelled();
    assert_eq!((e.status, e.message.as_str()), (500, "Inference cancelled"));
    let e = tokenization_failed("bad text");
    assert_eq!((e.status, e.message.as_str()), (400, "Tokenization error: bad text"));
}
