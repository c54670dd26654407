//! The responses API over a chat completion.
use spark_server::json::Json;
use spark_server::json_text::{parse_json, parse_json_bytes};
use spark_server::messages::IncomingMessage;
use spark_server::openai::chat_request::ChatCompletionRequest;
use spark_server::openai::types::Annotation;
use spark_server::responses::{
    begin_response, build_message_item, build_responses_usage, conversation_batch, conversation_item_to_message,
    conversation_prefix,
    extract_assistant_incoming_message, find_frame_end, prepend_messages, resolve_conversation,
    transcript, translate_chat_response_to_responses, settle_response, LowerResponsesError, ResponsesOutputItem,
};

fn json(text: &str) -> Json {
    parse_json(text).expect("the text is JSON")
}

const CHAT: &str = r#"{
    "id": "chatcmpl-7", "created": 12, "model": "m",
    "choices": [{"index": 0, "finish_reason": "stop",
        "message": {"role": "assistant", "content": "Paris."}}],
    "usage": {"prompt_tokens": 4, "completion_tokens": 2, "total_tokens": 6}
}"#;

#[test]
fn a_frame_ends_at_the_first_blank_line() {
    assert_eq!(find_frame_end(b"data: 1\n\ndata: 2\n\n"), Some(7));
    assert_eq!(find_frame_end(b"data: 1\n"), None);
    assert_eq!(find_frame_end(b""), None);
}

#[test]
fn a_completion_becomes_a_response() {
    let (chat, r) =
        translate_chat_response_to_responses(CHAT.as_bytes(), 99, None).unwrap();
    assert!(chat.get("choices").is_some());
    assert_eq!(r.model, "m");
    assert_eq!(r.usage.input_tokens, 4);
    assert_eq!(r.usage.output_tokens, 2);
    assert_eq!(r.usage.total_tokens, 6);
    assert_eq!(r.output.len(), 1);
    match &r.output[0] {
        ResponsesOutputItem::Message { content, .. } => assert_eq!(content[0].text, "Paris."),
        _ => panic!("expected a message"),
    }
    assert!(translate_chat_response_to_responses(b"nothing", 0, None).is_none());
    assert!(parse_json_bytes(b"[1,2]").unwrap().as_array().unwrap().len() == 2);
}

#[test]
fn usage_that_is_missing_is_nothing() {
    let u = build_responses_usage(&json("{\"prompt_tokens\": 3}"));
    assert_eq!(u.input_tokens, 3);
    assert_eq!(u.output_tokens, 0);
}

const RICH: &str = r#"{
    "id": "chatcmpl-8",
    "choices": [{"message": {"role": "assistant", "content": "See https://a.b.",
        "annotations": [{"type": "url_citation", "url_citation":
            {"start_index": 4, "end_index": 15, "url": "https://a.b", "title": "ab"}}],
        "tool_calls": [{"id": "c1", "type": "function",
            "function": {"name": "f", "arguments": "{}"}}, {"function": {"name": "g"}}]}}],
    "usage": {"prompt_tokens": 4,
        "prompt_tokens_details": {"cached_tokens": 3, "audio_tokens": 0},
        "completion_tokens_details": {"reasoning_tokens": 2}}
}"#;

#[test]
fn the_parts_of_a_completion_are_read_off_it() {
    let (chat, r) = translate_chat_response_to_responses(RICH.as_bytes(), 5, None).unwrap();
    assert_eq!(r.created_at, 5);
    assert_eq!(r.output.len(), 3);
    match &r.output[2] {
        ResponsesOutputItem::Message { content, .. } => {
            let Annotation::UrlCitation { url_citation: c } =
                &content[0].annotations.as_ref().unwrap()[0];
            assert_eq!((c.start_index, c.end_index), (4, 15));
            assert_eq!((c.url.as_str(), c.title.as_str()), ("https://a.b", "ab"));
        }
        _ => panic!("expected a message"),
    }
    assert_eq!(r.usage.input_tokens_details.unwrap().cached_tokens, 3);
    assert!(r.usage.output_tokens_details.is_none());
    let m = extract_assistant_incoming_message(&chat).unwrap();
    let calls = m.tool_calls.unwrap();
    assert_eq!(calls[0].id.as_deref(), Some("c1"));
    assert_eq!(calls[1].id, None);
    assert_eq!((calls[1].function.name.as_str(), calls[1].function.arguments.as_str()), ("g", ""));
}

#[test]
fn an_item_reads_back_as_the_message_it_was() {
    let item = build_message_item("user", "input_text", "hello");
    let m = conversation_item_to_message(&item).unwrap();
    assert_eq!(m.role, "user");
    assert_eq!(m.content.text, "hello");
    assert!(conversation_item_to_message(&json("{\"type\": \"reasoning\"}")).is_none());
    let prefix = conversation_prefix(&vec![item, json("{\"type\": \"reasoning\"}")]);
    assert_eq!(prefix.len(), 1);
}

#[test]
fn the_transcript_ends_with_the_answer() {
    let input = vec![IncomingMessage::plain("user", "Capital of France?".to_string())];
    let t = transcript(input, &json(CHAT));
    assert_eq!(t.len(), 2);
    assert_eq!(t[1].role, "assistant");
    assert_eq!(t[1].content.text, "Paris.");
    let m = extract_assistant_incoming_message(&json(CHAT)).unwrap();
    assert_eq!(m.content.text, "Paris.");
    assert!(extract_assistant_incoming_message(&json("{}")).is_none());
}

#[test]
fn earlier_messages_come_first() {
    let mut msgs = vec![IncomingMessage::plain("user", "b".to_string())];
    prepend_messages(vec![IncomingMessage::plain("user", "a".to_string())], &mut msgs);
    assert_eq!(msgs.len(), 2);
    assert_eq!(msgs[0].content.text, "a");
    assert_eq!(msgs[1].content.text, "b");
}

#[test]
fn a_conversation_is_named_by_text_or_object() {
    assert!(matches!(resolve_conversation(&None), Ok(None)));
    let named = resolve_conversation(&Some(json("\"conv_1\"")));
    assert_eq!(named.ok().unwrap().as_deref(), Some("conv_1"));
    let object = resolve_conversation(&Some(json("{\"id\": \"conv_2\"}")));
    assert_eq!(object.ok().unwrap().as_deref(), Some("conv_2"));
    let wrong = resolve_conversation(&Some(json("7")));
    assert_eq!(wrong.err().unwrap().status, 400);
}

#[test]
fn a_turn_is_kept_without_what_was_there() {
    let input = vec![
        IncomingMessage::plain("user", "old".to_string()),
        IncomingMessage::plain("user", "new".to_string()),
    ];
    let items = conversation_batch(&input, 1, &json(CHAT));
    assert_eq!(items.len(), 2);
    let m = conversation_item_to_message(&items[0]).unwrap();
    assert_eq!((m.role.as_str(), m.content.text.as_str()), ("user", "new"));
    let m = conversation_item_to_message(&items[1]).unwrap();
    assert_eq!((m.role.as_str(), m.content.text.as_str()), ("assistant", "Paris."));
    assert_eq!(conversation_batch(&input, 9, &json("{}")).len(), 0);
}

fn lowered(text: &str) -> Result<ChatCompletionRequest<f32>, LowerResponsesError> {
    let messages = vec![IncomingMessage::plain("user", text.to_string())];
    Ok(ChatCompletionRequest::of_messages("m", messages))
}

#[test]
fn a_turn_begins_with_its_conversation() {
    let items = vec![build_message_item("user", "input_text", "before")];
    let req = begin_response(Some("c"), Some(&items), lowered("now")).unwrap();
    let texts: Vec<&str> = req.messages.iter().map(|m| m.content.text.as_str()).collect();
    assert_eq!(texts, vec!["before", "now"]);
    assert_eq!(begin_response(None, None, lowered("now")).unwrap().messages.len(), 1);
    let e = begin_response(Some("c"), None, lowered("now")).unwrap_err();
    assert_eq!((e.status, e.message.as_str()), (404, "Conversation 'c' not found."));
    let bad: Result<ChatCompletionRequest<f32>, LowerResponsesError> =
        Err(LowerResponsesError::BadRequest("no input".to_string()));
    let e = begin_response(None, None, bad).unwrap_err();
    assert_eq!((e.status, e.message.as_str(), e.param), (400, "no input", None));
    let gone: Result<ChatCompletionRequest<f32>, LowerResponsesError> =
        Err(LowerResponsesError::PriorNotFound("gone".to_string()));
    let e = begin_response(None, None, gone).unwrap_err();
    assert_eq!(e.param.as_deref(), Some("previous_response_id"));
    assert_eq!(e.code.as_deref(), Some("response_not_found"));
}

#[test]
fn a_turn_is_settled() {
    let input = || vec![IncomingMessage::plain("user", "capital?".to_string())];
    let settle = |ok: bool, body: &[u8], store: bool, prior: Option<usize>| {
        settle_response(ok, body, 9, None, input(), store, prior)
    };
    let t = settle(true, CHAT.as_bytes(), true, Some(0)).unwrap();
    assert_eq!(t.response.id, "resp_7");
    let kept = t.transcript.unwrap();
    assert_eq!(kept.len(), 2);
    assert_eq!(kept[1].content.text, "Paris.");
    assert_eq!(t.items.unwrap().len(), 2);
    let t = settle(true, CHAT.as_bytes(), false, None).unwrap();
    assert!(t.transcript.is_none() && t.items.is_none());
    assert!(settle(true, b"{}", false, Some(1)).unwrap().items.is_none());
    assert!(settle(true, b"not json", true, None).is_none());
    assert!(settle(false, CHAT.as_bytes(), true, None).is_none());
}
