//! Whether and how long a model thinks, as a request says.
use spark_server::json_text::parse_json;
use spark_server::messages::IncomingMessage;
use spark_server::openai::chat_request::{
    deserialize_stop, ChatCompletionRequest, ChatTemplateKwargs, ReasoningConfig, ThinkingConfig,
};

fn empty_chat_request() -> ChatCompletionRequest<f32> {
    ChatCompletionRequest::of_messages(
        "test",
        vec![IncomingMessage::plain("user", "hi".to_string())],
    )
}

#[test]
fn chat_template_kwargs_parse() {
    let kw = ChatTemplateKwargs::from_json(r#"{"enable_thinking":true,"thinking_budget":1024}"#)
        .expect("should parse");
    assert_eq!(kw.enable_thinking, Some(true));
    assert_eq!(kw.thinking_budget, Some(1024));

    assert!(ChatTemplateKwargs::from_json("").is_none());
}

#[test]
fn an_argument_that_is_named_twice_is_none() {
    let twice = r#"{"thinking_budget": 1, "thinking\u005fbudget" : 2}"#;
    assert!(ChatTemplateKwargs::from_json(twice).is_none());
    let deep = r#"{"thinking_budget": 1, "x": {"thinking_budget": 2}, "y": "thinking_budget"}"#;
    assert_eq!(ChatTemplateKwargs::from_json(deep).unwrap().thinking_budget, Some(1));
}

#[test]
fn server_default_merged_when_request_silent() {
    let mut req = empty_chat_request();
    assert!(req.chat_template_kwargs.is_none());

    let server_kw = ChatTemplateKwargs { enable_thinking: Some(true), thinking_budget: None };
    if !req.thinking_explicitly_requested() {
        req.chat_template_kwargs = Some(server_kw);
    }
    assert!(req.chat_template_kwargs.is_some());

    let (enabled, budget) = req.resolve_thinking(false);
    assert!(enabled);
    assert!(budget.is_some());
}

#[test]
fn server_default_not_merged_when_request_explicit() {
    let mut req = empty_chat_request();
    req.enable_thinking = true;
    assert!(req.thinking_explicitly_requested());

    let server_kw = ChatTemplateKwargs { enable_thinking: Some(false), thinking_budget: None };
    if !req.thinking_explicitly_requested() {
        req.chat_template_kwargs = Some(server_kw);
    }
    assert!(req.chat_template_kwargs.is_none());
    assert!(req.resolve_thinking(false).0);
}

#[test]
fn a_budget_of_nothing_is_no_thinking() {
    let mut req = empty_chat_request();
    req.thinking = Some(ThinkingConfig { thinking_type: None, budget_tokens: Some(0) });
    assert_eq!(req.resolve_thinking(true), (false, Some(0)));
    req.thinking = Some(ThinkingConfig { thinking_type: None, budget_tokens: Some(9) });
    assert_eq!(req.resolve_thinking(false), (true, Some(9)));
}

#[test]
fn the_effort_has_a_shorthand() {
    let mut req = empty_chat_request();
    req.reasoning_effort = Some("low".to_string());
    assert!(req.thinking_explicitly_requested());
    assert_eq!(req.resolve_thinking(false), (true, Some(128)));
    req.reasoning = Some(ReasoningConfig { effort: Some("none".to_string()) });
    assert_eq!(req.resolve_thinking(true), (false, Some(0)));
}

#[test]
fn stop_is_a_text_a_list_or_nothing() {
    let one = deserialize_stop(&parse_json("\"END\"").unwrap());
    assert_eq!(one, Some(vec!["END".to_string()]));
    let two = deserialize_stop(&parse_json("[\"a\", \"b\"]").unwrap());
    assert_eq!(two, Some(vec!["a".to_string(), "b".to_string()]));
    assert_eq!(deserialize_stop(&parse_json("null").unwrap()), Some(vec![]));
    assert_eq!(deserialize_stop(&parse_json("[1]").unwrap()), None);
    assert_eq!(deserialize_stop(&parse_json("7").unwrap()), None);
}
