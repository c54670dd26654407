//! Stored completions, responses and conversations.
use spark_server::conversations::{
    add_conversation_items, conversation_body, create_conversation, delete_conversation,
    delete_conversation_item, get_conversation, get_conversation_item, list_conversation_items,
    update_conversation, AddItemsError, ConversationSnapshot, CreateConversationRequest,
};
use spark_server::json::Json;
use spark_server::json_text::parse_json;
use spark_server::listing::ListQuery;
use spark_server::messages::IncomingMessage;
use spark_server::stored::{
    cancel_response, delete_stored_response, get_stored_completion, get_stored_response,
    list_response_input_items,
};

fn query(order: Option<&str>, limit: Option<&str>, after: Option<&str>, before: Option<&str>) -> ListQuery {
    ListQuery {
        order: order.map(|s| s.to_string()),
        limit: limit.map(|s| s.to_string()),
        after: after.map(|s| s.to_string()),
        before: before.map(|s| s.to_string()),
    }
}

fn ids(body: &Json) -> Vec<String> {
    body.get("data")
        .unwrap()
        .as_array()
        .unwrap()
        .iter()
        .map(|i| i.get("id").unwrap().as_str().unwrap().clone())
        .collect()
}

fn five() -> Vec<IncomingMessage> {
    let mut v: Vec<IncomingMessage> =
        (0..5).map(|i| IncomingMessage::plain("user", format!("m{i}"))).collect();
    v.push(IncomingMessage::plain("assistant", "done".to_string()));
    v
}

#[test]
fn input_items_leave_the_answer_out() {
    let body = list_response_input_items("r", Some(&five()), &query(None, None, None, None)).unwrap();
    assert_eq!(
        ids(&body),
        vec!["item_r_0", "item_r_1", "item_r_2", "item_r_3", "item_r_4"]
    );
    assert_eq!(body.get("first_id").unwrap().as_str().unwrap(), "item_r_0");
    assert_eq!(body.get("last_id").unwrap().as_str().unwrap(), "item_r_4");
    assert!(matches!(body.get("has_more"), Some(Json::Bool(false))));
}

#[test]
fn input_items_are_ordered_cut_and_paged() {
    let m = five();
    let down = list_response_input_items("r", Some(&m), &query(Some("desc"), Some("2"), None, None));
    assert_eq!(ids(&down.unwrap()), vec!["item_r_4", "item_r_3"]);
    let after = list_response_input_items(
        "r",
        Some(&m),
        &query(None, None, Some("item_r_1"), Some("item_r_4")),
    );
    assert_eq!(ids(&after.unwrap()), vec!["item_r_2", "item_r_3"]);
    let unknown = list_response_input_items("r", Some(&m), &query(None, Some("x"), Some("?"), None));
    assert_eq!(ids(&unknown.unwrap()).len(), 5);
    let none = list_response_input_items("r", None, &query(None, None, None, None));
    assert_eq!(none.unwrap_err().message, "Response 'r' not found.");
}

#[test]
fn what_is_not_stored_is_not_found() {
    let e = get_stored_completion("c", None).unwrap_err();
    assert_eq!(e.status, 404);
    assert!(e.message.starts_with("Completion 'c' not found. It may have expired"));
    let e = get_stored_response("x", None).unwrap_err();
    assert_eq!(e.message, "Response 'x' not found. It may have expired or was not stored.");
    assert_eq!(e.code.as_deref(), Some("response_not_found"));
    let e = delete_stored_response("x", false).unwrap_err();
    assert_eq!(e.message, "Response 'x' not found.");
    let gone = delete_stored_response("x", true).unwrap();
    assert_eq!(gone.get("object").unwrap().as_str().unwrap(), "response.deleted");
    let kept = get_stored_completion("c", parse_json("{\"a\":1}")).unwrap();
    assert_eq!(kept.get("a").unwrap().as_u64(), Some(1));
    assert_eq!(cancel_response("z").code.as_deref(), Some("response_not_cancellable"));
}

fn snapshot() -> ConversationSnapshot {
    ConversationSnapshot {
        id: "conv_1".to_string(),
        created_at: 5,
        metadata: vec![("k".to_string(), "v".to_string())],
        items: vec![
            parse_json("{\"id\":\"a\"}").unwrap(),
            parse_json("{\"id\":\"b\"}").unwrap(),
        ],
    }
}

#[test]
fn a_conversation_shows_what_is_kept() {
    let s = snapshot();
    let body = conversation_body(&s);
    assert_eq!(body.get("object").unwrap().as_str().unwrap(), "conversation");
    assert_eq!(body.get("created_at").unwrap().as_u64(), Some(5));
    assert_eq!(body.get("metadata").unwrap().get("k").unwrap().as_str().unwrap(), "v");
    assert!(get_conversation("conv_1", Some(&s)).is_ok());
    let e = update_conversation("nope", None).unwrap_err();
    assert_eq!(e.message, "Conversation 'nope' not found.");
    assert_eq!(e.code.as_deref(), Some("conversation_not_found"));
}

#[test]
fn too_many_items_are_refused() {
    let twenty = CreateConversationRequest {
        items: Some((0..20).map(|_| Json::Null).collect()),
        metadata: None,
    };
    assert_eq!(create_conversation(twenty).unwrap().0.len(), 20);
    let more = CreateConversationRequest {
        items: Some((0..21).map(|_| Json::Null).collect()),
        metadata: None,
    };
    let e = create_conversation(more).unwrap_err();
    assert_eq!(e.message, "`items` exceeds per-call cap of 20 (got 21).");
    assert_eq!(e.code.as_deref(), Some("items_too_many"));
    let e = add_conversation_items("c", Err(AddItemsError::TooMany(33))).unwrap_err();
    assert_eq!(e.message, "`items` exceeds per-call cap of 20 (got 33).");
    let e = add_conversation_items("c", Err(AddItemsError::NotFound)).unwrap_err();
    assert_eq!(e.status, 404);
    let ok = add_conversation_items("c", Ok(vec![Json::Null])).unwrap();
    assert_eq!(ok.get("data").unwrap().as_array().unwrap().len(), 1);
}

#[test]
fn items_are_listed_found_and_deleted() {
    let s = snapshot();
    let q = query(Some("desc"), None, Some("b"), None);
    let body = list_conversation_items("conv_1", Some(&s.items), &q).unwrap();
    assert_eq!(ids(&body), vec!["b", "a"]);
    let item = get_conversation_item("conv_1", "b", Some(&s.items)).unwrap();
    assert_eq!(item.get("id").unwrap().as_str().unwrap(), "b");
    let e = get_conversation_item("conv_1", "q", Some(&s.items)).unwrap_err();
    assert_eq!(e.message, "Item 'q' not found in conversation 'conv_1'.");
    let gone = delete_conversation("conv_1", true).unwrap();
    assert_eq!(gone.get("object").unwrap().as_str().unwrap(), "conversation.deleted");
    let e = delete_conversation_item("conv_1", "q", false).unwrap_err();
    assert_eq!(e.param.as_deref(), Some("item_id"));
}
