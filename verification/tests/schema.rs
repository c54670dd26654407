//! Tool schemas for a grammar.
use spark_server::grammar::schema::{
    augment_schema_with_tafc_think, compile_schema_strict, enforce_min_length_on_required_strings,
    validate_tools_for_grammar, SchemaReason,
};
use spark_server::json::Json;
use spark_server::json_text::parse_json;
use spark_server::tools::{FunctionDefinition, ToolDefinition};

fn json(text: &str) -> Json {
    parse_json(text).expect("the text is JSON")
}

fn at<'a>(j: &'a Json, keys: &[&str]) -> Option<&'a Json> {
    let mut here = j;
    for k in keys {
        here = here.get(k)?;
    }
    Some(here)
}

fn text_at(j: &Json, keys: &[&str]) -> Option<String> {
    at(j, keys).and_then(|v| v.as_str()).cloned()
}

fn number_at(j: &Json, keys: &[&str]) -> Option<u64> {
    at(j, keys).and_then(|v| v.as_u64())
}

fn tool(name: &str, schema: &str) -> ToolDefinition {
    ToolDefinition {
        tool_type: "function".to_string(),
        function: FunctionDefinition {
            name: name.to_string(),
            description: None,
            parameters: Some(json(schema)),
        },
    }
}

#[test]
fn enforce_min_length_required_strings_get_minlength_1() {
    let schema = json(
        r#"{
        "type": "object",
        "properties": {
            "command": {"type": "string"},
            "description": {"type": "string"},
            "count": {"type": "integer"},
            "optional_str": {"type": "string"},
            "has_min": {"type": "string", "minLength": 5}
        },
        "required": ["command", "description", "count", "has_min"]
    }"#,
    );
    let result = enforce_min_length_on_required_strings(&schema);
    assert_eq!(number_at(&result, &["properties", "command", "minLength"]), Some(1));
    assert_eq!(number_at(&result, &["properties", "description", "minLength"]), Some(1));
    assert!(at(&result, &["properties", "count", "minLength"]).is_none());
    assert!(at(&result, &["properties", "optional_str", "minLength"]).is_none());
    assert_eq!(number_at(&result, &["properties", "has_min", "minLength"]), Some(5));
}

#[test]
fn enforce_min_length_no_required_is_no_op() {
    let schema = json(r#"{"type": "object", "properties": {"name": {"type": "string"}}}"#);
    let result = enforce_min_length_on_required_strings(&schema);
    assert!(at(&result, &["properties", "name"]).is_some());
    assert!(at(&result, &["properties", "name", "minLength"]).is_none());
}

#[test]
fn empty_enum_is_rejected() {
    let schema = json(r#"{"type": "string", "enum": []}"#);
    let err = compile_schema_strict(&schema).unwrap_err();
    assert_eq!(err.reason, SchemaReason::EmptyEnum);
    assert!(err.path.ends_with("/enum"));
}

#[test]
fn nested_empty_enum_is_rejected_with_pointer() {
    let schema = json(
        r#"{"type": "object", "properties": {"mode": {"type": "string", "enum": []}}}"#,
    );
    let err = compile_schema_strict(&schema).unwrap_err();
    assert_eq!(err.reason, SchemaReason::EmptyEnum);
    assert!(err.path.contains("properties/mode"));
}

#[test]
fn false_bool_schema_is_rejected() {
    let schema = Json::Bool(false);
    let err = compile_schema_strict(&schema).unwrap_err();
    assert_eq!(err.reason, SchemaReason::BoolFalseSchema);
}

#[test]
fn true_bool_schema_is_any_object() {
    let schema = Json::Bool(true);
    let result = compile_schema_strict(&schema).unwrap();
    assert!(result.as_object().is_some_and(|o| o.is_empty()));
}

#[test]
fn empty_object_without_structural_key_is_rejected() {
    let schema = json(r#"{"type": "object", "properties": {}}"#);
    let err = compile_schema_strict(&schema).unwrap_err();
    assert_eq!(err.reason, SchemaReason::EmptyObjectNoStructuralKey);
}

#[test]
fn empty_object_with_additional_properties_is_ok() {
    let schema = json(r#"{"type": "object", "properties": {}, "additionalProperties": true}"#);
    let result = compile_schema_strict(&schema).unwrap();
    assert!(matches!(at(&result, &["additionalProperties"]), Some(Json::Bool(true))));
}

#[test]
fn object_with_properties_is_ok() {
    let schema = json(r#"{"type": "object", "properties": {"name": {"type": "string"}}}"#);
    let result = compile_schema_strict(&schema).unwrap();
    assert!(at(&result, &["properties", "name"]).unwrap().as_object().is_some());
}

#[test]
fn required_property_with_unsatisfiable_schema_is_rejected_by_name() {
    let schema = json(
        r#"{
        "type": "object",
        "properties": {"mode": {"type": "string", "enum": []}},
        "required": ["mode"]
    }"#,
    );
    let err = compile_schema_strict(&schema).unwrap_err();
    assert!(matches!(err.reason, SchemaReason::EmptyEnum));
    assert!(err.path.contains("properties/mode"));
}

#[test]
fn empty_anyof_is_normalized_away() {
    let schema = json(
        r#"{"type": "object", "properties": {"x": {"type": "string"}}, "anyOf": []}"#,
    );
    let result = compile_schema_strict(&schema).unwrap();
    assert!(result.get("anyOf").is_none());
}

#[test]
fn single_element_anyof_is_flattened() {
    let schema = json(r#"{"anyOf": [{"type": "string"}]}"#);
    let result = compile_schema_strict(&schema).unwrap();
    assert!(result.get("anyOf").is_none());
    assert_eq!(text_at(&result, &["type"]).as_deref(), Some("string"));
}

#[test]
fn multi_element_anyof_is_preserved() {
    let schema = json(r#"{"anyOf": [{"type": "string"}, {"type": "integer"}]}"#);
    let result = compile_schema_strict(&schema).unwrap();
    assert_eq!(result.get("anyOf").unwrap().as_array().unwrap().len(), 2);
}

#[test]
fn allof_single_is_flattened() {
    let schema = json(
        r#"{"allOf": [{"type": "object", "properties": {"x": {"type": "string"}}}]}"#,
    );
    let result = compile_schema_strict(&schema).unwrap();
    assert!(result.get("allOf").is_none());
    assert!(at(&result, &["properties", "x"]).unwrap().as_object().is_some());
}

#[test]
fn allof_multiple_is_merged() {
    let schema = json(
        r#"{
        "allOf": [
            {"type": "object", "properties": {"a": {"type": "string"}}, "required": ["a"]},
            {"type": "object", "properties": {"b": {"type": "integer"}}, "required": ["b"]}
        ]
    }"#,
    );
    let result = compile_schema_strict(&schema).unwrap();
    assert!(at(&result, &["properties", "a"]).is_some());
    assert!(at(&result, &["properties", "b"]).is_some());
    let req: Vec<&str> = result
        .get("required")
        .unwrap()
        .as_array()
        .unwrap()
        .iter()
        .map(|v| v.as_str().unwrap().as_str())
        .collect();
    assert!(req.contains(&"a") && req.contains(&"b"));
}

#[test]
fn ref_is_inlined() {
    let schema = json(
        r##"{
        "$defs": {"Name": {"type": "string", "minLength": 1}},
        "type": "object",
        "properties": {"name": {"$ref": "#/$defs/Name"}}
    }"##,
    );
    let result = compile_schema_strict(&schema).unwrap();
    assert_eq!(text_at(&result, &["properties", "name", "type"]).as_deref(), Some("string"));
    assert_eq!(number_at(&result, &["properties", "name", "minLength"]), Some(1));
    assert!(at(&result, &["properties", "name", "$ref"]).is_none());
}

#[test]
fn tafc_think_is_added_at_head() {
    let schema = json(r#"{"type": "object", "properties": {"x": {"type": "string"}}}"#);
    let result = augment_schema_with_tafc_think(&schema);
    assert!(at(&result, &["properties", "_think"]).is_some());
    assert_eq!(text_at(&result, &["properties", "_think", "type"]).as_deref(), Some("string"));
    let props = result.get("properties").unwrap().as_object().unwrap();
    assert_eq!(props[0].0, "_think");
}

#[test]
fn tafc_think_existing_is_not_shadowed() {
    let schema = json(
        r#"{
        "type": "object",
        "properties": {
            "_think": {"type": "string", "description": "caller's own"},
            "x": {"type": "string"}
        }
    }"#,
    );
    let result = augment_schema_with_tafc_think(&schema);
    assert_eq!(
        text_at(&result, &["properties", "_think", "description"]).as_deref(),
        Some("caller's own")
    );
}

#[test]
fn validate_tools_empty_list_is_ok() {
    assert!(validate_tools_for_grammar(&[]).is_ok());
}

#[test]
fn validate_tools_all_encodable_is_ok() {
    let path = r#"{"type": "object", "properties": {"path": {"type": "string"}}, "required": ["path"]}"#;
    let tools = vec![tool("Write", path), tool("Read", path)];
    assert!(validate_tools_for_grammar(&tools).is_ok());
}

#[test]
fn validate_tools_aggregates_all_errors() {
    let tools = vec![
        tool("Empty", r#"{"type": "object", "properties": {}}"#),
        tool(
            "BadEnum",
            r#"{"type": "object", "properties": {"mode": {"type": "string", "enum": []}}}"#,
        ),
        tool("Good", r#"{"type": "object", "properties": {"x": {"type": "string"}}}"#),
    ];
    let errors = validate_tools_for_grammar(&tools).unwrap_err();
    assert_eq!(errors.len(), 2, "Empty + BadEnum should both fail; Good should pass");
    let names: Vec<&str> = errors.iter().map(|e| e.tool_name.as_str()).collect();
    assert!(names.contains(&"Empty"));
    assert!(names.contains(&"BadEnum"));
    assert!(!names.contains(&"Good"));
}

#[test]
fn validate_tools_reports_tool_name_in_display() {
    let tools = vec![tool("MyTool", r#"{"type": "object", "properties": {}}"#)];
    let errors = validate_tools_for_grammar(&tools).unwrap_err();
    let display = errors[0].text();
    assert!(display.contains("MyTool"), "display: {display}");
    assert!(display.contains("cannot be encoded"), "display: {display}");
}

#[test]
fn a_schema_that_refers_to_itself_is_too_deep() {
    let schema = json(
        r##"{
        "$defs": {"Node": {"type": "object", "properties": {"next": {"$ref": "#/$defs/Node"}}}},
        "$ref": "#/$defs/Node"
    }"##,
    );
    let err = compile_schema_strict(&schema).unwrap_err();
    assert_eq!(err.reason, SchemaReason::DepthExceeded);
}

#[test]
fn a_reference_to_false_is_rejected() {
    let schema = json(
        r##"{"type": "object", "properties": {"x": {"$ref": "#/$defs/N"}}, "$defs": {"N": false}}"##,
    );
    let err = compile_schema_strict(&schema).unwrap_err();
    assert_eq!(err.reason, SchemaReason::BoolFalseSchema);
    assert_eq!(err.path, "#/properties/x");
}

#[test]
fn references_are_followed_to_their_end() {
    let schema = json(
        r##"{
        "type": "object",
        "properties": {"x": {"$ref": "#/$defs/A"}},
        "$defs": {"A": {"$ref": "#/$defs/B"}, "B": {"type": "string"}}
    }"##,
    );
    let result = compile_schema_strict(&schema).unwrap();
    assert_eq!(text_at(&result, &["properties", "x", "type"]).as_deref(), Some("string"));
    assert!(at(&result, &["properties", "x", "$ref"]).is_none());
    let circle = json(r##"{"$ref": "#/$defs/A", "$defs": {"A": {"$ref": "#/$defs/A"}}}"##);
    let err = compile_schema_strict(&circle).unwrap_err();
    assert_eq!(err.reason, SchemaReason::DepthExceeded);
}

#[test]
fn a_normal_schema_is_left_alone() {
    let schema = json(
        r#"{
        "type": "object",
        "properties": {
            "x": {"anyOf": [{"type": "string"}]},
            "y": {"oneOf": [{"type": "string"}, {"type": "object", "additionalProperties": true}]}
        },
        "allOf": [{"properties": {"z": true}, "required": ["z"]}, {"required": ["x", "z"]}]
    }"#,
    );
    let once = compile_schema_strict(&schema).unwrap();
    let twice = compile_schema_strict(&once).unwrap();
    assert_eq!(format!("{:?}", once), format!("{:?}", twice));
    assert_eq!(text_at(&once, &["properties", "x", "type"]).as_deref(), Some("string"));
}
