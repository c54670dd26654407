//! What is settled before the server serves.
use spark_server::defaults::default_for;
use spark_server::grammar::vocab::{cap_vocab_size, extract_ordered_vocab};
use spark_server::startup::{
    build_auth_config, build_log_filter, choose_reasoning_format, choose_tool_format,
    load_eos_tokens, load_top_k, mirrors_to_file, plan_serving, read_policy, read_token_lines, reserve_bytes,
    resolve_model_name, resolve_tokenizer_runtime, resolve_tool_call_parser, tag_format,
    texts_to_encode, AuthSource, Drafting, FormatSource, Policy, ReasoningChoice, ServeChoices,
    ServeModel,
};

const DEFAULTS: &str = "[model_type]\nqwen3 = \"qwen3_coder\"\nm2 = \"minimax_xml\"\nodd = 3\n\n[reasoning]\nm2 = \"minimax\"\n";

#[test]
fn end_tokens_come_from_the_generation_config() {
    assert_eq!(load_eos_tokens(Some("{\"eos_token_id\": [5, 7, \"x\", -1]}"), 1), vec![5, 7]);
    assert_eq!(load_eos_tokens(Some("{\"eos_token_id\": 9}"), 1), vec![9]);
    assert_eq!(load_eos_tokens(Some("{\"eos_token_id\": -9}"), 1), vec![0]);
    assert_eq!(load_eos_tokens(Some("{\"eos_token_id\": []}"), 1), vec![1]);
    assert_eq!(load_eos_tokens(Some("{\"eos_token_id\": \"9\"}"), 1), vec![1]);
    assert_eq!(load_eos_tokens(Some("no"), 1), vec![1]);
    assert_eq!(load_eos_tokens(None, 1), vec![1]);
    assert_eq!(load_eos_tokens(Some("{\"eos_token_id\": 4294967298}"), 1), vec![2]);
}

#[test]
fn candidates_come_from_the_generation_config() {
    assert_eq!(load_top_k(Some("{\"top_k\": 40}")), 40);
    assert_eq!(load_top_k(Some("{\"top_k\": \"40\"}")), 20);
    assert_eq!(load_top_k(None), 20);
}

#[test]
fn the_model_has_a_name() {
    assert_eq!(resolve_model_name(Some("a"), Some("b"), "{}", Some("d")), "a");
    assert_eq!(resolve_model_name(None, Some("b"), "{}", Some("d")), "b");
    assert_eq!(resolve_model_name(None, None, "{\"_name_or_path\":\"c\"}", Some("d")), "c");
    assert_eq!(resolve_model_name(None, None, "broken", Some("d")), "d");
    assert_eq!(resolve_model_name(None, None, "{}", None), "atlas");
}

#[test]
fn parsers_are_named_by_operator_model_or_table() {
    assert_eq!(default_for(DEFAULTS, "model_type", "qwen3").as_deref(), Some("qwen3_coder"));
    assert_eq!(default_for(DEFAULTS, "model_type", "odd"), None);
    assert_eq!(default_for(DEFAULTS, "nothing", "qwen3"), None);
    assert_eq!(default_for("= broken", "model_type", "qwen3"), None);
    let named = choose_tool_format(Some("hermes"), "x", DEFAULTS, "qwen3").unwrap();
    assert_eq!(named, (FormatSource::Operator, "hermes".to_string()));
    let model = choose_tool_format(None, "mistral", DEFAULTS, "qwen3").unwrap();
    assert_eq!(model, (FormatSource::Model, "mistral".to_string()));
    let table = choose_tool_format(None, "", DEFAULTS, "qwen3").unwrap();
    assert_eq!(table, (FormatSource::Table, "qwen3_coder".to_string()));
    assert!(choose_tool_format(None, "", DEFAULTS, "unknown").is_none());
    assert_eq!(
        resolve_tool_call_parser(Some(named), Some("unknown".to_string())),
        Err("unknown".to_string())
    );
    assert_eq!(resolve_tool_call_parser(Some(table), Some("unknown".to_string())), Ok(None));
    assert_eq!(resolve_tool_call_parser(Some(model), None), Ok(Some("mistral".to_string())));
    assert_eq!(resolve_tool_call_parser(None, None), Ok(None));
    assert_eq!(tag_format(None, DEFAULTS, "m2").as_deref(), Some("minimax_xml"));
    assert_eq!(tag_format(Some("x"), DEFAULTS, "m2").as_deref(), Some("x"));
    assert!(matches!(
        choose_reasoning_format(DEFAULTS, "m2", true, false),
        ReasoningChoice::Table(s) if s == "minimax"
    ));
    assert!(matches!(
        choose_reasoning_format(DEFAULTS, "m2", false, true),
        ReasoningChoice::Usual
    ));
    assert!(matches!(
        choose_reasoning_format(DEFAULTS, "qwen3", true, false),
        ReasoningChoice::Absent
    ));
}

#[test]
fn tokens_with_a_meaning_are_single() {
    let texts = texts_to_encode(Some("minimax_xml"));
    assert_eq!(texts.len(), 12);
    assert_eq!(texts[2], "<minimax:tool_call>");
    assert_eq!(texts_to_encode(None)[3], "</tool_call>");
    let encoded = vec![
        Some(vec![10]),
        Some(vec![11]),
        Some(vec![12, 13]),
        None,
        Some(vec![20]),
        Some(vec![]),
        Some(vec![21]),
    ];
    let mut eos = vec![1];
    let r = resolve_tokenizer_runtime(&encoded, &mut eos);
    assert_eq!(r.think_start_token, Some(10));
    assert_eq!(r.tool_call_start_token, None);
    assert_eq!(r.tool_call_end_token, None);
    assert_eq!(r.reflection_suppress_ids, vec![20, 21]);
    assert_eq!(eos, vec![1, 11]);
    resolve_tokenizer_runtime(&encoded, &mut eos);
    assert_eq!(eos, vec![1, 11]);
}

#[test]
fn the_log_filter_names_the_dump_target() {
    assert_eq!(build_log_filter(None, false), "info,atlas::dump=off");
    assert_eq!(build_log_filter(Some("debug"), true), "debug,atlas::dump=info");
    assert!(mirrors_to_file(Some("/tmp/dump")));
    assert!(!mirrors_to_file(Some("-")));
    assert!(!mirrors_to_file(Some("/dev/stderr")));
    assert!(!mirrors_to_file(None));
}

#[test]
fn tokens_are_required_or_unused() {
    assert!(matches!(
        build_auth_config(false, None, Some("t")),
        Ok(AuthSource::Off { unused_tokens: true })
    ));
    assert!(matches!(build_auth_config(true, Some("f"), None), Ok(AuthSource::File(p)) if p == "f"));
    assert!(matches!(build_auth_config(true, None, Some("t")), Ok(AuthSource::Inline(t)) if t == "t"));
    assert!(build_auth_config(true, None, None).unwrap_err().starts_with("--require-auth was set"));
}

fn choices() -> ServeChoices {
    ServeChoices {
        speculative: true,
        self_speculative: false,
        ngram_speculative: false,
        dflash: false,
        dflash_gamma: 16,
        dflash_window_size: 0,
        num_drafts: 3,
        max_batch_size: 8,
        fp8_kv_calibration_tokens: 0,
        max_thinking_budget: None,
    }
}

fn model() -> ServeModel {
    ServeModel {
        world_size: 1,
        has_proposer: true,
        has_self_speculative: false,
        fp8_kv_calibration_tokens: 256,
        max_thinking_budget: 2048,
    }
}

#[test]
fn the_scheduler_is_planned() {
    let p = plan_serving(choices(), model());
    assert_eq!(p.max_batch_size, 8);
    assert!(p.use_speculative);
    assert_eq!(p.drafting, Drafting::Proposer);
    assert_eq!(p.num_drafts, 3);
    assert_eq!(p.fp8_kv_calibration_tokens, 256);
    assert_eq!(p.max_thinking_budget, 2048);
    let blocks = ServeChoices { dflash: true, max_thinking_budget: Some(7), ..choices() };
    let shared = ServeModel { world_size: 2, ..model() };
    let p = plan_serving(blocks, shared);
    assert_eq!(p.max_batch_size, 1);
    assert_eq!(p.num_drafts, 15);
    assert_eq!(p.drafting, Drafting::Blocks);
    assert_eq!(p.window_size, None);
    assert_eq!(p.max_thinking_budget, 7);
    let tiny = ServeChoices { dflash: true, dflash_gamma: 0, ..choices() };
    assert_eq!(plan_serving(tiny, model()).num_drafts, 1);
    let idle = ServeChoices { speculative: false, ..choices() };
    assert_eq!(plan_serving(idle, model()).drafting, Drafting::Unused);
    assert_eq!(read_policy("fifo"), Ok(Policy::Fifo));
    assert_eq!(read_policy("slai"), Ok(Policy::Slai));
    assert_eq!(
        read_policy("lifo"),
        Err("Unknown scheduling policy 'lifo'. Supported: fifo, slai".to_string())
    );
    assert_eq!(reserve_bytes(2), Some(2097152));
    assert_eq!(reserve_bytes(usize::MAX), None);
}

fn tokenizer(entries: &str) -> tokenizers::Tokenizer {
    let text = format!(
        "{{\"version\":\"1.0\",\"truncation\":null,\"padding\":null,\"added_tokens\":[],\"normalizer\":null,\"pre_tokenizer\":null,\"post_processor\":null,\"decoder\":null,\"model\":{{\"type\":\"WordLevel\",\"vocab\":{{{}}},\"unk_token\":\"a\"}}}}",
        entries
    );
    text.parse().expect("a tokenizer")
}

#[test]
fn a_vocabulary_is_listed_by_number() {
    let t = tokenizer("\"a\":0,\"b\":1,\"c\":4");
    assert_eq!(extract_ordered_vocab(&t), vec!["a", "b", "", "", "c"]);
    assert_eq!(cap_vocab_size(&t, 100), 3);
    assert_eq!(cap_vocab_size(&t, 2), 2);
    let none = tokenizer("");
    assert_eq!(extract_ordered_vocab(&none), vec![""]);
    assert_eq!(cap_vocab_size(&none, 100), 100);
}

#[test]
fn a_tokens_file_holds_one_token_per_line() {
    let tokens = read_token_lines("# keys\n alpha \n\n  # old\nbeta\r\n");
    assert_eq!(tokens, vec!["alpha".to_string(), "beta".to_string()]);
    assert!(read_token_lines("").is_empty());
}
