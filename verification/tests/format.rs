use debrief::db::{build_storage_row, DbDelivery};
use debrief::entry::DebriefResponse;
use debrief::gemini::{
    build_request, parse_generation_response, system_instruction, Candidate, GeminiChatProvider,
    GenerationError, Part, Response, ResponseContent,
};
use debrief::json::{entries_to_json, parse_entries};
use debrief::slack::{build_chat_message, generate_slack_message, SlackDelivery};

fn entry(description: &str, url: &str, type_of_change: &str) -> DebriefResponse {
    DebriefResponse {
        description: String::from(description),
        url: String::from(url),
        type_of_change: String::from(type_of_change),
    }
}

fn response_with_text(text: Option<&str>) -> Response {
    Response {
        candidates: vec![Candidate {
            content: ResponseContent { parts: vec![Part { text: text.map(String::from) }] },
        }],
    }
}

#[test]
fn parse_accepts_a_plain_entry_array() {
    let text = r#"[{"description":"Fix the login flow","url":"https://example.test/1","type_of_change":"Bug fix"}]"#;
    let es = parse_entries(text).unwrap();
    assert_eq!(es.len(), 1);
    assert_eq!(es[0].description, "Fix the login flow");
    assert_eq!(es[0].url, "https://example.test/1");
    assert_eq!(es[0].type_of_change, "Bug fix");
}

#[test]
fn parse_accepts_whitespace_and_any_member_order() {
    let text = " [ { \"url\" : \"u\" ,\n\t\"type_of_change\": \"Fix\", \"description\": \"d\" } , {\"description\":\"e\",\"url\":\"v\",\"type_of_change\":\"Feature\"} ] ";
    let es = parse_entries(text).unwrap();
    assert_eq!(es.len(), 2);
    assert_eq!(es[0].description, "d");
    assert_eq!(es[0].url, "u");
    assert_eq!(es[1].type_of_change, "Feature");
}

#[test]
fn parse_accepts_empty_array() {
    let es = parse_entries("[]").unwrap();
    assert!(es.is_empty());
}

#[test]
fn parse_decodes_escapes() {
    let text = r#"[{"description":"a\"b\\c\ndA","url":"u","type_of_change":"🚀 Fix"}]"#;
    let es = parse_entries(text).unwrap();
    assert_eq!(es[0].description, "a\"b\\c\ndA");
    assert_eq!(es[0].type_of_change, "\u{1F680} Fix");
}

#[test]
fn parse_decodes_unicode_escapes_and_surrogate_pairs() {
    let text = r#"[{"description":"\u0041\u00e9","url":"u","type_of_change":"\ud83d\ude80 Fix"}]"#;
    let es = parse_entries(text).unwrap();
    assert_eq!(es[0].description, "A\u{e9}");
    assert_eq!(es[0].type_of_change, "\u{1F680} Fix");
}

#[test]
fn parse_ignores_unknown_string_members() {
    let text = r#"[{"description":"d","note":"extra","url":"u","type_of_change":"t"}]"#;
    let es = parse_entries(text).unwrap();
    assert_eq!(es[0].description, "d");
}

#[test]
fn parse_rejects_missing_or_duplicate_keys() {
    assert!(parse_entries(r#"[{"description":"d","url":"u"}]"#).is_none());
    assert!(
        parse_entries(r#"[{"description":"d","description":"e","url":"u","type_of_change":"t"}]"#)
            .is_none()
    );
}

#[test]
fn parse_rejects_malformed_text() {
    assert!(parse_entries("").is_none());
    assert!(parse_entries("not json").is_none());
    assert!(parse_entries(r#"{"description":"d"}"#).is_none());
    assert!(parse_entries(r#"[{"description":"d","url":"u","type_of_change":"t"}] trailing"#)
        .is_none());
    assert!(parse_entries(r#"[{"description":"d","url":"u","type_of_change":"t"},]"#).is_none());
    assert!(parse_entries(r#"[{"description":"d","url":"u","type_of_change":1}]"#).is_none());
    assert!(parse_entries(r#"[{"description":"d","url":"u","type_of_change":"\ud800"}]"#)
        .is_none());
}

#[test]
fn zero_candidates_is_an_error_not_an_empty_digest() {
    let response = Response { candidates: Vec::new() };
    let err = parse_generation_response(&response).unwrap_err();
    assert!(matches!(err, GenerationError::NoUsableText));
}

#[test]
fn candidate_without_text_is_an_error() {
    let err = parse_generation_response(&response_with_text(None)).unwrap_err();
    assert!(matches!(err, GenerationError::NoUsableText));
}

#[test]
fn undecodable_text_is_a_schema_violation() {
    let err = parse_generation_response(&response_with_text(Some("oops"))).unwrap_err();
    assert!(matches!(err, GenerationError::SchemaViolation));
}

#[test]
fn decodable_text_yields_the_entries() {
    let text = r#"[{"description":"d","url":"u","type_of_change":"t"}]"#;
    let es = parse_generation_response(&response_with_text(Some(text))).unwrap();
    assert_eq!(es.len(), 1);
    assert_eq!(es[0].url, "u");
}

#[test]
fn rendered_json_is_canonical() {
    let es = vec![entry("say \"hi\"\n", "https://example.test/1", "Fix"), entry("b", "v", "Feature")];
    let rendered = entries_to_json(&es);
    assert_eq!(
        rendered,
        r#"[{"description":"say \"hi\"\n","url":"https://example.test/1","type_of_change":"Fix"},{"description":"b","url":"v","type_of_change":"Feature"}]"#
    );
    assert_eq!(entries_to_json(&Vec::new()), "[]");
}

#[test]
fn rendered_json_decodes_back_to_the_same_entries() {
    let es = vec![entry("a\tb\u{0001}", "u", "\u{1F680} Fix")];
    let rendered = entries_to_json(&es);
    let decoded = parse_entries(&rendered).unwrap();
    assert_eq!(decoded.len(), 1);
    assert_eq!(decoded[0].description, "a\tb\u{0001}");
    assert_eq!(decoded[0].type_of_change, "\u{1F680} Fix");
}

#[test]
fn entry_renders_as_hyperlink_token() {
    let e = entry("Fix the login flow", "https://example.test/1", "Fix");
    assert_eq!(e.to_slack_message(), "<https://example.test/1|Fix the login flow>");
}

#[test]
fn three_entries_group_into_two_blocks_in_first_occurrence_order() {
    let es = vec![entry("d1", "u1", "Fix"), entry("d2", "u2", "Feature"), entry("d3", "u3", "Fix")];
    let message = generate_slack_message(&es);
    assert_eq!(message, "*Fix*\n<u1|d1>\n<u3|d3>\n*Feature*\n<u2|d2>");
}

#[test]
fn single_group_has_one_block() {
    let es = vec![entry("d1", "u1", "Fix"), entry("d2", "u2", "Fix")];
    assert_eq!(generate_slack_message(&es), "*Fix*\n<u1|d1>\n<u2|d2>");
}

#[test]
fn chat_message_has_header_and_section_blocks() {
    let es = vec![entry("d1", "u1", "Fix")];
    let body = build_chat_message(String::from("C1234567890"), 1710239400, &es);
    assert_eq!(body.channel, "C1234567890");
    assert_eq!(body.blocks.len(), 2);
    assert_eq!(body.blocks[0].kind, "header");
    assert_eq!(body.blocks[0].text.kind, "plain_text");
    assert_eq!(body.blocks[0].text.text, "Digest for 12/03/2024");
    assert_eq!(body.blocks[1].kind, "section");
    assert_eq!(body.blocks[1].text.kind, "mrkdwn");
    assert_eq!(body.blocks[1].text.text, "*Fix*\n<u1|d1>");
}

#[test]
fn storage_row_holds_json_and_reference_instant() {
    let es = vec![entry("d", "u", "t")];
    let (content, at) = build_storage_row(1710239400, &es);
    assert_eq!(content, r#"[{"description":"d","url":"u","type_of_change":"t"}]"#);
    assert_eq!(at, 1710239400);
}

#[test]
fn mechanisms_report_their_names() {
    assert_eq!(SlackDelivery {}.get_name(), "slack");
    assert_eq!(DbDelivery {}.get_name(), "db");
}

#[test]
fn request_carries_instruction_configuration_and_batch() {
    let r = build_request(String::from("instruct"), String::from("batch"));
    let si = r.system_instruction.unwrap();
    assert_eq!(si.parts.len(), 1);
    assert_eq!(si.parts[0].text.as_deref(), Some("instruct"));
    assert_eq!(
        r.generation_config.unwrap().response_mime_type.as_deref(),
        Some("application/json")
    );
    assert_eq!(r.contents.len(), 1);
    assert_eq!(r.contents[0].role, "user");
    assert_eq!(r.contents[0].parts[0].text.as_deref(), Some("batch"));
}

#[test]
fn provider_keeps_its_token() {
    let provider = GeminiChatProvider::new(String::from("SECRET-REDACTED"));
    assert_eq!(provider.client.api_key, "SECRET-REDACTED");
}

#[test]
fn instruction_spells_out_format_and_schema() {
    let text = system_instruction();
    assert!(text.starts_with("You will be provided with a set of pull requests"));
    assert!(text.contains("JSON schema"));
    assert!(text.contains("type_of_change"));
    assert!(text.contains("at most 70 characters"));
    assert!(text.contains("at most 1500 characters"));
}
