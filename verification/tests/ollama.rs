use llm_stream::llm::{
    ContentPart, FinishReason, ResponseMetadata, StreamDelta, StreamEvent, ToolCall, Usage,
};
use llm_stream::chat_stream::LlmChatStreamState;
use llm_stream::ollama::{decode_payload, finish_reason, OllamaChatStream};

fn decode_message(raw: &str) -> Result<Option<StreamEvent>, String> {
    OllamaChatStream.decode_message(raw)
}

#[test]
fn a_message_with_text_is_a_delta() {
    let event = decode_message(" {\"model\":\"m\",\"created_at\":\"t0\",\"message\":{\"role\":\"assistant\",\"content\":\"Hi\"},\"done\":false}\n");
    assert_eq!(
        event,
        Ok(Some(StreamEvent::Delta(StreamDelta {
            content: Some(vec![ContentPart::Text("Hi".to_string())]),
            tool_calls: None,
        })))
    );
}

#[test]
fn an_empty_message_is_no_event() {
    let event = decode_message("{\"created_at\":\"t0\",\"message\":{\"role\":\"assistant\",\"content\":\"\"},\"done\":false}");
    assert_eq!(event, Ok(None));
    let event = decode_message("{\"message\":{\"role\":\"assistant\",\"content\":\"\",\"tool_calls\":[]}}");
    assert_eq!(event, Ok(None));
    let event = decode_message("{\"message\":{\"role\":\"assistant\"}}");
    assert_eq!(event, Ok(None));
}

#[test]
fn a_payload_without_a_message_is_no_event() {
    assert_eq!(decode_message("{\"model\":\"m\"}"), Ok(None));
    assert_eq!(decode_message("[1,2]"), Ok(None));
    assert_eq!(decode_message("{\"done\":\"yes\"}"), Ok(None));
}

#[test]
fn tool_calls_get_ids_that_differ() {
    let event = decode_message("{\"created_at\":\"t1\",\"message\":{\"content\":\"\",\"tool_calls\":[{\"function\":{\"name\":\"add\",\"arguments\":{\"b\":2,\"a\":1.50}}},{\"other\":1},{\"function\":{}}]}}");
    assert_eq!(
        event,
        Ok(Some(StreamEvent::Delta(StreamDelta {
            content: None,
            tool_calls: Some(vec![
                ToolCall {
                    id: "ollama-t1-0".to_string(),
                    name: "add".to_string(),
                    arguments_json: "{\"a\":1.5,\"b\":2}".to_string(),
                },
                ToolCall {
                    id: "ollama-t1-1".to_string(),
                    name: String::new(),
                    arguments_json: "{}".to_string(),
                },
            ]),
        })))
    );
}

#[test]
fn a_done_payload_is_a_finish() {
    let event = decode_message("{\"created_at\":\"t2\",\"done\":true,\"done_reason\":\"stop\",\"prompt_eval_count\":11,\"eval_count\":31,\"total_duration\":5,\"load_duration\":4,\"prompt_eval_duration\":3,\"eval_duration\":2,\"context\":[1,2]}");
    assert_eq!(
        event,
        Ok(Some(StreamEvent::Finish(ResponseMetadata {
            finish_reason: Some(FinishReason::Stop),
            usage: Some(Usage {
                input_tokens: Some(11),
                output_tokens: Some(31),
                total_tokens: Some(42),
            }),
            provider_id: Some("ollama".to_string()),
            timestamp: Some("t2".to_string()),
            provider_metadata_json: Some(
                "{\"context\":[1,2],\"eval_duration\":2,\"load_duration\":4,\"prompt_eval_duration\":3,\"total_duration\":5}"
                    .to_string()
            ),
        })))
    );
}

#[test]
fn a_bare_done_payload_has_zero_counts() {
    let event = decode_message("{\"done\":true,\"message\":{\"content\":\"ignored\"}}");
    assert_eq!(
        event,
        Ok(Some(StreamEvent::Finish(ResponseMetadata {
            finish_reason: Some(FinishReason::Stop),
            usage: Some(Usage {
                input_tokens: Some(0),
                output_tokens: Some(0),
                total_tokens: Some(0),
            }),
            provider_id: Some("ollama".to_string()),
            timestamp: None,
            provider_metadata_json: Some(
                "{\"context\":null,\"eval_duration\":0,\"load_duration\":0,\"prompt_eval_duration\":0,\"total_duration\":0}"
                    .to_string()
            ),
        })))
    );
}

#[test]
fn counts_keep_their_low_32_bits_and_the_total_wraps() {
    let event = decode_message("{\"done\":true,\"prompt_eval_count\":4294967297,\"eval_count\":4294967295}");
    match event {
        Ok(Some(StreamEvent::Finish(metadata))) => {
            assert_eq!(
                metadata.usage,
                Some(Usage {
                    input_tokens: Some(1),
                    output_tokens: Some(4294967295),
                    total_tokens: Some(0),
                })
            );
        }
        other => panic!("unexpected: {:?}", other),
    }
}

#[test]
fn the_finish_reason_is_told_from_the_text() {
    assert_eq!(finish_reason(&None), FinishReason::Stop);
    assert_eq!(finish_reason(&Some("stop".to_string())), FinishReason::Stop);
    assert_eq!(finish_reason(&Some("length".to_string())), FinishReason::Length);
    assert_eq!(finish_reason(&Some("tool_calls".to_string())), FinishReason::ToolCalls);
    assert_eq!(finish_reason(&Some("content_filter".to_string())), FinishReason::ContentFilter);
    assert_eq!(finish_reason(&Some("error".to_string())), FinishReason::Error);
    assert_eq!(finish_reason(&Some("unload".to_string())), FinishReason::Other);
    assert_eq!(finish_reason(&Some("Stop".to_string())), FinishReason::Other);
    let event = decode_message("{\"done\":true,\"done_reason\":\"length\"}");
    match event {
        Ok(Some(StreamEvent::Finish(metadata))) => {
            assert_eq!(metadata.finish_reason, Some(FinishReason::Length))
        }
        other => panic!("unexpected: {:?}", other),
    }
}

#[test]
fn a_line_that_is_not_json_is_an_error() {
    let event = decode_message("{\"done\":");
    match event {
        Err(message) => {
            assert!(message.starts_with("JSON parse error: "), "{}", message);
            assert!(message.len() > "JSON parse error: ".len());
            let expected = serde_json::from_str::<serde_json::Value>("{\"done\":").unwrap_err();
            assert_eq!(message, format!("JSON parse error: {}", expected));
        }
        other => panic!("unexpected: {:?}", other),
    }
    assert!(decode_message("").is_err());
}

#[test]
fn a_parsed_payload_is_read_as_the_line_is() {
    let line = "{\"created_at\":\"t\",\"message\":{\"content\":\"x\",\"tool_calls\":[{\"function\":{\"name\":\"f\",\"arguments\":\"raw\"}}]}}";
    let value: serde_json::Value = serde_json::from_str(line).unwrap();
    assert_eq!(Ok(decode_payload(&value)), decode_message(line));
    assert_eq!(
        decode_payload(&value),
        Some(StreamEvent::Delta(StreamDelta {
            content: Some(vec![ContentPart::Text("x".to_string())]),
            tool_calls: Some(vec![ToolCall {
                id: "ollama-t-0".to_string(),
                name: "f".to_string(),
                arguments_json: "\"raw\"".to_string(),
            }]),
        }))
    );
}
