use llm_stream::llm::{
    ChatEvent, CompleteResponse, Config, ContentPart, Error, ErrorCode, FinishReason,
    ImageReference, ImageSource, ImageUrl, Kv, Message, ResponseMetadata, Role, ToolCall,
    ToolDefinition, ToolFailure, ToolResult, ToolSuccess, Usage,
};
use llm_stream::ollama::client::{
    prepare_request, CompletionsRequest, CompletionsResponse, Function, FunctionTool,
    MessageRequest, MessageResponse, MessageRole, OllamaModelOptions, OllamaRequestError, Tool,
};
use llm_stream::ollama::conversions::{
    convert_messages, convert_tools, get_provider_metadata, image_urls, lookup,
    messages_to_request, model_options, parse_option, process_response, text_option,
    tool_results_to_messages, FromText,
};

fn kv(key: &str, value: &str) -> Kv {
    Kv { key: key.to_string(), value: value.to_string() }
}

fn text(t: &str) -> ContentPart {
    ContentPart::Text(t.to_string())
}

fn url(u: &str) -> ContentPart {
    ContentPart::Image(ImageReference::Url(ImageUrl { url: u.to_string(), detail: None }))
}

fn inline(data: &[u8]) -> ContentPart {
    ContentPart::Image(ImageReference::Inline(ImageSource {
        data: data.to_vec(),
        mime_type: "image/png".to_string(),
        detail: None,
    }))
}

fn config(tools: Vec<ToolDefinition>, options: Vec<Kv>) -> Config {
    Config {
        model: "llama".to_string(),
        temperature: Some(0x3f333333),
        max_tokens: None,
        stop_sequences: Some(vec!["\n".to_string(), "END".to_string()]),
        tools,
        tool_choice: None,
        provider_options: options,
    }
}

fn no_options() -> OllamaModelOptions {
    OllamaModelOptions {
        num_keep: None,
        seed: None,
        num_predict: None,
        top_k: None,
        top_p: None,
        min_p: None,
        typical_p: None,
        repeat_last_n: None,
        temperature: None,
        repeat_penalty: None,
        presence_penalty: None,
        frequency_penalty: None,
        mirostat: None,
        mirostat_tau: None,
        mirostat_eta: None,
        penalize_newline: None,
        stop: None,
        numa: None,
        num_ctx: None,
        num_batch: None,
        num_gpu: None,
        main_gpu: None,
        use_mmap: None,
        num_thread: None,
    }
}

#[test]
fn the_last_setting_with_a_name_counts() {
    let options = vec![kv("seed", "1"), kv("top_k", "x"), kv("seed", "2")];
    assert_eq!(lookup(&options, "seed"), Some(&"2".to_string()));
    assert_eq!(lookup(&options, "Seed"), None);
    assert_eq!(parse_option::<i32>(&options, "seed"), Some(2));
    assert_eq!(parse_option::<i32>(&options, "top_k"), None);
    assert_eq!(parse_option::<i32>(&options, "missing"), None);
    assert_eq!(text_option(&options, "top_k"), Some("x".to_string()));
    assert_eq!(text_option(&[], "top_k"), None);
}

#[test]
fn whole_numbers_are_read_as_the_standard_library_reads_them() {
    for case in [
        "0", "7", "+7", "-7", "-0", "+0", "007", "2147483647", "2147483648", "-2147483648",
        "-2147483649", "99999999999999999999999", "", "+", "-", "--1", "1.0", " 1", "1 ", "1e3",
        "0x10", "١",
    ] {
        assert_eq!(i32::from_text(case), case.parse::<i32>().ok(), "{:?}", case);
    }
}

#[test]
fn flags_are_read_as_the_standard_library_reads_them() {
    for case in ["true", "false", "True", "TRUE", "1", "", "true ", "yes"] {
        assert_eq!(bool::from_text(case), case.parse::<bool>().ok(), "{:?}", case);
        let options = vec![kv("numa", case)];
        assert_eq!(parse_option::<bool>(&options, "numa"), case.parse::<bool>().ok());
    }
}

#[test]
fn the_options_of_the_model_come_from_the_settings() {
    let options = model_options(&config(
        vec![],
        vec![
            kv("top_p", "0.9"),
            kv("top_k", "40"),
            kv("seed", "-3"),
            kv("numa", "true"),
            kv("use_mmap", "no"),
            kv("num_ctx", "4096"),
            kv("mirostat_tau", "not a number"),
            kv("unknown", "1"),
        ],
    ));
    assert_eq!(
        options,
        OllamaModelOptions {
            top_p: Some("0.9".to_string()),
            top_k: Some(40),
            seed: Some(-3),
            numa: Some(true),
            num_ctx: Some(4096),
            mirostat_tau: Some("not a number".to_string()),
            temperature: Some(0x3f333333),
            stop: Some(vec!["\n".to_string(), "END".to_string()]),
            ..no_options()
        }
    );
}

#[test]
fn texts_are_joined_by_lines_and_roles_are_mapped() {
    let messages = vec![
        Message { role: Role::System, name: None, content: vec![text("a"), text("b"), text("")] },
        Message { role: Role::Tool, name: None, content: vec![text(""), text("c")] },
        Message { role: Role::Assistant, name: Some("n".to_string()), content: vec![] },
        Message { role: Role::User, name: None, content: vec![text("d")] },
    ];
    let requests = convert_messages(&messages, &[]);
    let expect = |role, content: &str| MessageRequest {
        role,
        content: content.to_string(),
        images: None,
        tools_calls: None,
    };
    assert_eq!(
        requests,
        vec![
            expect(MessageRole::System, "a\nb\n"),
            expect(MessageRole::User, "c"),
            expect(MessageRole::Assistant, ""),
            expect(MessageRole::User, "d"),
        ]
    );
}

#[test]
fn images_are_attached_in_base64() {
    let messages = vec![
        Message {
            role: Role::User,
            name: None,
            content: vec![url("u1"), text("look"), inline(b"hello"), url("u2")],
        },
        Message { role: Role::User, name: None, content: vec![inline(&[]), url("u3"), url("u4")] },
    ];
    assert_eq!(image_urls(&messages), vec!["u1", "u2", "u3", "u4"]);
    let fetched = vec![Some(b"\x00\x00\x00".to_vec()), None, Some(b"ab".to_vec())];
    let requests = convert_messages(&messages, &fetched);
    assert_eq!(
        requests,
        vec![
            MessageRequest {
                role: MessageRole::User,
                content: "look".to_string(),
                images: Some(vec!["AAAA".to_string(), "aGVsbG8=".to_string()]),
                tools_calls: None,
            },
            MessageRequest {
                role: MessageRole::User,
                content: String::new(),
                images: Some(vec![String::new(), "YWI=".to_string()]),
                tools_calls: None,
            },
        ]
    );
    let requests = convert_messages(&messages[..1], &[]);
    assert_eq!(requests[0].images, Some(vec!["aGVsbG8=".to_string()]));
    let only_url = vec![Message { role: Role::User, name: None, content: vec![url("u")] }];
    assert_eq!(convert_messages(&only_url, &[None])[0].images, None);
}

#[test]
fn tool_results_become_messages_of_the_assistant() {
    let call = |name: &str| ToolCall {
        id: "c1".to_string(),
        name: name.to_string(),
        arguments_json: "{}".to_string(),
    };
    let results = vec![
        (
            call("add"),
            ToolResult::Success(ToolSuccess {
                id: "c1".to_string(),
                name: "add".to_string(),
                result_json: "{ \"value\": 6 }".to_string(),
                execution_time_ms: None,
            }),
        ),
        (
            call("div"),
            ToolResult::Error(ToolFailure {
                id: "c2".to_string(),
                name: "div".to_string(),
                error_message: "by zero".to_string(),
                error_code: Some("E1".to_string()),
            }),
        ),
        (
            call("mul"),
            ToolResult::Error(ToolFailure {
                id: "c3".to_string(),
                name: "mul".to_string(),
                error_message: "no".to_string(),
                error_code: None,
            }),
        ),
    ];
    let messages = tool_results_to_messages(&results);
    let tool = |name: &str| Tool {
        tool_type: "function".to_string(),
        function: FunctionTool {
            name: name.to_string(),
            description: String::new(),
            parameters: serde_json::Value::Object(serde_json::Map::new()),
        },
    };
    assert_eq!(
        messages,
        vec![
            MessageRequest {
                role: MessageRole::Assistant,
                content: "[ToolCall Result]: Successed , [ToolCall ID]: c1, [ToolCall Name]: add, [Result]: { \"value\": 6 }] ".to_string(),
                images: None,
                tools_calls: Some(vec![tool("add")]),
            },
            MessageRequest {
                role: MessageRole::Assistant,
                content: "[ToolCall Result]: Failed, [ToolCall ID]: c2, [ErrorName]: div, [ErrorCode]: E1, [Error]: by zero".to_string(),
                images: None,
                tools_calls: Some(vec![tool("div")]),
            },
            MessageRequest {
                role: MessageRole::Assistant,
                content: "[ToolCall Result]: Failed, [ToolCall ID]: c3, [ErrorName]: mul, [ErrorCode]: , [Error]: no".to_string(),
                images: None,
                tools_calls: Some(vec![tool("mul")]),
            },
        ]
    );
    assert_eq!(messages[0].tools_calls.as_ref().unwrap()[0].function.parameters.to_string(), "{}");
}

fn definition(name: &str, schema: &str, description: Option<&str>) -> ToolDefinition {
    ToolDefinition {
        name: name.to_string(),
        description: description.map(|d| d.to_string()),
        parameters_schema: schema.to_string(),
    }
}

#[test]
fn tools_need_parameters_that_are_json() {
    let tools = vec![
        definition("a", "{\"type\": \"object\"}", Some("adds")),
        definition("b", "[1, 2]", None),
    ];
    let converted = convert_tools(&tools).unwrap();
    assert_eq!(converted.len(), 2);
    assert_eq!(converted[0].tool_type, "function");
    assert_eq!(converted[0].function.name, "a");
    assert_eq!(converted[0].function.description, "adds");
    assert_eq!(
        converted[0].function.parameters,
        serde_json::from_str::<serde_json::Value>("{\"type\":\"object\"}").unwrap()
    );
    assert_eq!(converted[1].function.description, "");
    assert_eq!(converted[1].function.parameters.to_string(), "[1,2]");

    let tools = vec![
        definition("a", "{}", None),
        definition("bad", "{oops", None),
        definition("worse", "", None),
    ];
    let detail = serde_json::from_str::<serde_json::Value>("{oops").unwrap_err();
    assert_eq!(
        convert_tools(&tools),
        Err(Error {
            code: ErrorCode::InternalError,
            message: format!("Failed to parse tool parameters for bad: {}", detail),
            provider_error_json: None,
        })
    );
}

#[test]
fn a_request_is_built_from_a_chat() {
    let messages = vec![Message { role: Role::User, name: None, content: vec![text("hi")] }];
    let results = vec![(
        ToolCall { id: "1".to_string(), name: "t".to_string(), arguments_json: "{}".to_string() },
        ToolResult::Success(ToolSuccess {
            id: "1".to_string(),
            name: "t".to_string(),
            result_json: "1".to_string(),
            execution_time_ms: Some(5),
        }),
    )];
    let request = messages_to_request(
        messages,
        config(
            vec![definition("t", "{}", None)],
            vec![kv("format", "json"), kv("keep_alive", "5m"), kv("seed", "9")],
        ),
        Some(results),
        &[],
    )
    .unwrap();
    assert_eq!(request.model, Some("llama".to_string()));
    assert_eq!(request.stream, Some(false));
    assert_eq!(request.format, Some("json".to_string()));
    assert_eq!(request.keep_alive, Some("5m".to_string()));
    let list = request.messages.as_ref().unwrap();
    assert_eq!(list.len(), 2);
    assert_eq!(list[0].content, "hi");
    assert_eq!(list[1].role, MessageRole::Assistant);
    assert_eq!(request.tools.as_ref().unwrap().len(), 1);
    assert_eq!(request.options.as_ref().unwrap().seed, Some(9));
    assert_eq!(request.options.as_ref().unwrap().temperature, Some(0x3f333333));

    let request = messages_to_request(vec![], config(vec![], vec![]), None, &[]).unwrap();
    assert_eq!(request.messages, Some(vec![]));
    assert_eq!(request.tools, Some(vec![]));
    assert_eq!(request.format, None);
    assert_eq!(request.keep_alive, None);

    let refused = messages_to_request(
        vec![],
        config(vec![definition("t", "nope", None)], vec![]),
        None,
        &[],
    );
    match refused {
        Err(error) => {
            assert_eq!(error.code, ErrorCode::InternalError);
            assert!(error.message.starts_with("Failed to parse tool parameters for t: "));
        }
        Ok(_) => panic!("accepted"),
    }
}

#[test]
fn a_request_is_made_ready_to_be_sent() {
    let request = |model: Option<&str>| CompletionsRequest {
        model: model.map(|m| m.to_string()),
        messages: Some(vec![]),
        tools: None,
        format: None,
        options: None,
        stream: Some(false),
        keep_alive: None,
    };
    let ready = prepare_request(request(None), "default", true);
    assert_eq!(ready.model, Some("default".to_string()));
    assert_eq!(ready.stream, Some(true));
    assert_eq!(ready.messages, Some(vec![]));
    let ready = prepare_request(request(Some("mine")), "default", false);
    assert_eq!(ready.model, Some("mine".to_string()));
    assert_eq!(ready.stream, Some(false));
}

fn response(message: Option<MessageResponse>) -> CompletionsResponse {
    CompletionsResponse {
        model: "m".to_string(),
        created_at: "2023-10-01T00:00:00Z".to_string(),
        message,
        done: Some(true),
        done_reason: None,
        total_duration: Some(12),
        load_duration: None,
        prompt_eval_count: Some(100),
        prompt_eval_duration: Some(-3),
        eval_count: Some(200),
        eval_duration: Some(i64::MIN),
    }
}

#[test]
fn the_metadata_of_an_answer_is_written_as_text() {
    assert_eq!(
        get_provider_metadata(&response(None)),
        "{\n    \"total_duration\":\"12\",\n    \"load_duration\":\"0\",\n    \"prompt_eval_duration\":-3,\n    \"eval_duration\":-9223372036854775808,\n    \"context\":200,\n    }"
    );
}

#[test]
fn an_answer_becomes_a_complete_response() {
    let message = MessageResponse {
        role: MessageRole::Assistant,
        content: Some("Hello".to_string()),
        images: None,
        tool_calls: Some(vec![llm_stream::ollama::client::ToolCall {
            name: None,
            function: Some(Function {
                name: "f".to_string(),
                arguments: serde_json::from_str("{\"b\": 1, \"a\": [true, null]}").unwrap(),
            }),
        }]),
    };
    let answer = response(Some(message));
    let metadata_text = get_provider_metadata(&answer);
    assert_eq!(
        process_response(answer),
        ChatEvent::Message(CompleteResponse {
            id: "ollama-2023-10-01T00:00:00Z".to_string(),
            content: vec![text("Hello")],
            tool_calls: vec![ToolCall {
                id: "ollama-2023-10-01T00:00:00Z".to_string(),
                name: String::new(),
                arguments_json: "{\"a\":[true,null],\"b\":1}".to_string(),
            }],
            metadata: ResponseMetadata {
                finish_reason: Some(FinishReason::Stop),
                usage: Some(Usage {
                    input_tokens: Some(100),
                    output_tokens: Some(200),
                    total_tokens: Some(300),
                }),
                provider_id: Some("ollama".to_string()),
                timestamp: Some("2023-10-01T00:00:00Z".to_string()),
                provider_metadata_json: Some(metadata_text),
            },
        })
    );
}

#[test]
fn counts_of_an_answer_keep_their_low_32_bits() {
    let mut answer = response(Some(MessageResponse {
        role: MessageRole::Assistant,
        content: None,
        images: None,
        tool_calls: None,
    }));
    answer.done = None;
    answer.prompt_eval_count = Some(-1);
    answer.eval_count = None;
    match process_response(answer) {
        ChatEvent::Message(complete) => {
            assert_eq!(complete.content, vec![]);
            assert_eq!(complete.tool_calls, vec![]);
            assert_eq!(complete.metadata.finish_reason, None);
            assert_eq!(
                complete.metadata.usage,
                Some(Usage {
                    input_tokens: Some(u32::MAX),
                    output_tokens: None,
                    total_tokens: Some(u32::MAX),
                })
            );
        }
        other => panic!("unexpected: {:?}", other),
    }
}

#[test]
fn an_answer_without_a_message_is_an_error() {
    assert_eq!(
        process_response(response(None)),
        ChatEvent::Error(Error {
            code: ErrorCode::InternalError,
            message: "No messages in response".to_string(),
            provider_error_json: None,
        })
    );
}

#[test]
fn an_error_body_becomes_an_error_of_the_chat() {
    let body = OllamaRequestError::new(429, Some("slow down".to_string()), Some("{}".to_string()));
    assert_eq!(
        body.into_error(429),
        Error {
            code: ErrorCode::RateLimitExceeded,
            message: "slow down".to_string(),
            provider_error_json: Some("{}".to_string()),
        }
    );
    let body = OllamaRequestError::new(500, None, None);
    assert_eq!(
        body.into_error(500),
        Error { code: ErrorCode::InternalError, message: String::new(), provider_error_json: None }
    );
}
