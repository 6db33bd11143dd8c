//! The Ollama provider: how one line of its streamed answer is read into an
//! event of the chat.

use crate::chat_stream::{ChatStreamView, LlmChatStream, LlmChatStreamState};
use crate::durability::{default_prompt, retry_prompt, ExtendedGuest};
use crate::event_source::EventSource;
use crate::json::{
    duplicate, empty_object, get, json_number, json_parse, json_parse_error, json_text,
    json_value, json_values, member, null, number, parse, set_member, to_text, Json,
};
use crate::llm::{
    calls_view, parts_view, Config, ContentPart, ContentPartView, Error, FinishReason, Message,
    MessageView, ResponseMetadata, ResponseMetadataView, StreamDelta, StreamDeltaView,
    StreamEvent, StreamEventView, ToolCall, ToolCallView, Usage,
};
use crate::text::{
    chars_of, decimal_chars, decimal_text, same_text, string_from_chars, trim, trimmed,
};
use vstd::prelude::*;
use vstd::string::StringExecFns;

pub mod client;
pub mod conversions;

verus! {

/// The text member of an object with the given key.
pub open spec fn text_member(value: Json, key: Seq<char>) -> Option<Seq<char>> {
    match member(value, key) {
        Some(Json::String(text)) => Some(text),
        _ => None,
    }
}

/// The count that an object holds under the given key; 0 where it holds
/// none.
pub open spec fn count_member(value: Json, key: Seq<char>) -> u64 {
    match member(value, key) {
        Some(Json::Number(n)) => match n.unsigned {
            Some(count) => count,
            None => 0,
        },
        _ => 0,
    }
}

/// The payload says that the response has ended.
pub open spec fn is_done(value: Json) -> bool {
    member(value, "done"@) == Some(Json::Bool(true))
}

/// The low 32 bits of a count.
pub open spec fn low_bits(count: u64) -> u32 {
    (count % 0x1_0000_0000) as u32
}

/// The token counts of a payload that ends the response. The total wraps
/// round at 32 bits.
pub open spec fn usage_of(value: Json) -> Usage {
    let input = low_bits(count_member(value, "prompt_eval_count"@));
    let output = low_bits(count_member(value, "eval_count"@));
    Usage {
        input_tokens: Some(input),
        output_tokens: Some(output),
        total_tokens: Some(input.wrapping_add(output)),
    }
}

/// Why the response ended, from the reason that the payload gives. A payload
/// that gives none has stopped of itself.
pub open spec fn finish_reason_of(reason: Option<Seq<char>>) -> FinishReason {
    match reason {
        None => FinishReason::Stop,
        Some(text) => if text == "stop"@ {
            FinishReason::Stop
        } else if text == "length"@ {
            FinishReason::Length
        } else if text == "tool_calls"@ {
            FinishReason::ToolCalls
        } else if text == "content_filter"@ {
            FinishReason::ContentFilter
        } else if text == "error"@ {
            FinishReason::Error
        } else {
            FinishReason::Other
        },
    }
}

/// A count of a payload as a JSON number.
pub open spec fn count_json(value: Json, key: Seq<char>) -> Json {
    Json::Number(json_number(count_member(value, key)))
}

/// What the provider tells of the run, as a JSON object: the four
/// durations, and the context, which is nothing where the payload has none.
pub open spec fn metadata_object(value: Json) -> Json {
    Json::Object(
        Map::empty().insert("total_duration"@, count_json(value, "total_duration"@)).insert(
            "load_duration"@,
            count_json(value, "load_duration"@),
        ).insert("prompt_eval_duration"@, count_json(value, "prompt_eval_duration"@)).insert(
            "eval_duration"@,
            count_json(value, "eval_duration"@),
        ).insert(
            "context"@,
            match member(value, "context"@) {
                Some(context) => context,
                None => Json::Null,
            },
        ),
    )
}

/// What the provider tells of the run, as JSON text.
pub open spec fn provider_metadata(value: Json) -> Seq<char> {
    json_text(metadata_object(value))
}

/// What is known of the response, from the payload that ends it.
pub open spec fn finish_of(value: Json) -> ResponseMetadataView {
    ResponseMetadataView {
        finish_reason: Some(finish_reason_of(text_member(value, "done_reason"@))),
        usage: Some(usage_of(value)),
        provider_id: Some("ollama"@),
        timestamp: text_member(value, "created_at"@),
        provider_metadata_json: Some(provider_metadata(value)),
    }
}

/// The time stamp of a payload; empty where it has none.
pub open spec fn stamp_of(value: Json) -> Seq<char> {
    match text_member(value, "created_at"@) {
        Some(stamp) => stamp,
        None => seq![],
    }
}

/// The id of a tool call: the time stamp of the response and the place of
/// the call among the calls of the payload, counted from 0.
pub open spec fn call_id(stamp: Seq<char>, index: nat) -> Seq<char> {
    "ollama-"@ + stamp + "-"@ + decimal_text(index)
}

/// The tool call that an item with a function stands for. The arguments are
/// the text of the JSON value that the item gives, `{}` where it gives none.
pub open spec fn call_of(function: Json, stamp: Seq<char>, index: nat) -> ToolCallView {
    ToolCallView {
        id: call_id(stamp, index),
        name: match text_member(function, "name"@) {
            Some(name) => name,
            None => seq![],
        },
        arguments_json: match member(function, "arguments"@) {
            Some(arguments) => json_text(arguments),
            None => "{}"@,
        },
    }
}

/// The tool calls of a payload: one for each item that has a function, in
/// the order of the items.
pub open spec fn tool_calls_of(items: Seq<Json>, stamp: Seq<char>) -> Seq<ToolCallView>
    decreases items.len(),
{
    if items.len() == 0 {
        seq![]
    } else {
        let before = tool_calls_of(items.drop_last(), stamp);
        match member(items.last(), "function"@) {
            Some(function) => before.push(call_of(function, stamp, before.len())),
            None => before,
        }
    }
}

/// The content of the message of a payload: its text, unless it is empty.
pub open spec fn content_of(message: Json) -> Seq<ContentPartView> {
    match text_member(message, "content"@) {
        Some(text) => if text.len() > 0 {
            seq![ContentPartView::Text(text)]
        } else {
            seq![]
        },
        None => seq![],
    }
}

/// The tool calls of the message of a payload.
pub open spec fn calls_of(message: Json, stamp: Seq<char>) -> Seq<ToolCallView> {
    match member(message, "tool_calls"@) {
        Some(Json::Array(items)) => tool_calls_of(items, stamp),
        _ => seq![],
    }
}

/// The event that a payload stands for. A payload that ends the response is
/// a finish. A payload with a message is a delta with the text and the tool
/// calls of the message; a message without text and without tool calls is no
/// event. Any other payload is no event.
pub open spec fn decode_value(value: Json) -> Option<StreamEventView> {
    if is_done(value) {
        Some(StreamEventView::Finish(finish_of(value)))
    } else {
        match member(value, "message"@) {
            Some(message) => {
                let content = content_of(message);
                let calls = calls_of(message, stamp_of(value));
                if content.len() == 0 && calls.len() == 0 {
                    None
                } else {
                    Some(
                        StreamEventView::Delta(
                            StreamDeltaView {
                                content: if content.len() == 0 {
                                    None
                                } else {
                                    Some(content)
                                },
                                tool_calls: if calls.len() == 0 {
                                    None
                                } else {
                                    Some(calls)
                                },
                            },
                        ),
                    )
                }
            },
            None => None,
        }
    }
}

/// The event that one line of the answer stands for, or what is wrong with
/// the line if it is not JSON.
pub open spec fn decode(raw: Seq<char>) -> Result<Option<StreamEventView>, Seq<char>> {
    match json_parse(trim(raw)) {
        Some(value) => Ok(decode_value(value)),
        None => Err("JSON parse error: "@ + json_parse_error(trim(raw))),
    }
}

fn text_of(value: &serde_json::Value, key: &str) -> (r: Option<String>)
    ensures
        crate::llm::text_view(r) == text_member(json_value(*value), key@),
{
    match get(value, key) {
        Some(found) => match found.as_str() {
            Some(text) => Some(text.to_owned()),
            None => None,
        },
        None => None,
    }
}

fn count_of(value: &serde_json::Value, key: &str) -> (r: u64)
    ensures
        r == count_member(json_value(*value), key@),
{
    match get(value, key) {
        Some(found) => match found.as_u64() {
            Some(count) => count,
            None => 0,
        },
        None => 0,
    }
}

fn low_32(count: u64) -> (r: u32)
    ensures
        r == low_bits(count),
{
    (count % 0x1_0000_0000) as u32
}

/// Tells why a response ended from the reason that the provider gives.
pub fn finish_reason(reason: &Option<String>) -> (r: FinishReason)
    ensures
        r == finish_reason_of(crate::llm::text_view(*reason)),
{
    match reason {
        None => FinishReason::Stop,
        Some(text) => {
            let text = text.as_str();
            if same_text(text, "stop") {
                FinishReason::Stop
            } else if same_text(text, "length") {
                FinishReason::Length
            } else if same_text(text, "tool_calls") {
                FinishReason::ToolCalls
            } else if same_text(text, "content_filter") {
                FinishReason::ContentFilter
            } else if same_text(text, "error") {
                FinishReason::Error
            } else {
                FinishReason::Other
            }
        },
    }
}

fn set_count(object: &mut serde_json::Value, value: &serde_json::Value, key: &str)
    requires
        json_value(*old(object)) is Object,
    ensures
        json_value(*final(object)) == Json::Object(
            json_value(*old(object))->Object_0.insert(key@, count_json(json_value(*value), key@)),
        ),
{
    set_member(object, key, number(count_of(value, key)));
}

fn metadata_text(value: &serde_json::Value) -> (r: String)
    ensures
        r@ == provider_metadata(json_value(*value)),
{
    let mut object = empty_object();
    set_count(&mut object, value, "total_duration");
    set_count(&mut object, value, "load_duration");
    set_count(&mut object, value, "prompt_eval_duration");
    set_count(&mut object, value, "eval_duration");
    let context = match get(value, "context") {
        Some(context) => duplicate(context),
        None => null(),
    };
    set_member(&mut object, "context", context);
    to_text(&object)
}

fn finish_metadata(value: &serde_json::Value) -> (r: ResponseMetadata)
    ensures
        r@ == finish_of(json_value(*value)),
{
    let input = low_32(count_of(value, "prompt_eval_count"));
    let output = low_32(count_of(value, "eval_count"));
    let reason = text_of(value, "done_reason");
    ResponseMetadata {
        finish_reason: Some(finish_reason(&reason)),
        usage: Some(
            Usage {
                input_tokens: Some(input),
                output_tokens: Some(output),
                total_tokens: Some(input.wrapping_add(output)),
            },
        ),
        provider_id: Some("ollama".to_owned()),
        timestamp: text_of(value, "created_at"),
        provider_metadata_json: Some(metadata_text(value)),
    }
}

fn tool_call(function: &serde_json::Value, stamp: &str, index: usize) -> (r: ToolCall)
    ensures
        r@ == call_of(json_value(*function), stamp@, index as nat),
{
    let mut id = "ollama-".to_owned();
    id.append(stamp);
    id.append("-");
    let digits = decimal_chars(index as u64);
    let digits = string_from_chars(digits.as_slice());
    id.append(digits.as_str());
    let name = match text_of(function, "name") {
        Some(name) => name,
        None => String::new(),
    };
    let arguments_json = match get(function, "arguments") {
        Some(arguments) => to_text(arguments),
        None => "{}".to_owned(),
    };
    ToolCall { id, name, arguments_json }
}

fn tool_calls(items: &Vec<serde_json::Value>, stamp: &str) -> (r: Vec<ToolCall>)
    ensures
        calls_view(r@) == tool_calls_of(json_values(items@), stamp@),
{
    let mut calls: Vec<ToolCall> = Vec::new();
    let mut i: usize = 0;
    let ghost all = json_values(items@);
    assert(all.take(0) =~= Seq::<Json>::empty());
    assert(calls_view(calls@) =~= Seq::<ToolCallView>::empty());
    while i < items.len()
        invariant
            i <= items@.len(),
            all == json_values(items@),
            calls@.len() <= i,
            calls_view(calls@) == tool_calls_of(all.take(i as int), stamp@),
        decreases items@.len() - i,
    {
        proof {
            assert(all.take(i + 1).drop_last() =~= all.take(i as int));
            assert(all.take(i + 1).last() == json_value(items@[i as int]));
        }
        let ghost before = calls@;
        match get(&items[i], "function") {
            Some(function) => {
                let call = tool_call(function, stamp, calls.len());
                calls.push(call);
                assert(calls_view(calls@) =~= calls_view(before).push(call@));
            },
            None => {},
        }
        i += 1;
    }
    assert(all.take(i as int) =~= all);
    calls
}

/// Reads a payload into the event that it stands for.
pub fn decode_payload(value: &serde_json::Value) -> (r: Option<StreamEvent>)
    ensures
        match r {
            Some(event) => decode_value(json_value(*value)) == Some(event@),
            None => decode_value(json_value(*value)) is None,
        },
{
    let done = match get(value, "done") {
        Some(flag) => match flag.as_bool() {
            Some(b) => b,
            None => false,
        },
        None => false,
    };
    if done {
        return Some(StreamEvent::Finish(finish_metadata(value)));
    }
    match get(value, "message") {
        Some(message) => {
            let mut content: Vec<ContentPart> = Vec::new();
            match text_of(message, "content") {
                Some(text) => {
                    if text.as_str().unicode_len() > 0 {
                        content.push(ContentPart::Text(text));
                    }
                },
                None => {},
            }
            assert(parts_view(content@) =~= content_of(json_value(*message)));
            let stamp = match text_of(value, "created_at") {
                Some(stamp) => stamp,
                None => String::new(),
            };
            let calls = match get(message, "tool_calls") {
                Some(list) => match list.as_array() {
                    Some(items) => tool_calls(items, stamp.as_str()),
                    None => Vec::new(),
                },
                None => Vec::new(),
            };
            assert(calls_view(calls@) =~= calls_of(json_value(*message), stamp_of(json_value(*value))));
            if content.len() == 0 && calls.len() == 0 {
                return None;
            }
            Some(
                StreamEvent::Delta(
                    StreamDelta {
                        content: if content.len() == 0 {
                            None
                        } else {
                            Some(content)
                        },
                        tool_calls: if calls.len() == 0 {
                            None
                        } else {
                            Some(calls)
                        },
                    },
                ),
            )
        },
        None => None,
    }
}

/// The live chat stream of the provider: it reads the lines of the answer.
pub struct OllamaChatStream;

impl OllamaChatStream {
    /// A chat stream over a session that was opened.
    pub fn new(stream: EventSource) -> (r: LlmChatStream<OllamaChatStream>)
        ensures
            r@ == (ChatStreamView { stream: Some(stream@), failure: None, finished: false }),
    {
        LlmChatStream::new(OllamaChatStream, stream)
    }

    /// A chat stream for a call that failed before a session was opened.
    pub fn failed(error: Error) -> (r: LlmChatStream<OllamaChatStream>)
        ensures
            r@ == (ChatStreamView { stream: None, failure: Some(error@), finished: false }),
    {
        LlmChatStream::failed(OllamaChatStream, error)
    }
}

impl LlmChatStreamState for OllamaChatStream {
    open spec fn decoded(raw: Seq<char>) -> Result<Option<StreamEventView>, Seq<char>> {
        decode(raw)
    }

    /// Reads one line of the answer into the event that it stands for. A
    /// line that is not JSON is an error, with what is wrong with it.
    fn decode_message(&self, raw: &str) -> (r: Result<Option<StreamEvent>, String>) {
        let line = chars_of(raw);
        let line = trimmed(line.as_slice());
        let line = string_from_chars(line.as_slice());
        match parse(line.as_str()) {
            Ok(value) => Ok(decode_payload(&value)),
            Err(detail) => {
                let mut message = "JSON parse error: ".to_owned();
                message.append(detail.as_str());
                Err(message)
            },
        }
    }
}

/// The provider. It continues an interrupted response with the prompt for a
/// provider that needs none of its own.
pub struct OllamaComponent;

impl ExtendedGuest for OllamaComponent {
    type ChatStream = LlmChatStream<OllamaChatStream>;

    type Config = Config;

    open spec fn prompt(original: Seq<MessageView>, partial: Seq<StreamDeltaView>) -> Seq<
        MessageView,
    > {
        default_prompt(original, partial)
    }

    fn retry_prompt(original_messages: &[Message], partial_result: &[StreamDelta]) -> (r: Vec<
        Message,
    >) {
        retry_prompt(original_messages, partial_result)
    }
}

/// No delta is empty: a delta that a payload stands for has content or tool
/// calls, a content that is there holds a text that is not empty, and tool
/// calls that are there hold a call.
pub proof fn lemma_no_empty_delta(value: Json)
    ensures
        decode_value(value) matches Some(StreamEventView::Delta(delta)) ==> {
            &&& delta.content is Some || delta.tool_calls is Some
            &&& delta.content matches Some(parts) ==> parts.len() == 1 && (parts[0] matches ContentPartView::Text(
                text,
            ) && text.len() > 0)
            &&& delta.tool_calls matches Some(calls) ==> calls.len() > 0
        },
{
}

/// A payload that does not end the response and whose message has an empty
/// text, or none, and no tool call stands for no event.
pub proof fn lemma_empty_message_is_no_event(value: Json)
    requires
        !is_done(value),
        member(value, "message"@) matches Some(message) && (text_member(message, "content"@)
            matches Some(text) ==> text.len() == 0) && calls_of(message, stamp_of(value)).len()
            == 0,
    ensures
        decode_value(value) is None,
{
}

/// The tool calls of one payload have ids that differ from each other.
pub proof fn lemma_call_ids_differ(items: Seq<Json>, stamp: Seq<char>, i: int, j: int)
    requires
        0 <= i < j < tool_calls_of(items, stamp).len(),
    ensures
        tool_calls_of(items, stamp)[i].id != tool_calls_of(items, stamp)[j].id,
{
    lemma_call_ids(items, stamp);
    let a = decimal_text(i as nat);
    let b = decimal_text(j as nat);
    crate::text::lemma_decimal_text_value(i as nat);
    crate::text::lemma_decimal_text_value(j as nat);
    let head = "ollama-"@ + stamp + "-"@;
    if head + a == head + b {
        assert((head + a).skip(head.len() as int) =~= a);
        assert((head + b).skip(head.len() as int) =~= b);
    }
}

/// Each tool call of a payload has the id of its place.
pub proof fn lemma_call_ids(items: Seq<Json>, stamp: Seq<char>)
    ensures
        tool_calls_of(items, stamp).len() <= items.len(),
        forall|k: int|
            0 <= k < tool_calls_of(items, stamp).len() ==> (#[trigger] tool_calls_of(
                items,
                stamp,
            )[k]).id == call_id(stamp, k as nat),
    decreases items.len(),
{
    if items.len() > 0 {
        lemma_call_ids(items.drop_last(), stamp);
    }
}

} // verus!
