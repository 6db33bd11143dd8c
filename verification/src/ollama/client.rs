//! The values of the Ollama chat API, and what is decided of a request
//! before it is sent and of an answer after it was received.

use crate::chat_stream::{code_of_status, error_code_from_status};
use crate::json::{json_value, Json};
use crate::llm::{text_view, Error, ErrorView};
use vstd::prelude::*;

verus! {

/// Who speaks in a message of the API.
#[derive(Debug, Clone, Copy, PartialEq, Eq)]
pub enum MessageRole {
    User,
    Assistant,
    System,
    Tool,
}

/// The options of a model. The options that are whole numbers or flags are
/// held as such. An option that is a number with a fraction is held as the
/// text that was given for it, and is read as a number where the request is
/// written; the temperature is held as the 32 bits of its binary format.
#[derive(Debug, PartialEq, Eq)]
pub struct OllamaModelOptions {
    pub num_keep: Option<i32>,
    pub seed: Option<i32>,
    pub num_predict: Option<i32>,
    pub top_k: Option<i32>,
    pub top_p: Option<String>,
    pub min_p: Option<String>,
    pub typical_p: Option<String>,
    pub repeat_last_n: Option<i32>,
    pub temperature: Option<u32>,
    pub repeat_penalty: Option<String>,
    pub presence_penalty: Option<String>,
    pub frequency_penalty: Option<String>,
    pub mirostat: Option<i32>,
    pub mirostat_tau: Option<String>,
    pub mirostat_eta: Option<String>,
    pub penalize_newline: Option<bool>,
    pub stop: Option<Vec<String>>,
    pub numa: Option<bool>,
    pub num_ctx: Option<i32>,
    pub num_batch: Option<i32>,
    pub num_gpu: Option<i32>,
    pub main_gpu: Option<i32>,
    pub use_mmap: Option<bool>,
    pub num_thread: Option<i32>,
}

/// A function that the model may call.
#[derive(Debug, PartialEq, Eq)]
pub struct FunctionTool {
    pub name: String,
    pub description: String,
    pub parameters: serde_json::Value,
}

/// A tool that the model may call.
#[derive(Debug, PartialEq, Eq)]
pub struct Tool {
    pub tool_type: String,
    pub function: FunctionTool,
}

/// One message of a request.
#[derive(Debug, PartialEq, Eq)]
pub struct MessageRequest {
    pub role: MessageRole,
    pub content: String,
    pub images: Option<Vec<String>>,
    pub tools_calls: Option<Vec<Tool>>,
}

/// A request to the chat endpoint.
#[derive(Debug, PartialEq, Eq)]
pub struct CompletionsRequest {
    /// The model; without one the default model is used.
    pub model: Option<String>,
    pub messages: Option<Vec<MessageRequest>>,
    pub tools: Option<Vec<Tool>>,
    pub format: Option<String>,
    pub options: Option<OllamaModelOptions>,
    /// Whether the answer is streamed.
    pub stream: Option<bool>,
    pub keep_alive: Option<String>,
}

/// The function of a tool call in an answer.
#[derive(Debug, PartialEq, Eq)]
pub struct Function {
    pub name: String,
    pub arguments: serde_json::Value,
}

/// A tool call in an answer.
#[derive(Debug, PartialEq, Eq)]
pub struct ToolCall {
    pub name: Option<String>,
    pub function: Option<Function>,
}

/// The message of an answer.
#[derive(Debug, PartialEq, Eq)]
pub struct MessageResponse {
    pub role: MessageRole,
    pub content: Option<String>,
    pub images: Option<Vec<String>>,
    pub tool_calls: Option<Vec<ToolCall>>,
}

/// An answer of the chat endpoint that was received whole.
#[derive(Debug, PartialEq, Eq)]
pub struct CompletionsResponse {
    pub model: String,
    pub created_at: String,
    pub message: Option<MessageResponse>,
    pub done: Option<bool>,
    pub done_reason: Option<String>,
    pub total_duration: Option<i64>,
    pub load_duration: Option<i64>,
    pub prompt_eval_count: Option<i64>,
    pub prompt_eval_duration: Option<i64>,
    pub eval_count: Option<i64>,
    pub eval_duration: Option<i64>,
}

/// The body of an answer that reports an error.
#[derive(Debug, PartialEq, Eq)]
pub struct OllamaRequestError {
    status_code: i32,
    status: Option<String>,
    error_message: Option<String>,
}

/// The mathematical value of a [`FunctionTool`].
pub struct FunctionToolView {
    pub name: Seq<char>,
    pub description: Seq<char>,
    pub parameters: Json,
}

/// The mathematical value of a [`Tool`].
pub struct ToolView {
    pub tool_type: Seq<char>,
    pub function: FunctionToolView,
}

impl View for Tool {
    type V = ToolView;

    open spec fn view(&self) -> ToolView {
        ToolView {
            tool_type: self.tool_type@,
            function: FunctionToolView {
                name: self.function.name@,
                description: self.function.description@,
                parameters: json_value(self.function.parameters),
            },
        }
    }
}

/// The values of a sequence of tools.
pub open spec fn tools_view(tools: Seq<Tool>) -> Seq<ToolView> {
    tools.map_values(|t: Tool| t@)
}

/// The values of a sequence of strings.
pub open spec fn strings_view(strings: Seq<String>) -> Seq<Seq<char>> {
    strings.map_values(|s: String| s@)
}

/// The mathematical value of a [`MessageRequest`].
pub struct MessageRequestView {
    pub role: MessageRole,
    pub content: Seq<char>,
    pub images: Option<Seq<Seq<char>>>,
    pub tools_calls: Option<Seq<ToolView>>,
}

impl View for MessageRequest {
    type V = MessageRequestView;

    open spec fn view(&self) -> MessageRequestView {
        MessageRequestView {
            role: self.role,
            content: self.content@,
            images: match self.images {
                Some(images) => Some(strings_view(images@)),
                None => None,
            },
            tools_calls: match self.tools_calls {
                Some(tools) => Some(tools_view(tools@)),
                None => None,
            },
        }
    }
}

/// The values of a sequence of messages of a request.
pub open spec fn requests_view(messages: Seq<MessageRequest>) -> Seq<MessageRequestView> {
    messages.map_values(|m: MessageRequest| m@)
}

/// Makes a request ready to be sent: it says whether the answer is to be
/// streamed, and names the default model if it names none.
pub fn prepare_request(params: CompletionsRequest, default_model: &str, stream: bool) -> (r:
    CompletionsRequest)
    ensures
        r.stream == Some(stream),
        text_view(r.model) == match params.model {
            Some(model) => Some(model@),
            None => Some(default_model@),
        },
        r.messages == params.messages,
        r.tools == params.tools,
        r.format == params.format,
        r.options == params.options,
        r.keep_alive == params.keep_alive,
{
    let mut modified = params;
    modified.stream = Some(stream);
    if modified.model.is_none() {
        modified.model = Some(default_model.to_owned());
    }
    modified
}

impl OllamaRequestError {
    /// The body of an answer that reports an error.
    pub fn new(status_code: i32, status: Option<String>, error_message: Option<String>) -> (r:
        OllamaRequestError)
        ensures
            r.status_code() == status_code,
            r.status() == status,
            r.error_message() == error_message,
    {
        OllamaRequestError { status_code, status, error_message }
    }

    /// The status code that the body gives.
    pub closed spec fn status_code(&self) -> i32 {
        self.status_code
    }

    /// The status text that the body gives.
    pub closed spec fn status(&self) -> Option<String> {
        self.status
    }

    /// The error message that the body gives.
    pub closed spec fn error_message(&self) -> Option<String> {
        self.error_message
    }

    /// The error of a chat for an answer with the given status that reports
    /// an error: its kind is told from the status, its message is the status
    /// text of the body, empty where the body has none, and it carries the
    /// error message of the body.
    pub fn into_error(self, status: u16) -> (r: Error)
        ensures
            r@ == (ErrorView {
                code: code_of_status(status),
                message: match self.status() {
                    Some(text) => text@,
                    None => Seq::<char>::empty(),
                },
                provider_error_json: text_view(self.error_message()),
            }),
    {
        Error {
            code: error_code_from_status(status),
            message: match self.status {
                Some(text) => text,
                None => String::new(),
            },
            provider_error_json: self.error_message,
        }
    }
}

} // verus!
