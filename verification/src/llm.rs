//! The values of a chat: messages and their parts, tool calls, and the
//! events of a streamed response.

use vstd::prelude::*;

verus! {

/// Who speaks in a message.
#[derive(Debug, Clone, Copy, PartialEq, Eq)]
pub enum Role {
    User,
    Assistant,
    System,
    Tool,
}

/// How closely an image is to be looked at.
#[derive(Debug, Clone, Copy, PartialEq, Eq)]
pub enum ImageDetail {
    Low,
    High,
    Auto,
}

/// An image given by its address.
#[derive(Debug, PartialEq, Eq)]
pub struct ImageUrl {
    pub url: String,
    pub detail: Option<ImageDetail>,
}

/// An image given by its bytes.
#[derive(Debug, PartialEq, Eq)]
pub struct ImageSource {
    pub data: Vec<u8>,
    pub mime_type: String,
    pub detail: Option<ImageDetail>,
}

/// An image, by address or by content.
#[derive(Debug, PartialEq, Eq)]
pub enum ImageReference {
    Url(ImageUrl),
    Inline(ImageSource),
}

/// One part of the content of a message. The order of the parts matters.
#[derive(Debug, PartialEq, Eq)]
pub enum ContentPart {
    Text(String),
    Image(ImageReference),
}

/// One message of a conversation.
#[derive(Debug, PartialEq, Eq)]
pub struct Message {
    pub role: Role,
    pub name: Option<String>,
    pub content: Vec<ContentPart>,
}

/// A call of a tool that the model asks for. The arguments are JSON text as
/// the provider wrote it.
#[derive(Debug, PartialEq, Eq)]
pub struct ToolCall {
    pub id: String,
    pub name: String,
    pub arguments_json: String,
}

/// A piece of a response that is still being streamed.
#[derive(Debug, PartialEq, Eq)]
pub struct StreamDelta {
    pub content: Option<Vec<ContentPart>>,
    pub tool_calls: Option<Vec<ToolCall>>,
}

/// Why a response ended.
#[derive(Debug, Clone, Copy, PartialEq, Eq)]
pub enum FinishReason {
    Stop,
    Length,
    ToolCalls,
    ContentFilter,
    Error,
    Other,
}

/// Token counts of a response.
#[derive(Debug, Clone, Copy, PartialEq, Eq)]
pub struct Usage {
    pub input_tokens: Option<u32>,
    pub output_tokens: Option<u32>,
    pub total_tokens: Option<u32>,
}

/// What is known of a response once it has ended.
#[derive(Debug, PartialEq, Eq)]
pub struct ResponseMetadata {
    pub finish_reason: Option<FinishReason>,
    pub usage: Option<Usage>,
    pub provider_id: Option<String>,
    pub timestamp: Option<String>,
    pub provider_metadata_json: Option<String>,
}

/// The kind of an error, for programs to tell errors apart.
#[derive(Debug, Clone, Copy, PartialEq, Eq)]
pub enum ErrorCode {
    InvalidRequest,
    AuthenticationFailed,
    RateLimitExceeded,
    InternalError,
    Unsupported,
    Unknown,
}

/// An error of a chat: its kind, what went wrong in words, and what the
/// provider sent, where it sent something.
#[derive(Debug, PartialEq, Eq)]
pub struct Error {
    pub code: ErrorCode,
    pub message: String,
    pub provider_error_json: Option<String>,
}

/// One event of a streamed response.
#[derive(Debug, PartialEq, Eq)]
pub enum StreamEvent {
    Delta(StreamDelta),
    Finish(ResponseMetadata),
    Error(Error),
}

/// A tool that the model may call.
#[derive(Debug, PartialEq, Eq)]
pub struct ToolDefinition {
    pub name: String,
    pub description: Option<String>,
    /// The JSON schema of the parameters, as text.
    pub parameters_schema: String,
}

/// The call of a tool that went well.
#[derive(Debug, PartialEq, Eq)]
pub struct ToolSuccess {
    pub id: String,
    pub name: String,
    pub result_json: String,
    pub execution_time_ms: Option<u32>,
}

/// The call of a tool that failed.
#[derive(Debug, PartialEq, Eq)]
pub struct ToolFailure {
    pub id: String,
    pub name: String,
    pub error_message: String,
    pub error_code: Option<String>,
}

/// What the call of a tool came to.
#[derive(Debug, PartialEq, Eq)]
pub enum ToolResult {
    Success(ToolSuccess),
    Error(ToolFailure),
}

/// A setting of a provider, by name.
#[derive(Debug, PartialEq, Eq)]
pub struct Kv {
    pub key: String,
    pub value: String,
}

/// The settings of a call.
#[derive(Debug, PartialEq, Eq)]
pub struct Config {
    pub model: String,
    /// The sampling temperature, as the 32 bits of its binary format.
    pub temperature: Option<u32>,
    pub max_tokens: Option<u32>,
    pub stop_sequences: Option<Vec<String>>,
    pub tools: Vec<ToolDefinition>,
    pub tool_choice: Option<String>,
    pub provider_options: Vec<Kv>,
}

/// A response that was received whole.
#[derive(Debug, PartialEq, Eq)]
pub struct CompleteResponse {
    pub id: String,
    pub content: Vec<ContentPart>,
    pub tool_calls: Vec<ToolCall>,
    pub metadata: ResponseMetadata,
}

/// What a call that does not stream comes to.
#[derive(Debug, PartialEq, Eq)]
pub enum ChatEvent {
    Message(CompleteResponse),
    ToolRequest(Vec<ToolCall>),
    Error(Error),
}

/// The mathematical value of an optional string.
pub open spec fn text_view(text: Option<String>) -> Option<Seq<char>> {
    match text {
        Some(t) => Some(t@),
        None => None,
    }
}

/// The mathematical value of an [`ImageReference`].
pub enum ImageReferenceView {
    Url { url: Seq<char>, detail: Option<ImageDetail> },
    Inline { data: Seq<u8>, mime_type: Seq<char>, detail: Option<ImageDetail> },
}

impl View for ImageReference {
    type V = ImageReferenceView;

    open spec fn view(&self) -> ImageReferenceView {
        match self {
            ImageReference::Url(image) => ImageReferenceView::Url {
                url: image.url@,
                detail: image.detail,
            },
            ImageReference::Inline(image) => ImageReferenceView::Inline {
                data: image.data@,
                mime_type: image.mime_type@,
                detail: image.detail,
            },
        }
    }
}

/// The mathematical value of a [`ContentPart`].
pub enum ContentPartView {
    Text(Seq<char>),
    Image(ImageReferenceView),
}

impl View for ContentPart {
    type V = ContentPartView;

    open spec fn view(&self) -> ContentPartView {
        match self {
            ContentPart::Text(text) => ContentPartView::Text(text@),
            ContentPart::Image(image) => ContentPartView::Image(image@),
        }
    }
}

/// The values of a sequence of parts.
pub open spec fn parts_view(parts: Seq<ContentPart>) -> Seq<ContentPartView> {
    parts.map_values(|p: ContentPart| p@)
}

/// The mathematical value of a [`Message`].
pub struct MessageView {
    pub role: Role,
    pub name: Option<Seq<char>>,
    pub content: Seq<ContentPartView>,
}

impl View for Message {
    type V = MessageView;

    open spec fn view(&self) -> MessageView {
        MessageView {
            role: self.role,
            name: text_view(self.name),
            content: parts_view(self.content@),
        }
    }
}

/// The values of a sequence of messages.
pub open spec fn messages_view(messages: Seq<Message>) -> Seq<MessageView> {
    messages.map_values(|m: Message| m@)
}

/// The mathematical value of a [`ToolCall`].
pub struct ToolCallView {
    pub id: Seq<char>,
    pub name: Seq<char>,
    pub arguments_json: Seq<char>,
}

impl View for ToolCall {
    type V = ToolCallView;

    open spec fn view(&self) -> ToolCallView {
        ToolCallView { id: self.id@, name: self.name@, arguments_json: self.arguments_json@ }
    }
}

/// The values of a sequence of tool calls.
pub open spec fn calls_view(calls: Seq<ToolCall>) -> Seq<ToolCallView> {
    calls.map_values(|c: ToolCall| c@)
}

/// The mathematical value of a [`StreamDelta`].
pub struct StreamDeltaView {
    pub content: Option<Seq<ContentPartView>>,
    pub tool_calls: Option<Seq<ToolCallView>>,
}

impl View for StreamDelta {
    type V = StreamDeltaView;

    open spec fn view(&self) -> StreamDeltaView {
        StreamDeltaView {
            content: match self.content {
                Some(parts) => Some(parts_view(parts@)),
                None => None,
            },
            tool_calls: match self.tool_calls {
                Some(calls) => Some(calls_view(calls@)),
                None => None,
            },
        }
    }
}

/// The values of a sequence of deltas.
pub open spec fn deltas_view(deltas: Seq<StreamDelta>) -> Seq<StreamDeltaView> {
    deltas.map_values(|d: StreamDelta| d@)
}

/// The mathematical value of a [`ResponseMetadata`].
pub struct ResponseMetadataView {
    pub finish_reason: Option<FinishReason>,
    pub usage: Option<Usage>,
    pub provider_id: Option<Seq<char>>,
    pub timestamp: Option<Seq<char>>,
    pub provider_metadata_json: Option<Seq<char>>,
}

impl View for ResponseMetadata {
    type V = ResponseMetadataView;

    open spec fn view(&self) -> ResponseMetadataView {
        ResponseMetadataView {
            finish_reason: self.finish_reason,
            usage: self.usage,
            provider_id: text_view(self.provider_id),
            timestamp: text_view(self.timestamp),
            provider_metadata_json: text_view(self.provider_metadata_json),
        }
    }
}

/// The mathematical value of an [`Error`].
pub struct ErrorView {
    pub code: ErrorCode,
    pub message: Seq<char>,
    pub provider_error_json: Option<Seq<char>>,
}

impl View for Error {
    type V = ErrorView;

    open spec fn view(&self) -> ErrorView {
        ErrorView {
            code: self.code,
            message: self.message@,
            provider_error_json: text_view(self.provider_error_json),
        }
    }
}

/// The mathematical value of a [`CompleteResponse`].
pub struct CompleteResponseView {
    pub id: Seq<char>,
    pub content: Seq<ContentPartView>,
    pub tool_calls: Seq<ToolCallView>,
    pub metadata: ResponseMetadataView,
}

impl View for CompleteResponse {
    type V = CompleteResponseView;

    open spec fn view(&self) -> CompleteResponseView {
        CompleteResponseView {
            id: self.id@,
            content: parts_view(self.content@),
            tool_calls: calls_view(self.tool_calls@),
            metadata: self.metadata@,
        }
    }
}

/// The mathematical value of a [`ChatEvent`].
pub enum ChatEventView {
    Message(CompleteResponseView),
    ToolRequest(Seq<ToolCallView>),
    Error(ErrorView),
}

impl View for ChatEvent {
    type V = ChatEventView;

    open spec fn view(&self) -> ChatEventView {
        match self {
            ChatEvent::Message(response) => ChatEventView::Message(response@),
            ChatEvent::ToolRequest(calls) => ChatEventView::ToolRequest(calls_view(calls@)),
            ChatEvent::Error(error) => ChatEventView::Error(error@),
        }
    }
}

/// The mathematical value of a [`StreamEvent`].
pub enum StreamEventView {
    Delta(StreamDeltaView),
    Finish(ResponseMetadataView),
    Error(ErrorView),
}

impl View for StreamEvent {
    type V = StreamEventView;

    open spec fn view(&self) -> StreamEventView {
        match self {
            StreamEvent::Delta(delta) => StreamEventView::Delta(delta@),
            StreamEvent::Finish(metadata) => StreamEventView::Finish(metadata@),
            StreamEvent::Error(error) => StreamEventView::Error(error@),
        }
    }
}

/// The values of a sequence of events.
pub open spec fn events_view(events: Seq<StreamEvent>) -> Seq<StreamEventView> {
    events.map_values(|e: StreamEvent| e@)
}

fn clone_text(text: &Option<String>) -> (r: Option<String>)
    ensures
        text_view(r) == text_view(*text),
{
    match text {
        Some(t) => Some(t.clone()),
        None => None,
    }
}

impl Clone for ImageReference {
    fn clone(&self) -> (r: ImageReference)
        ensures
            r@ == self@,
    {
        match self {
            ImageReference::Url(image) => ImageReference::Url(
                ImageUrl { url: image.url.clone(), detail: image.detail },
            ),
            ImageReference::Inline(image) => ImageReference::Inline(
                ImageSource {
                    data: image.data.clone(),
                    mime_type: image.mime_type.clone(),
                    detail: image.detail,
                },
            ),
        }
    }
}

impl Clone for ContentPart {
    fn clone(&self) -> (r: ContentPart)
        ensures
            r@ == self@,
    {
        match self {
            ContentPart::Text(text) => ContentPart::Text(text.clone()),
            ContentPart::Image(image) => ContentPart::Image(image.clone()),
        }
    }
}

/// Copies a sequence of parts.
pub fn clone_parts(parts: &[ContentPart]) -> (r: Vec<ContentPart>)
    ensures
        parts_view(r@) == parts_view(parts@),
{
    let mut out: Vec<ContentPart> = Vec::new();
    let mut i: usize = 0;
    while i < parts.len()
        invariant
            i <= parts@.len(),
            out@.len() == i,
            forall|j: int| 0 <= j < i ==> out@[j]@ == parts@[j]@,
        decreases parts@.len() - i,
    {
        out.push(parts[i].clone());
        i += 1;
    }
    assert(parts_view(out@) =~= parts_view(parts@));
    out
}

impl Clone for Message {
    fn clone(&self) -> (r: Message)
        ensures
            r@ == self@,
    {
        Message {
            role: self.role,
            name: clone_text(&self.name),
            content: clone_parts(self.content.as_slice()),
        }
    }
}

impl Clone for ToolCall {
    fn clone(&self) -> (r: ToolCall)
        ensures
            r@ == self@,
    {
        ToolCall {
            id: self.id.clone(),
            name: self.name.clone(),
            arguments_json: self.arguments_json.clone(),
        }
    }
}

/// Copies a sequence of tool calls.
pub fn clone_calls(calls: &[ToolCall]) -> (r: Vec<ToolCall>)
    ensures
        calls_view(r@) == calls_view(calls@),
{
    let mut out: Vec<ToolCall> = Vec::new();
    let mut i: usize = 0;
    while i < calls.len()
        invariant
            i <= calls@.len(),
            out@.len() == i,
            forall|j: int| 0 <= j < i ==> out@[j]@ == calls@[j]@,
        decreases calls@.len() - i,
    {
        out.push(calls[i].clone());
        i += 1;
    }
    assert(calls_view(out@) =~= calls_view(calls@));
    out
}

impl Clone for StreamDelta {
    fn clone(&self) -> (r: StreamDelta)
        ensures
            r@ == self@,
    {
        StreamDelta {
            content: match &self.content {
                Some(parts) => Some(clone_parts(parts.as_slice())),
                None => None,
            },
            tool_calls: match &self.tool_calls {
                Some(calls) => Some(clone_calls(calls.as_slice())),
                None => None,
            },
        }
    }
}

impl Clone for ResponseMetadata {
    fn clone(&self) -> (r: ResponseMetadata)
        ensures
            r@ == self@,
    {
        ResponseMetadata {
            finish_reason: self.finish_reason,
            usage: self.usage,
            provider_id: clone_text(&self.provider_id),
            timestamp: clone_text(&self.timestamp),
            provider_metadata_json: clone_text(&self.provider_metadata_json),
        }
    }
}

impl Clone for Error {
    fn clone(&self) -> (r: Error)
        ensures
            r@ == self@,
    {
        Error {
            code: self.code,
            message: self.message.clone(),
            provider_error_json: clone_text(&self.provider_error_json),
        }
    }
}

impl Clone for StreamEvent {
    fn clone(&self) -> (r: StreamEvent)
        ensures
            r@ == self@,
    {
        match self {
            StreamEvent::Delta(delta) => StreamEvent::Delta(delta.clone()),
            StreamEvent::Finish(metadata) => StreamEvent::Finish(metadata.clone()),
            StreamEvent::Error(error) => StreamEvent::Error(error.clone()),
        }
    }
}

/// Copies a sequence of messages.
pub fn clone_messages(messages: &[Message]) -> (r: Vec<Message>)
    ensures
        messages_view(r@) == messages_view(messages@),
{
    let mut out: Vec<Message> = Vec::new();
    let mut i: usize = 0;
    while i < messages.len()
        invariant
            i <= messages@.len(),
            out@.len() == i,
            forall|j: int| 0 <= j < i ==> out@[j]@ == messages@[j]@,
        decreases messages@.len() - i,
    {
        out.push(messages[i].clone());
        i += 1;
    }
    assert(messages_view(out@) =~= messages_view(messages@));
    out
}

} // verus!
