//! From the values of a chat to those of the Ollama chat API, and back.

use crate::json::{
    empty_object, json_parse, json_parse_error, json_text, json_value, parse, to_text, Json,
};
use crate::llm::{
    calls_view, messages_view, parts_view, text_view, ChatEvent, ChatEventView, CompleteResponse,
    CompleteResponseView, Config, ContentPart, ContentPartView, Error, ErrorCode, ErrorView,
    FinishReason, ImageReference, ImageReferenceView, Kv, Message, MessageView, ResponseMetadata,
    ResponseMetadataView, Role, ToolCallView, ToolDefinition, ToolResult, Usage,
};
use crate::ollama::client::{
    requests_view, strings_view, tools_view, CompletionsRequest, CompletionsResponse,
    FunctionTool, FunctionToolView, MessageRequest, MessageRequestView, MessageRole,
    OllamaModelOptions, Tool, ToolView,
};
use crate::text::{
    all_digits, chars_of, decimal_value, parse_u64, same_text, signed_decimal_chars,
    signed_decimal_text, string_from_chars,
};
use base64::Engine;
use vstd::prelude::*;
use vstd::slice::slice_subrange;
use vstd::string::StringExecFns;

verus! {

/// The value given for an option: that of the last setting with that name.
pub open spec fn option_value(options: Seq<Kv>, key: Seq<char>) -> Option<Seq<char>>
    decreases options.len(),
{
    if options.len() == 0 {
        None
    } else if options.last().key@ == key {
        Some(options.last().value@)
    } else {
        option_value(options.drop_last(), key)
    }
}

/// Looks up the value given for an option.
pub fn lookup<'a>(options: &'a [Kv], key: &str) -> (r: Option<&'a String>)
    ensures
        match r {
            Some(value) => option_value(options@, key@) == Some(value@),
            None => option_value(options@, key@) is None,
        },
{
    let mut i: usize = options.len();
    assert(options@.take(i as int) =~= options@);
    while i > 0
        invariant
            i <= options@.len(),
            option_value(options@, key@) == option_value(options@.take(i as int), key@),
        decreases i,
    {
        proof {
            assert(options@.take(i as int).drop_last() =~= options@.take(i - 1));
            assert(options@.take(i as int).last() == options@[i - 1]);
        }
        if same_text(options[i - 1].key.as_str(), key) {
            return Some(&options[i - 1].value);
        }
        i -= 1;
    }
    None
}

/// A whole number as text: digits, with or without a sign before them, that
/// write a number that fits in 32 bits.
pub open spec fn parse_i32(text: Seq<char>) -> Option<i32> {
    let negative = text.len() > 0 && text[0] == '-';
    let digits = if text.len() > 0 && (text[0] == '-' || text[0] == '+') {
        text.skip(1)
    } else {
        text
    };
    if digits.len() == 0 || !all_digits(digits) {
        None
    } else if negative {
        if decimal_value(digits) <= 0x8000_0000 {
            Some((-(decimal_value(digits) as int)) as i32)
        } else {
            None
        }
    } else {
        if decimal_value(digits) <= 0x7fff_ffff {
            Some(decimal_value(digits) as i32)
        } else {
            None
        }
    }
}

/// A flag as text: `true` or `false`.
pub open spec fn parse_bool(text: Seq<char>) -> Option<bool> {
    if text == "true"@ {
        Some(true)
    } else if text == "false"@ {
        Some(false)
    } else {
        None
    }
}

/// A value that can be read from the text of an option.
pub trait FromText: Sized {
    /// The value that a text writes, if it writes one.
    spec fn parsed(text: Seq<char>) -> Option<Self>;

    /// Reads the value that a text writes.
    fn from_text(text: &str) -> (r: Option<Self>)
        ensures
            r == Self::parsed(text@),
    ;
}

impl FromText for i32 {
    open spec fn parsed(text: Seq<char>) -> Option<i32> {
        parse_i32(text)
    }

    fn from_text(text: &str) -> (r: Option<i32>) {
        let chars = chars_of(text);
        let n = chars.len();
        let negative = n > 0 && chars[0] == '-';
        let start: usize = if n > 0 && (chars[0] == '-' || chars[0] == '+') {
            1
        } else {
            0
        };
        let digits = slice_subrange(chars.as_slice(), start, n);
        assert(digits@ =~= if start == 1 {
            chars@.skip(1)
        } else {
            chars@
        });
        match parse_u64(digits) {
            Some(value) => {
                if negative {
                    if value <= 0x8000_0000 {
                        let r: i64 = -(value as i64);
                        Some(r as i32)
                    } else {
                        None
                    }
                } else if value <= 0x7fff_ffff {
                    Some(value as i32)
                } else {
                    None
                }
            },
            None => None,
        }
    }
}

impl FromText for bool {
    open spec fn parsed(text: Seq<char>) -> Option<bool> {
        parse_bool(text)
    }

    fn from_text(text: &str) -> (r: Option<bool>) {
        if same_text(text, "true") {
            Some(true)
        } else if same_text(text, "false") {
            Some(false)
        } else {
            None
        }
    }
}

/// Reads the value of an option: `None` where the option is not given or
/// its text writes no value.
pub fn parse_option<T: FromText>(options: &[Kv], key: &str) -> (r: Option<T>)
    ensures
        r == match option_value(options@, key@) {
            Some(text) => T::parsed(text),
            None => None,
        },
{
    match lookup(options, key) {
        Some(value) => T::from_text(value.as_str()),
        None => None,
    }
}

/// The text given for an option.
pub fn text_option(options: &[Kv], key: &str) -> (r: Option<String>)
    ensures
        text_view(r) == option_value(options@, key@),
{
    match lookup(options, key) {
        Some(value) => Some(value.clone()),
        None => None,
    }
}

/// The text that writes bytes in base64, with the standard alphabet and
/// padding, as the `base64` crate writes it.
pub uninterp spec fn base64_text(data: Seq<u8>) -> Seq<char>;

/// The length of the base64 text of the bytes fits in the machine's word.
pub open spec fn encodable(data: Seq<u8>) -> bool {
    data.len() / 3 * 4 + 4 <= usize::MAX
}

/// `Engine::encode` of `base64::engine::general_purpose::STANDARD`: the
/// bytes written in base64.
#[verifier::external_body]
fn base64_encode(data: &[u8]) -> (r: String)
    requires
        encodable(data@),
    ensures
        r@ == base64_text(data@),
{
    base64::engine::general_purpose::STANDARD.encode(data)
}

/// The role of the API for a role of a chat. What a tool gave counts as
/// said by the user.
pub open spec fn role_of(role: Role) -> MessageRole {
    match role {
        Role::Assistant => MessageRole::Assistant,
        Role::System => MessageRole::System,
        Role::User => MessageRole::User,
        Role::Tool => MessageRole::User,
    }
}

/// The texts among the parts, one per line.
pub open spec fn joined_text(parts: Seq<ContentPartView>) -> Seq<char>
    decreases parts.len(),
{
    if parts.len() == 0 {
        seq![]
    } else {
        let before = joined_text(parts.drop_last());
        match parts.last() {
            ContentPartView::Text(text) => if before.len() > 0 {
                before + seq!['\n'] + text
            } else {
                text
            },
            ContentPartView::Image(_) => before,
        }
    }
}

/// The number of images among the parts that are given by an address.
pub open spec fn url_count(parts: Seq<ContentPartView>) -> nat
    decreases parts.len(),
{
    if parts.len() == 0 {
        0
    } else {
        url_count(parts.drop_last()) + match parts.last() {
            ContentPartView::Image(ImageReferenceView::Url { .. }) => 1nat,
            _ => 0nat,
        }
    }
}

/// The addresses of the images among the parts, in their order.
pub open spec fn part_urls(parts: Seq<ContentPartView>) -> Seq<Seq<char>>
    decreases parts.len(),
{
    if parts.len() == 0 {
        seq![]
    } else {
        let before = part_urls(parts.drop_last());
        match parts.last() {
            ContentPartView::Image(ImageReferenceView::Url { url, .. }) => before.push(url),
            _ => before,
        }
    }
}

/// The addresses of the images of the messages, in their order.
pub open spec fn message_urls(messages: Seq<MessageView>) -> Seq<Seq<char>>
    decreases messages.len(),
{
    if messages.len() == 0 {
        seq![]
    } else {
        message_urls(messages.drop_last()) + part_urls(messages.last().content)
    }
}

/// What was fetched for the image at a place among the addresses: its
/// bytes, or `None` where it could not be fetched or where nothing was
/// handed over for that place.
pub open spec fn fetched_at(fetched: Seq<Option<Vec<u8>>>, at: nat) -> Option<Seq<u8>> {
    if at < fetched.len() {
        match fetched[at as int] {
            Some(data) => Some(data@),
            None => None,
        }
    } else {
        None
    }
}

/// Every image that was fetched can be encoded.
pub open spec fn fetched_encodable(fetched: Seq<Option<Vec<u8>>>) -> bool {
    forall|i: int|
        0 <= i < fetched.len() ==> ((#[trigger] fetched[i]) matches Some(data) ==> encodable(
            data@,
        ))
}

/// The images of the parts in base64: an image given by its bytes is
/// encoded; for an image given by an address, what was fetched for it is
/// encoded, and the image is left out where nothing was. `base` is the place
/// of the first address of these parts among all addresses.
pub open spec fn images_of(parts: Seq<ContentPartView>, fetched: Seq<Option<Vec<u8>>>, base: nat)
    -> Seq<Seq<char>>
    decreases parts.len(),
{
    if parts.len() == 0 {
        seq![]
    } else {
        let before = images_of(parts.drop_last(), fetched, base);
        match parts.last() {
            ContentPartView::Image(ImageReferenceView::Url { .. }) => match fetched_at(
                fetched,
                base + url_count(parts.drop_last()),
            ) {
                Some(data) => before.push(base64_text(data)),
                None => before,
            },
            ContentPartView::Image(ImageReferenceView::Inline { data, .. }) => before.push(
                base64_text(data),
            ),
            ContentPartView::Text(_) => before,
        }
    }
}

/// The message of a request for a message of a chat.
pub open spec fn message_request(message: MessageView, fetched: Seq<Option<Vec<u8>>>, base: nat)
    -> MessageRequestView {
    let images = images_of(message.content, fetched, base);
    MessageRequestView {
        role: role_of(message.role),
        content: joined_text(message.content),
        images: if images.len() == 0 {
            None
        } else {
            Some(images)
        },
        tools_calls: None,
    }
}

/// The number of images of the messages that are given by an address.
pub open spec fn urls_in(messages: Seq<MessageView>) -> nat
    decreases messages.len(),
{
    if messages.len() == 0 {
        0
    } else {
        urls_in(messages.drop_last()) + url_count(messages.last().content)
    }
}

/// The messages of a request for the messages of a chat.
pub open spec fn message_requests(messages: Seq<MessageView>, fetched: Seq<Option<Vec<u8>>>) -> Seq<
    MessageRequestView,
>
    decreases messages.len(),
{
    if messages.len() == 0 {
        seq![]
    } else {
        message_requests(messages.drop_last(), fetched).push(
            message_request(messages.last(), fetched, urls_in(messages.drop_last())),
        )
    }
}

/// Every image of the parts that is given by its bytes can be encoded.
pub open spec fn parts_encodable(parts: Seq<ContentPartView>) -> bool {
    forall|i: int|
        0 <= i < parts.len() ==> (#[trigger] parts[i] matches ContentPartView::Image(
            ImageReferenceView::Inline { data, .. },
        ) ==> encodable(data))
}

/// Every image of the messages that is given by its bytes can be encoded.
pub open spec fn messages_encodable(messages: Seq<MessageView>) -> bool {
    forall|i: int| 0 <= i < messages.len() ==> parts_encodable((#[trigger] messages[i]).content)
}

fn role_for(role: Role) -> (r: MessageRole)
    ensures
        r == role_of(role),
{
    match role {
        Role::Assistant => MessageRole::Assistant,
        Role::System => MessageRole::System,
        Role::User => MessageRole::User,
        Role::Tool => MessageRole::User,
    }
}

/// The smaller of a count and the number of fetched images: beyond that
/// number every place is empty.
pub open spec fn capped(count: nat, fetched: Seq<Option<Vec<u8>>>) -> nat {
    if count < fetched.len() {
        count
    } else {
        fetched.len()
    }
}

/// Converts one message. `base` is the place of its first address among all
/// addresses, capped at the number of fetched images; the place after its
/// last address is returned with the message.
fn convert_message(message: &Message, fetched: &[Option<Vec<u8>>], base: usize, Ghost(at): Ghost<
    nat,
>) -> (r: (MessageRequest, usize))
    requires
        base == capped(at, fetched@),
        parts_encodable(message@.content),
        fetched_encodable(fetched@),
    ensures
        r.0@ == message_request(message@, fetched@, at),
        r.1 == capped(at + url_count(message@.content), fetched@),
{
    let mut content = String::new();
    let mut images: Vec<String> = Vec::new();
    let mut next: usize = base;
    let mut i: usize = 0;
    let ghost parts = message@.content;
    assert(parts.take(0) =~= Seq::<ContentPartView>::empty());
    assert(strings_view(images@) =~= Seq::<Seq<char>>::empty());
    while i < message.content.len()
        invariant
            i <= message.content@.len(),
            parts == parts_view(message.content@),
            parts_encodable(parts),
            fetched_encodable(fetched@),
            content@ == joined_text(parts.take(i as int)),
            strings_view(images@) == images_of(parts.take(i as int), fetched@, at),
            next == capped(at + url_count(parts.take(i as int)), fetched@),
        decreases message.content@.len() - i,
    {
        proof {
            assert(parts.take(i + 1).drop_last() =~= parts.take(i as int));
            assert(parts.take(i + 1).last() == message.content@[i as int]@);
            assert(parts[i as int] == message.content@[i as int]@);
        }
        let ghost so_far = images@;
        match &message.content[i] {
            ContentPart::Text(text) => {
                if content.as_str().unicode_len() > 0 {
                    content.append("\n");
                    proof {
                        reveal_strlit("\n");
                        assert("\n"@ =~= seq!['\n']);
                    }
                }
                content.append(text.as_str());
                assert(content@ =~= joined_text(parts.take(i + 1)));
            },
            ContentPart::Image(ImageReference::Url(_)) => {
                if next < fetched.len() {
                    match &fetched[next] {
                        Some(data) => {
                            let image = base64_encode(data.as_slice());
                            images.push(image);
                            assert(strings_view(images@) =~= strings_view(so_far).push(image@));
                        },
                        None => {},
                    }
                    next = next + 1;
                }
            },
            ContentPart::Image(ImageReference::Inline(source)) => {
                let image = base64_encode(source.data.as_slice());
                images.push(image);
                assert(strings_view(images@) =~= strings_view(so_far).push(image@));
            },
        }
        i += 1;
    }
    assert(parts.take(i as int) =~= parts);
    let request = MessageRequest {
        role: role_for(message.role),
        content,
        images: if images.len() == 0 {
            None
        } else {
            Some(images)
        },
        tools_calls: None,
    };
    (request, next)
}

/// Converts the messages of a chat into the messages of a request.
/// `fetched` holds, for each image that is given by an address, in the order
/// of [`image_urls`], its bytes, or `None` where it could not be fetched;
/// such an image is left out.
pub fn convert_messages(messages: &[Message], fetched: &[Option<Vec<u8>>]) -> (r: Vec<
    MessageRequest,
>)
    requires
        messages_encodable(messages_view(messages@)),
        fetched_encodable(fetched@),
    ensures
        requests_view(r@) == message_requests(messages_view(messages@), fetched@),
{
    let mut out: Vec<MessageRequest> = Vec::new();
    let mut next: usize = 0;
    let mut i: usize = 0;
    let ghost all = messages_view(messages@);
    assert(all.take(0) =~= Seq::<MessageView>::empty());
    assert(requests_view(out@) =~= Seq::<MessageRequestView>::empty());
    while i < messages.len()
        invariant
            i <= messages@.len(),
            all == messages_view(messages@),
            messages_encodable(all),
            fetched_encodable(fetched@),
            requests_view(out@) == message_requests(all.take(i as int), fetched@),
            next == capped(urls_in(all.take(i as int)), fetched@),
        decreases messages@.len() - i,
    {
        proof {
            assert(all.take(i + 1).drop_last() =~= all.take(i as int));
            assert(all.take(i + 1).last() == messages@[i as int]@);
            assert(all[i as int] == messages@[i as int]@);
        }
        let ghost before = out@;
        let (request, after) = convert_message(
            &messages[i],
            fetched,
            next,
            Ghost(urls_in(all.take(i as int))),
        );
        out.push(request);
        assert(requests_view(out@) =~= requests_view(before).push(request@));
        next = after;
        i += 1;
    }
    assert(all.take(i as int) =~= all);
    out
}

/// The addresses of the images of the messages, in their order: what is to
/// be fetched before the messages are converted.
pub fn image_urls(messages: &[Message]) -> (r: Vec<String>)
    ensures
        strings_view(r@) == message_urls(messages_view(messages@)),
{
    let mut urls: Vec<String> = Vec::new();
    let mut i: usize = 0;
    let ghost all = messages_view(messages@);
    assert(all.take(0) =~= Seq::<MessageView>::empty());
    assert(strings_view(urls@) =~= Seq::<Seq<char>>::empty());
    while i < messages.len()
        invariant
            i <= messages@.len(),
            all == messages_view(messages@),
            strings_view(urls@) == message_urls(all.take(i as int)),
        decreases messages@.len() - i,
    {
        proof {
            assert(all.take(i + 1).drop_last() =~= all.take(i as int));
            assert(all.take(i + 1).last() == messages@[i as int]@);
        }
        let message = &messages[i];
        let ghost parts = message@.content;
        let ghost start = strings_view(urls@);
        let mut j: usize = 0;
        assert(parts.take(0) =~= Seq::<ContentPartView>::empty());
        assert(start + Seq::<Seq<char>>::empty() =~= start);
        while j < message.content.len()
            invariant
                j <= message.content@.len(),
                parts == parts_view(message.content@),
                strings_view(urls@) == start + part_urls(parts.take(j as int)),
            decreases message.content@.len() - j,
        {
            proof {
                assert(parts.take(j + 1).drop_last() =~= parts.take(j as int));
                assert(parts.take(j + 1).last() == message.content@[j as int]@);
            }
            let ghost so_far = urls@;
            match &message.content[j] {
                ContentPart::Image(ImageReference::Url(image)) => {
                    urls.push(image.url.clone());
                    assert(strings_view(urls@) =~= strings_view(so_far).push(image.url@));
                },
                _ => {},
            }
            j += 1;
        }
        assert(parts.take(j as int) =~= parts);
        i += 1;
    }
    assert(all.take(i as int) =~= all);
    urls
}

/// The tool of a request that stands for a tool that was called: a function
/// with the name of the tool, without a description and without parameters.
pub open spec fn called_tool(name: Seq<char>) -> ToolView {
    ToolView {
        tool_type: "function"@,
        function: FunctionToolView {
            name,
            description: seq![],
            parameters: Json::Object(Map::empty()),
        },
    }
}

/// What the call of a tool came to, in words.
pub open spec fn result_text(result: ToolResult) -> Seq<char> {
    match result {
        ToolResult::Success(success) => "[ToolCall Result]: Successed , [ToolCall ID]: "@
            + success.id@ + ", [ToolCall Name]: "@ + success.name@ + ", [Result]: "@
            + success.result_json@ + "] "@,
        ToolResult::Error(failure) => "[ToolCall Result]: Failed, [ToolCall ID]: "@ + failure.id@
            + ", [ErrorName]: "@ + failure.name@ + ", [ErrorCode]: "@ + (match failure.error_code {
            Some(code) => code@,
            None => seq![],
        }) + ", [Error]: "@ + failure.error_message@,
    }
}

/// The message of a request for the result of one tool call: the assistant
/// says what the call came to, and names the tool that was called.
pub open spec fn result_message(pair: (crate::llm::ToolCall, ToolResult)) -> MessageRequestView {
    MessageRequestView {
        role: MessageRole::Assistant,
        content: result_text(pair.1),
        images: None,
        tools_calls: Some(seq![called_tool(pair.0.name@)]),
    }
}

/// The messages of a request for the results of tool calls.
pub open spec fn result_messages(results: Seq<(crate::llm::ToolCall, ToolResult)>) -> Seq<
    MessageRequestView,
> {
    results.map_values(|pair: (crate::llm::ToolCall, ToolResult)| result_message(pair))
}

fn result_content(result: &ToolResult) -> (r: String)
    ensures
        r@ == result_text(*result),
{
    match result {
        ToolResult::Success(success) => {
            let mut text = "[ToolCall Result]: Successed , [ToolCall ID]: ".to_owned();
            text.append(success.id.as_str());
            text.append(", [ToolCall Name]: ");
            text.append(success.name.as_str());
            text.append(", [Result]: ");
            text.append(success.result_json.as_str());
            text.append("] ");
            text
        },
        ToolResult::Error(failure) => {
            let mut text = "[ToolCall Result]: Failed, [ToolCall ID]: ".to_owned();
            text.append(failure.id.as_str());
            text.append(", [ErrorName]: ");
            text.append(failure.name.as_str());
            text.append(", [ErrorCode]: ");
            match &failure.error_code {
                Some(code) => {
                    text.append(code.as_str());
                },
                None => {
                    assert(text@ + Seq::<char>::empty() =~= text@);
                },
            }
            text.append(", [Error]: ");
            text.append(failure.error_message.as_str());
            text
        },
    }
}

/// Converts the results of tool calls into messages of a request, so that
/// the model sees what it called and what came of it.
pub fn tool_results_to_messages(tool_results: &[(crate::llm::ToolCall, ToolResult)]) -> (r: Vec<
    MessageRequest,
>)
    ensures
        requests_view(r@) == result_messages(tool_results@),
{
    let mut messages: Vec<MessageRequest> = Vec::new();
    let mut i: usize = 0;
    while i < tool_results.len()
        invariant
            i <= tool_results@.len(),
            messages@.len() == i,
            forall|j: int| 0 <= j < i ==> messages@[j]@ == result_message(tool_results@[j]),
        decreases tool_results@.len() - i,
    {
        let pair = &tool_results[i];
        let tool = Tool {
            tool_type: "function".to_owned(),
            function: FunctionTool {
                name: pair.0.name.clone(),
                description: String::new(),
                parameters: empty_object(),
            },
        };
        let mut tools: Vec<Tool> = Vec::new();
        tools.push(tool);
        assert(tools_view(tools@) =~= seq![called_tool(pair.0.name@)]);
        messages.push(
            MessageRequest {
                role: MessageRole::Assistant,
                content: result_content(&pair.1),
                images: None,
                tools_calls: Some(tools),
            },
        );
        i += 1;
    }
    assert(requests_view(messages@) =~= result_messages(tool_results@));
    messages
}

/// The tool of a request for a tool of a chat whose parameters are JSON.
pub open spec fn tool_of(tool: ToolDefinition) -> ToolView {
    ToolView {
        tool_type: "function"@,
        function: FunctionToolView {
            name: tool.name@,
            description: match tool.description {
                Some(text) => text@,
                None => seq![],
            },
            parameters: json_parse(tool.parameters_schema@)->0,
        },
    }
}

/// The tools of a request for the tools of a chat.
pub open spec fn tools_of(tools: Seq<ToolDefinition>) -> Seq<ToolView> {
    tools.map_values(|t: ToolDefinition| tool_of(t))
}

/// The place of the first tool whose parameters are not JSON; the number of
/// tools where all are.
pub open spec fn first_bad_tool(tools: Seq<ToolDefinition>) -> nat
    decreases tools.len(),
{
    if tools.len() == 0 || json_parse(tools[0].parameters_schema@) is None {
        0
    } else {
        1 + first_bad_tool(tools.drop_first())
    }
}

/// The error for a tool whose parameters are not JSON.
pub open spec fn tool_error(tool: ToolDefinition) -> ErrorView {
    ErrorView {
        code: ErrorCode::InternalError,
        message: "Failed to parse tool parameters for "@ + tool.name@ + ": "@ + json_parse_error(
            tool.parameters_schema@,
        ),
        provider_error_json: None,
    }
}

/// `first_bad_tool` is the first place whose tool has parameters that are
/// not JSON.
pub proof fn lemma_first_bad_tool(tools: Seq<ToolDefinition>, n: int)
    requires
        0 <= n <= tools.len(),
        forall|i: int| 0 <= i < n ==> json_parse((#[trigger] tools[i]).parameters_schema@) is Some,
        n < tools.len() ==> json_parse(tools[n].parameters_schema@) is None,
    ensures
        first_bad_tool(tools) == n,
    decreases n,
{
    if n > 0 {
        let rest = tools.drop_first();
        assert forall|i: int| 0 <= i < n - 1 implies json_parse(
            (#[trigger] rest[i]).parameters_schema@,
        ) is Some by {
            assert(rest[i] == tools[i + 1]);
        }
        assert(json_parse(tools[0].parameters_schema@) is Some);
        lemma_first_bad_tool(rest, n - 1);
    }
}

/// Converts the tools of a chat into the tools of a request. The parameters
/// of each tool have to be JSON: the first tool whose parameters are not is
/// an error.
pub fn convert_tools(tools: &[ToolDefinition]) -> (r: Result<Vec<Tool>, Error>)
    ensures
        match r {
            Ok(converted) => first_bad_tool(tools@) == tools@.len() && tools_view(converted@)
                == tools_of(tools@),
            Err(error) => first_bad_tool(tools@) < tools@.len() && error@ == tool_error(
                tools@[first_bad_tool(tools@) as int],
            ),
        },
{
    let mut out: Vec<Tool> = Vec::new();
    let mut i: usize = 0;
    while i < tools.len()
        invariant
            i <= tools@.len(),
            out@.len() == i,
            forall|j: int| 0 <= j < i ==> json_parse((#[trigger] tools@[j]).parameters_schema@) is Some,
            forall|j: int| 0 <= j < i ==> out@[j]@ == tool_of(tools@[j]),
        decreases tools@.len() - i,
    {
        let tool = &tools[i];
        match parse(tool.parameters_schema.as_str()) {
            Ok(parameters) => {
                out.push(
                    Tool {
                        tool_type: "function".to_owned(),
                        function: FunctionTool {
                            name: tool.name.clone(),
                            description: match &tool.description {
                                Some(text) => text.clone(),
                                None => String::new(),
                            },
                            parameters,
                        },
                    },
                );
            },
            Err(detail) => {
                let mut message = "Failed to parse tool parameters for ".to_owned();
                message.append(tool.name.as_str());
                message.append(": ");
                message.append(detail.as_str());
                proof {
                    lemma_first_bad_tool(tools@, i as int);
                }
                return Err(
                    Error { code: ErrorCode::InternalError, message, provider_error_json: None },
                );
            },
        }
        i += 1;
    }
    proof {
        lemma_first_bad_tool(tools@, i as int);
        assert(tools_view(out@) =~= tools_of(tools@));
    }
    Ok(out)
}

/// The stop sequences of the options are those of the settings.
pub open spec fn same_stop(stop: Option<Vec<String>>, given: Option<Vec<String>>) -> bool {
    match (stop, given) {
        (Some(a), Some(b)) => strings_view(a@) == strings_view(b@),
        (None, None) => true,
        _ => false,
    }
}

/// The options of the model are those that the settings give: the
/// temperature and the stop sequences as they are, and every other one from
/// the setting of the provider with its name.
pub open spec fn options_of(config: Config, o: OllamaModelOptions) -> bool {
    let given = config.provider_options@;
    &&& o.temperature == config.temperature
    &&& same_stop(o.stop, config.stop_sequences)
    &&& text_view(o.min_p) == option_value(given, "min_p"@)
    &&& text_view(o.top_p) == option_value(given, "top_p"@)
    &&& text_view(o.typical_p) == option_value(given, "typical_p"@)
    &&& text_view(o.repeat_penalty) == option_value(given, "repeat_penalty"@)
    &&& text_view(o.presence_penalty) == option_value(given, "presence_penalty"@)
    &&& text_view(o.frequency_penalty) == option_value(given, "frequency_penalty"@)
    &&& text_view(o.mirostat_tau) == option_value(given, "mirostat_tau"@)
    &&& text_view(o.mirostat_eta) == option_value(given, "mirostat_eta"@)
    &&& o.top_k == whole_option(given, "top_k"@)
    &&& o.num_predict == whole_option(given, "num_predict"@)
    &&& o.num_ctx == whole_option(given, "num_ctx"@)
    &&& o.seed == whole_option(given, "seed"@)
    &&& o.mirostat == whole_option(given, "mirostat"@)
    &&& o.num_gpu == whole_option(given, "num_gpu"@)
    &&& o.num_thread == whole_option(given, "num_thread"@)
    &&& o.num_keep == whole_option(given, "num_keep"@)
    &&& o.repeat_last_n == whole_option(given, "repeat_last_n"@)
    &&& o.num_batch == whole_option(given, "num_batch"@)
    &&& o.main_gpu == whole_option(given, "main_gpu"@)
    &&& o.penalize_newline == flag_option(given, "penalize_newline"@)
    &&& o.numa == flag_option(given, "numa"@)
    &&& o.use_mmap == flag_option(given, "use_mmap"@)
}

/// The whole number given for an option.
pub open spec fn whole_option(options: Seq<Kv>, key: Seq<char>) -> Option<i32> {
    match option_value(options, key) {
        Some(text) => parse_i32(text),
        None => None,
    }
}

/// The flag given for an option.
pub open spec fn flag_option(options: Seq<Kv>, key: Seq<char>) -> Option<bool> {
    match option_value(options, key) {
        Some(text) => parse_bool(text),
        None => None,
    }
}

fn clone_strings(strings: &Option<Vec<String>>) -> (r: Option<Vec<String>>)
    ensures
        same_stop(r, *strings),
{
    match strings {
        Some(list) => {
            let mut out: Vec<String> = Vec::new();
            let mut i: usize = 0;
            while i < list.len()
                invariant
                    i <= list@.len(),
                    out@.len() == i,
                    forall|j: int| 0 <= j < i ==> out@[j]@ == list@[j]@,
                decreases list@.len() - i,
            {
                out.push(list[i].clone());
                i += 1;
            }
            assert(strings_view(out@) =~= strings_view(list@));
            Some(out)
        },
        None => None,
    }
}

/// The options of the model that the settings give.
pub fn model_options(config: &Config) -> (r: OllamaModelOptions)
    ensures
        options_of(*config, r),
{
    let options = config.provider_options.as_slice();
    OllamaModelOptions {
        min_p: text_option(options, "min_p"),
        temperature: config.temperature,
        top_p: text_option(options, "top_p"),
        top_k: parse_option::<i32>(options, "top_k"),
        num_predict: parse_option::<i32>(options, "num_predict"),
        stop: clone_strings(&config.stop_sequences),
        repeat_penalty: text_option(options, "repeat_penalty"),
        num_ctx: parse_option::<i32>(options, "num_ctx"),
        seed: parse_option::<i32>(options, "seed"),
        mirostat: parse_option::<i32>(options, "mirostat"),
        mirostat_eta: text_option(options, "mirostat_eta"),
        mirostat_tau: text_option(options, "mirostat_tau"),
        num_gpu: parse_option::<i32>(options, "num_gpu"),
        num_thread: parse_option::<i32>(options, "num_thread"),
        penalize_newline: parse_option::<bool>(options, "penalize_newline"),
        num_keep: parse_option::<i32>(options, "num_keep"),
        typical_p: text_option(options, "typical_p"),
        repeat_last_n: parse_option::<i32>(options, "repeat_last_n"),
        presence_penalty: text_option(options, "presence_penalty"),
        frequency_penalty: text_option(options, "frequency_penalty"),
        numa: parse_option::<bool>(options, "numa"),
        num_batch: parse_option::<i32>(options, "num_batch"),
        main_gpu: parse_option::<i32>(options, "main_gpu"),
        use_mmap: parse_option::<bool>(options, "use_mmap"),
    }
}

/// The messages of a request for the results of tool calls, if there are
/// any.
pub open spec fn optional_result_messages(
    results: Option<Vec<(crate::llm::ToolCall, ToolResult)>>,
) -> Seq<MessageRequestView> {
    match results {
        Some(list) => result_messages(list@),
        None => seq![],
    }
}

/// Builds the request for a chat: the messages of the chat and, after them,
/// the results of tool calls; the tools; and the options that the settings
/// give. The request asks for an answer that is not streamed. `fetched`
/// holds what was fetched for the images that are given by an address, in
/// the order of [`image_urls`]. A tool whose parameters are not JSON is an
/// error.
pub fn messages_to_request(
    messages: Vec<Message>,
    config: Config,
    tool_results: Option<Vec<(crate::llm::ToolCall, ToolResult)>>,
    fetched: &[Option<Vec<u8>>],
) -> (r: Result<CompletionsRequest, Error>)
    requires
        messages_encodable(messages_view(messages@)),
        fetched_encodable(fetched@),
    ensures
        match r {
            Ok(request) => {
                &&& first_bad_tool(config.tools@) == config.tools@.len()
                &&& text_view(request.model) == Some(config.model@)
                &&& request.messages matches Some(list) && requests_view(list@)
                    == message_requests(messages_view(messages@), fetched@)
                    + optional_result_messages(tool_results)
                &&& request.tools matches Some(tools) && tools_view(tools@) == tools_of(
                    config.tools@,
                )
                &&& text_view(request.format) == option_value(
                    config.provider_options@,
                    "format"@,
                )
                &&& text_view(request.keep_alive) == option_value(
                    config.provider_options@,
                    "keep_alive"@,
                )
                &&& request.stream == Some(false)
                &&& request.options matches Some(o) && options_of(config, o)
            },
            Err(error) => first_bad_tool(config.tools@) < config.tools@.len() && error@
                == tool_error(config.tools@[first_bad_tool(config.tools@) as int]),
        },
{
    let mut request_message = convert_messages(messages.as_slice(), fetched);
    let ghost converted = requests_view(request_message@);
    match &tool_results {
        Some(results) => {
            let mut more = tool_results_to_messages(results.as_slice());
            let ghost added = more@;
            request_message.append(&mut more);
            assert(requests_view(request_message@) =~= converted + requests_view(added));
        },
        None => {
            assert(converted + Seq::<MessageRequestView>::empty() =~= converted);
        },
    }
    let tools = match convert_tools(config.tools.as_slice()) {
        Ok(tools) => tools,
        Err(error) => {
            return Err(error);
        },
    };
    let options = model_options(&config);
    let format = text_option(config.provider_options.as_slice(), "format");
    let keep_alive = text_option(config.provider_options.as_slice(), "keep_alive");
    Ok(
        CompletionsRequest {
            model: Some(config.model),
            messages: Some(request_message),
            tools: Some(tools),
            format,
            options: Some(options),
            keep_alive,
            stream: Some(false),
        },
    )
}

/// The tool call of a chat for a tool call of an answer.
pub open spec fn response_call(call: crate::ollama::client::ToolCall, created_at: Seq<char>)
    -> ToolCallView {
    ToolCallView {
        id: "ollama-"@ + created_at,
        name: match call.name {
            Some(name) => name@,
            None => seq![],
        },
        arguments_json: json_text(json_value(call.function->0.arguments)),
    }
}

/// The tool calls of a chat for the tool calls of an answer.
pub open spec fn response_calls(
    calls: Option<Vec<crate::ollama::client::ToolCall>>,
    created_at: Seq<char>,
) -> Seq<ToolCallView> {
    match calls {
        Some(list) => list@.map_values(
            |call: crate::ollama::client::ToolCall| response_call(call, created_at),
        ),
        None => seq![],
    }
}

/// A count of an answer, in 32 bits.
pub open spec fn count_of(count: Option<i64>) -> Option<u32> {
    match count {
        Some(c) => Some(c as u32),
        None => None,
    }
}

/// A number of an answer; 0 where the answer has none.
pub open spec fn number_of(number: Option<i64>) -> int {
    match number {
        Some(n) => n as int,
        None => 0,
    }
}

/// What the provider tells of the run, as text.
pub open spec fn response_metadata_text(response: CompletionsResponse) -> Seq<char> {
    "{\n    \"total_duration\":\""@ + signed_decimal_text(number_of(response.total_duration))
        + "\",\n    \"load_duration\":\""@ + signed_decimal_text(
        number_of(response.load_duration),
    ) + "\",\n    \"prompt_eval_duration\":"@ + signed_decimal_text(
        number_of(response.prompt_eval_duration),
    ) + ",\n    \"eval_duration\":"@ + signed_decimal_text(number_of(response.eval_duration))
        + ",\n    \"context\":"@ + signed_decimal_text(number_of(response.eval_count))
        + ",\n    }"@
}

/// The token counts of an answer. The total wraps round at 32 bits.
pub open spec fn response_usage(response: CompletionsResponse) -> Usage {
    let input = count_of(response.prompt_eval_count);
    let output = count_of(response.eval_count);
    Usage {
        input_tokens: input,
        output_tokens: output,
        total_tokens: Some(
            (match input {
                Some(n) => n,
                None => 0u32,
            }).wrapping_add(
                match output {
                    Some(n) => n,
                    None => 0u32,
                },
            ),
        ),
    }
}

/// Every tool call of the answer has a function.
pub open spec fn calls_have_functions(response: CompletionsResponse) -> bool {
    match response.message {
        Some(message) => match message.tool_calls {
            Some(calls) => forall|i: int| 0 <= i < calls@.len() ==> (#[trigger] calls@[i]).function is Some,
            None => true,
        },
        None => true,
    }
}

/// What an answer that was received whole comes to: the response with the
/// text and the tool calls of its message, or an error where it has no
/// message.
pub open spec fn processed(response: CompletionsResponse) -> ChatEventView {
    match response.message {
        Some(message) => ChatEventView::Message(
            CompleteResponseView {
                id: "ollama-"@ + response.created_at@,
                content: match message.content {
                    Some(text) => seq![ContentPartView::Text(text@)],
                    None => seq![],
                },
                tool_calls: response_calls(message.tool_calls, response.created_at@),
                metadata: ResponseMetadataView {
                    finish_reason: if response.done == Some(true) {
                        Some(FinishReason::Stop)
                    } else {
                        None
                    },
                    usage: Some(response_usage(response)),
                    provider_id: Some("ollama"@),
                    timestamp: Some(response.created_at@),
                    provider_metadata_json: Some(response_metadata_text(response)),
                },
            },
        ),
        None => ChatEventView::Error(
            ErrorView {
                code: ErrorCode::InternalError,
                message: "No messages in response"@,
                provider_error_json: None,
            },
        ),
    }
}

fn append_number(text: &mut String, number: Option<i64>)
    ensures
        final(text)@ == old(text)@ + signed_decimal_text(number_of(number)),
{
    let n: i64 = match number {
        Some(n) => n,
        None => 0,
    };
    let digits = signed_decimal_chars(n);
    let digits = string_from_chars(digits.as_slice());
    text.append(digits.as_str());
}

/// Writes what the provider tells of the run.
pub fn get_provider_metadata(response: &CompletionsResponse) -> (r: String)
    ensures
        r@ == response_metadata_text(*response),
{
    let mut text = "{\n    \"total_duration\":\"".to_owned();
    append_number(&mut text, response.total_duration);
    text.append("\",\n    \"load_duration\":\"");
    append_number(&mut text, response.load_duration);
    text.append("\",\n    \"prompt_eval_duration\":");
    append_number(&mut text, response.prompt_eval_duration);
    text.append(",\n    \"eval_duration\":");
    append_number(&mut text, response.eval_duration);
    text.append(",\n    \"context\":");
    append_number(&mut text, response.eval_count);
    text.append(",\n    }");
    text
}

fn low_32(count: Option<i64>) -> (r: Option<u32>)
    ensures
        r == count_of(count),
{
    match count {
        Some(c) => Some(
            #[verifier::truncate]
            (c as u32),
        ),
        None => None,
    }
}

/// Turns an answer that was received whole into the event of a chat.
pub fn process_response(response: CompletionsResponse) -> (r: ChatEvent)
    requires
        calls_have_functions(response),
    ensures
        r@ == processed(response),
{
    match &response.message {
        Some(message) => {
            let mut content: Vec<ContentPart> = Vec::new();
            match &message.content {
                Some(text) => {
                    content.push(ContentPart::Text(text.clone()));
                    assert(parts_view(content@) =~= seq![ContentPartView::Text(text@)]);
                },
                None => {
                    assert(parts_view(content@) =~= Seq::<ContentPartView>::empty());
                },
            }
            let mut tool_calls: Vec<crate::llm::ToolCall> = Vec::new();
            match &message.tool_calls {
                Some(calls) => {
                    let mut i: usize = 0;
                    while i < calls.len()
                        invariant
                            i <= calls@.len(),
                            tool_calls@.len() == i,
                            forall|j: int| 0 <= j < calls@.len() ==> (#[trigger] calls@[j]).function is Some,
                            forall|j: int|
                                0 <= j < i ==> tool_calls@[j]@ == response_call(
                                    calls@[j],
                                    response.created_at@,
                                ),
                        decreases calls@.len() - i,
                    {
                        let call = &calls[i];
                        let mut id = "ollama-".to_owned();
                        id.append(response.created_at.as_str());
                        let arguments_json = match &call.function {
                            Some(function) => to_text(&function.arguments),
                            None => String::new(),
                        };
                        tool_calls.push(
                            crate::llm::ToolCall {
                                id,
                                name: match &call.name {
                                    Some(name) => name.clone(),
                                    None => String::new(),
                                },
                                arguments_json,
                            },
                        );
                        i += 1;
                    }
                    assert(calls_view(tool_calls@) =~= response_calls(
                        message.tool_calls,
                        response.created_at@,
                    ));
                },
                None => {
                    assert(calls_view(tool_calls@) =~= Seq::<ToolCallView>::empty());
                },
            }
            let done = match response.done {
                Some(flag) => flag,
                None => false,
            };
            let input_tokens = low_32(response.prompt_eval_count);
            let output_tokens = low_32(response.eval_count);
            let input: u32 = match input_tokens {
                Some(n) => n,
                None => 0,
            };
            let output: u32 = match output_tokens {
                Some(n) => n,
                None => 0,
            };
            let mut id = "ollama-".to_owned();
            id.append(response.created_at.as_str());
            let metadata = ResponseMetadata {
                finish_reason: if done {
                    Some(FinishReason::Stop)
                } else {
                    None
                },
                usage: Some(
                    Usage {
                        input_tokens,
                        output_tokens,
                        total_tokens: Some(input.wrapping_add(output)),
                    },
                ),
                provider_id: Some("ollama".to_owned()),
                timestamp: Some(response.created_at.clone()),
                provider_metadata_json: Some(get_provider_metadata(&response)),
            };
            ChatEvent::Message(CompleteResponse { id, content, tool_calls, metadata })
        },
        None => ChatEvent::Error(
            Error {
                code: ErrorCode::InternalError,
                message: "No messages in response".to_owned(),
                provider_error_json: None,
            },
        ),
    }
}

} // verus!
