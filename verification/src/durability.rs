//! The durable chat stream: a stream of chat events that survives a restart.
//!
//! While the recorded events of an earlier run are replayed, the stream
//! gathers the pieces of the response that were handed out. When the record
//! runs out before the response has ended, the stream asks for a new live
//! call with a prompt that holds the conversation and what was received of
//! the response, and goes on with the events of that call.

use crate::llm::{
    clone_messages, clone_parts, deltas_view, events_view, messages_view, ContentPart,
    ContentPartView, Message, MessageView, Role, StreamDelta, StreamDeltaView, StreamEvent,
    StreamEventView, ToolCall, ToolCallView,
};
use std::marker::PhantomData;
use vstd::prelude::*;
use vstd::string::StringExecFns;

verus! {

/// The note that tells the model that its response was cut short.
pub open spec fn interrupted_note() -> Seq<char> {
    "You were asked the same question previously, but the response was interrupted before completion. Please continue your response from where you left off. Do not include the part of the response that was already seen."@
}

/// The note that stands before the conversation.
pub open spec fn question_note() -> Seq<char> {
    "Here is the original question:"@
}

/// The note that stands before what was received of the response.
pub open spec fn partial_note() -> Seq<char> {
    "Here is the partial response that was successfully received:"@
}

/// A tool call written as text, so that the model sees it as something it
/// did before.
pub open spec fn tool_call_tag(call: ToolCallView) -> Seq<char> {
    "<tool-call id=\""@ + call.id + "\" name=\""@ + call.name + "\" arguments=\""@
        + call.arguments_json + "\"/>"@
}

/// The tool calls of a delta, each as a text part.
pub open spec fn call_parts(calls: Seq<ToolCallView>) -> Seq<ContentPartView> {
    calls.map_values(|c: ToolCallView| ContentPartView::Text(tool_call_tag(c)))
}

/// What one delta adds to the received response: its content parts, then
/// its tool calls as text.
pub open spec fn delta_parts(delta: StreamDeltaView) -> Seq<ContentPartView> {
    (match delta.content {
        Some(parts) => parts,
        None => seq![],
    }) + (match delta.tool_calls {
        Some(calls) => call_parts(calls),
        None => seq![],
    })
}

/// The received response: what the deltas add, in their order.
pub open spec fn partial_parts(deltas: Seq<StreamDeltaView>) -> Seq<ContentPartView>
    decreases deltas.len(),
{
    if deltas.len() == 0 {
        seq![]
    } else {
        partial_parts(deltas.drop_last()) + delta_parts(deltas.last())
    }
}

/// A message without a name that holds the given parts.
pub open spec fn note(role: Role, content: Seq<ContentPartView>) -> MessageView {
    MessageView { role, name: None, content }
}

/// The prompt that continues an interrupted response: a system message with
/// the note that the response was interrupted, a user message that
/// announces the conversation, the conversation as it was, and a user
/// message with the received response behind its note.
pub open spec fn default_prompt(original: Seq<MessageView>, partial: Seq<StreamDeltaView>) -> Seq<
    MessageView,
> {
    seq![
        note(Role::System, seq![ContentPartView::Text(interrupted_note())]),
        note(Role::User, seq![ContentPartView::Text(question_note())]),
    ] + original + seq![
        note(Role::User, seq![ContentPartView::Text(partial_note())] + partial_parts(partial)),
    ]
}

/// Writes a tool call as text.
pub fn tool_call_text(call: &ToolCall) -> (r: String)
    ensures
        r@ == tool_call_tag(call@),
{
    let mut text = "<tool-call id=\"".to_owned();
    text.append(call.id.as_str());
    text.append("\" name=\"");
    text.append(call.name.as_str());
    text.append("\" arguments=\"");
    text.append(call.arguments_json.as_str());
    text.append("\"/>");
    text
}

/// Gathers the received response from the deltas.
pub fn partial_content(partial_result: &[StreamDelta]) -> (r: Vec<ContentPart>)
    ensures
        crate::llm::parts_view(r@) == partial_parts(deltas_view(partial_result@)),
{
    let mut out: Vec<ContentPart> = Vec::new();
    let mut i: usize = 0;
    assert(deltas_view(partial_result@).take(0) =~= Seq::<StreamDeltaView>::empty());
    assert(crate::llm::parts_view(out@) =~= Seq::<ContentPartView>::empty());
    while i < partial_result.len()
        invariant
            i <= partial_result@.len(),
            crate::llm::parts_view(out@) == partial_parts(
                deltas_view(partial_result@).take(i as int),
            ),
        decreases partial_result@.len() - i,
    {
        let delta = &partial_result[i];
        let ghost before = crate::llm::parts_view(out@);
        let ghost done = deltas_view(partial_result@).take(i as int);
        proof {
            let next = deltas_view(partial_result@).take(i + 1);
            assert(next.drop_last() =~= done);
            assert(next.last() == delta@);
        }
        match &delta.content {
            Some(parts) => {
                let mut copy = clone_parts(parts.as_slice());
                let ghost added = copy@;
                out.append(&mut copy);
                assert(crate::llm::parts_view(out@) =~= before + crate::llm::parts_view(added));
            },
            None => {
                assert(before + Seq::<ContentPartView>::empty() =~= before);
            },
        }
        let ghost middle = crate::llm::parts_view(out@);
        match &delta.tool_calls {
            Some(calls) => {
                let mut j: usize = 0;
                assert(call_parts(crate::llm::calls_view(calls@).take(0)) =~= Seq::<
                    ContentPartView,
                >::empty());
                assert(middle + Seq::<ContentPartView>::empty() =~= middle);
                while j < calls.len()
                    invariant
                        j <= calls@.len(),
                        crate::llm::parts_view(out@) == middle + call_parts(
                            crate::llm::calls_view(calls@).take(j as int),
                        ),
                    decreases calls@.len() - j,
                {
                    let ghost so_far = out@;
                    out.push(ContentPart::Text(tool_call_text(&calls[j])));
                    proof {
                        let views = crate::llm::calls_view(calls@);
                        assert(call_parts(views.take(j + 1)) =~= call_parts(views.take(j as int))
                            + seq![ContentPartView::Text(tool_call_tag(calls@[j as int]@))]);
                        assert(crate::llm::parts_view(out@) =~= crate::llm::parts_view(so_far)
                            + seq![ContentPartView::Text(tool_call_tag(calls@[j as int]@))]);
                    }
                    j += 1;
                }
                assert(crate::llm::calls_view(calls@).take(calls@.len() as int)
                    =~= crate::llm::calls_view(calls@));
            },
            None => {
                assert(middle + Seq::<ContentPartView>::empty() =~= middle);
            },
        }
        assert(crate::llm::parts_view(out@) =~= before + delta_parts(delta@));
        i += 1;
    }
    assert(deltas_view(partial_result@).take(i as int) =~= deltas_view(partial_result@));
    out
}

/// A message without a name that holds one text and the parts after it.
pub fn note_message(role: Role, first: &str, rest: Vec<ContentPart>) -> (r: Message)
    ensures
        r@ == note(role, seq![ContentPartView::Text(first@)] + crate::llm::parts_view(rest@)),
{
    let mut content: Vec<ContentPart> = Vec::new();
    content.push(ContentPart::Text(first.to_owned()));
    let mut rest = rest;
    let ghost tail = rest@;
    content.append(&mut rest);
    assert(crate::llm::parts_view(content@) =~= seq![ContentPartView::Text(first@)]
        + crate::llm::parts_view(tail));
    Message { role, name: None, content }
}

/// Builds the prompt that continues an interrupted response from the
/// conversation and the deltas that were received.
pub fn retry_prompt(original_messages: &[Message], partial_result: &[StreamDelta]) -> (r: Vec<
    Message,
>)
    ensures
        messages_view(r@) == default_prompt(
            messages_view(original_messages@),
            deltas_view(partial_result@),
        ),
{
    let first = note_message(
        Role::System,
        "You were asked the same question previously, but the response was interrupted before completion. Please continue your response from where you left off. Do not include the part of the response that was already seen.",
        Vec::new(),
    );
    let second = note_message(Role::User, "Here is the original question:", Vec::new());
    assert(first@.content =~= seq![ContentPartView::Text(interrupted_note())]);
    assert(second@.content =~= seq![ContentPartView::Text(question_note())]);
    let mut extended: Vec<Message> = Vec::new();
    extended.push(first);
    extended.push(second);
    let mut copy = clone_messages(original_messages);
    let ghost copied = copy@;
    extended.append(&mut copy);
    let last = note_message(
        Role::User,
        "Here is the partial response that was successfully received:",
        partial_content(partial_result),
    );
    extended.push(last);
    assert(messages_view(extended@) =~= seq![first@, second@] + messages_view(copied) + seq![
        last@,
    ]);
    extended
}

/// What a provider adds to a chat so that its streams can be made durable.
pub trait ExtendedGuest {
    /// The live stream of the provider.
    type ChatStream;

    /// The settings of a call.
    type Config;

    /// The prompt that continues an interrupted response, as a mathematical
    /// value.
    spec fn prompt(original: Seq<MessageView>, partial: Seq<StreamDeltaView>) -> Seq<MessageView>;

    /// Builds the prompt that continues an interrupted response from the
    /// conversation and the deltas that were received. [`retry_prompt`] is
    /// the prompt for a provider that needs none of its own.
    fn retry_prompt(original_messages: &[Message], partial_result: &[StreamDelta]) -> (r: Vec<
        Message,
    >)
        ensures
            messages_view(r@) == Self::prompt(
                messages_view(original_messages@),
                deltas_view(partial_result@),
            ),
    ;
}

/// Wraps the chat of a provider with durability.
pub struct DurableLLM<Impl> {
    phantom: PhantomData<Impl>,
}

impl<Impl: ExtendedGuest> DurableLLM<Impl> {
    /// The durable stream of a call. A call that is made for the first time
    /// has a live stream, and the durable stream is live. A call that is
    /// replayed has none, and the durable stream replays the record of the
    /// call with this conversation and these settings.
    pub fn stream(
        live: Option<Impl::ChatStream>,
        messages: Vec<Message>,
        config: Impl::Config,
    ) -> (r: DurableChatStream<Impl>)
        ensures
            r@ == match live {
                Some(stream) => DurableView::<Impl::ChatStream, Impl::Config>::Live {
                    stream,
                    pollables: seq![],
                },
                None => DurableView::<Impl::ChatStream, Impl::Config>::Replay {
                    original_messages: messages_view(messages@),
                    config,
                    pollables: seq![],
                    partial_result: seq![],
                    finished: false,
                },
            },
    {
        match live {
            Some(stream) => DurableChatStream::live(stream),
            None => DurableChatStream::replay(messages, config),
        }
    }
}

/// The state of a durable chat stream: exactly one of the two modes.
pub enum DurableChatStreamState<Impl: ExtendedGuest> {
    /// The stream talks to the provider.
    Live { stream: Impl::ChatStream, pollables: Vec<u64> },
    /// The stream hands out what an earlier run recorded.
    Replay {
        original_messages: Vec<Message>,
        config: Impl::Config,
        pollables: Vec<u64>,
        partial_result: Vec<StreamDelta>,
        finished: bool,
    },
}

/// A stream of chat events that survives a restart.
pub struct DurableChatStream<Impl: ExtendedGuest> {
    state: DurableChatStreamState<Impl>,
}

/// The mathematical value of a [`DurableChatStream`].
pub enum DurableView<S, C> {
    Live {
        /// The live stream.
        stream: S,
        /// The readiness handles that were given out during the replay.
        pollables: Seq<u64>,
    },
    Replay {
        /// The conversation that the stream was opened with.
        original_messages: Seq<MessageView>,
        /// The settings that the stream was opened with.
        config: C,
        /// The readiness handles that were given out.
        pollables: Seq<u64>,
        /// The deltas that were handed out, in their order.
        partial_result: Seq<StreamDeltaView>,
        /// An event that ends the response was handed out.
        finished: bool,
    },
}

impl<Impl: ExtendedGuest> View for DurableChatStream<Impl> {
    type V = DurableView<Impl::ChatStream, Impl::Config>;

    closed spec fn view(&self) -> Self::V {
        match self.state {
            DurableChatStreamState::Live { stream, pollables } => DurableView::Live {
                stream,
                pollables: pollables@,
            },
            DurableChatStreamState::Replay {
                original_messages,
                config,
                pollables,
                partial_result,
                finished,
            } => DurableView::Replay {
                original_messages: messages_view(original_messages@),
                config,
                pollables: pollables@,
                partial_result: deltas_view(partial_result@),
                finished,
            },
        }
    }
}

/// What a subscription is bound to.
#[derive(Debug, Clone, Copy, PartialEq, Eq)]
pub enum Subscription {
    /// The readiness of the live stream.
    Live,
    /// A handle that is bound to a live stream once there is one.
    Lazy(u64),
}

/// What a durable stream does next when it is not fed from a record.
#[derive(Debug, PartialEq, Eq)]
pub enum Step {
    /// Poll the live stream, record the result and hand it out.
    Poll,
    /// The replayed response has ended: there is nothing more, and no call
    /// is made.
    Exhausted,
    /// The record ran out before the response ended: open a live stream
    /// with this prompt, bind the handles to it, and go on with it.
    Resume(Vec<Message>),
}

/// The mathematical value of a [`Step`].
pub enum StepView {
    Poll,
    Exhausted,
    Resume(Seq<MessageView>),
}

impl View for Step {
    type V = StepView;

    open spec fn view(&self) -> StepView {
        match self {
            Step::Poll => StepView::Poll,
            Step::Exhausted => StepView::Exhausted,
            Step::Resume(messages) => StepView::Resume(messages_view(messages@)),
        }
    }
}

/// The stream after the events of one recorded entry: every delta is added
/// to the received response, and an event that ends the response marks the
/// stream as finished.
pub open spec fn replay_events(
    partial: Seq<StreamDeltaView>,
    finished: bool,
    events: Seq<StreamEventView>,
) -> (Seq<StreamDeltaView>, bool)
    decreases events.len(),
{
    if events.len() == 0 {
        (partial, finished)
    } else {
        let (p, f) = replay_events(partial, finished, events.drop_last());
        match events.last() {
            StreamEventView::Delta(delta) => (p.push(delta), f),
            _ => (p, true),
        }
    }
}

/// The stream after one recorded entry was replayed. A live stream is left
/// as it is.
pub open spec fn replay_entry<S, C>(
    v: DurableView<S, C>,
    recorded: Option<Seq<StreamEventView>>,
) -> DurableView<S, C> {
    match v {
        DurableView::Replay { original_messages, config, pollables, partial_result, finished } => {
            let (p, f) = match recorded {
                Some(events) => replay_events(partial_result, finished, events),
                None => (partial_result, finished),
            };
            DurableView::Replay {
                original_messages,
                config,
                pollables,
                partial_result: p,
                finished: f,
            }
        },
        _ => v,
    }
}

/// What a stream hands out for a recorded entry: the entry as it is,
/// whatever the stream holds.
pub open spec fn replay_output<S, C>(
    v: DurableView<S, C>,
    recorded: Option<Seq<StreamEventView>>,
) -> Option<Seq<StreamEventView>> {
    recorded
}

/// The value of a recorded entry.
pub open spec fn entry_view(entry: Option<Vec<StreamEvent>>) -> Option<Seq<StreamEventView>> {
    match entry {
        Some(events) => Some(events_view(events@)),
        None => None,
    }
}

impl<Impl: ExtendedGuest> DurableChatStream<Impl> {
    /// What the stream does next when it is not fed from a record.
    pub open spec fn step_of(v: DurableView<Impl::ChatStream, Impl::Config>) -> StepView {
        match v {
            DurableView::Live { .. } => StepView::Poll,
            DurableView::Replay { original_messages, partial_result, finished, .. } => if finished {
                StepView::Exhausted
            } else {
                StepView::Resume(Impl::prompt(original_messages, partial_result))
            },
        }
    }

    /// A stream over a live stream that was just opened.
    pub fn live(stream: Impl::ChatStream) -> (r: Self)
        ensures
            r@ == (DurableView::<Impl::ChatStream, Impl::Config>::Live {
                stream,
                pollables: seq![],
            }),
    {
        DurableChatStream { state: DurableChatStreamState::Live { stream, pollables: Vec::new() } }
    }

    /// A stream that replays the record of a call with this conversation and
    /// these settings. Nothing has been received yet.
    pub fn replay(original_messages: Vec<Message>, config: Impl::Config) -> (r: Self)
        ensures
            r@ == (DurableView::<Impl::ChatStream, Impl::Config>::Replay {
                original_messages: messages_view(original_messages@),
                config,
                pollables: seq![],
                partial_result: seq![],
                finished: false,
            }),
    {
        let r = DurableChatStream {
            state: DurableChatStreamState::Replay {
                original_messages,
                config,
                pollables: Vec::new(),
                partial_result: Vec::new(),
                finished: false,
            },
        };
        assert(deltas_view(Seq::<StreamDelta>::empty()) =~= Seq::<StreamDeltaView>::empty());
        r
    }

    /// Whether the stream talks to the provider.
    pub fn is_live(&self) -> (r: bool)
        ensures
            r == (self@ is Live),
    {
        match &self.state {
            DurableChatStreamState::Live { .. } => true,
            DurableChatStreamState::Replay { .. } => false,
        }
    }

    /// The live stream, while there is one.
    pub fn stream(&self) -> (r: Option<&Impl::ChatStream>)
        ensures
            match r {
                Some(stream) => self@ matches DurableView::Live { stream: s, .. } && *stream == s,
                None => self@ is Replay,
            },
    {
        match &self.state {
            DurableChatStreamState::Live { stream, .. } => Some(stream),
            DurableChatStreamState::Replay { .. } => None,
        }
    }

    /// The settings of the call that is replayed.
    pub fn config(&self) -> (r: Option<&Impl::Config>)
        ensures
            match r {
                Some(config) => self@ matches DurableView::Replay { config: c, .. } && *config
                    == c,
                None => self@ is Live,
            },
    {
        match &self.state {
            DurableChatStreamState::Live { .. } => None,
            DurableChatStreamState::Replay { config, .. } => Some(config),
        }
    }

    /// The readiness handles that were given out during the replay.
    pub fn pollables(&self) -> (r: &Vec<u64>)
        ensures
            r@ == match self@ {
                DurableView::Live { pollables, .. } => pollables,
                DurableView::Replay { pollables, .. } => pollables,
            },
    {
        match &self.state {
            DurableChatStreamState::Live { pollables, .. } => pollables,
            DurableChatStreamState::Replay { pollables, .. } => pollables,
        }
    }

    /// Subscribes to the stream. A live stream offers its own readiness.
    /// During the replay the stream gives out a new handle, numbered in the
    /// order of the subscriptions, and keeps it to bind it to the live
    /// stream later.
    pub fn subscribe(&mut self) -> (r: Subscription)
        ensures
            match old(self)@ {
                DurableView::Live { .. } => r == Subscription::Live && final(self)@ == old(self)@,
                DurableView::Replay {
                    original_messages,
                    config,
                    pollables,
                    partial_result,
                    finished,
                } => {
                    &&& r == Subscription::Lazy(pollables.len() as u64)
                    &&& final(self)@ == (DurableView::<Impl::ChatStream, Impl::Config>::Replay {
                        original_messages,
                        config,
                        pollables: pollables.push(pollables.len() as u64),
                        partial_result,
                        finished,
                    })
                },
            },
    {
        match &mut self.state {
            DurableChatStreamState::Live { .. } => Subscription::Live,
            DurableChatStreamState::Replay { pollables, .. } => {
                let handle = pollables.len() as u64;
                pollables.push(handle);
                Subscription::Lazy(handle)
            },
        }
    }

    /// The live stream, to drive it.
    pub fn stream_mut(&mut self) -> (r: Option<&mut Impl::ChatStream>)
        ensures
            match r {
                Some(stream) => {
                    &&& old(self)@ matches DurableView::Live { stream: s, pollables }
                    &&& *stream == s
                    &&& final(self)@ == (DurableView::<Impl::ChatStream, Impl::Config>::Live {
                        stream: *final(stream),
                        pollables,
                    })
                },
                None => old(self)@ is Replay && final(self)@ == old(self)@,
            },
    {
        match &mut self.state {
            DurableChatStreamState::Live { stream, .. } => Some(stream),
            DurableChatStreamState::Replay { .. } => None,
        }
    }

    /// Gives up the stream: the live stream, if there is one, and the
    /// readiness handles that were given out, to be released.
    pub fn into_parts(self) -> (r: (Option<Impl::ChatStream>, Vec<u64>))
        ensures
            match self@ {
                DurableView::Live { stream, pollables } => r.0 == Some(stream) && r.1@
                    == pollables,
                DurableView::Replay { pollables, .. } => r.0 is None && r.1@ == pollables,
            },
    {
        match self.state {
            DurableChatStreamState::Live { stream, pollables } => (Some(stream), pollables),
            DurableChatStreamState::Replay { pollables, .. } => (None, pollables),
        }
    }

    /// Decides what the stream does next when it is not fed from a record.
    /// The stream itself stays as it is.
    pub fn get_next(&self) -> (r: Step)
        ensures
            r@ == Self::step_of(self@),
    {
        match &self.state {
            DurableChatStreamState::Live { .. } => Step::Poll,
            DurableChatStreamState::Replay { original_messages, partial_result, finished, .. } => {
                if *finished {
                    Step::Exhausted
                } else {
                    Step::Resume(
                        Impl::retry_prompt(original_messages.as_slice(), partial_result.as_slice()),
                    )
                }
            },
        }
    }

    /// Goes over to the live stream that was opened to continue the
    /// response. A stream that is live already, or whose response has ended,
    /// stays as it is and hands the live stream back.
    pub fn resume(&mut self, stream: Impl::ChatStream) -> (r: Result<(), Impl::ChatStream>)
        ensures
            match old(self)@ {
                DurableView::Replay { pollables, finished, .. } if !finished => {
                    &&& r is Ok
                    &&& final(self)@ == (DurableView::<Impl::ChatStream, Impl::Config>::Live {
                        stream,
                        pollables,
                    })
                },
                _ => r == Err::<(), Impl::ChatStream>(stream) && final(self)@ == old(self)@,
            },
    {
        let mut kept: Vec<u64> = Vec::new();
        match &mut self.state {
            DurableChatStreamState::Live { .. } => {
                return Err(stream);
            },
            DurableChatStreamState::Replay { pollables, finished, .. } => {
                if *finished {
                    return Err(stream);
                }
                std::mem::swap(pollables, &mut kept);
            },
        }
        self.state = DurableChatStreamState::Live { stream, pollables: kept };
        Ok(())
    }

    /// Takes in one recorded entry and hands it out as it is. The deltas of
    /// the entry are added to the received response; an event that ends the
    /// response marks the stream as finished.
    pub fn replayed(&mut self, recorded: Option<Vec<StreamEvent>>) -> (r: Option<Vec<StreamEvent>>)
        requires
            old(self)@ is Replay,
        ensures
            r == recorded,
            entry_view(r) == replay_output(old(self)@, entry_view(recorded)),
            final(self)@ == replay_entry(old(self)@, entry_view(recorded)),
    {
        match &mut self.state {
            DurableChatStreamState::Live { .. } => {},
            DurableChatStreamState::Replay { partial_result, finished, .. } => {
                match &recorded {
                    Some(events) => {
                        let ghost start = deltas_view(partial_result@);
                        let ghost was = *finished;
                        let ghost all = events_view(events@);
                        let mut i: usize = 0;
                        assert(all.take(0) =~= Seq::<StreamEventView>::empty());
                        while i < events.len()
                            invariant
                                i <= events@.len(),
                                all == events_view(events@),
                                (deltas_view(partial_result@), *finished) == replay_events(
                                    start,
                                    was,
                                    all.take(i as int),
                                ),
                            decreases events@.len() - i,
                        {
                            proof {
                                assert(all.take(i + 1).drop_last() =~= all.take(i as int));
                                assert(all.take(i + 1).last() == events@[i as int]@);
                            }
                            let ghost before = partial_result@;
                            match &events[i] {
                                StreamEvent::Delta(delta) => {
                                    partial_result.push(delta.clone());
                                    assert(deltas_view(partial_result@) =~= deltas_view(
                                        before,
                                    ).push(delta@));
                                },
                                StreamEvent::Finish(_) => {
                                    *finished = true;
                                },
                                StreamEvent::Error(_) => {
                                    *finished = true;
                                },
                            }
                            i += 1;
                        }
                        assert(all.take(i as int) =~= all);
                    },
                    None => {},
                }
            },
        }
        recorded
    }
}

/// The deltas among the events, in their order.
pub open spec fn events_deltas(events: Seq<StreamEventView>) -> Seq<StreamDeltaView>
    decreases events.len(),
{
    if events.len() == 0 {
        seq![]
    } else {
        let deltas = events_deltas(events.drop_last());
        match events.last() {
            StreamEventView::Delta(delta) => deltas.push(delta),
            _ => deltas,
        }
    }
}

/// One of the events ends the response.
pub open spec fn events_end(events: Seq<StreamEventView>) -> bool
    decreases events.len(),
{
    events.len() > 0 && (events_end(events.drop_last()) || !(events.last() is Delta))
}

/// The deltas of a record, in their order.
pub open spec fn log_deltas(log: Seq<Option<Seq<StreamEventView>>>) -> Seq<StreamDeltaView>
    decreases log.len(),
{
    if log.len() == 0 {
        seq![]
    } else {
        log_deltas(log.drop_last()) + match log.last() {
            Some(events) => events_deltas(events),
            None => seq![],
        }
    }
}

/// One of the events of a record ends the response.
pub open spec fn log_ends(log: Seq<Option<Seq<StreamEventView>>>) -> bool
    decreases log.len(),
{
    log.len() > 0 && (log_ends(log.drop_last()) || match log.last() {
        Some(events) => events_end(events),
        None => false,
    })
}

/// The stream after a record was replayed, entry by entry.
pub open spec fn replay_log<S, C>(
    v: DurableView<S, C>,
    log: Seq<Option<Seq<StreamEventView>>>,
) -> DurableView<S, C>
    decreases log.len(),
{
    if log.len() == 0 {
        v
    } else {
        replay_entry(replay_log(v, log.drop_last()), log.last())
    }
}

/// What a stream hands out when a record is replayed, entry by entry: for
/// each entry what it hands out from where the entries before left it.
pub open spec fn replay_outputs<S, C>(
    v: DurableView<S, C>,
    log: Seq<Option<Seq<StreamEventView>>>,
) -> Seq<Option<Seq<StreamEventView>>>
    decreases log.len(),
{
    if log.len() == 0 {
        seq![]
    } else {
        replay_outputs(v, log.drop_last()).push(
            replay_output(replay_log(v, log.drop_last()), log.last()),
        )
    }
}

/// A replay hands out the record as it is: every entry, in the order of the
/// record, whatever the stream held before.
pub proof fn lemma_replay_hands_out_the_record<S, C>(
    v: DurableView<S, C>,
    log: Seq<Option<Seq<StreamEventView>>>,
)
    ensures
        replay_outputs(v, log) == log,
    decreases log.len(),
{
    if log.len() > 0 {
        lemma_replay_hands_out_the_record(v, log.drop_last());
        assert(log.drop_last().push(log.last()) =~= log);
    } else {
        assert(log =~= Seq::<Option<Seq<StreamEventView>>>::empty());
    }
}

/// Replaying events adds their deltas to the received response, and marks
/// the stream as finished if one of them ends the response.
pub proof fn lemma_replay_events(
    partial: Seq<StreamDeltaView>,
    finished: bool,
    events: Seq<StreamEventView>,
)
    ensures
        replay_events(partial, finished, events) == (
            partial + events_deltas(events),
            finished || events_end(events),
        ),
    decreases events.len(),
{
    if events.len() == 0 {
        assert(partial + Seq::<StreamDeltaView>::empty() =~= partial);
    } else {
        lemma_replay_events(partial, finished, events.drop_last());
        let deltas = events_deltas(events.drop_last());
        match events.last() {
            StreamEventView::Delta(delta) => {
                assert((partial + deltas).push(delta) =~= partial + deltas.push(delta));
            },
            _ => {},
        }
    }
}

/// Replaying a record changes nothing of a stream but what it has received
/// and whether it has finished: it has received the deltas of the record, in
/// their order, after what it had, and it has finished if it had or if one
/// event of the record ends the response.
pub proof fn lemma_replay_log<S, C>(v: DurableView<S, C>, log: Seq<Option<Seq<StreamEventView>>>)
    requires
        v is Replay,
    ensures
        replay_log(v, log) == (DurableView::<S, C>::Replay {
            original_messages: v->original_messages,
            config: v->config,
            pollables: v->Replay_pollables,
            partial_result: v->partial_result + log_deltas(log),
            finished: v->finished || log_ends(log),
        }),
    decreases log.len(),
{
    if log.len() == 0 {
        assert(v->partial_result + Seq::<StreamDeltaView>::empty() =~= v->partial_result);
    } else {
        lemma_replay_log(v, log.drop_last());
        let mid = replay_log(v, log.drop_last());
        match log.last() {
            Some(events) => {
                lemma_replay_events(mid->partial_result, mid->finished, events);
                assert(v->partial_result + log_deltas(log.drop_last()) + events_deltas(events)
                    =~= v->partial_result + (log_deltas(log.drop_last()) + events_deltas(events)));
            },
            None => {
                assert(log_deltas(log.drop_last()) + Seq::<StreamDeltaView>::empty()
                    =~= log_deltas(log.drop_last()));
            },
        }
    }
}

impl<Impl: ExtendedGuest> DurableChatStream<Impl> {
    /// Replaying is repeatable. Two replays of one record, by streams that
    /// were opened for the same conversation, hand out the same events, those
    /// of the record, and leave the streams with the same received response,
    /// finished or not alike, and with the same next step. The handles that
    /// were given out have no part in it.
    pub proof fn lemma_replay_twice(
        first: DurableView<Impl::ChatStream, Impl::Config>,
        second: DurableView<Impl::ChatStream, Impl::Config>,
        log: Seq<Option<Seq<StreamEventView>>>,
    )
        requires
            first is Replay,
            second is Replay,
            first->original_messages == second->original_messages,
            first->partial_result == second->partial_result,
            first->finished == second->finished,
        ensures
            replay_outputs(first, log) == log,
            replay_outputs(second, log) == replay_outputs(first, log),
            replay_log(first, log)->partial_result == replay_log(second, log)->partial_result,
            replay_log(first, log)->finished == replay_log(second, log)->finished,
            Self::step_of(replay_log(first, log)) == Self::step_of(replay_log(second, log)),
    {
        lemma_replay_hands_out_the_record(first, log);
        lemma_replay_hands_out_the_record(second, log);
        lemma_replay_log(first, log);
        lemma_replay_log(second, log);
    }

    /// The replay of a record that holds an event that ends the response
    /// makes no call. While the record is replayed the stream only hands out
    /// its entries, as they are; after it the stream has nothing more and
    /// asks for no live call, however often it is asked.
    pub proof fn lemma_finished_replay_makes_no_call(
        v: DurableView<Impl::ChatStream, Impl::Config>,
        log: Seq<Option<Seq<StreamEventView>>>,
    )
        requires
            v is Replay,
            log_ends(log),
        ensures
            replay_outputs(v, log) == log,
            replay_log(v, log) is Replay,
            Self::step_of(replay_log(v, log)) == StepView::Exhausted,
    {
        lemma_replay_log(v, log);
        lemma_replay_hands_out_the_record(v, log);
    }

    /// After the replay of a record that holds no event that ends the
    /// response, a stream that had received nothing before asks for one live
    /// call, with the prompt for the conversation it was opened with and the
    /// deltas of the record in their order. Once it has gone over to that
    /// call, it only polls it.
    pub proof fn lemma_unfinished_replay_resumes(
        v: DurableView<Impl::ChatStream, Impl::Config>,
        log: Seq<Option<Seq<StreamEventView>>>,
        stream: Impl::ChatStream,
    )
        requires
            v is Replay,
            v->partial_result == Seq::<StreamDeltaView>::empty(),
            !v->finished,
            !log_ends(log),
        ensures
            Self::step_of(replay_log(v, log)) == StepView::Resume(
                Impl::prompt(v->original_messages, log_deltas(log)),
            ),
            Self::step_of(
                DurableView::<Impl::ChatStream, Impl::Config>::Live {
                    stream,
                    pollables: replay_log(v, log)->Replay_pollables,
                },
            ) == StepView::Poll,
    {
        lemma_replay_log(v, log);
        assert(v->partial_result + log_deltas(log) =~= log_deltas(log));
    }
}

/// The prompt that continues an interrupted response holds the conversation
/// as it was, after its first two messages, and ends with a message of the
/// user that holds the note and then what was received.
pub proof fn lemma_default_prompt_shape(original: Seq<MessageView>, partial: Seq<StreamDeltaView>)
    ensures
        default_prompt(original, partial).len() == original.len() + 3,
        default_prompt(original, partial)[0].role == Role::System,
        default_prompt(original, partial)[1].role == Role::User,
        default_prompt(original, partial).subrange(2, original.len() as int + 2) == original,
        default_prompt(original, partial).last().role == Role::User,
        default_prompt(original, partial).last().content == seq![
            ContentPartView::Text(partial_note()),
        ] + partial_parts(partial),
{
    assert(default_prompt(original, partial).subrange(2, original.len() as int + 2) =~= original);
}

} // verus!
