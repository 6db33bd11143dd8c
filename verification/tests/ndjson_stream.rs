use llm_stream::message_event::MessageEvent;
use llm_stream::ndjson_stream::{try_parse_line, NdJsonStream, NdJsonStreamState};
use llm_stream::stream::{Input, StreamError, StreamPoll};
use llm_stream::utf8_stream::Utf8Error;

fn chunk(text: &str) -> Input {
    Input::Chunk(text.as_bytes().to_vec())
}

fn line(data: &str) -> MessageEvent {
    MessageEvent {
        event: "message".to_string(),
        data: data.to_string(),
        id: String::new(),
        retry: None,
    }
}

/// Hands the chunks to a new stream as it asks for them, then the end of
/// the body, and gathers what the stream hands out.
fn run(chunks: &[&str]) -> Vec<MessageEvent> {
    let mut stream = NdJsonStream::new();
    let mut events = Vec::new();
    let mut next = 0;
    let mut poll = stream.poll_next();
    loop {
        match poll {
            StreamPoll::Ready(Some(Ok(event))) => {
                events.push(event);
                poll = stream.poll_next();
            }
            StreamPoll::Ready(None) => return events,
            StreamPoll::Read => {
                if next == chunks.len() {
                    poll = stream.poll_input(Input::Closed);
                } else {
                    poll = stream.poll_input(chunk(chunks[next]));
                    next += 1;
                }
            }
            other => panic!("unexpected poll: {:?}", other),
        }
    }
}

#[test]
fn unterminated_last_line_is_salvaged() {
    let events = run(&["{\"a\":1}\n{\"a\":2}"]);
    assert_eq!(events, vec![line("{\"a\":1}"), line("{\"a\":2}")]);
}

#[test]
fn terminated_lines_give_exactly_two_events() {
    let events = run(&["{\"a\":1}\n{\"a\":2}\n"]);
    assert_eq!(events, vec![line("{\"a\":1}"), line("{\"a\":2}")]);
}

#[test]
fn blank_lines_are_skipped() {
    let events = run(&["a\n\n  \nb\r\nc\n", "\n"]);
    assert_eq!(events, vec![line("a"), line("b"), line("c")]);
}

#[test]
fn a_blank_remainder_is_not_an_event() {
    assert_eq!(run(&["a\n  \t "]), vec![line("a")]);
    assert_eq!(run(&[]), Vec::<MessageEvent>::new());
}

#[test]
fn lines_split_over_chunks_are_put_together() {
    let events = run(&["{\"a\"", ":1}\n{\"b", "\":2}\n"]);
    assert_eq!(events, vec![line("{\"a\":1}"), line("{\"b\":2}")]);
}

#[test]
fn every_split_point_gives_the_same_lines() {
    let text = "{\"a\":\"\u{e9}\"}\n\n {\"b\":2} \n{\"c\":3}";
    let bytes = text.as_bytes();
    let whole = run(&[text]);
    assert_eq!(whole, vec![line("{\"a\":\"\u{e9}\"}"), line("{\"b\":2}"), line("{\"c\":3}")]);
    for cut in 0..=bytes.len() {
        let mut stream = NdJsonStream::new();
        let mut events = Vec::new();
        for input in [
            Input::Chunk(bytes[..cut].to_vec()),
            Input::Chunk(bytes[cut..].to_vec()),
            Input::Closed,
        ] {
            let mut poll = stream.poll_input(input);
            while let StreamPoll::Ready(Some(Ok(event))) = poll {
                events.push(event);
                poll = stream.poll_next();
            }
        }
        assert_eq!(events, whole, "cut at {}", cut);
    }
}

#[test]
fn events_carry_the_last_event_id() {
    let mut stream = NdJsonStream::new();
    stream.set_last_event_id("7".to_string());
    assert_eq!(stream.last_event_id(), "7");
    let poll = stream.poll_input(chunk("x\n"));
    assert_eq!(
        poll,
        StreamPoll::Ready(Some(Ok(MessageEvent {
            event: "message".to_string(),
            data: "x".to_string(),
            id: "7".to_string(),
            retry: None,
        })))
    );
}

#[test]
fn try_parse_line_takes_one_line() {
    let mut stream = NdJsonStream::new();
    assert_eq!(stream.poll_input(chunk("\n a \nb\nc")), StreamPoll::Ready(Some(Ok(line("a")))));
    assert_eq!(try_parse_line(&mut stream), Ok(Some(line("b"))));
    assert_eq!(try_parse_line(&mut stream), Ok(None));
    assert_eq!(try_parse_line(&mut stream), Ok(None));
    assert_eq!(stream.poll_input(Input::Closed), StreamPoll::Ready(Some(Ok(line("c")))));
    assert_eq!(stream.poll_next(), StreamPoll::Ready(None));
}

#[test]
fn the_state_follows_the_body() {
    let mut stream = NdJsonStream::new();
    assert!(!stream.state().is_terminated());
    assert_eq!(stream.state(), NdJsonStreamState::NotStarted);
    assert_eq!(stream.poll_input(Input::Pending), StreamPoll::Pending);
    assert_eq!(stream.poll_input(Input::Chunk(Vec::new())), StreamPoll::Read);
    assert_eq!(stream.state(), NdJsonStreamState::NotStarted);
    assert_eq!(stream.poll_input(chunk("a")), StreamPoll::Read);
    assert_eq!(stream.state(), NdJsonStreamState::Started);
    assert_eq!(stream.poll_input(Input::Closed), StreamPoll::Ready(Some(Ok(line("a")))));
    assert!(stream.state().is_terminated());
    assert_eq!(stream.poll_input(chunk("late\n")), StreamPoll::Ready(None));
}

#[test]
fn end_inside_a_character_is_an_error_and_the_text_is_still_salvaged() {
    let mut stream = NdJsonStream::new();
    assert_eq!(stream.poll_input(Input::Chunk(vec![b'a', 0xe2, 0x82])), StreamPoll::Read);
    assert_eq!(
        stream.poll_input(Input::Closed),
        StreamPoll::Ready(Some(Err(StreamError::Utf8(Utf8Error::Truncated))))
    );
    assert_eq!(stream.poll_next(), StreamPoll::Ready(Some(Ok(line("a")))));
    assert_eq!(stream.poll_next(), StreamPoll::Ready(None));
}
