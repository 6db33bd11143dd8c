use llm_stream::event_stream::{EventStream, EventStreamState};
use llm_stream::message_event::MessageEvent;
use llm_stream::stream::{Input, StreamError, StreamPoll, TransportError};
use llm_stream::utf8_stream::Utf8Error;

fn chunk(text: &str) -> Input {
    Input::Chunk(text.as_bytes().to_vec())
}

fn message(data: &str, id: &str) -> MessageEvent {
    MessageEvent {
        event: "message".to_string(),
        data: data.to_string(),
        id: id.to_string(),
        retry: None,
    }
}

/// Hands the chunks to a new stream as it asks for them and gathers what it
/// hands out until it asks for a read that no chunk is left for.
fn run(chunks: &[&str]) -> Vec<MessageEvent> {
    let mut stream = EventStream::new();
    let mut events = Vec::new();
    let mut next = 0;
    let mut poll = stream.poll_next();
    loop {
        match poll {
            StreamPoll::Ready(Some(Ok(event))) => {
                events.push(event);
                poll = stream.poll_next();
            }
            StreamPoll::Read => {
                if next == chunks.len() {
                    return events;
                }
                poll = stream.poll_input(chunk(chunks[next]));
                next += 1;
            }
            other => panic!("unexpected poll: {:?}", other),
        }
    }
}

#[test]
fn three_chunks_give_two_events() {
    let events = run(&["data: he", "llo\n\n", "data: world\n\n"]);
    assert_eq!(events, vec![message("hello", ""), message("world", "")]);
}

#[test]
fn one_chunk_gives_the_same_events() {
    let split = run(&["data: he", "llo\n\n", "data: world\n\n"]);
    let whole = run(&["data: hello\n\ndata: world\n\n"]);
    assert_eq!(split, whole);
}

#[test]
fn every_split_point_gives_the_same_events() {
    let text = "event: add\ndata: 1\r\ndata: 2\rid: 7\n\n: note\ndata: \u{e9}t\u{e9}\nretry: 30\n\n";
    let bytes = text.as_bytes();
    let whole = {
        let mut stream = EventStream::new();
        let mut events = Vec::new();
        let mut poll = stream.poll_input(Input::Chunk(bytes.to_vec()));
        while let StreamPoll::Ready(Some(Ok(event))) = poll {
            events.push(event);
            poll = stream.poll_next();
        }
        assert_eq!(poll, StreamPoll::Read);
        events
    };
    assert_eq!(
        whole,
        vec![
            MessageEvent {
                event: "add".to_string(),
                data: "1\n2".to_string(),
                id: "7".to_string(),
                retry: None,
            },
            MessageEvent {
                event: "message".to_string(),
                data: "\u{e9}t\u{e9}".to_string(),
                id: "7".to_string(),
                retry: Some(30),
            },
        ]
    );
    for cut in 0..=bytes.len() {
        let mut stream = EventStream::new();
        let mut events = Vec::new();
        for part in [&bytes[..cut], &bytes[cut..]] {
            let mut poll = stream.poll_input(Input::Chunk(part.to_vec()));
            while let StreamPoll::Ready(Some(Ok(event))) = poll {
                events.push(event);
                poll = stream.poll_next();
            }
            assert_eq!(poll, StreamPoll::Read);
        }
        assert_eq!(events, whole, "cut at {}", cut);
    }
}

#[test]
fn clean_end_after_a_terminated_block() {
    let mut stream = EventStream::new();
    let poll = stream.poll_input(chunk("data: a\n\n"));
    assert_eq!(poll, StreamPoll::Ready(Some(Ok(message("a", "")))));
    assert_eq!(stream.poll_next(), StreamPoll::Read);
    assert_eq!(stream.poll_input(Input::Closed), StreamPoll::Ready(None));
    assert_eq!(stream.state(), EventStreamState::Terminated);
    assert_eq!(stream.poll_next(), StreamPoll::Ready(None));
}

#[test]
fn end_within_a_field_hands_out_nothing() {
    let mut stream = EventStream::new();
    assert_eq!(stream.poll_input(chunk("data: a\n\ndata: tor")), StreamPoll::Ready(Some(Ok(message("a", "")))));
    assert_eq!(stream.poll_next(), StreamPoll::Read);
    assert_eq!(stream.poll_input(Input::Closed), StreamPoll::Ready(None));
    assert_eq!(stream.poll_next(), StreamPoll::Ready(None));
}

#[test]
fn end_after_data_without_a_blank_line_hands_out_nothing() {
    let mut stream = EventStream::new();
    assert_eq!(stream.poll_input(chunk("data: whole line\n")), StreamPoll::Read);
    assert_eq!(stream.poll_input(Input::Closed), StreamPoll::Ready(None));
    assert_eq!(stream.poll_next(), StreamPoll::Ready(None));
}

#[test]
fn a_lone_carriage_return_waits_for_the_next_character() {
    let mut stream = EventStream::new();
    assert_eq!(stream.poll_input(chunk("data: x\r")), StreamPoll::Read);
    assert_eq!(stream.poll_input(chunk("\n\r")), StreamPoll::Read);
    assert_eq!(
        stream.poll_input(chunk("\n")),
        StreamPoll::Ready(Some(Ok(message("x", ""))))
    );
}

#[test]
fn a_byte_order_mark_at_the_start_is_dropped() {
    let events = run(&["\u{feff}data: a\n\n", "\u{feff}data: b\n\n"]);
    assert_eq!(events, vec![message("a", "")]);
}

#[test]
fn the_id_stays_until_it_is_set_again() {
    let events = run(&["id: 1\ndata: a\n\ndata: b\n\nid\ndata: c\n\n"]);
    assert_eq!(events, vec![message("a", "1"), message("b", "1"), message("c", "")]);
    let mut stream = EventStream::new();
    let _ = stream.poll_input(chunk("id: 9\ndata: a\n\n"));
    assert_eq!(stream.last_event_id(), "9");
}

#[test]
fn an_id_with_a_nul_is_ignored() {
    let events = run(&["id: 1\ndata: a\n\nid: 2\u{0}\ndata: b\n\n"]);
    assert_eq!(events, vec![message("a", "1"), message("b", "1")]);
}

#[test]
fn an_event_without_data_is_not_handed_out() {
    let events = run(&["event: ping\n\ndata: a\n\n"]);
    assert_eq!(events, vec![message("a", "")]);
}

#[test]
fn retry_takes_digits_only() {
    let events = run(&["retry: 15\ndata: a\n\nretry: +15\ndata: b\n\nretry: 99999999999999999999\ndata: c\n\n"]);
    assert_eq!(events[0].retry, Some(15));
    assert_eq!(events[1].retry, None);
    assert_eq!(events[2].retry, None);
}

#[test]
fn only_one_space_after_the_colon_is_dropped() {
    let events = run(&["data:  two\ndata:none\ndata\n\n"]);
    assert_eq!(events, vec![message(" two\nnone\n", "")]);
}

#[test]
fn malformed_bytes_are_an_error() {
    let mut stream = EventStream::new();
    assert_eq!(
        stream.poll_input(Input::Chunk(vec![0xff, b'a'])),
        StreamPoll::Ready(Some(Err(StreamError::Utf8(Utf8Error::Malformed))))
    );
}

#[test]
fn end_inside_a_character_is_an_error() {
    let mut stream = EventStream::new();
    assert_eq!(stream.poll_input(Input::Chunk(vec![b'd', 0xc3])), StreamPoll::Read);
    assert_eq!(
        stream.poll_input(Input::Closed),
        StreamPoll::Ready(Some(Err(StreamError::Utf8(Utf8Error::Truncated))))
    );
    assert_eq!(stream.poll_next(), StreamPoll::Ready(None));
}

#[test]
fn a_failed_read_is_handed_on() {
    let mut stream = EventStream::new();
    assert_eq!(
        stream.poll_input(Input::Failed(TransportError::LastOperationFailed("reset".to_string()))),
        StreamPoll::Ready(Some(Err(StreamError::Transport(TransportError::LastOperationFailed(
            "reset".to_string()
        )))))
    );
    assert_eq!(stream.poll_input(Input::Pending), StreamPoll::Pending);
}

#[test]
fn every_split_point_gives_the_same_events_behind_a_byte_order_mark() {
    let text = "\u{feff}id: 1\ndata: a\n\ndata: b\r\n\r\n";
    let bytes = text.as_bytes();
    let expected = vec![message("a", "1"), message("b", "1")];
    for first in 0..=bytes.len() {
        for second in first..=bytes.len() {
            let mut stream = EventStream::new();
            let mut events = Vec::new();
            for part in [&bytes[..first], &bytes[first..second], &bytes[second..]] {
                let mut poll = stream.poll_input(Input::Chunk(part.to_vec()));
                loop {
                    match poll {
                        StreamPoll::Ready(Some(Ok(event))) => {
                            events.push(event);
                            poll = stream.poll_next();
                        }
                        StreamPoll::Read => break,
                        other => panic!("unexpected poll: {:?}", other),
                    }
                }
                assert_eq!(stream.poll_input(Input::Pending), StreamPoll::Pending);
            }
            assert_eq!(events, expected, "cuts at {} and {}", first, second);
        }
    }
}
