use rtok::wire::{is_event_stream, sse_data, stream_usage, Usage};

#[test]
fn event_payloads_skip_blanks_and_the_done_marker() {
    let text = "event: message_start\ndata: {\"a\":1}\n\ndata:   \ndata: [DONE]\n: comment\ndata:{\"b\":2}  \r\n";
    assert_eq!(sse_data(text), vec!["{\"a\":1}", "{\"b\":2}"]);
    assert!(sse_data("").is_empty());
}

#[test]
fn a_stream_keeps_the_latest_value_of_each_counter() {
    let u = |input, cache_create, cache_read, output| Usage { input, cache_create, cache_read, output };
    let events = vec![Some(u(10, 5, 0, 1)), None, Some(u(0, 0, 3, 7)), Some(u(12, 0, 0, 0))];
    assert_eq!(stream_usage(&events), Some(u(12, 5, 3, 7)));
    assert_eq!(stream_usage(&[None, None]), None);
    assert_eq!(stream_usage(&[Some(u(0, 0, 0, 0))]), Some(u(0, 0, 0, 0)), "an event with usage counts even at zero");
}

#[test]
fn only_event_streams_are_read_line_by_line() {
    assert!(is_event_stream(Some("text/event-stream; charset=utf-8")));
    assert!(!is_event_stream(Some("application/json")));
    assert!(!is_event_stream(None));
}
