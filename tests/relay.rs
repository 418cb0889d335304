use dev_report::{error_chunk, StreamChunk, StreamRelay};

fn run(pieces: &[&str]) -> Vec<StreamChunk> {
    let mut relay = StreamRelay::new();
    let mut out = Vec::new();
    for p in pieces {
        out.extend(relay.feed(p));
    }
    out.extend(relay.finish());
    out
}

#[test]
fn delta_then_done_marker() {
    let mut relay = StreamRelay::new();
    let mut out = relay.feed("data: {\"choices\":[{\"delta\":{\"content\":\"Hi\"}}]}\n");
    out.extend(relay.feed("data: [DONE]\n"));
    assert_eq!(out.len(), 2);
    assert_eq!(out[0].content, "Hi");
    assert!(!out[0].done);
    assert_eq!(out[0].error, None);
    assert_eq!(out[1].content, "");
    assert!(out[1].done);
    assert_eq!(out[1].error, None);
    assert!(relay.is_complete());
    assert!(relay.finish().is_empty());
}

#[test]
fn stream_without_done_marker_ends_once() {
    let out = run(&["data: {\"choices\":[{\"delta\":{\"content\":\"a\"}}]}\n", "data: {\"choices\":[]}\n"]);
    assert_eq!(out.len(), 2);
    assert_eq!(out[0].content, "a");
    assert_eq!(out.iter().filter(|c| c.done).count(), 1);
    assert!(out[1].done);
    assert_eq!(out[1].error, None);
}

#[test]
fn empty_stream_still_ends() {
    let out = run(&[]);
    assert_eq!(out.len(), 1);
    assert!(out[0].done);
}

#[test]
fn lines_split_across_pieces() {
    let out = run(&[
        "data: {\"choices\":[{\"delta\":",
        "{\"content\":\"He\"}}]}\n\nda",
        "ta: {\"choices\":[{\"delta\":{\"content\":\"llo\"}}]}\n",
        ": keep-alive\n",
        "data: [DONE]\ndata: {\"choices\":[{\"delta\":{\"content\":\"late\"}}]}\n",
    ]);
    let texts: Vec<&str> = out.iter().map(|c| c.content.as_str()).collect();
    assert_eq!(texts, vec!["He", "llo", ""]);
    assert!(out[2].done);
    assert_eq!(out.iter().filter(|c| c.done).count(), 1);
}

#[test]
fn unterminated_last_line_is_not_relayed() {
    let out = run(&["data: {\"choices\":[{\"delta\":{\"content\":\"x\"}}]}"]);
    assert_eq!(out.len(), 1);
    assert!(out[0].done);
}

#[test]
fn bad_json_and_other_lines_are_skipped() {
    let out = run(&["data: {not json}\nevent: ping\ndata:[DONE]\n  data: [DONE]  \n"]);
    assert_eq!(out.len(), 1);
    assert!(out[0].done);
    assert_eq!(out[0].content, "");
}

#[test]
fn bytes_are_decoded() {
    let mut relay = StreamRelay::new();
    let out = relay.feed_bytes("data: {\"choices\":[{\"delta\":{\"content\":\"é\"}}]}\n".as_bytes());
    assert_eq!(out.len(), 1);
    assert_eq!(out[0].content, "é");
}

#[test]
fn failure_is_one_terminal_error_chunk() {
    let mut relay = StreamRelay::new();
    let out = relay.fail("请求失败: timeout".to_string());
    assert_eq!(out.len(), 1);
    assert!(out[0].done);
    assert_eq!(out[0].error.as_deref(), Some("请求失败: timeout"));
    assert!(relay.finish().is_empty());
    assert!(relay.fail("again".to_string()).is_empty());
    let c = error_chunk("boom".to_string());
    assert!(c.done && c.content.is_empty());
}
