use chat_relay::framing::{decode_chunk, payload_of};
use chat_relay::signal::{classify_record, extract_content, interpret, Signal};
use chat_relay::json::Json;
use chat_relay::parse::parse_document;

fn payloads(chunk: &str) -> Vec<String> {
    decode_chunk(chunk.as_bytes()).into_iter().map(|p| String::from_utf8(p).unwrap()).collect()
}

#[test]
fn chunk_is_cut_at_blank_lines() {
    assert_eq!(payloads("data: a\n\ndata: b\n\n"), vec!["a", "b"]);
    assert_eq!(payloads("data: a\n\ndata: b"), vec!["a", "b"]);
    assert_eq!(payloads("data: a\ndata: b\n\n"), vec!["a\ndata: b"]);
    assert_eq!(payloads(""), Vec::<String>::new());
    assert_eq!(payloads("\n\n"), Vec::<String>::new());
}

#[test]
fn blank_lines_are_taken_from_the_left() {
    // Three line feeds: the first two are the blank line, the third opens
    // the next block, which is then no record.
    assert_eq!(payloads("data: a\n\n\ndata: b\n\n"), vec!["a"]);
    assert_eq!(payloads("data: a\n\n\n\ndata: b"), vec!["a", "b"]);
}

#[test]
fn blocks_without_the_marker_are_dropped() {
    assert_eq!(payloads(": keep-alive\n\ndata: x\n\nevent: ping\n\n"), vec!["x"]);
    assert_eq!(payloads(" data: x\n\n"), Vec::<String>::new());
    assert_eq!(payloads("dat\n\n"), Vec::<String>::new());
    assert_eq!(payloads("DATA: x\n\n"), Vec::<String>::new());
}

#[test]
fn marker_and_blanks_are_stripped() {
    assert_eq!(payloads("data:x\n\n"), vec!["x"]);
    assert_eq!(payloads("data: \t x y \r\n\n"), vec!["x y"]);
    assert_eq!(payloads("data:\n\n"), vec![""]);
    assert_eq!(payloads("data:   \n\n"), vec![""]);
    assert_eq!(payloads("data: data: x\n\n"), vec!["data: x"]);
}

#[test]
fn payload_of_a_block() {
    assert_eq!(payload_of(b"data: [DONE]"), Some(b"[DONE]".to_vec()));
    assert_eq!(payload_of(b"data:"), Some(Vec::new()));
    assert_eq!(payload_of(b"data"), None);
    assert_eq!(payload_of(b""), None);
    assert_eq!(payload_of(b"id: 1"), None);
    assert_eq!(payload_of(b"data: \xff "), Some(vec![0xffu8]));
}

#[test]
fn sentinel_terminates() {
    assert_eq!(interpret(b"[DONE]"), Signal::Terminate);
    assert_eq!(interpret(b"[done]"), Signal::Ignore);
    assert_eq!(interpret(b"[DONE] "), Signal::Ignore);
}

#[test]
fn content_becomes_a_fragment() {
    assert_eq!(
        interpret(b"{\"choices\":[{\"delta\":{\"content\":\"Hi\"}}]}"),
        Signal::Fragment("Hi".to_string())
    );
    assert_eq!(
        interpret(b"{\"choices\":[{\"delta\":{\"content\":\"\"}},{\"delta\":{\"content\":\"second\"}}]}"),
        Signal::Fragment(String::new())
    );
    assert_eq!(
        interpret(b"  {\"id\":7,\"choices\":[{\"index\":0,\"delta\":{\"content\":\"a\\nb\"},\"x\":1.5e3}]} "),
        Signal::Fragment("a\nb".to_string())
    );
}

#[test]
fn records_without_content_are_ignored() {
    for payload in [
        "{\"choices\":[{\"delta\":{\"role\":\"assistant\"}}]}",
        "{\"choices\":[]}",
        "{\"choices\":{\"delta\":{\"content\":\"x\"}}}",
        "{\"choices\":[{\"delta\":{\"content\":null}}]}",
        "{\"choices\":[{\"delta\":{\"content\":5}}]}",
        "{\"choices\":[{\"delta\":\"content\"}]}",
        "{\"choice\":[{\"delta\":{\"content\":\"x\"}}]}",
        "[{\"delta\":{\"content\":\"x\"}}]",
        "\"text\"",
        "{}",
        "{not json",
        "",
    ] {
        assert_eq!(interpret(payload.as_bytes()), Signal::Ignore, "{}", payload);
    }
}

#[test]
fn malformed_bytes_are_replaced_in_the_text() {
    let mut payload = b"{\"choices\":[{\"delta\":{\"content\":\"a".to_vec();
    payload.push(0xff);
    payload.extend_from_slice(b"b\"}}]}");
    assert_eq!(interpret(&payload), Signal::Fragment("a\u{fffd}b".to_string()));
    assert_eq!(
        interpret("{\"choices\":[{\"delta\":{\"content\":\"\u{4f60}\u{597d}\"}}]}".as_bytes()),
        Signal::Fragment("\u{4f60}\u{597d}".to_string())
    );
}

#[test]
fn classify_goes_by_text_and_document() {
    let doc = parse_document("{\"choices\":[{\"delta\":{\"content\":\"x\"}}]}").unwrap();
    assert_eq!(classify_record("anything", Some(&doc)), Signal::Fragment("x".to_string()));
    assert_eq!(classify_record("[DONE]", Some(&doc)), Signal::Terminate);
    assert_eq!(classify_record("[DONE]", None), Signal::Terminate);
    assert_eq!(classify_record("anything", None), Signal::Ignore);
    assert_eq!(classify_record("anything", Some(&Json::Null)), Signal::Ignore);
    assert_eq!(extract_content(&doc), Some("x"));
    assert_eq!(extract_content(&Json::Array(vec![])), None);
}

/// Framing written with the string functions of the standard library.
fn framed_by_std(chunk: &str) -> Vec<String> {
    let blank = |c: char| c == ' ' || c == '\t' || c == '\n' || c == '\r';
    chunk
        .split("\n\n")
        .filter_map(|block| block.strip_prefix("data:"))
        .map(|rest| rest.trim_matches(blank).to_string())
        .collect()
}

fn all_chunks(pieces: &[&str], most: usize) -> Vec<String> {
    let mut all = vec![String::new()];
    let mut last = vec![String::new()];
    for _ in 0..most {
        let mut next = Vec::new();
        for start in &last {
            for piece in pieces {
                next.push(format!("{}{}", start, piece));
            }
        }
        all.extend(next.iter().cloned());
        last = next;
    }
    all
}

#[test]
fn framing_agrees_with_the_standard_library() {
    let chunks = all_chunks(&["data:", "\n", " ", "x", "\r"], 6);
    assert_eq!(chunks.len(), 19531);
    for chunk in chunks {
        assert_eq!(payloads(&chunk), framed_by_std(&chunk), "{:?}", chunk);
    }
}

#[test]
fn chunks_that_end_with_a_block_frame_as_the_stream() {
    // Every first chunk here ends where a block ends, so nothing is lost by
    // framing the two chunks apart.
    let firsts = ["", "\n\n", "data: a\n\n", "x\n\ndata: b\n\n", "data: a\n\n\n\n"];
    for first in firsts {
        for second in all_chunks(&["data:", "\n", "y"], 5) {
            let mut apart = payloads(first);
            apart.extend(payloads(&second));
            let whole = format!("{}{}", first, second);
            assert_eq!(apart, payloads(&whole), "{:?} {:?}", first, second);
        }
    }
    // A first chunk that ends inside a block: the record is lost.
    assert_eq!(payloads("data: a\n"), vec!["a"]);
    assert_eq!(payloads("\ndata: b\n\n"), Vec::<String>::new());
    assert_eq!(payloads("data: a\n\ndata: b\n\n"), vec!["a", "b"]);
}
