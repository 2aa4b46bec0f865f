use shelly_rpc::chunked::{parse_chunk_size, ChunkDecoder, ChunkOutcome};
use shelly_rpc::log_stream::{
    header_end, log_request, log_target, log_target_from_parts, LogTargetError, UrlParts,
};
use shelly_rpc::upload::{code_chunks, pick_chunk_len};

#[test]
fn single_complete_chunk() {
    let mut d = ChunkDecoder::new();
    let mut out: Vec<u8> = Vec::new();
    assert_eq!(d.feed(b"5\r\nhello\r\n", &mut out), ChunkOutcome::Continue);
    assert_eq!(out, b"hello");
    assert!(d.buf.is_empty());
}

#[test]
fn chunk_split_across_feeds() {
    let mut d = ChunkDecoder::new();
    let mut out: Vec<u8> = Vec::new();
    assert_eq!(d.feed(b"5\r\n", &mut out), ChunkOutcome::Continue);
    assert!(out.is_empty());
    assert_eq!(d.feed(b"hel", &mut out), ChunkOutcome::Continue);
    assert!(out.is_empty());
    assert_eq!(d.feed(b"lo\r\n", &mut out), ChunkOutcome::Continue);
    assert_eq!(out, b"hello");
}

#[test]
fn terminator_chunk() {
    let mut d = ChunkDecoder::new();
    let mut out: Vec<u8> = Vec::new();
    assert_eq!(d.feed(b"0\r\n\r\n", &mut out), ChunkOutcome::Terminated);
    assert!(d.buf.is_empty());
}

#[test]
fn malformed_size_clears_buffer() {
    let mut d = ChunkDecoder::new();
    let mut out: Vec<u8> = Vec::new();
    assert_eq!(
        d.feed(b"zz\r\n", &mut out),
        ChunkOutcome::Malformed("invalid chunk size")
    );
    assert!(d.buf.is_empty());
}

#[test]
fn non_utf8_size_clears_buffer() {
    let mut d = ChunkDecoder::new();
    let mut out: Vec<u8> = Vec::new();
    assert_eq!(
        d.feed(&[0xFF, 0xFE, b'\r', b'\n'], &mut out),
        ChunkOutcome::Malformed("non-UTF8 chunk size")
    );
    assert!(d.buf.is_empty());
}

#[test]
fn several_chunks_in_one_feed_keep_partial_tail() {
    let mut d = ChunkDecoder::new();
    let mut out: Vec<u8> = Vec::new();
    assert_eq!(
        d.feed(b"3\r\nabc\r\nA\r\n0123456789\r\n2\r\nx", &mut out),
        ChunkOutcome::Continue
    );
    assert_eq!(out, b"abc0123456789");
    assert_eq!(d.buf, b"2\r\nx");
    assert_eq!(d.feed(b"y\r\n0\r\n\r\n", &mut out), ChunkOutcome::Terminated);
    assert_eq!(out, b"abc0123456789xy");
    assert!(d.buf.is_empty());
}

#[test]
fn feeding_byte_by_byte_matches_one_feed() {
    let stream: &[u8] = b"4\r\nWiki\r\n5\r\npedia\r\nE\r\n in\r\n\r\nchunks.\r\n0\r\n\r\n";
    let mut whole = ChunkDecoder::new();
    let mut whole_out = Vec::new();
    let whole_outcome = whole.feed(stream, &mut whole_out);
    let mut split = ChunkDecoder::new();
    let mut split_out = Vec::new();
    let mut last = ChunkOutcome::Continue;
    for b in stream {
        last = split.feed(&[*b], &mut split_out);
        if last != ChunkOutcome::Continue {
            break;
        }
    }
    assert_eq!(whole_outcome, ChunkOutcome::Terminated);
    assert_eq!(last, whole_outcome);
    assert_eq!(split_out, whole_out);
    assert_eq!(whole_out, b"Wikipedia in\r\n\r\nchunks.");
}

#[test]
fn chunk_size_line_forms() {
    assert_eq!(parse_chunk_size(" 1a \t"), Some(26));
    assert_eq!(parse_chunk_size("+F"), Some(15));
    assert_eq!(parse_chunk_size("+"), None);
    assert_eq!(parse_chunk_size(""), None);
    assert_eq!(parse_chunk_size("-1"), None);
    assert_eq!(parse_chunk_size("5;ext"), None);
    assert_eq!(parse_chunk_size("\u{a0}10"), Some(16));
    assert_eq!(parse_chunk_size("1ffffffffffffffffffff"), None);
}

#[test]
fn shorter_than_max_returns_whole_length() {
    assert_eq!(pick_chunk_len("hello", 100), 5);
}

#[test]
fn ascii_exactly_at_max() {
    assert_eq!(pick_chunk_len("abcdefgh", 4), 4);
}

#[test]
fn walks_back_off_utf8_boundary() {
    let s = "aaaä";
    assert_eq!(s.len(), 5);
    assert_eq!(pick_chunk_len(s, 4), 3);
}

#[test]
fn single_multibyte_bigger_than_max_still_advances() {
    let s = "𝕏";
    assert_eq!(s.len(), 4);
    assert_eq!(pick_chunk_len(s, 2), 4);
}

#[test]
fn boundary_hit_returns_max() {
    let s = "aé";
    assert_eq!(s.len(), 3);
    assert_eq!(pick_chunk_len(s, 3), 3);
}

#[test]
fn returns_at_least_one() {
    assert!(pick_chunk_len("x", 1) >= 1);
}

#[test]
fn zero_budget_takes_first_character() {
    assert_eq!(pick_chunk_len("éa", 0), 2);
    assert_eq!(pick_chunk_len("", 0), 0);
}

#[test]
fn code_chunks_cover_source() {
    assert_eq!(code_chunks("", 4000), vec![(0, 0)]);
    assert_eq!(code_chunks("abcdefghij", 4), vec![(0, 4), (4, 8), (8, 10)]);
    let s = "aaaäbb";
    assert_eq!(code_chunks(s, 4), vec![(0, 3), (3, 7)]);
    let joined: String = code_chunks(s, 4).iter().map(|&(a, b)| &s[a..b]).collect();
    assert_eq!(joined, s);
}

#[test]
fn log_target_accepts_bare_hosts() {
    assert_eq!(log_target("192.168.1.50").ok(), Some("192.168.1.50:80".to_string()));
    assert_eq!(log_target("http://dev.local:8080").ok(), Some("dev.local:8080".to_string()));
    assert_eq!(log_target("https://dev.local/").ok(), Some("dev.local:443".to_string()));
    // `host_str` keeps the brackets of an IPv6 host, and the colon test adds another pair.
    assert_eq!(log_target("[::1]").ok(), Some("[[::1]]:80".to_string()));
}

#[test]
fn log_target_rejects_extras() {
    assert!(matches!(log_target("dev.local/x"), Err(LogTargetError::HasPath(p)) if p == "/x"));
    assert!(matches!(log_target("dev.local/?a=1"), Err(LogTargetError::HasQuery)));
    assert!(matches!(log_target("dev.local#f"), Err(LogTargetError::HasFragment)));
    assert!(matches!(log_target("http://"), Err(LogTargetError::InvalidHost(_))));
}

#[test]
fn log_request_text() {
    assert_eq!(
        log_request("10.0.0.2:80"),
        "GET /debug/log HTTP/1.1\r\nHost: 10.0.0.2:80\r\nAccept: text/plain\r\n\r\n"
    );
}

#[test]
fn header_end_finds_body() {
    assert_eq!(header_end(b"HTTP/1.1 200 OK\r\nA: b\r\n\r\n5\r\n"), Some(25));
    assert_eq!(header_end(b"HTTP/1.1 200 OK\r\n"), None);
    assert_eq!(header_end(b"\r\n\r"), None);
    assert_eq!(header_end(b"\r\n\r\n"), Some(4));
}

#[test]
fn log_target_from_parts_cases() {
    let parts = |path: &str, host: Option<&str>, port: Option<u16>| UrlParts {
        path: path.to_string(),
        query: None,
        fragment: None,
        host: host.map(str::to_string),
        port,
    };
    assert!(matches!(
        log_target_from_parts(&parts("/", None, Some(80))),
        Err(LogTargetError::MissingHost)
    ));
    assert_eq!(log_target_from_parts(&parts("", Some("h"), None)).ok(), Some("h:80".to_string()));
    assert_eq!(
        log_target_from_parts(&parts("/", Some("fe80::1"), Some(8080))).ok(),
        Some("[fe80::1]:8080".to_string())
    );
    let mut with_query = parts("/", Some("h"), None);
    with_query.query = Some(String::new());
    assert!(matches!(log_target_from_parts(&with_query), Err(LogTargetError::HasQuery)));
}

#[test]
fn stream_cut_anywhere_continues_until_terminated() {
    let data: [&[u8]; 3] = [b"hello", b" wide world of logs\n", &[b'x'; 20]];
    let mut stream = Vec::new();
    for d in data {
        stream.extend_from_slice(format!("{:x}\r\n", d.len()).as_bytes());
        stream.extend_from_slice(d);
        stream.extend_from_slice(b"\r\n");
    }
    stream.extend_from_slice(b"0\r\n\r\n");
    let want: Vec<u8> = data.concat();
    for step in 1..=stream.len() {
        let mut dec = ChunkDecoder::new();
        let mut out = Vec::new();
        let mut outcomes = Vec::new();
        for piece in stream.chunks(step) {
            let r = dec.feed(piece, &mut out);
            let done = r != ChunkOutcome::Continue;
            outcomes.push(r);
            if done {
                break;
            }
        }
        let (last, earlier) = outcomes.split_last().unwrap();
        assert_eq!(*last, ChunkOutcome::Terminated);
        assert!(earlier.iter().all(|o| *o == ChunkOutcome::Continue));
        assert_eq!(out, want);
    }
}
