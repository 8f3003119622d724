use mcp_server_bridge::config::{
    arg_lookup_target, effective_mcp_args, rewritten_arg, Args, ProcessConfig,
};
use mcp_server_bridge::events::{
    closing_comment, endpoint_event, endpoint_url, forwarded_event, framed_line, keep_alive_text,
    reader_reaction, writer_reaction, ReaderAction, ReaderEvent, Received, SseOut, WriterAction,
    WriterEvent, BROADCAST_CAPACITY, KEEP_ALIVE_SECONDS, STDIN_QUEUE_CAPACITY,
};
use mcp_server_bridge::ids::{parse_session_id, session_id_text};
use mcp_server_bridge::request::{
    header_value_text, post_reply, requested_session_id, HeaderList, SessionQuery,
};
use mcp_server_bridge::text::{
    append_chars, append_str, chars_of, find_char, is_blank_str, is_ws_char, split_on,
    split_whitespace, starts_with_chars, string_of,
};
use mcp_server_bridge::url::{
    is_ipv4_host, is_ipv6_host, resolution_lookup_target, resolved_url,
};

fn s(x: &str) -> String {
    x.to_string()
}

fn strings(xs: &[&str]) -> Vec<String> {
    xs.iter().map(|x| x.to_string()).collect()
}

fn headers(pairs: &[(&str, &[u8])]) -> HeaderList {
    HeaderList { entries: pairs.iter().map(|(n, v)| (n.to_string(), v.to_vec())).collect() }
}

const SID: u128 = 0xa1a2a3a4b1b2c1c2d1d2d3d4d5d6d7d8;
const SID_TEXT: &str = "a1a2a3a4-b1b2-c1c2-d1d2-d3d4d5d6d7d8";

// ---- text ----

#[test]
fn chars_and_strings_round_trip() {
    let v = chars_of("héllo, wörld");
    assert_eq!(v.len(), 12);
    assert_eq!(string_of(&v), "héllo, wörld");
}

#[test]
fn blank_texts_are_whitespace_only() {
    assert!(is_blank_str(""));
    assert!(is_blank_str(" \t\n\r"));
    assert!(is_blank_str("\u{3000}\u{a0}\u{2028}"));
    assert!(!is_blank_str(" x "));
    assert!(!is_blank_str("\u{200b}"));
}

#[test]
fn split_whitespace_matches_std() {
    for t in ["", "  ", "a", " a  b\tc\n", "--x\u{3000}--y", "a b ", "  lead"] {
        let expected: Vec<String> = t.split_whitespace().map(|w| w.to_string()).collect();
        assert_eq!(split_whitespace(t), expected, "text {:?}", t);
    }
}

#[test]
fn split_on_matches_std() {
    for t in ["", ":", "a:b", "a::b:", "host"] {
        let expected: Vec<Vec<char>> = t.split(':').map(|w| w.chars().collect()).collect();
        assert_eq!(split_on(&chars_of(t), ':'), expected);
    }
}

#[test]
fn whitespace_chars_match_std() {
    for c in [' ', '\t', '\n', '\u{b}', '\u{c}', '\r', '\u{85}', '\u{a0}', '\u{1680}', '\u{2000}',
        '\u{200a}', '\u{2028}', '\u{2029}', '\u{202f}', '\u{205f}', '\u{3000}', 'a', '\u{200b}',
        '\u{180e}', '\u{feff}', '0', '\u{1f}'] {
        assert_eq!(is_ws_char(c), c.is_whitespace(), "char {:?}", c);
    }
}

#[test]
fn prefixes_and_appending() {
    assert!(starts_with_chars(&chars_of("--browser-url=x"), &chars_of("--browser-url=")));
    assert!(starts_with_chars(&chars_of("abc"), &chars_of("")));
    assert!(!starts_with_chars(&chars_of("ab"), &chars_of("abc")));
    assert!(!starts_with_chars(&chars_of("xbc"), &chars_of("ab")));
    let mut t = s("ab");
    append_str(&mut t, "cd");
    append_chars(&mut t, &chars_of("é"));
    assert_eq!(t, "abcdé");
}

#[test]
fn find_char_gives_first_position() {
    assert_eq!(find_char(&chars_of("a/b/c"), '/'), Some(1));
    assert_eq!(find_char(&chars_of("abc"), '/'), None);
}

// ---- url ----

#[test]
fn ipv4_literals() {
    assert!(is_ipv4_host(&chars_of("192.168.65.254")));
    assert!(is_ipv4_host(&chars_of("0.0.0.0")));
    assert!(is_ipv4_host(&chars_of("255.255.255.255")));
    assert!(!is_ipv4_host(&chars_of("256.1.1.1")));
    assert!(!is_ipv4_host(&chars_of("01.2.3.4")));
    assert!(!is_ipv4_host(&chars_of("1.2.3")));
    assert!(!is_ipv4_host(&chars_of("1.2.3.4.5")));
    assert!(!is_ipv4_host(&chars_of("1.2.3.")));
    assert!(!is_ipv4_host(&chars_of("1234.1.1.1")));
    assert!(!is_ipv4_host(&chars_of("host.docker.internal")));
    assert!(!is_ipv4_host(&chars_of("")));
}

#[test]
fn ipv6_literals() {
    for h in ["::", "::1", "1::", "fe80::1", "1:2:3:4:5:6:7:8", "1:2:3:4:5:6:7::", "::2:3:4:5:6:7:8",
        "::ffff:1.2.3.4", "1:2:3:4:5:6:1.2.3.4", "ABCD:ef01::", "0000::0"] {
        assert!(is_ipv6_host(&chars_of(h)), "{:?} is an IPv6 address", h);
    }
    for h in ["", ":", ":::", "1:::2", "1::2::3", ":1::", "1:2:3:4:5:6:7:8:9", "1:2:3:4:5:6:7",
        "1:2:3:4:5:6:7::8", "12345::", "g::", "::1.2.3", "1.2.3.4", "1.2.3.4::", "::1.2.3.4:5",
        "1:2:3:4:5:6:7:1.2.3.4", "1:2:3:4:5:6::1.2.3.4", "::01.2.3.4", "[::1]"] {
        assert!(!is_ipv6_host(&chars_of(h)), "{:?} is no IPv6 address", h);
    }
}

#[test]
fn bracketed_ipv6_url_is_kept() {
    for url in ["http://[::1]:9322", "http://[fe80::1]/json", "https://[::ffff:1.2.3.4]:1/p", "http://[::1]"] {
        assert_eq!(resolution_lookup_target(url), None, "url {:?}", url);
        assert_eq!(resolved_url(url, &Some(s("10.0.0.1"))), url);
    }
}

#[test]
fn bracketed_non_ipv6_url_is_looked_up() {
    assert_eq!(resolution_lookup_target("http://[::g]:9322"), Some(s("[::g]:9322")));
    assert_eq!(resolution_lookup_target("http://[::1]x:9322"), Some(s("[::1]x:9322")));
    assert_eq!(resolution_lookup_target("http://[1.2.3.4]:9322"), Some(s("[1.2.3.4]:9322")));
}

#[test]
fn docker_host_url_is_resolved() {
    let url = "http://host.docker.internal:9322";
    assert_eq!(resolution_lookup_target(url), Some(s("host.docker.internal:9322")));
    assert_eq!(resolved_url(url, &Some(s("192.168.65.254"))), "http://192.168.65.254:9322");
}

#[test]
fn url_without_port_is_looked_up_on_port_80() {
    let url = "https://example.com/json/version";
    assert_eq!(resolution_lookup_target(url), Some(s("example.com:80")));
    assert_eq!(resolved_url(url, &Some(s("10.1.2.3"))), "https://10.1.2.3/json/version");
}

#[test]
fn url_with_ip_is_kept() {
    let url = "http://10.0.0.1:9322/x";
    assert_eq!(resolution_lookup_target(url), None);
    assert_eq!(resolved_url(url, &Some(s("1.1.1.1"))), url);
}

#[test]
fn url_of_other_scheme_is_kept() {
    assert_eq!(resolution_lookup_target("ws://host:1"), None);
    assert_eq!(resolved_url("ws://host:1", &Some(s("1.1.1.1"))), "ws://host:1");
    assert_eq!(resolution_lookup_target("host:1"), None);
}

#[test]
fn failed_lookup_keeps_url() {
    let url = "http://nowhere.invalid:9322/p";
    assert_eq!(resolution_lookup_target(url), Some(s("nowhere.invalid:9322")));
    assert_eq!(resolved_url(url, &None), url);
}

#[test]
fn port_suffix_is_the_second_colon_piece() {
    let url = "http://h:1:2/p";
    assert_eq!(resolution_lookup_target(url), Some(s("h:1:2")));
    assert_eq!(resolved_url(url, &Some(s("9.9.9.9"))), "http://9.9.9.9:1/p");
    assert_eq!(resolved_url("http://h:/p", &Some(s("9.9.9.9"))), "http://9.9.9.9:/p");
}

#[test]
fn resolved_url_needs_no_second_lookup() {
    let once = resolved_url("http://host.docker.internal:9322/a", &Some(s("192.168.65.254")));
    assert_eq!(once, "http://192.168.65.254:9322/a");
    assert_eq!(resolution_lookup_target(&once), None);
}

// ---- config ----

#[test]
fn blank_cli_args_are_dropped() {
    let r = effective_mcp_args(&strings(&["", "  ", "--a", "\t"]), &None);
    assert_eq!(r, strings(&["--a"]));
}

#[test]
fn env_args_used_when_cli_has_none() {
    let r = effective_mcp_args(&strings(&["  "]), &Some(s("  --x   --y ")));
    assert_eq!(r, strings(&["--x", "--y"]));
}

#[test]
fn env_args_ignored_when_cli_has_some() {
    let r = effective_mcp_args(&strings(&["a"]), &Some(s("b c")));
    assert_eq!(r, strings(&["a"]));
}

#[test]
fn blank_env_gives_no_args() {
    assert_eq!(effective_mcp_args(&vec![], &Some(s(" \u{3000} "))), Vec::<String>::new());
    assert_eq!(effective_mcp_args(&vec![], &None), Vec::<String>::new());
}

#[test]
fn effective_args_are_never_blank() {
    let r = effective_mcp_args(&strings(&[" ", ""]), &Some(s("\u{a0}a\u{2003}b\n")));
    assert_eq!(r, strings(&["a", "b"]));
    assert!(r.iter().all(|a| !a.trim().is_empty()));
}

#[test]
fn browser_url_arg_is_rewritten() {
    let arg = "--browser-url=http://host.docker.internal:9322";
    assert_eq!(arg_lookup_target(arg), Some(s("host.docker.internal:9322")));
    assert_eq!(
        rewritten_arg(arg, &Some(s("192.168.65.254"))),
        "--browser-url=http://192.168.65.254:9322"
    );
    assert_eq!(rewritten_arg(arg, &None), arg);
}

#[test]
fn other_args_are_kept() {
    assert_eq!(arg_lookup_target("--headless"), None);
    assert_eq!(rewritten_arg("--headless", &Some(s("1.2.3.4"))), "--headless");
    assert_eq!(arg_lookup_target("--browser-url"), None);
    assert_eq!(rewritten_arg("--browser-url", &Some(s("1.2.3.4"))), "--browser-url");
    assert_eq!(arg_lookup_target("--browser-url=http://1.2.3.4:9322"), None);
}

#[test]
fn docker_command_line() {
    let cfg = ProcessConfig {
        container: s("chrome-mcp-server"),
        mcp_command: s("chrome-devtools-mcp"),
        mcp_args: strings(&["--browser-url=http://1.2.3.4:9322", " ", "", "--headless"]),
    };
    let cmd = cfg.docker_command();
    assert_eq!(cmd.program, "docker");
    assert_eq!(
        cmd.args,
        strings(&[
            "exec",
            "-i",
            "chrome-mcp-server",
            "chrome-devtools-mcp",
            "--browser-url=http://1.2.3.4:9322",
            "--headless"
        ])
    );
}

#[test]
fn cleanup_command_line() {
    let cfg = ProcessConfig {
        container: s("chrome-mcp-server"),
        mcp_command: s("chrome-devtools-mcp"),
        mcp_args: vec![],
    };
    let cmd = cfg.cleanup_command();
    assert_eq!(cmd.program, "docker");
    assert_eq!(cmd.args, strings(&["exec", "chrome-mcp-server", "pkill", "-f", "chrome-devtools-mcp"]));
}

#[test]
fn listen_address_joins_bind_and_port() {
    let mut args = Args {
        port: 3000,
        bind: s("0.0.0.0"),
        container: s("c"),
        mcp_command: s("m"),
        mcp_args: vec![],
    };
    assert_eq!(args.listen_address(), "0.0.0.0:3000");
    args.port = 0;
    assert_eq!(args.listen_address(), "0.0.0.0:0");
    args.port = 65535;
    args.bind = s("::");
    assert_eq!(args.listen_address(), ":::65535");
}

#[test]
fn process_config_takes_container_and_command() {
    let args = Args {
        port: 1,
        bind: s("b"),
        container: s("c"),
        mcp_command: s("m"),
        mcp_args: strings(&["x"]),
    };
    let cfg = args.process_config(strings(&["y"]));
    assert_eq!(cfg.container, "c");
    assert_eq!(cfg.mcp_command, "m");
    assert_eq!(cfg.mcp_args, strings(&["y"]));
}

// ---- ids ----

#[test]
fn session_id_text_is_hyphenated_lower_hex() {
    assert_eq!(session_id_text(SID), SID_TEXT);
    assert_eq!(session_id_text(0), "00000000-0000-0000-0000-000000000000");
    assert_eq!(session_id_text(u128::MAX), "ffffffff-ffff-ffff-ffff-ffffffffffff");
}

#[test]
fn session_id_text_parses_back() {
    for v in [0u128, 1, SID, u128::MAX, 0x0123456789abcdef0123456789abcdef] {
        assert_eq!(parse_session_id(&session_id_text(v)), Some(v));
    }
}

#[test]
fn session_id_forms() {
    assert_eq!(parse_session_id("A1A2A3A4-B1B2-C1C2-D1D2-D3D4D5D6D7D8"), Some(SID));
    assert_eq!(parse_session_id("a1a2a3a4b1b2c1c2d1d2d3d4d5d6d7d8"), Some(SID));
    assert_eq!(parse_session_id("{a1a2a3a4-b1b2-c1c2-d1d2-d3d4d5d6d7d8}"), Some(SID));
    assert_eq!(parse_session_id("urn:uuid:a1a2a3a4-b1b2-c1c2-d1d2-d3d4d5d6d7d8"), Some(SID));
    assert_eq!(parse_session_id("URN:UUID:a1a2a3a4-b1b2-c1c2-d1d2-d3d4d5d6d7d8"), Some(SID));
    assert_eq!(parse_session_id("urn:uuid:{1a2a3a4-b1b2-c1c2-d1d2-d3d4d5d6d7d8"), None);
    assert_eq!(parse_session_id("[a1a2a3a4-b1b2-c1c2-d1d2-d3d4d5d6d7d8]"), None);
    assert_eq!(parse_session_id("abc"), None);
    assert_eq!(parse_session_id(""), None);
    assert_eq!(parse_session_id("not-a-uuid"), None);
    assert_eq!(parse_session_id("a1a2a3a4-b1b2-c1c2-d1d2-d3d4d5d6d7dg"), None);
}

// ---- request ----

#[test]
fn query_session_id_and_aliases() {
    assert_eq!(SessionQuery::parse("session_id=abc").session_id, Some(s("abc")));
    assert_eq!(SessionQuery::parse("sessionId=abc").session_id, Some(s("abc")));
    assert_eq!(SessionQuery::parse("sid=abc").session_id, Some(s("abc")));
    assert_eq!(SessionQuery::parse("x=1&session=abc&y=2").session_id, Some(s("abc")));
    assert_eq!(SessionQuery::parse("sessionid=abc").session_id, None);
    assert_eq!(SessionQuery::parse("").session_id, None);
}

#[test]
fn query_field_given_twice_names_nothing() {
    assert_eq!(SessionQuery::parse("session_id=a&sid=b").session_id, None);
    assert_eq!(SessionQuery::parse("session_id=a&session_id=a").session_id, None);
}

#[test]
fn query_edge_cases() {
    assert_eq!(SessionQuery::parse("session_id").session_id, Some(s("")));
    assert_eq!(SessionQuery::parse("&&session_id=a=b&").session_id, Some(s("a=b")));
    assert_eq!(SessionQuery::parse("session_id=a%2Db").session_id, Some(s("a-b")));
    assert_eq!(SessionQuery::parse("session%5Fid=a+b").session_id, Some(s("a b")));
}

#[test]
fn raw_query_absent_names_nothing() {
    assert_eq!(SessionQuery::from_raw_query(&None).session_id, None);
    assert_eq!(SessionQuery::from_raw_query(&Some(s("sid=q"))).session_id, Some(s("q")));
}

#[test]
fn header_value_text_needs_visible_ascii() {
    assert_eq!(header_value_text(&b"abc 1\t~".to_vec()), Some(s("abc 1\t~")));
    assert_eq!(header_value_text(&vec![0x61, 0x80]), None);
    assert_eq!(header_value_text(&vec![0x61, 0x7f]), None);
    assert_eq!(header_value_text(&vec![]), Some(s("")));
}

#[test]
fn header_lookup_takes_first_value() {
    let h = headers(&[("a", b"1"), ("b", b"2"), ("a", b"3")]);
    assert_eq!(h.get("a"), Some(b"1".to_vec()));
    assert_eq!(h.get("c"), None);
}

#[test]
fn session_headers_in_order() {
    let h = headers(&[("session-id", b"d"), ("session_id", b"b"), ("x-session-id", b"a")]);
    assert_eq!(h.session_id(), Some(s("a")));
    let h = headers(&[("session-id", b"d"), ("sessionid", b"c")]);
    assert_eq!(h.session_id(), Some(s("c")));
    let h = headers(&[("session-id", b"d")]);
    assert_eq!(h.session_id(), Some(s("d")));
    assert_eq!(headers(&[]).session_id(), None);
}

#[test]
fn unreadable_first_session_header_hides_the_others() {
    let h = headers(&[("x-session-id", &[0xff]), ("session_id", SID_TEXT.as_bytes())]);
    assert_eq!(h.session_id(), None);
    assert_eq!(requested_session_id(&None, &h), None);
}

#[test]
fn query_wins_over_headers() {
    let other = "00000000-0000-0000-0000-000000000001";
    let h = headers(&[("x-session-id", other.as_bytes())]);
    let q = Some(format!("session_id={}", SID_TEXT));
    assert_eq!(requested_session_id(&q, &h), Some(SID));
    assert_eq!(requested_session_id(&None, &h), Some(1));
    assert_eq!(requested_session_id(&Some(s("foo=1")), &h), Some(1));
    assert_eq!(requested_session_id(&Some(s("session_id=zzz")), &h), None);
}

#[test]
fn query_aliases_agree() {
    let h = headers(&[("x-session-id", b"00000000-0000-0000-0000-000000000002")]);
    for key in ["session_id", "sessionId", "sid", "session"] {
        let q = Some(format!("{}={}", key, SID_TEXT));
        assert_eq!(requested_session_id(&q, &h), Some(SID), "key {}", key);
    }
}

#[test]
fn percent_encoded_session_value_is_decoded() {
    let encoded = SID_TEXT.replace('-', "%2D");
    assert_eq!(requested_session_id(&Some(format!("sid={}", encoded)), &headers(&[])), Some(SID));
    let encoded_key = format!("session%5Fid={}", SID_TEXT);
    assert_eq!(requested_session_id(&Some(encoded_key), &headers(&[])), Some(SID));
}

#[test]
fn headers_stand_in_for_query() {
    let as_query = requested_session_id(&Some(format!("session_id={}", SID_TEXT)), &headers(&[]));
    for name in ["x-session-id", "session_id", "sessionid", "session-id"] {
        let h = headers(&[(name, SID_TEXT.as_bytes())]);
        assert_eq!(requested_session_id(&None, &h), as_query, "header {}", name);
        assert_eq!(requested_session_id(&Some(s("foo=bar")), &h), as_query, "header {}", name);
    }
    assert_eq!(requested_session_id(&Some(s("foo=bar")), &headers(&[])), None);
}

#[test]
fn post_reply_without_session_is_400() {
    let r = post_reply(&Some(s("foo=1")), None, true);
    assert_eq!(r.status, 400);
    assert!(!r.reconnect);
    assert_eq!(r.body, "missing or invalid session_id. Received raw_query=Some(\"foo=1\")");
    let r = post_reply(&None, None, false);
    assert_eq!(r.body, "missing or invalid session_id. Received raw_query=None");
    let r = post_reply(&Some(s("a\"b\\c\n")), None, false);
    assert_eq!(r.body, format!("missing or invalid session_id. Received raw_query={:?}", Some("a\"b\\c\n")));
}

#[test]
fn post_reply_delivered_is_202() {
    let r = post_reply(&None, Some(SID), true);
    assert_eq!(r.status, 202);
    assert!(!r.reconnect);
    assert_eq!(r.body, "");
}

#[test]
fn post_reply_gone_is_410_with_reconnect() {
    let r = post_reply(&None, Some(SID), false);
    assert_eq!(r.status, 410);
    assert!(r.reconnect);
    assert_eq!(
        r.body,
        "session expired or not found \u{2014} please reconnect SSE to get a new session_id"
    );
}

// ---- events ----

#[test]
fn lines_are_framed_with_one_newline() {
    assert_eq!(framed_line(s("{\"a\":1}")), "{\"a\":1}\n");
    assert_eq!(framed_line(s("x\n")), "x\n");
    assert_eq!(framed_line(s("")), "\n");
    assert_eq!(framed_line(framed_line(s("y"))), "y\n");
}

#[test]
fn framed_messages_read_back_line_by_line() {
    let msgs = ["{\"id\":1}", "", "{\"id\":2}"];
    let mut written = String::new();
    for m in msgs {
        written.push_str(&framed_line(s(m)));
    }
    let mut lines: Vec<&str> = written.split('\n').collect();
    assert_eq!(lines.pop(), Some(""));
    assert_eq!(lines, msgs.to_vec());
}

#[test]
fn reader_sends_non_empty_lines_of_output_then_cancels() {
    let output = "a\n\nb\n";
    let mut pieces: Vec<&str> = output.split('\n').collect();
    assert_eq!(pieces.pop(), Some(""));
    let mut sent = Vec::new();
    for line in pieces {
        match reader_reaction(ReaderEvent::Line(s(line))) {
            ReaderAction::Broadcast(l) => sent.push(l),
            ReaderAction::Skip => {}
            _ => panic!("a line never stops the reader"),
        }
    }
    assert_eq!(sent, strings(&["a", "b"]));
    assert!(matches!(reader_reaction(ReaderEvent::EndOfOutput), ReaderAction::CancelSession));
}

#[test]
fn writer_writes_each_message_once_in_order() {
    let mut written = String::new();
    for m in ["x", "y\n", "z"] {
        match writer_reaction(WriterEvent::Message(s(m))) {
            WriterAction::Write(t) => written.push_str(&t),
            _ => panic!("a message never stops the writer"),
        }
    }
    assert_eq!(written, "x\ny\nz\n");
}

#[test]
fn writer_reactions() {
    assert!(matches!(writer_reaction(WriterEvent::Message(s("m"))), WriterAction::Write(w) if w == "m\n"));
    assert!(matches!(writer_reaction(WriterEvent::QueueClosed), WriterAction::HoldUntilCancelled));
    assert!(matches!(writer_reaction(WriterEvent::Cancelled), WriterAction::Stop));
    assert!(matches!(writer_reaction(WriterEvent::WriteFailed), WriterAction::Stop));
    assert!(matches!(writer_reaction(WriterEvent::FlushFailed), WriterAction::Stop));
}

#[test]
fn reader_reactions() {
    assert!(matches!(reader_reaction(ReaderEvent::Line(s("l"))), ReaderAction::Broadcast(b) if b == "l"));
    assert!(matches!(reader_reaction(ReaderEvent::Line(s(""))), ReaderAction::Skip));
    assert!(matches!(reader_reaction(ReaderEvent::EndOfOutput), ReaderAction::CancelSession));
    assert!(matches!(reader_reaction(ReaderEvent::Cancelled), ReaderAction::Stop));
    assert!(matches!(reader_reaction(ReaderEvent::ReadFailed), ReaderAction::Stop));
}

#[test]
fn endpoint_url_uses_host_header() {
    let h = headers(&[("host", b"192.168.1.5:3000")]);
    assert_eq!(
        endpoint_url(&h, SID),
        format!("http://192.168.1.5:3000/mcp?session_id={}", SID_TEXT)
    );
    assert_eq!(
        endpoint_url(&headers(&[]), SID),
        format!("http://127.0.0.1:3000/mcp?session_id={}", SID_TEXT)
    );
    let bad = headers(&[("host", &[0xc3, 0xa9])]);
    assert_eq!(
        endpoint_url(&bad, SID),
        format!("http://127.0.0.1:3000/mcp?session_id={}", SID_TEXT)
    );
}

#[test]
fn endpoint_url_posts_back_to_its_session() {
    let url = endpoint_url(&headers(&[("host", b"localhost:3000")]), SID);
    let query = url.split_once('?').unwrap().1.to_string();
    let noise = headers(&[("x-session-id", b"00000000-0000-0000-0000-000000000009")]);
    assert_eq!(requested_session_id(&Some(query), &noise), Some(SID));
}

#[test]
fn stream_items() {
    match endpoint_event(&headers(&[]), SID) {
        SseOut::Event { name, data } => {
            assert_eq!(name, "endpoint");
            assert_eq!(data, format!("http://127.0.0.1:3000/mcp?session_id={}", SID_TEXT));
        }
        SseOut::Comment(_) => panic!("endpoint must be an event"),
    }
    match forwarded_event(Received::Line(s("{}"))) {
        Some(SseOut::Event { name, data }) => {
            assert_eq!(name, "message");
            assert_eq!(data, "{}");
        }
        _ => panic!("a line must be forwarded"),
    }
    assert!(forwarded_event(Received::Lagged(3)).is_none());
    assert!(matches!(closing_comment(), SseOut::Comment(c) if c == "bye"));
    assert_eq!(keep_alive_text(), "ping");
}

#[test]
fn capacities_and_intervals() {
    assert_eq!(STDIN_QUEUE_CAPACITY, 64);
    assert_eq!(BROADCAST_CAPACITY, 256);
    assert_eq!(KEEP_ALIVE_SECONDS, 15);
}
