use dsh_tools::board::{
    bb_read_args, extract_text, is_inbox_file, prefix_items, read_plan, scan_file, show_item,
    single_entry, summarize, summary_body, summary_value, BoardItem, Mode, ReadPlan, Shown,
};
use dsh_tools::follow::{
    bb_sub_args, feed, inbox_line, next_backoff, read_event, stream_request, take_event,
};
use dsh_tools::http::{
    bb_get, bb_get_request, bb_list, bb_list_request, bb_put, board_address, decode_chunked,
    read_address, read_chunked, read_response, request_text,
};
use dsh_tools::json::{compact, parse, Json};

fn bd_all(v: &[&str]) -> Vec<String> {
    v.iter().map(|s| s.to_string()).collect()
}

fn bd_item(key: &str, ts: &str, value: &str) -> BoardItem {
    BoardItem { key: key.to_string(), ts: ts.to_string(), value: parse(value).unwrap() }
}

#[test]
fn addresses_are_taken_apart() {
    let a = read_address("http://h:81/p/q/");
    assert_eq!((a.host.as_str(), a.port, a.path.as_str(), a.host_port.as_str()), ("h", 81, "/p/q", "h:81"));
    let b = read_address("h");
    assert_eq!((b.host.as_str(), b.port, b.path.as_str()), ("h", 80, "/"));
    assert_eq!(read_address("h:x/y").port, 80);
    assert_eq!(board_address("http://h/", "/notes/a"), "http://h/notes/a");
}

#[test]
fn requests_carry_the_token() {
    assert_eq!(
        request_text("PUT", "http://h:1/k", "中", ""),
        "PUT /k HTTP/1.1\r\nHost: h:1\r\nContent-Type: application/json\r\nContent-Length: 3\r\nConnection: close\r\n\r\n中"
    );
    assert_eq!(
        bb_get_request("http://h:1", "k", "w"),
        "GET /k HTTP/1.1\r\nHost: h:1\r\nContent-Type: application/json\r\nContent-Length: 0\r\nX-Blackboard-Token: w\r\nConnection: close\r\n\r\n"
    );
    assert_eq!(
        bb_put("http://h:1", "k", &Json::object().with("a", Json::Uint(1)), ""),
        "PUT /k HTTP/1.1\r\nHost: h:1\r\nContent-Type: application/json\r\nContent-Length: 7\r\nConnection: close\r\n\r\n{\"a\":1}"
    );
    assert_eq!(
        bb_list_request("data?node=audit", "w"),
        "GET /data?node=audit HTTP/1.1\r\nHost: 127.0.0.1:8792\r\nX-Blackboard-Token: w\r\nConnection: close\r\n\r\n"
    );
}

#[test]
fn answers_of_the_board_are_read() {
    assert_eq!(read_response("HTTP/1.1 200 OK\r\nA: b\r\n\r\nbody"), (200, "body".to_string()));
    assert_eq!(read_response("nonsense"), (0, String::new()));
    let ok = bb_get("k", &Ok((200, "{\"a\":1}".to_string())));
    assert_eq!(compact(&ok.ok().unwrap()), "{\"a\":1}");
    assert_eq!(bb_get("k", &Ok((404, String::new()))).err(), Some("GET k -> 404".to_string()));
    assert_eq!(bb_get("k", &Err("connect".to_string())).err(), Some("connect".to_string()));
    assert!(bb_get("k", &Ok((200, "{".to_string()))).err().unwrap().starts_with("bad json: EOF"));
    assert_eq!(compact(&bb_list("HTTP/1.1 500 x\r\n\r\n[1]").ok().unwrap()), "[1]");
    assert!(bb_list("x").err().unwrap().starts_with("parse: EOF"));
}

#[test]
fn chunks_are_put_together() {
    assert_eq!(decode_chunked(b"4\r\n{\"a\"\r\n3\r\n:1}\r\n0\r\n\r\n"), b"{\"a\":1}".to_vec());
    assert_eq!(decode_chunked(b"ff\r\nshort"), Vec::<u8>::new());
    assert_eq!(decode_chunked(b"zz\r\nab\r\n"), Vec::<u8>::new());
    let v = read_chunked("HTTP/1.1 200 OK\r\n\r\n7\r\n{\"a\":1}\r\n0\r\n");
    assert_eq!(compact(&v.ok().unwrap()), "{\"a\":1}");
    assert!(read_chunked("HTTP/1.1 200 OK\r\n\r\n").err().unwrap().starts_with("parse: EOF"));
    let wide = read_chunked("H\r\n\r\n5\r\n\"中\"\r\n0\r\n");
    assert_eq!(compact(&wide.ok().unwrap()), "\"中\"");
}

#[test]
fn texts_are_found_in_values() {
    let t = |s: &str| extract_text(&parse(s).unwrap());
    assert_eq!(t("null"), "");
    assert_eq!(t("\"x\""), "x");
    assert_eq!(t("[\"a\",1,\"b\"]"), "a  b");
    assert_eq!(t("{\"summary\":\"s\",\"subject\":\"j\"}"), "j");
    assert_eq!(t("{\"content\":[\"p\",\"q\"]}"), "p q");
    assert_eq!(t("{\"content\":7,\"note\":\"n\"}"), "n");
    assert_eq!(t("{\"z\":1}"), "{\"z\":1}");
    assert_eq!(t("12"), "12");
    assert_eq!(extract_text(&Json::text(&"y".repeat(600))).len(), 500);
}

#[test]
fn summaries_come_from_the_model() {
    assert_eq!(
        summary_body("x"),
        "{\"model\":\"qwen2.5:3b\",\"prompt\":\"这是黑板消息内容：x。请用一行中文摘要（≤30字），只输出摘要本身。\",\"stream\":false}"
    );
    assert_eq!(summarize(&Ok((200, "{\"response\":\" s \"}".to_string()))), "s");
    assert_eq!(summarize(&Ok((500, String::new()))), "[摘要失败]");
    assert_eq!(summarize(&Ok((200, "{".to_string()))), "[摘要失败]");
    assert_eq!(summarize(&Err("e".repeat(50))), format!("[本地模型不可用: {}]", "e".repeat(40)));
    assert_eq!(summary_value(&Json::object()), "");
}

#[test]
fn what_is_to_be_read() {
    let plan = |v: &[&str]| read_plan(&bb_read_args(&bd_all(v)));
    assert!(matches!(plan(&["--scan", "f", "--prefix", "p"]), ReadPlan::Scan { file } if file == "f"));
    assert!(matches!(plan(&["--prefix", "p", "notes/k"]), ReadPlan::Prefix { prefix } if prefix == "p"));
    assert!(matches!(plan(&["x", "notes/k", "data/l"]), ReadPlan::Single { key } if key == "notes/k"));
    assert!(matches!(plan(&["notes/k", "--", "z"]), ReadPlan::Single { key } if key == "z"));
    assert!(matches!(plan(&["x"]), ReadPlan::Usage { .. }));
    let a = bb_read_args(&bd_all(&["--last", "x", "--full", "--bb", "b"]));
    assert_eq!(a.last, 5);
    assert!(a.full);
    assert_eq!(a.bb, "b");
    assert_eq!(bb_read_args(&bd_all(&["--last", "2"])).last, 2);
}

#[test]
fn the_last_lines_of_a_file() {
    let f = "{\"key\":\"a\",\"ts\":\"1\"}\n\nnonsense\n{\"value\":3}\n";
    let v = scan_file(f, 2);
    assert_eq!(v.len(), 1);
    assert_eq!(v[0].key, "inbox");
    assert_eq!(compact(&v[0].value), "3");
    assert_eq!(scan_file(f, 9).len(), 2);
}

#[test]
fn the_newest_entries_come_first() {
    let files = bd_all(&[
        "{\"key\":\"n/a\",\"ts\":\"1\",\"value\":\"x\"}\n{\"key\":\"n/b\",\"ts\":\"3\"}",
        "{\"key\":\"m/c\",\"ts\":\"9\"}\n{\"key\":\"n/d\",\"ts\":\"3\"}",
    ]);
    let v = prefix_items(&files, "n/", 2).ok().unwrap();
    let keys: Vec<&str> = v.iter().map(|b| b.key.as_str()).collect();
    assert_eq!(keys, vec!["n/b", "n/d"]);
    assert_eq!(
        prefix_items(&files, "q/", 2).err(),
        Some("（本地订阅无 q/ 前缀事件——检查 bb-sub-daemon 是否运行）".to_string())
    );
    assert!(is_inbox_file("a.jsonl"));
    assert!(!is_inbox_file("a.json"));
}

#[test]
fn how_entries_are_shown() {
    let b = bd_item("k", "2026-01-01T00:00:00.123", "\"text\"");
    match show_item(Mode::Scan, true, &b) {
        Shown::Summary { head, text } => {
            assert_eq!(head, "· k [2026-01-01T00:00:00]: ");
            assert_eq!(text, "text");
        }
        _ => panic!("a summary is shown"),
    }
    match show_item(Mode::Single, true, &b) {
        Shown::Lines(l) => assert_eq!(l, bd_all(&["=== k [2026-01-01T00:00:00] ===", "\"text\""])),
        _ => panic!("all is shown"),
    }
    match show_item(Mode::Prefix, true, &b) {
        Shown::Lines(l) => assert_eq!(l, bd_all(&["=== k [2026-01-01T00:00:00] ===", "\"text\"", ""])),
        _ => panic!("all is shown"),
    }
    let empty = bd_item("k", "", "null");
    assert!(matches!(show_item(Mode::Prefix, false, &empty), Shown::Nothing));
    match show_item(Mode::Single, false, &empty) {
        Shown::Lines(l) => assert_eq!(l, bd_all(&["· k []: (空)"])),
        _ => panic!("nothing is there"),
    }
    assert_eq!(single_entry("k", &Err("e".to_string())).err(), Some("黑板错误: e".to_string()));
    let one = single_entry("k", &Ok(parse("{\"ts\":\"T\",\"value\":1}").unwrap())).ok().unwrap();
    assert_eq!((one.ts.as_str(), compact(&one.value).as_str()), ("T", "1"));
}

#[test]
fn following_the_board() {
    let a = bb_sub_args(&bd_all(&["--prefixes", "a/, ,b/", "--agent", "i9"]));
    assert_eq!(a.prefixes, bd_all(&["a/", "b/"]));
    assert_eq!(a.agent, "i9");
    assert_eq!(a.sse, "http://127.0.0.1:8803/events");
    assert_eq!(bb_sub_args(&[]).prefixes, bd_all(&["notes/collab/"]));
    assert_eq!(
        stream_request("http://h:1/e"),
        "GET /e HTTP/1.1\r\nHost: h:1\r\nAccept: text/event-stream\r\nCache-Control: no-cache\r\nConnection: keep-alive\r\n\r\n"
    );
    assert_eq!(next_backoff(2), 4);
    assert_eq!(next_backoff(32), 60);
    assert_eq!(next_backoff(60), 60);
}

#[test]
fn chunks_of_a_stream_make_lines() {
    let mut rest = String::new();
    assert_eq!(feed(&mut rest, "da"), Vec::<String>::new());
    assert_eq!(feed(&mut rest, "ta: 1\n  x \nre"), bd_all(&["data: 1", "  x "]));
    assert_eq!(rest, "re");
    let mut whole = String::new();
    assert_eq!(feed(&mut whole, "data: 1\n  x \nre"), bd_all(&["data: 1", "  x "]));
    assert_eq!(whole, "re");
}

#[test]
fn events_are_kept_under_their_prefixes() {
    let p = bd_all(&["n/"]);
    let k = read_event("data: {\"key\":\"n/a\",\"value\":7}", &p, "T").unwrap();
    assert_eq!(k.key, "n/a");
    assert_eq!(
        inbox_line(&k.entry),
        "{\"key\":\"n/a\",\"ts\":\"T\",\"value\":7,\"version\":null}\n"
    );
    assert!(read_event("  data:{\"key\":\"n/b\"} \r", &p, "T").is_some());
    assert!(read_event("data: {\"key\":\"m/a\"}", &p, "T").is_none());
    assert!(read_event("data: {", &p, "T").is_none());
    assert!(read_event(": ping", &p, "T").is_none());
    assert!(take_event(&Json::object(), &p, "T").is_none());
    assert!(read_event("data: {\"key\":\"n/a\"}", &vec![], "T").is_none());
}
